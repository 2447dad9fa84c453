//! What reading back the files of written links gives.
//!
//! These lemmas tie the files that a [`Writer`](crate::Writer) produces to
//! what an [`Opening`](crate::Opening) and a [`Reloading`](crate::Reloading)
//! make of them.

use vstd::prelude::*;
use vstd::arithmetic::mul::{lemma_mul_inequality, lemma_mul_is_distributive_add_other_way};

use crate::bytes::{be_value, pow256};
use crate::delta;
use crate::error::Error;
use crate::reader::{
    body_entries, body_of, chunks, open_step, reload_step, replayed, OpeningView, ReloadingView,
};
use crate::snapshot;
use crate::storage::{Kind, VERSION};
use crate::writer::{
    concat, delta_footer, seed_due_of, seed_step, snapshot_step, write_step, WriterView,
};
use crate::LinkId;

verus! {

/// Every entry of `s` has `size` bytes.
pub open spec fn sized(s: Seq<Seq<u8>>, size: nat) -> bool {
    forall|i: int| 0 <= i < s.len() ==> #[trigger] s[i].len() == size
}

/// Entries written one after the other read back as the same entries.
pub proof fn lemma_chunks_concat(s: Seq<Seq<u8>>, size: nat)
    requires
        sized(s, size),
    ensures
        concat(s).len() == s.len() * size,
        chunks(concat(s), size, s.len()) == s,
    decreases s.len(),
{
    if s.len() == 0 {
        assert(chunks(concat(s), size, 0) =~= s);
    } else {
        let t = s.drop_last();
        let n = s.len();
        lemma_chunks_concat(t, size);
        lemma_mul_is_distributive_add_other_way(size as int, (n - 1) as int, 1);
        let c = concat(s);
        assert(c == concat(t) + s.last());
        assert forall|i: int| 0 <= i < n implies #[trigger] chunks(c, size, n)[i] == s[i] by {
            lemma_mul_is_distributive_add_other_way(size as int, i, 1);
            if i < n - 1 {
                lemma_mul_inequality(i + 1, (n - 1) as int, size as int);
                assert(chunks(concat(t), size, t.len())[i] == t[i]);
                assert(c.subrange(i * size, (i + 1) * size) =~= concat(t).subrange(
                    i * size,
                    (i + 1) * size,
                ));
            } else {
                assert(c.subrange(i * size, (i + 1) * size) =~= s.last());
            }
        }
        assert(chunks(c, size, n) =~= s);
    }
}

/// A file of at least a footer's size whose last two bytes are not the
/// current version is refused with `Version`, whatever the kind of footer.
pub proof fn lemma_version_guard(file: Seq<u8>)
    requires
        file.len() >= delta::SIZE,
        !(file[file.len() - 2] == 0 && file[file.len() - 1] == 0),
    ensures
        delta::parse(file) is Err && delta::parse(file)->Err_0 is Version,
        snapshot::parse(file) is Err && snapshot::parse(file)->Err_0 is Version,
{
    let t = file.subrange(file.len() - 2, file.len() as int);
    assert(t.drop_last().drop_last() =~= Seq::<u8>::empty());
    reveal_with_fuel(be_value, 3);
    assert(be_value(t) == (t[0] as nat) * 256 + t[1] as nat);
    crate::bytes::lemma_be_value_bound(t);
    reveal_with_fuel(pow256, 3);
    assert(delta::version_of(file) != VERSION);
}

/// The entries of `a` then those of `b`, written one after the other.
pub proof fn lemma_concat_append(a: Seq<Seq<u8>>, b: Seq<Seq<u8>>)
    ensures
        concat(a + b) == concat(a) + concat(b),
    decreases b.len(),
{
    if b.len() == 0 {
        assert(a + b =~= a);
        assert(concat(b) =~= Seq::<u8>::empty());
        assert(concat(a) + concat(b) =~= concat(a));
    } else {
        lemma_concat_append(a, b.drop_last());
        assert((a + b).drop_last() =~= a + b.drop_last());
        assert(concat(a) + concat(b) =~= concat(a) + concat(b.drop_last()) + b.last());
    }
}

/// The state in which opening `latest` starts.
pub open spec fn opening_start(latest: LinkId, size: nat) -> OpeningView {
    OpeningView {
        latest,
        next: latest,
        kind: Kind::Snapshot,
        entry_size: size,
        deltas: seq![],
        done: None,
    }
}

/// The state that opening reaches from `s`, handed `files` in turn (`None`
/// for a file that does not exist).
pub open spec fn opened(s: OpeningView, files: Seq<Option<Seq<u8>>>) -> Result<OpeningView, Error>
    decreases files.len(),
{
    if files.len() == 0 {
        Ok(s)
    } else {
        match open_step(s, files[0]) {
            Ok(t) => opened(t, files.drop_first()),
            Err(e) => Err(e),
        }
    }
}

/// The delta file of a link with footer `f` whose entries are `es`.
pub open spec fn delta_file(es: Seq<Seq<u8>>, f: delta::Footer) -> Seq<u8> {
    concat(es) + delta::encoding(f)
}

/// The snapshot file of a link with footer `f` whose dictionary is `es`.
pub open spec fn snapshot_file(es: Seq<Seq<u8>>, f: snapshot::Footer) -> Seq<u8> {
    concat(es) + snapshot::encoding(f)
}

/// The footer of the delta of the first link of a chain, which adds `n` entries.
pub open spec fn root_footer(n: nat) -> delta::Footer {
    delta::Footer { previous: None, index: 0, total: n as u32, count: n as u32 }
}

/// A writer of the first link of a chain, which has written the entries
/// `w.written`, finishes its delta with the footer that the round trip reads.
pub proof fn lemma_root_writer_footer(w: WriterView)
    requires
        w.previous is None,
        w.index == 0,
        w.offset == 0,
        w.count == w.written.len(),
    ensures
        delta_footer(w) == root_footer(w.written.len()),
{
}

/// Reading the entries of a delta file gives the entries written to it.
proof fn lemma_delta_entries(es: Seq<Seq<u8>>, size: nat, f: delta::Footer)
    requires
        sized(es, size),
        f.count == es.len(),
        delta::previous_valid(f.previous),
    ensures
        delta::parse(delta_file(es, f)) == Ok::<delta::Footer, Error>(f),
        body_entries(body_of(delta_file(es, f), delta::SIZE as int), size, f.count as nat)
            == Ok::<Seq<Seq<u8>>, Error>(es),
{
    delta::lemma_round_trip(concat(es), f);
    lemma_chunks_concat(es, size);
    assert(body_of(delta_file(es, f), delta::SIZE as int) =~= concat(es));
}

/// Round trip: the first link of a chain, written with the entries `es` and
/// opened where it has no snapshot, gives back `es`, each identified by its
/// position.
pub proof fn lemma_round_trip(id: LinkId, size: nat, es: Seq<Seq<u8>>)
    requires
        sized(es, size),
        0 < es.len() <= u32::MAX,
    ensures
        opened(
            opening_start(id, size),
            seq![None, Some(delta_file(es, root_footer(es.len())))],
        ) matches Ok(v) && v.done == Some(es),
{
    let file = delta_file(es, root_footer(es.len()));
    lemma_delta_entries(es, size, root_footer(es.len()));
    let s1 = OpeningView { kind: Kind::Delta, ..opening_start(id, size) };
    assert(open_step(opening_start(id, size), None) == Ok::<OpeningView, Error>(s1));
    assert(seq![es].drop_first() =~= Seq::<Seq<Seq<u8>>>::empty());
    reveal_with_fuel(replayed, 2);
    assert(replayed(seq![es]) =~= es);
    assert(Seq::<Seq<Seq<u8>>>::empty().push(es) =~= seq![es]);
    let files = seq![None, Some(file)];
    assert(files.drop_first() =~= seq![Some(file)]);
    assert(files.drop_first().drop_first() =~= Seq::<Option<Seq<u8>>>::empty());
    reveal_with_fuel(opened, 3);
}

/// A writer extending the first link of a chain, which added `es`, goes on
/// from it: the identifiers of its entries start at `es.len()`, and the new
/// link is at position 1.
pub proof fn lemma_seed_from_root(w: WriterView, size: nat, es: Seq<Seq<u8>>)
    requires
        seed_due_of(w),
        sized(es, size),
        0 < es.len() <= u32::MAX,
    ensures
        seed_step(w, Some(delta_file(es, root_footer(es.len())))) == (
            Ok::<(), Error>(()),
            WriterView { offset: es.len() as u32, count: es.len() as u32, index: 1, ..w },
        ),
{
    lemma_delta_entries(es, size, root_footer(es.len()));
}

/// Once an entry has been written, asking for a snapshot fails with `NotEmpty`.
pub proof fn lemma_no_snapshot_after_write(w: WriterView, entry: Seq<u8>, file: Option<Seq<u8>>)
    requires
        write_step(w, entry).0 is Ok,
    ensures
        snapshot_step(write_step(w, entry).1, file).0 == Err::<(), Error>(Error::NotEmpty),
{
}

/// Chain extension: a link extending the first link of a chain (whose
/// entries are `es`) with the entries `fs`, opened where neither has a
/// snapshot, gives `es` followed by `fs`.
pub proof fn lemma_chain_extension(
    id1: LinkId,
    id2: LinkId,
    size: nat,
    es: Seq<Seq<u8>>,
    fs: Seq<Seq<u8>>,
)
    requires
        id1.value != 0,
        sized(es, size),
        sized(fs, size),
        0 < es.len(),
        0 < fs.len(),
        es.len() + fs.len() <= u32::MAX,
    ensures
        opened(
            opening_start(id2, size),
            seq![
                None,
                Some(delta_file(fs, delta::Footer {
                    previous: Some(id1),
                    index: 1,
                    total: (es.len() + fs.len()) as u32,
                    count: fs.len() as u32,
                })),
                None,
                Some(delta_file(es, root_footer(es.len()))),
            ],
        ) matches Ok(v) && v.done == Some(es + fs),
{
    let f2 = delta::Footer {
        previous: Some(id1),
        index: 1,
        total: (es.len() + fs.len()) as u32,
        count: fs.len() as u32,
    };
    let file1 = delta_file(es, root_footer(es.len()));
    let file2 = delta_file(fs, f2);
    lemma_delta_entries(es, size, root_footer(es.len()));
    lemma_delta_entries(fs, size, f2);
    let d = seq![fs, es];
    assert(Seq::<Seq<Seq<u8>>>::empty().push(fs) =~= seq![fs]);
    assert(seq![fs].push(es) =~= d);
    assert(d.drop_first() =~= seq![es]);
    assert(d.drop_first().drop_first() =~= Seq::<Seq<Seq<u8>>>::empty());
    reveal_with_fuel(replayed, 3);
    assert(replayed(d) =~= es + fs);
    let files = seq![None, Some(file2), None, Some(file1)];
    assert(files.drop_first() =~= seq![Some(file2), None, Some(file1)]);
    assert(files.drop_first().drop_first() =~= seq![None, Some(file1)]);
    assert(files.drop_first().drop_first().drop_first() =~= seq![Some(file1)]);
    assert(files.drop_first().drop_first().drop_first().drop_first() =~= Seq::<
        Option<Seq<u8>>,
    >::empty());
    reveal_with_fuel(opened, 5);
}

/// Snapshot equivalence: the snapshot of a link extending a link whose
/// dictionary is `es` with the entries `fs` (the previous snapshot's body
/// followed by the new entries) gives, in one file, the same dictionary as
/// walking the deltas: `es` followed by `fs`.
pub proof fn lemma_snapshot_equivalence(
    id1: LinkId,
    id2: LinkId,
    size: nat,
    es: Seq<Seq<u8>>,
    fs: Seq<Seq<u8>>,
)
    requires
        id1.value != 0,
        sized(es, size),
        sized(fs, size),
        0 < es.len(),
        0 < fs.len(),
        es.len() + fs.len() <= u32::MAX,
    ensures
        opened(
            opening_start(id2, size),
            seq![Some(concat(es) + concat(fs) + snapshot::encoding(snapshot::Footer {
                previous: Some(id1),
                index: 1,
                count: (es.len() + fs.len()) as u32,
            }))],
        ) matches Ok(v) && v.done == Some(es + fs),
{
    let f = snapshot::Footer { previous: Some(id1), index: 1, count: (es.len() + fs.len()) as u32 };
    let all = es + fs;
    lemma_concat_append(es, fs);
    assert(sized(all, size));
    lemma_chunks_concat(all, size);
    snapshot::lemma_round_trip(concat(all), f);
    let file = concat(es) + concat(fs) + snapshot::encoding(f);
    assert(file =~= concat(all) + snapshot::encoding(f));
    assert(body_of(file, snapshot::SIZE as int) =~= concat(all));
    assert(replayed(Seq::<Seq<Seq<u8>>>::empty()) =~= Seq::<Seq<u8>>::empty());
    assert(all + Seq::<Seq<u8>>::empty() =~= all);
    let files = seq![Some(file)];
    assert(files.drop_first() =~= Seq::<Option<Seq<u8>>>::empty());
    reveal_with_fuel(opened, 2);
}

/// Reloading a reader of the first link of a chain (whose entries are `es`) to
/// a link extending it with the entries `fs` ends after one delta, and adding
/// what it met gives `es` followed by `fs`, each old entry keeping its
/// identifier.
pub proof fn lemma_reload_extension(
    s: ReloadingView,
    es: Seq<Seq<u8>>,
    fs: Seq<Seq<u8>>,
)
    requires
        s.expected.value != 0,
        s.deltas.len() == 0,
        sized(fs, s.entry_size),
        0 < fs.len(),
        es.len() + fs.len() <= u32::MAX,
    ensures
        reload_step(
            s,
            Some(delta_file(fs, delta::Footer {
                previous: Some(s.expected),
                index: 1,
                total: (es.len() + fs.len()) as u32,
                count: fs.len() as u32,
            })),
        ) matches Ok(t) && t.done && es + replayed(t.deltas) == es + fs,
{
    let f = delta::Footer {
        previous: Some(s.expected),
        index: 1,
        total: (es.len() + fs.len()) as u32,
        count: fs.len() as u32,
    };
    lemma_delta_entries(fs, s.entry_size, f);
    assert(s.deltas.push(fs) =~= seq![fs]);
    assert(seq![fs].drop_first() =~= Seq::<Seq<Seq<u8>>>::empty());
    reveal_with_fuel(replayed, 2);
    assert(replayed(seq![fs]) =~= fs);
}

/// A reload that meets the delta of the first link of a chain, before the
/// link loaded, fails with `Disconnected`, naming that first link.
pub proof fn lemma_reload_disconnected(s: ReloadingView, es: Seq<Seq<u8>>)
    requires
        sized(es, s.entry_size),
        0 < es.len() <= u32::MAX,
    ensures
        reload_step(s, Some(delta_file(es, root_footer(es.len())))) == Err::<ReloadingView, Error>(
            Error::Disconnected { latest: s.latest, expected: s.expected, got: s.next },
        ),
{
    lemma_delta_entries(es, s.entry_size, root_footer(es.len()));
}

/// Reloading a reader to the link it has loaded adds nothing, so that reloading
/// twice to the same link is reloading once: the reload starts finished with
/// no delta, and applying it appends nothing.
pub proof fn lemma_reload_idempotent(entries: Seq<Seq<u8>>)
    ensures
        entries + replayed(seq![]) == entries,
{
    assert(entries + replayed(seq![]) =~= entries);
}

/// Identifier stability: a dictionary extended with new entries keeps every
/// entry at its identifier, and where its entries are distinct, an entry of
/// the old dictionary has no other identifier.
pub proof fn lemma_identifier_stability(es: Seq<Seq<u8>>, fs: Seq<Seq<u8>>, k: int)
    requires
        0 <= k < es.len(),
    ensures
        (es + fs)[k] == es[k],
        crate::entries::distinct(es + fs) ==> forall|i: int|
            0 <= i < (es + fs).len() && (es + fs)[i] == es[k] ==> i == k,
{
    let all = es + fs;
    assert(all[k] == es[k]);
    if crate::entries::distinct(all) {
        assert forall|i: int| 0 <= i < all.len() && all[i] == es[k] implies i == k by {
            if i < k {
                assert(all[i] != all[k]);
            } else if i > k {
                assert(all[k] != all[i]);
            }
        }
    }
}

} // verus!
