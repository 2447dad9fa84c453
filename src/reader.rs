//! Reading the dictionary of a link.
//!
//! Opening a link walks back from it through the deltas of its ancestors until
//! it meets a snapshot or the first link of the chain, then replays the deltas
//! from the oldest. Reloading walks back from a newer link to the one already
//! loaded, then replays the deltas met on the way.
//!
//! A reload that fails leaves the reader as it was: the deltas met are only
//! added once the walk is over, and adding them first checks that they fit.
//!
//! Both walks are driven by the caller: it asks [`Opening::request`] (or
//! [`Reloading::request`]) which file to fetch, fetches it, and hands its bytes
//! (or `None` where the file does not exist) to `advance`.

use vstd::prelude::*;

use crate::delta;
use crate::entries::{copy_bytes, distinct, views, Entries};
use crate::error::Error;
use crate::snapshot;
use crate::storage::{self, Kind};
use crate::LinkId;

verus! {

/// The `count` entries of `size` bytes at the start of `body`.
pub open spec fn chunks(body: Seq<u8>, size: nat, count: nat) -> Seq<Seq<u8>> {
    Seq::new(count, |i: int| body.subrange(i * size, (i + 1) * size))
}

/// What reading `count` entries of `size` bytes from `body` gives.
pub open spec fn body_entries(body: Seq<u8>, size: nat, count: nat) -> Result<Seq<Seq<u8>>, Error> {
    if count * size <= body.len() {
        Ok(chunks(body, size, count))
    } else {
        Err(
            Error::FileSize {
                expected: if count * size > usize::MAX {
                    usize::MAX
                } else {
                    (count * size) as usize
                },
                got: body.len() as usize,
            },
        )
    }
}

/// Reads `count` entries of `size` bytes from the start of what `reader` reads.
///
/// Fails with `FileSize` where the file is too small to hold them.
pub fn read_entries(reader: &mut storage::Reader, count: u32, size: usize) -> (r: Result<
    Vec<Vec<u8>>,
    Error,
>)
    requires
        old(reader).wf(),
        old(reader)@.offset == 0,
    ensures
        final(reader).wf(),
        match r {
            Ok(v) => body_entries(
                old(reader)@.bytes.subrange(0, old(reader)@.file_size),
                size as nat,
                count as nat,
            ) == Ok::<Seq<Seq<u8>>, Error>(views(v@)),
            Err(e) => body_entries(
                old(reader)@.bytes.subrange(0, old(reader)@.file_size),
                size as nat,
                count as nat,
            ) == Err::<Seq<Seq<u8>>, Error>(e),
        },
{
    let ghost body = reader@.bytes.subrange(0, reader@.file_size);
    let file_size = reader.file_size();
    assert((count as u128) * (size as u128) <= 0xffff_ffff * 0xffff_ffff_ffff_ffff) by (nonlinear_arith)
        requires
            count <= 0xffff_ffff,
            size <= 0xffff_ffff_ffff_ffff,
    ;
    let needed: u128 = (count as u128) * (size as u128);
    if needed > file_size as u128 {
        let expected: usize = if needed > usize::MAX as u128 {
            usize::MAX
        } else {
            needed as usize
        };
        return Err(Error::FileSize { expected, got: file_size });
    }
    let mut out: Vec<Vec<u8>> = Vec::new();
    let mut k: u32 = 0;
    while k < count
        invariant
            reader.wf(),
            reader@.bytes == old(reader)@.bytes,
            reader@.file_size == file_size,
            file_size == old(reader)@.file_size,
            body == old(reader)@.bytes.subrange(0, file_size as int),
            k <= count,
            count * size <= file_size,
            reader@.offset == k * size,
            out@.len() == k,
            views(out@) == chunks(body, size as nat, k as nat),
        decreases count - k,
    {
        proof {
            assert((k + 1) * size <= count * size) by (nonlinear_arith)
                requires
                    k < count,
            ;
            assert(k * size + size == (k + 1) * size) by (nonlinear_arith);
        }
        let e = match reader.read_bytes(size) {
            Ok(e) => e,
            Err(err) => {
                assert(false);
                return Err(err);
            },
        };
        let ghost before = out@;
        out.push(e);
        proof {
            assert(body.subrange(k * size, (k + 1) * size) =~= e@);
            assert(views(out@) =~= chunks(body, size as nat, (k + 1) as nat)) by {
                assert forall|i: int| 0 <= i < k implies #[trigger] views(out@)[i] == views(
                    before,
                )[i] by {
                    assert(out@[i] == before[i]);
                }
            }
        }
        k = k + 1;
    }
    Ok(out)
}

/// The entries of the deltas of `d`, which lists the most recent link first,
/// replayed from the oldest.
pub open spec fn replayed(d: Seq<Seq<Seq<u8>>>) -> Seq<Seq<u8>>
    decreases d.len(),
{
    if d.len() == 0 {
        seq![]
    } else {
        replayed(d.drop_first()) + d[0]
    }
}

/// The entries of each delta of the given list.
pub open spec fn delta_views(d: Seq<Vec<Vec<u8>>>) -> Seq<Seq<Seq<u8>>> {
    d.map_values(|v: Vec<Vec<u8>>| views(v@))
}

proof fn lemma_replayed_step(d: Seq<Seq<Seq<u8>>>, j: int)
    requires
        0 < j <= d.len(),
    ensures
        replayed(d.subrange(j - 1, d.len() as int)) == replayed(d.subrange(j, d.len() as int))
            + d[j - 1],
{
    assert(d.subrange(j - 1, d.len() as int).drop_first() =~= d.subrange(j, d.len() as int));
}

/// Inserts the entries of `deltas`, oldest first.
///
/// Fails with `TooManyEntries`, inserting nothing, where they would not all fit.
fn replay(entries: &mut Entries, deltas: &Vec<Vec<Vec<u8>>>) -> (r: Result<(), Error>)
    requires
        old(entries).wf(),
    ensures
        final(entries).wf(),
        old(entries)@.len() + replayed(delta_views(deltas@)).len() <= u32::MAX ==> r is Ok
            && final(entries)@ == old(entries)@ + replayed(delta_views(deltas@)),
        old(entries)@.len() + replayed(delta_views(deltas@)).len() > u32::MAX ==> r == Err::<
            (),
            Error,
        >(Error::TooManyEntries) && final(entries)@ == old(entries)@,
{
    let ghost d = delta_views(deltas@);
    let n = deltas.len();
    let base = entries.len();
    let mut additional: usize = 0;
    let mut j: usize = n;
    while j > 0
        invariant
            n == d.len(),
            n == deltas@.len(),
            d == delta_views(deltas@),
            j <= n,
            entries.wf(),
            entries@ == old(entries)@,
            base == entries@.len() <= u32::MAX,
            additional == replayed(d.subrange(j as int, n as int)).len(),
            base + additional <= u32::MAX,
            forall|k: int| 0 <= k < n ==> #[trigger] d[k] == views(deltas@[k]@),
        decreases j,
    {
        proof {
            lemma_replayed_step(d, j as int);
        }
        let len = deltas[j - 1].len();
        if len > 0xffff_ffff - base - additional {
            proof {
                assert(d[j - 1] == views(deltas@[j - 1]@));
                assert(d[j - 1].len() == len);
                lemma_replayed_suffix(d, j - 1);
            }
            return Err(Error::TooManyEntries);
        }
        additional = additional + len;
        j = j - 1;
    }
    assert(d.subrange(0, n as int) =~= d);
    entries.reserve(additional);
    let mut j: usize = n;
    while j > 0
        invariant
            n == d.len(),
            n == deltas@.len(),
            j <= n,
            entries.wf(),
            entries@ == old(entries)@ + replayed(d.subrange(j as int, n as int)),
            old(entries)@.len() + replayed(d).len() <= u32::MAX,
            forall|k: int| 0 <= k < n ==> #[trigger] d[k] == views(deltas@[k]@),
        decreases j,
    {
        proof {
            lemma_replayed_step(d, j as int);
            lemma_replayed_suffix(d, j - 1);
            assert(d.subrange(0, n as int) =~= d);
        }
        let delta = &deltas[j - 1];
        let mut i: usize = 0;
        while i < delta.len()
            invariant
                n == d.len(),
                n == deltas@.len(),
                0 < j <= n,
                i <= delta@.len(),
                entries.wf(),
                d[j - 1] == views(delta@),
                entries@ == old(entries)@ + replayed(d.subrange(j as int, n as int))
                    + d[j - 1].subrange(0, i as int),
                old(entries)@.len() + replayed(d.subrange(j - 1, n as int)).len() <= u32::MAX,
                replayed(d.subrange(j - 1, n as int)) == replayed(d.subrange(j as int, n as int))
                    + d[j - 1],
            decreases delta@.len() - i,
        {
            let e = copy_bytes(delta[i].as_slice());
            assert(e@ == d[j - 1][i as int]);
            let inserted = entries.insert_unique(e);
            assert(inserted is Ok);
            assert(entries@ =~= old(entries)@ + replayed(d.subrange(j as int, n as int)) + d[j
                - 1].subrange(0, i + 1));
            i = i + 1;
        }
        assert(d[j - 1].subrange(0, i as int) =~= d[j - 1]);
        assert(entries@ =~= old(entries)@ + replayed(d.subrange(j - 1, n as int)));
        j = j - 1;
    }
    assert(d.subrange(0, n as int) =~= d);
    Ok(())
}

/// Replaying a longer suffix of the deltas gives at least as many entries.
proof fn lemma_replayed_suffix(d: Seq<Seq<Seq<u8>>>, j: int)
    requires
        0 <= j <= d.len(),
    ensures
        replayed(d.subrange(j, d.len() as int)).len() <= replayed(d).len(),
    decreases j,
{
    if j > 0 {
        lemma_replayed_suffix(d, j - 1);
        lemma_replayed_step(d, j);
        assert(d.subrange(0, d.len() as int) =~= d);
    } else {
        assert(d.subrange(0, d.len() as int) =~= d);
    }
}

/// What an [`Opening`] holds.
pub struct OpeningView {
    /// The link being opened.
    pub latest: LinkId,
    /// The link whose file is asked for next.
    pub next: LinkId,
    /// The kind of the file asked for next.
    pub kind: Kind,
    /// The size of an entry.
    pub entry_size: nat,
    /// The entries of the deltas read so far, the most recent link first.
    pub deltas: Seq<Seq<Seq<u8>>>,
    /// The dictionary, once the walk is over.
    pub done: Option<Seq<Seq<u8>>>,
}

/// The walk is over with the dictionary `d`, where it fits in `u32` identifiers.
pub open spec fn finished_with(s: OpeningView, d: Seq<Seq<u8>>) -> Result<OpeningView, Error> {
    if d.len() <= u32::MAX {
        Ok(OpeningView { done: Some(d), ..s })
    } else {
        Err(Error::TooManyEntries)
    }
}

/// The body of a file whose footer has `footer_size` bytes.
pub open spec fn body_of(file: Seq<u8>, footer_size: int) -> Seq<u8> {
    file.subrange(0, file.len() - footer_size)
}

/// What handing `file` to an opening in state `s` gives.
///
/// Asked for the snapshot of `next`: where there is none, the delta of `next`
/// is asked for; where there is one, its entries followed by those of the
/// deltas read so far are the dictionary. Asked for the delta of `next`: its
/// entries are kept, and the snapshot of its previous link is asked for, or,
/// at the first link of the chain, the deltas replayed are the dictionary.
pub open spec fn open_step(s: OpeningView, file: Option<Seq<u8>>) -> Result<OpeningView, Error> {
    match (s.kind, file) {
        (Kind::Snapshot, None) => Ok(OpeningView { kind: Kind::Delta, ..s }),
        (Kind::Snapshot, Some(f)) => match snapshot::parse(f) {
            Err(e) => Err(e),
            Ok(footer) => match body_entries(
                body_of(f, snapshot::SIZE as int),
                s.entry_size,
                footer.count as nat,
            ) {
                Err(e) => Err(e),
                Ok(es) => finished_with(s, es + replayed(s.deltas)),
            },
        },
        (Kind::Delta, None) => Err(Error::DoesNotExist { link: s.next, kind: Kind::Delta }),
        (Kind::Delta, Some(f)) => match delta::parse(f) {
            Err(e) => Err(e),
            Ok(footer) => match body_entries(
                body_of(f, delta::SIZE as int),
                s.entry_size,
                footer.count as nat,
            ) {
                Err(e) => Err(e),
                Ok(es) => match footer.previous {
                    None => finished_with(
                        OpeningView { deltas: s.deltas.push(es), ..s },
                        replayed(s.deltas.push(es)),
                    ),
                    Some(p) => Ok(
                        OpeningView { next: p, kind: Kind::Snapshot, deltas: s.deltas.push(es), ..s },
                    ),
                },
            },
        },
    }
}

/// The opening of the dictionary of a link, in progress.
pub struct Opening {
    latest: LinkId,
    next: LinkId,
    kind: Kind,
    entry_size: usize,
    deltas: Vec<Vec<Vec<u8>>>,
    done: Option<Entries>,
}

impl View for Opening {
    type V = OpeningView;

    closed spec fn view(&self) -> OpeningView {
        OpeningView {
            latest: self.latest,
            next: self.next,
            kind: self.kind,
            entry_size: self.entry_size as nat,
            deltas: delta_views(self.deltas@),
            done: match &self.done {
                Some(e) => Some(e@),
                None => None,
            },
        }
    }
}

impl Opening {
    pub closed spec fn wf(&self) -> bool {
        self.done matches Some(e) ==> e.wf()
    }

    /// Returns the file to fetch next, or `None` where the walk is over.
    pub fn request(&self) -> (r: Option<(LinkId, Kind)>)
        ensures
            self@.done is None ==> r == Some((self@.next, self@.kind)),
            self@.done is Some ==> r is None,
    {
        if self.done.is_some() {
            None
        } else {
            Some((self.next, self.kind))
        }
    }

    /// Takes the file asked for, or `None` where it does not exist.
    ///
    /// On error the opening is to be dropped.
    pub fn advance(&mut self, file: Option<Vec<u8>>) -> (r: Result<(), Error>)
        requires
            old(self).wf(),
            old(self)@.done is None,
        ensures
            final(self).wf(),
            match open_step(
                old(self)@,
                match file {
                    Some(f) => Some(f@),
                    None => None,
                },
            ) {
                Ok(v) => r is Ok && final(self)@ == v,
                Err(e) => r == Err::<(), Error>(e),
            },
    {
        match self.kind {
            Kind::Snapshot => {
                match file {
                    None => {
                        self.kind = Kind::Delta;
                        Ok(())
                    },
                    Some(f) => {
                        let mut reader = storage::Reader::new(f);
                assert(reader@.bytes.subrange(0, reader@.file_size) =~= reader@.bytes);
                        assert(reader@.bytes.subrange(0, reader@.file_size) =~= reader@.bytes);
                        let footer = match snapshot::Footer::read(&mut reader) {
                            Ok(v) => v,
                            Err(e) => {
                                return Err(e);
                            },
                        };
                        let es = match read_entries(&mut reader, footer.count, self.entry_size) {
                            Ok(v) => v,
                            Err(e) => {
                                return Err(e);
                            },
                        };
                        let mut entries = Entries::new();
                        let mut first: Vec<Vec<Vec<u8>>> = Vec::new();
                        first.push(es);
                        proof {
                            let one = delta_views(first@);
                            assert(one.drop_first() =~= Seq::<Seq<Seq<u8>>>::empty());
                            assert(one[0] == views(es@));
                            reveal_with_fuel(replayed, 2);
                            assert(replayed(one) =~= views(es@));
                            assert(entries@ + views(es@) =~= views(es@));
                        }
                        match replay(&mut entries, &first) {
                            Ok(()) => {},
                            Err(e) => {
                                return Err(e);
                            },
                        }
                        match replay(&mut entries, &self.deltas) {
                            Ok(()) => {},
                            Err(e) => {
                                return Err(e);
                            },
                        }
                        assert(entries@ =~= views(es@) + replayed(delta_views(self.deltas@)));
                        self.done = Some(entries);
                        Ok(())
                    },
                }
            },
            Kind::Delta => {
                match file {
                    None => Err(Error::DoesNotExist { link: self.next, kind: Kind::Delta }),
                    Some(f) => {
                        let mut reader = storage::Reader::new(f);
                assert(reader@.bytes.subrange(0, reader@.file_size) =~= reader@.bytes);
                        assert(reader@.bytes.subrange(0, reader@.file_size) =~= reader@.bytes);
                        let footer = match delta::Footer::read(&mut reader) {
                            Ok(v) => v,
                            Err(e) => {
                                return Err(e);
                            },
                        };
                        let es = match read_entries(&mut reader, footer.count, self.entry_size) {
                            Ok(v) => v,
                            Err(e) => {
                                return Err(e);
                            },
                        };
                        let ghost before = delta_views(self.deltas@);
                        let ghost es_view = views(es@);
                        self.deltas.push(es);
                        assert(delta_views(self.deltas@) =~= before.push(es_view));
                        match footer.previous {
                            None => {
                                let mut entries = Entries::new();
                                match replay(&mut entries, &self.deltas) {
                                    Ok(()) => {},
                                    Err(e) => {
                                        return Err(e);
                                    },
                                }
                                assert(entries@ =~= replayed(delta_views(self.deltas@)));
                                self.done = Some(entries);
                                Ok(())
                            },
                            Some(p) => {
                                self.next = p;
                                self.kind = Kind::Snapshot;
                                Ok(())
                            },
                        }
                    },
                }
            },
        }
    }

    /// Ends the walk, giving a reader of the dictionary.
    pub fn finish(self) -> (r: Reader)
        requires
            self.wf(),
            self@.done is Some,
        ensures
            r.wf(),
            r@.latest == self@.latest,
            r@.entry_size == self@.entry_size,
            r@.entries == self@.done->Some_0,
    {
        let Opening { latest, entry_size, done, .. } = self;
        match done {
            Some(entries) => Reader { latest, entry_size, entries },
            None => {
                assert(false);
                Reader { latest, entry_size, entries: Entries::new() }
            },
        }
    }
}

/// What a [`Reader`] holds.
pub struct ReaderView {
    /// The link whose dictionary is loaded.
    pub latest: LinkId,
    /// The size of an entry.
    pub entry_size: nat,
    /// The dictionary: each entry at the position that identifies it.
    pub entries: Seq<Seq<u8>>,
}

/// A reader of the dictionary of a link.
pub struct Reader {
    latest: LinkId,
    entry_size: usize,
    entries: Entries,
}

impl View for Reader {
    type V = ReaderView;

    closed spec fn view(&self) -> ReaderView {
        ReaderView { latest: self.latest, entry_size: self.entry_size as nat, entries: self.entries@ }
    }
}

impl Reader {
    pub closed spec fn wf(&self) -> bool {
        self.entries.wf()
    }

    /// Starts opening the dictionary of `latest`, whose entries have
    /// `entry_size` bytes. The snapshot of `latest` is asked for first.
    pub fn open(latest: LinkId, entry_size: usize) -> (r: Opening)
        ensures
            r.wf(),
            r@ == (OpeningView {
                latest,
                next: latest,
                kind: Kind::Snapshot,
                entry_size: entry_size as nat,
                deltas: seq![],
                done: None,
            }),
    {
        let r = Opening { latest, next: latest, kind: Kind::Snapshot, entry_size, deltas: Vec::new(), done: None };
        assert(r@.deltas =~= seq![]);
        r
    }

    /// Returns the link whose dictionary is loaded.
    pub fn latest(&self) -> (r: LinkId)
        ensures
            r == self@.latest,
    {
        self.latest
    }

    /// Returns the number of entries.
    pub fn len(&self) -> (r: usize)
        ensures
            r == self@.entries.len(),
    {
        self.entries.len()
    }

    /// Returns the entry identified by `index`, if there is one.
    pub fn get_at(&self, index: u32) -> (r: Option<&Vec<u8>>)
        ensures
            index < self@.entries.len() ==> (r matches Some(e) && e@ == self@.entries[index as int]),
            index >= self@.entries.len() ==> r is None,
    {
        self.entries.get_at(index)
    }

    /// Returns the identifier of `entry`, if it is present: where the entries
    /// are distinct, its one position.
    pub fn get_index_of(&self, entry: &[u8]) -> (r: Option<u32>)
        requires
            self.wf(),
        ensures
            r matches Some(i) ==> i < self@.entries.len() && self@.entries[i as int] == entry@,
            r is None <==> !self@.entries.contains(entry@),
            distinct(self@.entries) ==> forall|i: int|
                0 <= i < self@.entries.len() && self@.entries[i] == entry@ ==> r == Some(i as u32),
    {
        self.entries.get_index_of(entry)
    }

    /// Starts reloading the reader up to `latest`, a descendant of the link
    /// loaded. Where `latest` is that link, there is nothing to fetch.
    pub fn reload(&self, latest: LinkId) -> (r: Reloading)
        ensures
            r@ == (ReloadingView {
                latest,
                expected: self@.latest,
                next: latest,
                entry_size: self@.entry_size,
                deltas: seq![],
                done: latest == self@.latest,
            }),
    {
        let r = Reloading {
            latest,
            expected: self.latest,
            next: latest,
            entry_size: self.entry_size,
            deltas: Vec::new(),
            done: latest == self.latest,
        };
        assert(r@.deltas =~= seq![]);
        r
    }

    /// Adds the entries of the deltas that a finished reload met, oldest
    /// first, and moves the reader to the link reloaded.
    ///
    /// Fails with `TooManyEntries`, changing nothing, where they would not fit.
    pub fn apply(&mut self, reload: Reloading) -> (r: Result<(), Error>)
        requires
            old(self).wf(),
            reload@.done,
            reload@.expected == old(self)@.latest,
        ensures
            final(self).wf(),
            old(self)@.entries.len() + replayed(reload@.deltas).len() <= u32::MAX ==> r is Ok
                && final(self)@ == (ReaderView {
                latest: reload@.latest,
                entries: old(self)@.entries + replayed(reload@.deltas),
                ..old(self)@
            }),
            old(self)@.entries.len() + replayed(reload@.deltas).len() > u32::MAX ==> r == Err::<
                (),
                Error,
            >(Error::TooManyEntries) && final(self)@ == old(self)@,
    {
        match replay(&mut self.entries, &reload.deltas) {
            Ok(()) => {},
            Err(e) => {
                return Err(e);
            },
        }
        self.latest = reload.latest;
        Ok(())
    }
}

/// What a [`Reloading`] holds.
pub struct ReloadingView {
    /// The link to reload up to.
    pub latest: LinkId,
    /// The link the reader has loaded, which the walk must reach.
    pub expected: LinkId,
    /// The link whose delta is asked for next.
    pub next: LinkId,
    /// The size of an entry.
    pub entry_size: nat,
    /// The entries of the deltas read so far, the most recent link first.
    pub deltas: Seq<Seq<Seq<u8>>>,
    /// Whether the walk has reached the link loaded.
    pub done: bool,
}

/// What handing the delta `file` of `s.next` to a reload in state `s` gives.
///
/// A missing delta fails with `DoesNotExist`, a delta of the first link of a
/// chain with `Disconnected`; otherwise its entries are kept and the walk goes
/// on to its previous link, unless that is the link loaded.
pub open spec fn reload_step(s: ReloadingView, file: Option<Seq<u8>>) -> Result<ReloadingView, Error> {
    match file {
        None => Err(Error::DoesNotExist { link: s.next, kind: Kind::Delta }),
        Some(f) => match delta::parse(f) {
            Err(e) => Err(e),
            Ok(footer) => match footer.previous {
                None => Err(Error::Disconnected { latest: s.latest, expected: s.expected, got: s.next }),
                Some(p) => match body_entries(
                    body_of(f, delta::SIZE as int),
                    s.entry_size,
                    footer.count as nat,
                ) {
                    Err(e) => Err(e),
                    Ok(es) => Ok(
                        ReloadingView { next: p, deltas: s.deltas.push(es), done: p == s.expected, ..s },
                    ),
                },
            },
        },
    }
}

/// The reload of a reader, in progress.
pub struct Reloading {
    latest: LinkId,
    expected: LinkId,
    next: LinkId,
    entry_size: usize,
    deltas: Vec<Vec<Vec<u8>>>,
    done: bool,
}

impl View for Reloading {
    type V = ReloadingView;

    closed spec fn view(&self) -> ReloadingView {
        ReloadingView {
            latest: self.latest,
            expected: self.expected,
            next: self.next,
            entry_size: self.entry_size as nat,
            deltas: delta_views(self.deltas@),
            done: self.done,
        }
    }
}

impl Reloading {
    /// Returns the link whose delta to fetch next, or `None` where the walk
    /// is over.
    pub fn request(&self) -> (r: Option<LinkId>)
        ensures
            !self@.done ==> r == Some(self@.next),
            self@.done ==> r is None,
    {
        if self.done {
            None
        } else {
            Some(self.next)
        }
    }

    /// Takes the delta asked for, or `None` where it does not exist.
    ///
    /// On error the reload is to be dropped; the reader is left as it was.
    pub fn advance(&mut self, file: Option<Vec<u8>>) -> (r: Result<(), Error>)
        requires
            !old(self)@.done,
        ensures
            match reload_step(
                old(self)@,
                match file {
                    Some(f) => Some(f@),
                    None => None,
                },
            ) {
                Ok(v) => r is Ok && final(self)@ == v,
                Err(e) => r == Err::<(), Error>(e),
            },
    {
        match file {
            None => Err(Error::DoesNotExist { link: self.next, kind: Kind::Delta }),
            Some(f) => {
                let mut reader = storage::Reader::new(f);
                assert(reader@.bytes.subrange(0, reader@.file_size) =~= reader@.bytes);
                let footer = match delta::Footer::read(&mut reader) {
                    Ok(v) => v,
                    Err(e) => {
                        return Err(e);
                    },
                };
                match footer.previous {
                    None => Err(
                        Error::Disconnected { latest: self.latest, expected: self.expected, got: self.next },
                    ),
                    Some(p) => {
                        let es = match read_entries(&mut reader, footer.count, self.entry_size) {
                            Ok(v) => v,
                            Err(e) => {
                                return Err(e);
                            },
                        };
                        let ghost before = delta_views(self.deltas@);
                        let ghost es_view = views(es@);
                        self.deltas.push(es);
                        assert(delta_views(self.deltas@) =~= before.push(es_view));
                        self.next = p;
                        self.done = p == self.expected;
                        Ok(())
                    },
                }
            },
        }
    }
}

} // verus!
