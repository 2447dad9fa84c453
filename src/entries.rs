//! An insertion-ordered set of unique entries, each identified by its position
//! as a `u32`.
//!
//! Entries are stored in a vector, and a hash table maps the hash of each entry
//! to its position, so that both directions are found without a scan.

use vstd::prelude::*;
use vstd::wrapping::u64_specs::wrapping_mul;

use crate::error::Error;

verus! {

/// The offset basis of the 64-bit FNV-1a hash.
pub const FNV_OFFSET: u64 = 0xcbf2_9ce4_8422_2325;

/// The prime of the 64-bit FNV-1a hash.
pub const FNV_PRIME: u64 = 0x0000_0100_0000_01b3;

/// The 64-bit FNV-1a hash of the bytes of an entry.
pub open spec fn entry_hash(s: Seq<u8>) -> u64
    decreases s.len(),
{
    if s.len() == 0 {
        FNV_OFFSET
    } else {
        wrapping_mul(entry_hash(s.drop_last()) ^ (s.last() as u64), FNV_PRIME)
    }
}

/// Computes the hash of the bytes of an entry.
pub fn hash_entry(s: &[u8]) -> (r: u64)
    ensures
        r == entry_hash(s@),
{
    let mut h: u64 = FNV_OFFSET;
    let mut i: usize = 0;
    while i < s.len()
        invariant
            i <= s@.len(),
            h == entry_hash(s@.subrange(0, i as int)),
        decreases s@.len() - i,
    {
        proof {
            let t = s@.subrange(0, i + 1);
            assert(t.drop_last() =~= s@.subrange(0, i as int));
        }
        h = (h ^ (s[i] as u64)).wrapping_mul(FNV_PRIME);
        i = i + 1;
    }
    assert(s@.subrange(0, s@.len() as int) =~= s@);
    h
}

/// The bytes of each of the given entries.
pub open spec fn views(s: Seq<Vec<u8>>) -> Seq<Seq<u8>> {
    s.map_values(|e: Vec<u8>| e@)
}

/// Whether `index` is the position of `entry` in `entries`.
pub open spec fn matches_at(entries: Seq<Seq<u8>>, index: u32, entry: Seq<u8>) -> bool {
    index < entries.len() && entries[index as int] == entry
}

/// Tells whether `index` is the position of `entry` in `entries`.
fn index_matches(entries: &Vec<Vec<u8>>, index: u32, entry: &[u8]) -> (r: bool)
    ensures
        r == matches_at(views(entries@), index, entry@),
{
    if (index as usize) < entries.len() {
        let e = &entries[index as usize];
        assert(views(entries@)[index as int] == e@);
        if e.len() != entry.len() {
            assert(e@.len() != entry@.len());
            return false;
        }
        let mut i: usize = 0;
        while i < e.len()
            invariant
                e@.len() == entry@.len(),
                index < entries@.len(),
                views(entries@)[index as int] == e@,
                i <= e@.len(),
                e@.subrange(0, i as int) == entry@.subrange(0, i as int),
            decreases e@.len() - i,
        {
            if e[i] != entry[i] {
                assert(e@[i as int] != entry@[i as int]);
                assert(e@ != entry@);
                return false;
            }
            assert(e@.subrange(0, i + 1) =~= entry@.subrange(0, i + 1));
            i = i + 1;
        }
        assert(e@ =~= e@.subrange(0, e@.len() as int));
        assert(entry@ =~= entry@.subrange(0, entry@.len() as int));
        true
    } else {
        false
    }
}

/// Computes the hash of the entry at `index`, or `0` where there is none.
fn hash_at(entries: &Vec<Vec<u8>>, index: u32) -> (r: u64)
    ensures
        index < entries@.len() ==> r == entry_hash(entries@[index as int]@),
{
    if (index as usize) < entries.len() {
        hash_entry(entries[index as usize].as_slice())
    } else {
        0
    }
}

/// Copies the given bytes.
pub fn copy_bytes(s: &[u8]) -> (r: Vec<u8>)
    ensures
        r@ == s@,
{
    let mut out: Vec<u8> = Vec::with_capacity(s.len());
    let mut i: usize = 0;
    while i < s.len()
        invariant
            i <= s@.len(),
            out@ == s@.subrange(0, i as int),
        decreases s@.len() - i,
    {
        out.push(s[i]);
        assert(out@ =~= s@.subrange(0, i + 1));
        i = i + 1;
    }
    assert(s@.subrange(0, s@.len() as int) =~= s@);
    out
}

/// A hash table of positions of entries, each stored under the hash of its entry.
#[verifier::external_body]
pub struct IndexTable {
    table: hashbrown::HashTable<u32>,
}

/// The pairs of hash and position that a table holds.
pub uninterp spec fn slots(t: IndexTable) -> Set<(u64, u32)>;

/// Every position that `t` holds is one of `entries`, stored under its hash.
pub open spec fn consistent(t: IndexTable, entries: Seq<Seq<u8>>) -> bool {
    forall|h: u64, i: u32|
        #![trigger slots(t).contains((h, i))]
        slots(t).contains((h, i)) <==> (i < entries.len() && h == entry_hash(entries[i as int]))
}

/// Relies on `hashbrown::HashTable::with_capacity`: a table with nothing in it.
#[verifier::external_body]
fn table_with_capacity(capacity: usize) -> (r: IndexTable)
    ensures
        slots(r) == Set::<(u64, u32)>::empty(),
{
    IndexTable { table: hashbrown::HashTable::with_capacity(capacity) }
}

/// Relies on `hashbrown::HashTable::find`: it calls `eq` on every position
/// stored under `hash` (and maybe on others) and returns one for which `eq`
/// holds, or nothing where none does. Here `eq` tells whether the position is
/// that of `entry` in `entries`.
#[verifier::external_body]
fn table_find(t: &IndexTable, hash: u64, entries: &Vec<Vec<u8>>, entry: &[u8]) -> (r: Option<u32>)
    ensures
        r matches Some(i) ==> (exists|h: u64| slots(*t).contains((h, i))) && matches_at(
            views(entries@),
            i,
            entry@,
        ),
        r is None ==> forall|i: u32|
            #![trigger slots(*t).contains((hash, i))]
            slots(*t).contains((hash, i)) ==> !matches_at(
                views(entries@),
                i,
                entry@,
            ),
{
    t.table.find(hash, |i: &u32| index_matches(entries, *i, entry)).copied()
}

/// Relies on `hashbrown::HashTable::insert_unique`: stores `index` under
/// `hash`, recomputing the hash of stored positions where the table grows.
/// That `hasher` gives each position the hash it was stored under is required.
#[verifier::external_body]
fn table_insert(t: &mut IndexTable, hash: u64, index: u32, entries: &Vec<Vec<u8>>)
    requires
        consistent(*old(t), views(entries@)),
    ensures
        slots(*final(t)) == slots(*old(t)).insert((hash, index)),
{
    t.table.insert_unique(hash, index, |i: &u32| hash_at(entries, *i));
}

/// Relies on `hashbrown::HashTable::reserve`: makes room, keeping what is stored.
#[verifier::external_body]
fn table_reserve(t: &mut IndexTable, additional: usize, entries: &Vec<Vec<u8>>)
    requires
        consistent(*old(t), views(entries@)),
    ensures
        slots(*final(t)) == slots(*old(t)),
{
    t.table.reserve(additional, |i: &u32| hash_at(entries, *i));
}

/// A set of unique entries, each identified by its position as a `u32`.
pub struct Entries {
    indexes: IndexTable,
    entries: Vec<Vec<u8>>,
}

impl View for Entries {
    type V = Seq<Seq<u8>>;

    closed spec fn view(&self) -> Seq<Seq<u8>> {
        views(self.entries@)
    }
}

/// The entries of `s` are pairwise different.
pub open spec fn distinct(s: Seq<Seq<u8>>) -> bool {
    forall|i: int, j: int| 0 <= i < j < s.len() ==> s[i] != s[j]
}

impl Entries {
    /// The positions fit in a `u32`, and the table holds exactly the position of
    /// each entry under its hash.
    pub closed spec fn wf(&self) -> bool {
        &&& self@.len() <= u32::MAX
        &&& consistent(self.indexes, self@)
    }

    /// Creates an empty set with room for `capacity` entries.
    pub fn with_capacity(capacity: usize) -> (r: Entries)
        ensures
            r.wf(),
            r@ == Seq::<Seq<u8>>::empty(),
    {
        let r = Entries { indexes: table_with_capacity(capacity), entries: Vec::with_capacity(capacity) };
        assert(r@ =~= Seq::<Seq<u8>>::empty());
        r
    }

    /// Creates an empty set.
    pub fn new() -> (r: Entries)
        ensures
            r.wf(),
            r@ == Seq::<Seq<u8>>::empty(),
    {
        Entries::with_capacity(0)
    }

    /// Returns the number of entries.
    pub fn len(&self) -> (r: usize)
        ensures
            r == self@.len(),
            self.wf() ==> r <= u32::MAX,
    {
        self.entries.len()
    }

    /// Returns `true` where no entry has been inserted.
    pub fn is_empty(&self) -> (r: bool)
        ensures
            r == (self@.len() == 0),
    {
        self.entries.len() == 0
    }

    /// Returns the entry at position `index`, if there is one.
    pub fn get_at(&self, index: u32) -> (r: Option<&Vec<u8>>)
        ensures
            index < self@.len() ==> (r matches Some(e) && e@ == self@[index as int]),
            index >= self@.len() ==> r is None,
    {
        if (index as usize) < self.entries.len() {
            Some(&self.entries[index as usize])
        } else {
            None
        }
    }

    /// Returns the position of `entry`, if it has been inserted: where the
    /// entries are distinct, the one position of `entry`.
    pub fn get_index_of(&self, entry: &[u8]) -> (r: Option<u32>)
        requires
            self.wf(),
        ensures
            r matches Some(i) ==> i < self@.len() && self@[i as int] == entry@,
            r is None <==> !self@.contains(entry@),
            distinct(self@) ==> forall|i: int|
                0 <= i < self@.len() && self@[i] == entry@ ==> r == Some(i as u32),
    {
        let hash = hash_entry(entry);
        let r = table_find(&self.indexes, hash, &self.entries, entry);
        proof {
            if r is None {
                if self@.contains(entry@) {
                    let k = choose|k: int| 0 <= k < self@.len() && self@[k] == entry@;
                    assert(slots(self.indexes).contains((hash, k as u32)));
                }
            } else {
                let i = r->Some_0;
                assert(self@[i as int] == entry@);
            }
        }
        r
    }

    /// Returns the entries in the order of their positions.
    pub fn iter(&self) -> (r: Vec<Vec<u8>>)
        ensures
            views(r@) == self@,
    {
        let mut out: Vec<Vec<u8>> = Vec::with_capacity(self.entries.len());
        let mut i: usize = 0;
        while i < self.entries.len()
            invariant
                i <= self@.len(),
                self@.len() == self.entries@.len(),
                out@.len() == i,
                views(out@) == self@.subrange(0, i as int),
            decreases self@.len() - i,
        {
            let bytes = copy_bytes(self.entries[i].as_slice());
            assert(bytes@ == self@[i as int]);
            let ghost before = out@;
            out.push(bytes);
            proof {
                assert(out@ == before.push(bytes));
                assert forall|k: int| 0 <= k < i + 1 implies #[trigger] views(out@)[k]
                    == self@.subrange(0, i + 1)[k] by {
                    if k < i {
                        assert(out@[k] == before[k]);
                        assert(views(before)[k] == self@.subrange(0, i as int)[k]);
                    }
                }
                assert(views(out@) =~= self@.subrange(0, i + 1));
            }
            i = i + 1;
        }
        assert(self@.subrange(0, self@.len() as int) =~= self@);
        out
    }

    /// Makes room for `additional` more entries.
    pub fn reserve(&mut self, additional: usize)
        requires
            old(self).wf(),
        ensures
            final(self).wf(),
            final(self)@ == old(self)@,
    {
        table_reserve(&mut self.indexes, additional, &self.entries);
        self.entries.reserve(additional);
        assert(self@ =~= old(self)@);
    }

    /// Inserts an entry, returning its position.
    ///
    /// The entry is not looked for: where it is present already, looking it up
    /// gives one of its positions. Fails with `TooManyEntries` where every `u32`
    /// is taken.
    pub fn insert_unique(&mut self, entry: Vec<u8>) -> (r: Result<u32, Error>)
        requires
            old(self).wf(),
        ensures
            final(self).wf(),
            old(self)@.len() < u32::MAX ==> r == Ok::<u32, Error>(old(self)@.len() as u32)
                && final(self)@ == old(self)@.push(entry@),
            old(self)@.len() == u32::MAX ==> r == Err::<u32, Error>(Error::TooManyEntries)
                && final(self)@ == old(self)@,
    {
        let len = self.entries.len();
        if len >= 0xffff_ffff {
            return Err(Error::TooManyEntries);
        }
        let index = len as u32;
        let hash = hash_entry(entry.as_slice());
        table_insert(&mut self.indexes, hash, index, &self.entries);
        self.entries.push(entry);
        proof {
            assert(self@ =~= old(self)@.push(entry@));
            assert forall|h: u64, i: u32|
                #![trigger slots(self.indexes).contains((h, i))]
                slots(self.indexes).contains((h, i)) <==> (i < self@.len() && h == entry_hash(
                    self@[i as int],
                )) by {
                if i < len {
                    assert(self@[i as int] == old(self)@[i as int]);
                }
            }
        }
        Ok(index)
    }
}

impl Default for Entries {
    /// Creates an empty set.
    fn default() -> (r: Entries)
        ensures
            r.wf(),
            r@ == Seq::<Seq<u8>>::empty(),
    {
        Entries::new()
    }
}

} // verus!
