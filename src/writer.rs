//! Creating a new link.
//!
//! A [`Writer`] accumulates the delta file of a new link and, where asked for,
//! its snapshot file, which starts as a copy of the body of the previous
//! link's snapshot. Where a file of the previous link is needed, the caller
//! fetches it and hands it over: [`Writer::seed_due`] says when.

use vstd::prelude::*;

use crate::delta;
use crate::error::Error;
use crate::snapshot;
use crate::storage::{self, Kind};
use crate::LinkId;

mod lazy;

pub use lazy::{LazyWriter, LazyWriterView};

verus! {

/// The bytes of the given entries, one after the other.
pub open spec fn concat(s: Seq<Seq<u8>>) -> Seq<u8>
    decreases s.len(),
{
    if s.len() == 0 {
        seq![]
    } else {
        concat(s.drop_last()) + s.last()
    }
}

/// Relies on `uuid::Uuid::new_v4`, which sets the version and variant bits of
/// a random value, so that the value is never `0`.
#[verifier::external_body]
fn random_link_value() -> (r: u128)
    ensures
        r != 0,
{
    uuid::Uuid::new_v4().as_u128()
}

impl LinkId {
    /// Returns a new random link ID, never `0`.
    pub fn random() -> (r: LinkId)
        ensures
            r.value != 0,
    {
        LinkId { value: random_link_value() }
    }
}

/// What a [`Writer`] holds.
pub struct WriterView {
    /// The ID of the new link.
    pub id: LinkId,
    /// The link that the new link extends.
    pub previous: Option<LinkId>,
    /// The position of the new link in its chain.
    pub index: u32,
    /// The identifier of the first entry of the new link.
    pub offset: u32,
    /// The number of entries of the chain, those of the new link included.
    pub count: u32,
    /// The size of an entry.
    pub entry_size: nat,
    /// The entries written to the new link, in order.
    pub written: Seq<Seq<u8>>,
    /// The bytes of the delta file so far.
    pub delta: Seq<u8>,
    /// The bytes copied from the previous snapshot and the snapshot file so
    /// far, where a snapshot is written.
    pub snapshot: Option<(Seq<u8>, Seq<u8>)>,
}

/// The files of a finished link.
pub struct Finished {
    /// The ID of the new link.
    pub id: LinkId,
    /// The bytes of its delta file.
    pub delta: Vec<u8>,
    /// The bytes of its snapshot file, where one was asked for.
    pub snapshot: Option<Vec<u8>>,
}

/// The result and the new state of handing the delta `file` of the previous
/// link to a writer in state `w`.
pub open spec fn seed_step(w: WriterView, file: Option<Seq<u8>>) -> (Result<(), Error>, WriterView) {
    match file {
        None => (Err(Error::DoesNotExist { link: w.previous->Some_0, kind: Kind::Delta }), w),
        Some(f) => match delta::parse(f) {
            Err(e) => (Err(e), w),
            Ok(footer) => if footer.index == u32::MAX {
                (Err(Error::TooManyEntries), w)
            } else {
                (
                    Ok(()),
                    WriterView {
                        offset: footer.total,
                        count: footer.total,
                        index: (footer.index + 1) as u32,
                        ..w
                    },
                )
            },
        },
    }
}

/// The result and the new state of asking a writer in state `w` for a
/// snapshot, handing it the snapshot `file` of the previous link.
pub open spec fn snapshot_step(w: WriterView, file: Option<Seq<u8>>) -> (Result<(), Error>, WriterView) {
    if w.written.len() != 0 {
        (Err(Error::NotEmpty), w)
    } else {
        match w.previous {
            None => (Ok(()), WriterView { snapshot: Some((seq![], seq![])), ..w }),
            Some(p) => match file {
                None => (Err(Error::DoesNotExist { link: p, kind: Kind::Snapshot }), w),
                Some(f) => match snapshot::parse(f) {
                    Err(e) => (Err(e), w),
                    Ok(footer) => if footer.index == u32::MAX {
                        (Err(Error::TooManyEntries), w)
                    } else {
                        (
                            Ok(()),
                            WriterView {
                                offset: footer.count,
                                count: footer.count,
                                index: (footer.index + 1) as u32,
                                snapshot: Some(
                                    (
                                        f.subrange(0, f.len() - snapshot::SIZE),
                                        f.subrange(0, f.len() - snapshot::SIZE),
                                    ),
                                ),
                                ..w
                            },
                        )
                    },
                },
            },
        }
    }
}

/// The result and the new state of writing `entry` with a writer in state `w`.
pub open spec fn write_step(w: WriterView, entry: Seq<u8>) -> (Result<u32, Error>, WriterView) {
    if entry.len() != w.entry_size {
        (Err(Error::FileSize { expected: w.entry_size as usize, got: entry.len() as usize }), w)
    } else if w.count == u32::MAX {
        (Err(Error::TooManyEntries), w)
    } else {
        (
            Ok(w.count),
            WriterView {
                count: (w.count + 1) as u32,
                written: w.written.push(entry),
                delta: w.delta + entry,
                snapshot: match w.snapshot {
                    Some((b, s)) => Some((b, s + entry)),
                    None => None,
                },
                ..w
            },
        )
    }
}

/// The files that finishing a writer in state `w` gives: the entries written
/// followed by the footer, and for the snapshot the bytes copied before them.
pub open spec fn finished_files(w: WriterView, link: Finished) -> bool {
    &&& link.id == w.id
    &&& link.delta@ == concat(w.written) + delta::encoding(delta_footer(w))
    &&& match w.snapshot {
        Some((b, _)) => (link.snapshot matches Some(s) && s@ == b + concat(w.written)
            + snapshot::encoding(snapshot_footer(w))),
        None => link.snapshot is None,
    }
}

/// A writer of a new link.
pub struct Writer {
    offset: u32,
    count: u32,
    id: LinkId,
    previous: Option<LinkId>,
    index: u32,
    entry_size: usize,
    delta: storage::Writer,
    snapshot: Option<storage::Writer>,
    written: Ghost<Seq<Seq<u8>>>,
    base: Ghost<Seq<u8>>,
}

impl View for Writer {
    type V = WriterView;

    closed spec fn view(&self) -> WriterView {
        WriterView {
            id: self.id,
            previous: self.previous,
            index: self.index,
            offset: self.offset,
            count: self.count,
            entry_size: self.entry_size as nat,
            written: self.written@,
            delta: self.delta@,
            snapshot: match &self.snapshot {
                Some(w) => Some((self.base@, w@)),
                None => None,
            },
        }
    }
}

/// The delta footer of a link being written.
pub open spec fn delta_footer(w: WriterView) -> delta::Footer {
    delta::Footer {
        previous: w.previous,
        index: w.index,
        total: w.count,
        count: (w.count - w.offset) as u32,
    }
}

/// The snapshot footer of a link being written.
pub open spec fn snapshot_footer(w: WriterView) -> snapshot::Footer {
    snapshot::Footer { previous: w.previous, index: w.index, count: w.count }
}

/// The footer of the previous link has yet to be read before writing.
pub open spec fn seed_due_of(w: WriterView) -> bool {
    w.index == 0 && w.previous is Some && w.snapshot is None
}

impl Writer {
    /// The delta holds the entries written, and the snapshot the bytes copied
    /// followed by them; each entry has the size of an entry, and the new link
    /// has written `count - offset` of them.
    pub open spec fn wf(&self) -> bool {
        &&& self@.offset <= self@.count
        &&& self@.written.len() == self@.count - self@.offset
        &&& forall|i: int| 0 <= i < self@.written.len() ==> #[trigger] self@.written[i].len() == self@.entry_size
        &&& self@.delta == concat(self@.written)
        &&& self@.snapshot matches Some((base, s)) ==> s == base + concat(self@.written)
        &&& self@.id.value != 0
        &&& seed_due_of(self@) ==> self@.offset == 0 && self@.count == 0
    }

    /// Creates a writer of a new link extending `previous`, whose entries have
    /// `entry_size` bytes.
    pub fn create(previous: Option<LinkId>, entry_size: usize) -> (r: Writer)
        ensures
            r.wf(),
            r@.previous == previous,
            r@.index == 0,
            r@.offset == 0,
            r@.count == 0,
            r@.entry_size == entry_size,
            r@.written == Seq::<Seq<u8>>::empty(),
            r@.snapshot is None,
    {
        let id = LinkId::random();
        Writer {
            offset: 0,
            count: 0,
            id,
            previous,
            index: 0,
            entry_size,
            delta: storage::Writer::new(),
            snapshot: None,
            written: Ghost(Seq::empty()),
            base: Ghost(Seq::empty()),
        }
    }

    /// Returns the ID of the new link.
    pub fn id(&self) -> (r: LinkId)
        ensures
            r == self@.id,
    {
        self.id
    }

    /// Returns the link that the new link extends.
    pub fn previous(&self) -> (r: Option<LinkId>)
        ensures
            r == self@.previous,
    {
        self.previous
    }

    /// Returns the previous link whose delta must be handed to [`Writer::seed`]
    /// before any entry is written, if there is one: where the new link
    /// extends a link and no snapshot was asked for, the footer of that link's
    /// delta gives the identifiers and the position to go on from.
    pub fn seed_due(&self) -> (r: Option<LinkId>)
        ensures
            seed_due_of(self@) ==> r == self@.previous,
            !seed_due_of(self@) ==> r is None,
    {
        if self.index == 0 && self.snapshot.is_none() {
            self.previous
        } else {
            None
        }
    }

    /// Reads the footer of the delta of the previous link, which continues the
    /// identifiers and the position in the chain from it.
    ///
    /// Fails with `DoesNotExist` where the delta is missing, with the errors of
    /// reading a footer, and with `TooManyEntries` where the previous link is
    /// at the last position a `u32` counts.
    pub fn seed(&mut self, previous_delta: Option<Vec<u8>>) -> (r: Result<(), Error>)
        requires
            old(self).wf(),
            seed_due_of(old(self)@),
        ensures
            final(self).wf(),
            (r, final(self)@) == seed_step(
                old(self)@,
                match previous_delta {
                    Some(f) => Some(f@),
                    None => None,
                },
            ),
    {
        let f = match previous_delta {
            Some(f) => f,
            None => {
                let link = match self.previous {
                    Some(p) => p,
                    None => {
                        assert(false);
                        LinkId { value: 0 }
                    },
                };
                return Err(Error::DoesNotExist { link, kind: Kind::Delta });
            },
        };
        let mut reader = storage::Reader::new(f);
        assert(reader@.bytes.subrange(0, reader@.file_size) =~= reader@.bytes);
        let footer = match delta::Footer::read(&mut reader) {
            Ok(footer) => footer,
            Err(e) => {
                return Err(e);
            },
        };
        if footer.index == 0xffff_ffff {
            return Err(Error::TooManyEntries);
        }
        self.offset = footer.total;
        self.count = footer.total;
        self.index = footer.index + 1;
        Ok(())
    }

    /// Starts the snapshot file of the new link, copying into it the body of
    /// the snapshot of the previous link, if there is one, which continues the
    /// identifiers and the position in the chain from it.
    ///
    /// Fails with `NotEmpty` where entries were written already, with
    /// `DoesNotExist` where the previous snapshot is missing, with the errors of
    /// reading a footer, and with `TooManyEntries` where the previous link is at
    /// the last position a `u32` counts.
    pub fn with_snapshot(&mut self, previous_snapshot: Option<Vec<u8>>) -> (r: Result<(), Error>)
        requires
            old(self).wf(),
        ensures
            final(self).wf(),
            (r, final(self)@) == snapshot_step(
                old(self)@,
                match previous_snapshot {
                    Some(f) => Some(f@),
                    None => None,
                },
            ),
    {
        if self.count != self.offset {
            return Err(Error::NotEmpty);
        }
        let mut snapshot = storage::Writer::new();
        match self.previous {
            None => {
                self.snapshot = Some(snapshot);
                self.base = Ghost(Seq::empty());
                assert(concat(self@.written) =~= seq![]);
                Ok(())
            },
            Some(previous) => {
                let f = match previous_snapshot {
                    Some(f) => f,
                    None => {
                        return Err(Error::DoesNotExist { link: previous, kind: Kind::Snapshot });
                    },
                };
                let ghost fv = f@;
                let mut reader = storage::Reader::new(f);
                assert(reader@.bytes.subrange(0, reader@.file_size) =~= reader@.bytes);
                let footer = match snapshot::Footer::read(&mut reader) {
                    Ok(footer) => footer,
                    Err(e) => {
                        return Err(e);
                    },
                };
                if footer.index == 0xffff_ffff {
                    return Err(Error::TooManyEntries);
                }
                snapshot.copy_from(reader);
                self.base = Ghost(fv.subrange(0, fv.len() - snapshot::SIZE));
                assert(snapshot@ =~= self.base@);
                assert(concat(self@.written) =~= seq![]);
                assert(self.base@ + concat(self@.written) =~= self.base@);
                self.snapshot = Some(snapshot);
                self.offset = footer.count;
                self.count = footer.count;
                self.index = footer.index + 1;
                Ok(())
            },
        }
    }

    /// Writes an entry to the new link, returning the identifier it is given.
    ///
    /// The entry must not be in any previous link. Fails with `FileSize` where
    /// it does not have the size of an entry, and with `TooManyEntries` where
    /// every `u32` is taken.
    pub fn write_unique(&mut self, entry: &[u8]) -> (r: Result<u32, Error>)
        requires
            old(self).wf(),
            !seed_due_of(old(self)@),
        ensures
            final(self).wf(),
            (r, final(self)@) == write_step(old(self)@, entry@),
    {
        if entry.len() != self.entry_size {
            return Err(Error::FileSize { expected: self.entry_size, got: entry.len() });
        }
        if self.count == 0xffff_ffff {
            return Err(Error::TooManyEntries);
        }
        let id = self.count;
        self.count = self.count + 1;
        self.delta.write_bytes(entry);
        match &mut self.snapshot {
            Some(s) => {
                s.write_bytes(entry);
            },
            None => {},
        }
        let ghost w = self.written@;
        self.written = Ghost(w.push(entry@));
        proof {
            assert(self@.written.drop_last() =~= w);
            assert(concat(self@.written) == concat(w) + entry@);
            match self@.snapshot {
                Some((b, s)) => {
                    assert(s =~= b + concat(self@.written));
                },
                None => {},
            }
        }
        Ok(id)
    }

    /// Finishes the new link, returning its ID and the bytes of its files: the
    /// entries written followed by the footer, and for the snapshot the bytes
    /// copied before them.
    ///
    /// Fails with `Empty` where no entry was written.
    pub fn finish(self) -> (r: Result<Finished, Error>)
        requires
            self.wf(),
        ensures
            self@.offset == self@.count ==> r == Err::<Finished, Error>(Error::Empty),
            self@.offset < self@.count ==> (r matches Ok(link) && finished_files(self@, link)),
    {
        if self.offset == self.count {
            return Err(Error::Empty);
        }
        let ghost v = self@;
        let Writer { offset, count, id, previous, index, mut delta, snapshot, .. } = self;
        let dfooter = delta::Footer { previous, index, total: count, count: count - offset };
        dfooter.write(&mut delta);
        let snapshot = match snapshot {
            Some(mut s) => {
                let sfooter = snapshot::Footer { previous, index, count };
                sfooter.write(&mut s);
                Some(s.finish())
            },
            None => None,
        };
        Ok(Finished { id, delta: delta.finish(), snapshot })
    }
}

} // verus!
