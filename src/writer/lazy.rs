//! A writer which creates the new link only on its first entry.

use vstd::prelude::*;

use super::{finished_files, seed_due_of, seed_step, snapshot_step, write_step, Finished, Writer, WriterView};
use crate::error::Error;
use crate::LinkId;

verus! {

/// What a [`LazyWriter`] holds.
pub struct LazyWriterView {
    /// The link that the new link extends.
    pub previous: Option<LinkId>,
    /// The size of an entry.
    pub entry_size: nat,
    /// Whether a snapshot was asked for.
    pub snapshot: bool,
    /// The writer of the new link, once created.
    pub writer: Option<WriterView>,
}

/// The result and the writer that a lazy writer in state `l` makes of the new
/// writer `w`, asking it for a snapshot with the previous snapshot `file`
/// where one was asked for.
pub open spec fn created(l: LazyWriterView, w: WriterView, file: Option<Seq<u8>>) -> (Result<(), Error>, WriterView) {
    if l.snapshot {
        snapshot_step(w, file)
    } else {
        (Ok(()), w)
    }
}

/// A writer of a new link which creates the link on its first entry.
pub struct LazyWriter {
    previous: Option<LinkId>,
    entry_size: usize,
    snapshot: bool,
    writer: Option<Writer>,
}

impl View for LazyWriter {
    type V = LazyWriterView;

    closed spec fn view(&self) -> LazyWriterView {
        LazyWriterView {
            previous: self.previous,
            entry_size: self.entry_size as nat,
            snapshot: self.snapshot,
            writer: match &self.writer {
                Some(w) => Some(w@),
                None => None,
            },
        }
    }
}

impl LazyWriter {
    pub closed spec fn wf(&self) -> bool {
        self.writer matches Some(w) ==> w.wf()
    }

    /// Creates a lazy writer of a new link extending `previous`, whose entries
    /// have `entry_size` bytes.
    pub fn create(previous: Option<LinkId>, entry_size: usize) -> (r: LazyWriter)
        ensures
            r.wf(),
            r@ == (LazyWriterView {
                previous,
                entry_size: entry_size as nat,
                snapshot: false,
                writer: None,
            }),
    {
        LazyWriter { previous, entry_size, snapshot: false, writer: None }
    }

    /// Asks for a snapshot file for the new link.
    ///
    /// Fails with `NotEmpty` where the link has been created already.
    pub fn with_snapshot(&mut self) -> (r: Result<(), Error>)
        requires
            old(self).wf(),
        ensures
            final(self).wf(),
            old(self)@.writer is Some ==> r == Err::<(), Error>(Error::NotEmpty) && final(self)@
                == old(self)@,
            old(self)@.writer is None ==> r is Ok && final(self)@ == (LazyWriterView {
                snapshot: true,
                ..old(self)@
            }),
    {
        if self.writer.is_some() {
            Err(Error::NotEmpty)
        } else {
            self.snapshot = true;
            Ok(())
        }
    }

    /// Returns the previous link whose snapshot must be handed to
    /// [`LazyWriter::make_created`], if there is one.
    pub fn snapshot_due(&self) -> (r: Option<LinkId>)
        ensures
            self@.writer is None && self@.snapshot ==> r == self@.previous,
            !(self@.writer is None && self@.snapshot) ==> r is None,
    {
        if self.writer.is_none() && self.snapshot {
            self.previous
        } else {
            None
        }
    }

    /// Creates the new link where it is not created yet, starting its
    /// snapshot where one was asked for with the previous snapshot `file`.
    ///
    /// On error nothing changes.
    pub fn make_created(&mut self, file: Option<Vec<u8>>) -> (r: Result<(), Error>)
        requires
            old(self).wf(),
        ensures
            final(self).wf(),
            old(self)@.writer is Some ==> r is Ok && final(self)@ == old(self)@,
            old(self)@.writer is None ==> r is Err ==> final(self)@ == old(self)@,
            old(self)@.writer is None ==> exists|w: WriterView|
                {
                    &&& w.previous == old(self)@.previous
                    &&& w.index == 0
                    &&& w.offset == 0
                    &&& w.count == 0
                    &&& w.entry_size == old(self)@.entry_size
                    &&& w.written == Seq::<Seq<u8>>::empty()
                    &&& w.snapshot is None
                    &&& r == created(
                        old(self)@,
                        w,
                        match file {
                            Some(f) => Some(f@),
                            None => None,
                        },
                    ).0
                    &&& r is Ok ==> final(self)@ == (LazyWriterView {
                        writer: Some(
                            created(
                                old(self)@,
                                w,
                                match file {
                                    Some(f) => Some(f@),
                                    None => None,
                                },
                            ).1,
                        ),
                        ..old(self)@
                    })
                },
    {
        if self.writer.is_some() {
            return Ok(());
        }
        let mut w = Writer::create(self.previous, self.entry_size);
        if self.snapshot {
            match w.with_snapshot(file) {
                Ok(()) => {},
                Err(e) => {
                    return Err(e);
                },
            }
        }
        self.writer = Some(w);
        assert(self@.writer == Some(w@));
        Ok(())
    }

    /// Returns the previous link whose delta must be handed to
    /// [`LazyWriter::seed`] before any entry is written, if there is one.
    pub fn seed_due(&self) -> (r: Option<LinkId>)
        ensures
            match self@.writer {
                Some(w) => if seed_due_of(w) {
                    r == w.previous
                } else {
                    r is None
                },
                None => r is None,
            },
    {
        match &self.writer {
            Some(w) => w.seed_due(),
            None => None,
        }
    }

    /// Reads the footer of the delta of the previous link: see [`Writer::seed`].
    pub fn seed(&mut self, previous_delta: Option<Vec<u8>>) -> (r: Result<(), Error>)
        requires
            old(self).wf(),
            old(self)@.writer matches Some(w) && seed_due_of(w),
        ensures
            final(self).wf(),
            final(self)@.writer is Some,
            (r, final(self)@.writer->Some_0) == seed_step(
                old(self)@.writer->Some_0,
                match previous_delta {
                    Some(f) => Some(f@),
                    None => None,
                },
            ),
            final(self)@ == (LazyWriterView { writer: final(self)@.writer, ..old(self)@ }),
    {
        let mut w = self.writer.take().unwrap();
        let r = w.seed(previous_delta);
        self.writer = Some(w);
        r
    }

    /// Writes an entry to the new link, once created: see [`Writer::write_unique`].
    pub fn write_unique(&mut self, entry: &[u8]) -> (r: Result<u32, Error>)
        requires
            old(self).wf(),
            old(self)@.writer matches Some(w) && !seed_due_of(w),
        ensures
            final(self).wf(),
            final(self)@.writer is Some,
            (r, final(self)@.writer->Some_0) == write_step(old(self)@.writer->Some_0, entry@),
            final(self)@ == (LazyWriterView { writer: final(self)@.writer, ..old(self)@ }),
    {
        let mut w = self.writer.take().unwrap();
        let r = w.write_unique(entry);
        self.writer = Some(w);
        r
    }

    /// Finishes the new link: see [`Writer::finish`]. Fails with `Empty`
    /// where the link was never created.
    pub fn finish(self) -> (r: Result<Finished, Error>)
        requires
            self.wf(),
        ensures
            match self@.writer {
                Some(w) => if w.offset == w.count {
                    r == Err::<Finished, Error>(Error::Empty)
                } else {
                    r matches Ok(link) && finished_files(w, link)
                },
                None => r == Err::<Finished, Error>(Error::Empty),
            },
    {
        match self.writer {
            Some(w) => w.finish(),
            None => Err(Error::Empty),
        }
    }
}

} // verus!
