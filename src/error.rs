use vstd::prelude::*;

use crate::LinkId;
use crate::storage::Kind;

verus! {

/// The errors of the library.
#[allow(inconsistent_fields)]
#[derive(Debug, PartialEq, Eq)]
pub enum Error {
    /// Loading backward from `latest`, the chain ended at `got` before reaching
    /// `expected`.
    Disconnected { latest: LinkId, expected: LinkId, got: LinkId },
    /// The file of the given kind of the given link does not exist.
    DoesNotExist { link: LinkId, kind: Kind },
    /// A link was finished without any entry.
    Empty,
    /// A file is smaller than it must be.
    FileSize { expected: usize, got: usize },
    /// A snapshot was asked for after entries were written to the link.
    NotEmpty,
    /// The object store failed, with the store's own message.
    Storage(String),
    /// No more entries fit in the `u32` identifiers.
    TooManyEntries,
    /// A file was written with another version of the format.
    Version { expected: u16, got: u16 },
}

} // verus!
