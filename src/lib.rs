//! A chain of dictionaries stored in immutable files.
//!
//! Each link of a chain adds new unique entries to the dictionary of the link it
//! extends, and every entry is mapped to a `u32` which never changes once
//! assigned. A link is stored as a delta file (the entries it adds) and,
//! optionally, a snapshot file (every entry of the chain up to that link). Both
//! kinds of files end with a footer, so that they can be written to storages
//! which only support appending to files.
//!
//! The library holds the logic: the binary format, the entries index, and the
//! decisions of readers and writers. Fetching and storing files is left to the
//! caller, which hands the library the bytes of each file it asks for.

use vstd::prelude::*;

use crate::bytes::{push_be, read_be};

pub mod bytes;
pub mod chain;
pub mod delta;
pub mod entries;
pub mod error;
pub mod reader;
pub mod snapshot;
pub mod storage;
pub mod writer;

pub use error::Error;
pub use reader::{Opening, Reader, Reloading};
pub use storage::{Kind, Storage};
pub use writer::{Finished, LazyWriter, Writer};


verus! {

/// The ID of a link in a chain.
///
/// It is a 128-bit value, conventionally a UUID. The value `0` stands for "no
/// previous link" in the binary format, so no link is ever given it.
#[derive(Clone, Copy, PartialEq, Eq, Structural, Hash, Debug)]
pub struct LinkId {
    pub value: u128,
}

impl LinkId {
    /// Converts the given `u128` to a link ID.
    pub fn from_u128(num: u128) -> (r: LinkId)
        ensures
            r.value == num,
    {
        LinkId { value: num }
    }

    /// Converts the link ID to a `u128`.
    pub fn as_u128(&self) -> (r: u128)
        ensures
            r == self.value,
    {
        self.value
    }
}

/// An entry which can be inserted into a chain: a value with an encoding of a
/// fixed size. Two entries are equal where their encodings are.
pub trait Entry: Sized {
    /// The size of an encoded entry.
    fn size() -> usize;

    /// Encodes the entry on exactly `size()` bytes.
    fn encode(&self) -> Vec<u8>;

    /// Decodes an entry from its bytes, or `None` where there are not
    /// `size()` of them.
    fn decode(bytes: &[u8]) -> Option<Self>;
}

impl Entry for u32 {
    fn size() -> usize {
        4
    }

    fn encode(&self) -> Vec<u8> {
        let mut out: Vec<u8> = Vec::new();
        push_be(&mut out, *self as u128, 4);
        out
    }

    fn decode(bytes: &[u8]) -> Option<u32> {
        if bytes.len() != 4 {
            return None;
        }
        let v = read_be(bytes, 0, 4);
        proof {
            crate::bytes::lemma_be_value_bound(bytes@.subrange(0, 4));
            crate::bytes::lemma_pow256_16();
        }
        Some(v as u32)
    }
}

impl Entry for u64 {
    fn size() -> usize {
        8
    }

    fn encode(&self) -> Vec<u8> {
        let mut out: Vec<u8> = Vec::new();
        push_be(&mut out, *self as u128, 8);
        out
    }

    fn decode(bytes: &[u8]) -> Option<u64> {
        if bytes.len() != 8 {
            return None;
        }
        let v = read_be(bytes, 0, 8);
        proof {
            crate::bytes::lemma_be_value_bound(bytes@.subrange(0, 8));
            crate::bytes::lemma_pow256_16();
        }
        Some(v as u64)
    }
}

impl Entry for u128 {
    fn size() -> usize {
        16
    }

    fn encode(&self) -> Vec<u8> {
        let mut out: Vec<u8> = Vec::new();
        push_be(&mut out, *self, 16);
        out
    }

    fn decode(bytes: &[u8]) -> Option<u128> {
        if bytes.len() != 16 {
            return None;
        }
        Some(read_be(bytes, 0, 16))
    }
}

} // verus!
