//! Paths of the files of links, and framed reading and writing of those files.
//!
//! A [`Reader`] reads a file that the caller fetched from the object store; a
//! [`Writer`] accumulates the bytes of a new file, which the caller stores once
//! it is finished.

use vstd::prelude::*;
use vstd::string::*;

use crate::bytes::{be_bytes, be_value, push_be, read_be};
use crate::error::Error;
use crate::LinkId;

verus! {

/// The latest version of the storage format.
pub const VERSION: u16 = 0;

/// The kind of a file of a link.
#[derive(Clone, Copy, PartialEq, Eq, Structural, Debug, Hash)]
pub enum Kind {
    Delta,
    Snapshot,
}

/// The word naming a kind of file in paths.
pub open spec fn kind_word(kind: Kind) -> Seq<char> {
    match kind {
        Kind::Delta => seq!['d', 'e', 'l', 't', 'a'],
        Kind::Snapshot => seq!['s', 'n', 'a', 'p', 's', 'h', 'o', 't'],
    }
}

impl Kind {
    /// Returns the word naming the kind in paths.
    pub fn as_str(&self) -> (r: &'static str)
        ensures
            r@ == kind_word(*self),
    {
        match self {
            Kind::Delta => {
                proof {
                    reveal_strlit("delta");
                }
                "delta"
            },
            Kind::Snapshot => {
                proof {
                    reveal_strlit("snapshot");
                }
                "snapshot"
            },
        }
    }
}

/// The lowercase hexadecimal digit of `d`.
pub open spec fn hex_digit(d: nat) -> char {
    seq!['0', '1', '2', '3', '4', '5', '6', '7', '8', '9', 'a', 'b', 'c', 'd', 'e', 'f'][(d % 16) as int]
}

/// The `n` lowest hexadecimal digits of `v`, most significant first.
pub open spec fn hex_digits(v: nat, n: nat) -> Seq<char>
    decreases n,
{
    if n == 0 {
        seq![]
    } else {
        hex_digits(v / 16, (n - 1) as nat).push(hex_digit(v % 16))
    }
}

/// The canonical text of a UUID: 32 lowercase hexadecimal digits in groups of 8,
/// 4, 4, 4 and 12, separated by hyphens.
pub open spec fn uuid_text(v: u128) -> Seq<char> {
    let d = hex_digits(v as nat, 32);
    d.subrange(0, 8) + seq!['-'] + d.subrange(8, 12) + seq!['-'] + d.subrange(12, 16)
        + seq!['-'] + d.subrange(16, 20) + seq!['-'] + d.subrange(20, 32)
}

/// Relies on `uuid::Uuid::from_u128` and the `Display` of
/// `uuid::fmt::Hyphenated` (lowercase digits, hyphens after the 8th, 12th,
/// 16th and 20th), for the text of a link ID in paths.
#[verifier::external_body]
fn link_text(v: u128) -> (r: String)
    ensures
        r@ == uuid_text(v),
{
    uuid::Uuid::from_u128(v).hyphenated().to_string()
}

impl LinkId {
    /// Returns the canonical UUID text of the link ID.
    pub fn to_text(&self) -> (r: String)
        ensures
            r@ == uuid_text(self.value),
    {
        link_text(self.value)
    }
}

/// The path of the file of the given kind of the given link.
pub open spec fn path_of(base: Option<Seq<char>>, id: LinkId, kind: Kind) -> Seq<char> {
    let name = uuid_text(id.value) + seq!['.'] + kind_word(kind);
    match base {
        Some(b) => b + seq!['/'] + name,
        None => name,
    }
}

/// Where the files of links are stored.
pub struct Storage {
    base: Option<String>,
}

impl Storage {
    /// The base path of all files, if there is one.
    pub closed spec fn base(&self) -> Option<Seq<char>> {
        match &self.base {
            Some(b) => Some(b@),
            None => None,
        }
    }

    /// Creates a storage whose files are at the root of the object store.
    pub fn new() -> (r: Storage)
        ensures
            r.base() == None::<Seq<char>>,
    {
        Storage { base: None }
    }

    /// Creates a storage whose files are all under `base`.
    pub fn new_in(base: String) -> (r: Storage)
        ensures
            r.base() == Some(base@),
    {
        Storage { base: Some(base) }
    }

    /// Returns the path of the file of the given kind of the given link.
    pub fn path(&self, id: LinkId, kind: Kind) -> (r: String)
        ensures
            r@ == path_of(self.base(), id, kind),
    {
        let mut r = String::new();
        match &self.base {
            Some(b) => {
                r.append(b.as_str());
                proof {
                    reveal_strlit("/");
                }
                r.append("/");
            },
            None => {},
        }
        let text = id.to_text();
        r.append(text.as_str());
        proof {
            reveal_strlit(".");
        }
        r.append(".");
        r.append(kind.as_str());
        proof {
            let name = uuid_text(id.value) + seq!['.'] + kind_word(kind);
            match self.base() {
                Some(b) => {
                    assert(r@ =~= b + seq!['/'] + name);
                },
                None => {
                    assert(r@ =~= name);
                },
            }
        }
        r
    }
}

/// What a [`Reader`] holds: the bytes of the file, the current position, and the
/// logical size of the file, which may hide its end (a footer already read).
pub struct ReaderView {
    pub bytes: Seq<u8>,
    pub offset: int,
    pub file_size: int,
}

/// A reader of a file fetched from the object store.
pub struct Reader {
    bytes: Vec<u8>,
    offset: usize,
    file_size: usize,
}

impl View for Reader {
    type V = ReaderView;

    closed spec fn view(&self) -> ReaderView {
        ReaderView { bytes: self.bytes@, offset: self.offset as int, file_size: self.file_size as int }
    }
}

impl Reader {
    /// The logical size never exceeds the bytes held, and positions fit in `usize`.
    pub open spec fn wf(&self) -> bool {
        &&& 0 <= self@.file_size <= self@.bytes.len()
        &&& 0 <= self@.offset <= usize::MAX
    }

    /// Creates a reader over the whole of `bytes`, positioned at its start.
    pub fn new(bytes: Vec<u8>) -> (r: Reader)
        ensures
            r.wf(),
            r@.bytes == bytes@,
            r@.offset == 0,
            r@.file_size == bytes@.len(),
    {
        let file_size = bytes.len();
        Reader { bytes, offset: 0, file_size }
    }

    /// Returns the logical size of the file.
    pub fn file_size(&self) -> (r: usize)
        ensures
            r == self@.file_size,
    {
        self.file_size
    }

    /// Moves the position: a positive `offset` counts from the start of the
    /// file, any other from its logical end.
    ///
    /// Fails with `FileSize` where the position would fall before the start.
    pub fn goto(&mut self, offset: isize) -> (r: Result<(), Error>)
        requires
            old(self).wf(),
        ensures
            final(self).wf(),
            final(self)@.bytes == old(self)@.bytes,
            final(self)@.file_size == old(self)@.file_size,
            offset > 0 ==> r is Ok && final(self)@.offset == offset,
            offset <= 0 && old(self)@.file_size + offset >= 0 ==> r is Ok && final(self)@.offset
                == old(self)@.file_size + offset,
            offset <= 0 && old(self)@.file_size + offset < 0 ==> r == Err::<(), Error>(
                Error::FileSize { expected: (-offset) as usize, got: old(self)@.file_size as usize },
            ) && final(self)@ == old(self)@,
    {
        if offset > 0 {
            self.offset = offset as usize;
            Ok(())
        } else if offset == 0 {
            self.offset = self.file_size;
            Ok(())
        } else {
            let back: usize = ((-(offset + 1)) as usize) + 1;
            if back <= self.file_size {
                self.offset = self.file_size - back;
                Ok(())
            } else {
                Err(Error::FileSize { expected: back, got: self.file_size })
            }
        }
    }

    /// Shrinks the logical size of the file, hiding its end.
    pub fn set_file_size(&mut self, file_size: usize)
        requires
            old(self).wf(),
            file_size <= old(self)@.file_size,
        ensures
            final(self).wf(),
            final(self)@ == (ReaderView { file_size: file_size as int, ..old(self)@ }),
    {
        self.file_size = file_size;
    }

    /// Moves the position back to the start of the file.
    pub fn rewind(&mut self)
        requires
            old(self).wf(),
        ensures
            final(self).wf(),
            final(self)@ == (ReaderView { offset: 0, ..old(self)@ }),
    {
        self.offset = 0;
    }

    /// Returns the range of the `len` bytes at the current position.
    ///
    /// Fails with `FileSize` where that range passes the logical end.
    pub fn range(&self, len: usize) -> (r: Result<(usize, usize), Error>)
        requires
            self.wf(),
        ensures
            self@.offset + len <= self@.file_size ==> r == Ok::<(usize, usize), Error>(
                (self@.offset as usize, (self@.offset + len) as usize),
            ),
            self@.offset + len > self@.file_size ==> r == Err::<(usize, usize), Error>(
                Error::FileSize {
                    expected: if self@.offset + len > usize::MAX {
                        usize::MAX
                    } else {
                        (self@.offset + len) as usize
                    },
                    got: self@.file_size as usize,
                },
            ),
    {
        if self.offset > self.file_size || len > self.file_size - self.offset {
            Err(Error::FileSize { expected: self.offset.saturating_add(len), got: self.file_size })
        } else {
            Ok((self.offset, self.offset + len))
        }
    }

    /// Reads the next `len` bytes, moving the position past them.
    pub fn read_bytes(&mut self, len: usize) -> (r: Result<Vec<u8>, Error>)
        requires
            old(self).wf(),
        ensures
            final(self).wf(),
            final(self)@.bytes == old(self)@.bytes,
            final(self)@.file_size == old(self)@.file_size,
            old(self)@.offset + len <= old(self)@.file_size ==> r is Ok && r->Ok_0@
                == old(self)@.bytes.subrange(old(self)@.offset, old(self)@.offset + len)
                && final(self)@.offset == old(self)@.offset + len,
            old(self)@.offset + len > old(self)@.file_size ==> r is Err && r->Err_0
                is FileSize && final(self)@ == old(self)@,
    {
        let (start, end) = self.range(len)?;
        let mut out: Vec<u8> = Vec::with_capacity(len);
        let mut i: usize = start;
        while i < end
            invariant
                start <= i <= end,
                end <= self.file_size <= self.bytes@.len(),
                out@ == self.bytes@.subrange(start as int, i as int),
            decreases end - i,
        {
            out.push(self.bytes[i]);
            assert(out@ =~= self.bytes@.subrange(start as int, i + 1));
            i = i + 1;
        }
        self.offset = end;
        Ok(out)
    }

    /// Reads a big-endian unsigned integer of `n` bytes, moving past it.
    fn read_uint(&mut self, n: usize) -> (r: Result<u128, Error>)
        requires
            old(self).wf(),
            n <= 16,
        ensures
            final(self).wf(),
            final(self)@.bytes == old(self)@.bytes,
            final(self)@.file_size == old(self)@.file_size,
            old(self)@.offset + n <= old(self)@.file_size ==> r is Ok && r->Ok_0 as nat
                == be_value(old(self)@.bytes.subrange(old(self)@.offset, old(self)@.offset + n))
                && final(self)@.offset == old(self)@.offset + n,
            old(self)@.offset + n > old(self)@.file_size ==> r is Err && r->Err_0
                is FileSize && final(self)@ == old(self)@,
    {
        let (start, end) = self.range(n)?;
        let v = read_be(self.bytes.as_slice(), start, n);
        self.offset = end;
        Ok(v)
    }

    /// Reads a big-endian `u16`, moving past it.
    pub fn read_u16(&mut self) -> (r: Result<u16, Error>)
        requires
            old(self).wf(),
        ensures
            final(self).wf(),
            final(self)@.bytes == old(self)@.bytes,
            final(self)@.file_size == old(self)@.file_size,
            old(self)@.offset + 2 <= old(self)@.file_size ==> r is Ok && r->Ok_0 as nat
                == be_value(old(self)@.bytes.subrange(old(self)@.offset, old(self)@.offset + 2))
                && final(self)@.offset == old(self)@.offset + 2,
            old(self)@.offset + 2 > old(self)@.file_size ==> r is Err && r->Err_0
                is FileSize && final(self)@ == old(self)@,
    {
        let v = self.read_uint(2)?;
        proof {
            crate::bytes::lemma_be_value_bound(self@.bytes.subrange(old(self)@.offset, old(self)@.offset + 2));
            crate::bytes::lemma_pow256_16();
        }
        Ok(v as u16)
    }

    /// Reads a big-endian `u32`, moving past it.
    pub fn read_u32(&mut self) -> (r: Result<u32, Error>)
        requires
            old(self).wf(),
        ensures
            final(self).wf(),
            final(self)@.bytes == old(self)@.bytes,
            final(self)@.file_size == old(self)@.file_size,
            old(self)@.offset + 4 <= old(self)@.file_size ==> r is Ok && r->Ok_0 as nat
                == be_value(old(self)@.bytes.subrange(old(self)@.offset, old(self)@.offset + 4))
                && final(self)@.offset == old(self)@.offset + 4,
            old(self)@.offset + 4 > old(self)@.file_size ==> r is Err && r->Err_0
                is FileSize && final(self)@ == old(self)@,
    {
        let v = self.read_uint(4)?;
        proof {
            crate::bytes::lemma_be_value_bound(self@.bytes.subrange(old(self)@.offset, old(self)@.offset + 4));
            crate::bytes::lemma_pow256_16();
        }
        Ok(v as u32)
    }

    /// Reads a big-endian `u64`, moving past it.
    pub fn read_u64(&mut self) -> (r: Result<u64, Error>)
        requires
            old(self).wf(),
        ensures
            final(self).wf(),
            final(self)@.bytes == old(self)@.bytes,
            final(self)@.file_size == old(self)@.file_size,
            old(self)@.offset + 8 <= old(self)@.file_size ==> r is Ok && r->Ok_0 as nat
                == be_value(old(self)@.bytes.subrange(old(self)@.offset, old(self)@.offset + 8))
                && final(self)@.offset == old(self)@.offset + 8,
            old(self)@.offset + 8 > old(self)@.file_size ==> r is Err && r->Err_0
                is FileSize && final(self)@ == old(self)@,
    {
        let v = self.read_uint(8)?;
        proof {
            crate::bytes::lemma_be_value_bound(self@.bytes.subrange(old(self)@.offset, old(self)@.offset + 8));
            crate::bytes::lemma_pow256_16();
        }
        Ok(v as u64)
    }

    /// Reads a big-endian `u128`, moving past it.
    pub fn read_u128(&mut self) -> (r: Result<u128, Error>)
        requires
            old(self).wf(),
        ensures
            final(self).wf(),
            final(self)@.bytes == old(self)@.bytes,
            final(self)@.file_size == old(self)@.file_size,
            old(self)@.offset + 16 <= old(self)@.file_size ==> r is Ok && r->Ok_0 as nat
                == be_value(old(self)@.bytes.subrange(old(self)@.offset, old(self)@.offset + 16))
                && final(self)@.offset == old(self)@.offset + 16,
            old(self)@.offset + 16 > old(self)@.file_size ==> r is Err && r->Err_0
                is FileSize && final(self)@ == old(self)@,
    {
        let v = self.read_uint(16)?;
        proof {
            crate::bytes::lemma_be_value_bound(self@.bytes.subrange(old(self)@.offset, old(self)@.offset + 16));
            crate::bytes::lemma_pow256_16();
        }
        Ok(v as u128)
    }
}

/// A writer of a new file, holding its bytes until the caller stores them.
pub struct Writer {
    bytes: Vec<u8>,
}

impl View for Writer {
    type V = Seq<u8>;

    closed spec fn view(&self) -> Seq<u8> {
        self.bytes@
    }
}

impl Writer {
    /// Creates a writer of an empty file.
    pub fn new() -> (r: Writer)
        ensures
            r@ == Seq::<u8>::empty(),
    {
        Writer { bytes: Vec::new() }
    }

    /// Returns how many bytes have been written.
    pub fn file_size(&self) -> (r: usize)
        ensures
            r == self@.len(),
    {
        self.bytes.len()
    }

    /// Writes the given bytes.
    pub fn write_bytes(&mut self, bytes: &[u8])
        ensures
            final(self)@ == old(self)@ + bytes@,
    {
        let mut i: usize = 0;
        while i < bytes.len()
            invariant
                i <= bytes@.len(),
                self@ == old(self)@ + bytes@.subrange(0, i as int),
            decreases bytes@.len() - i,
        {
            self.bytes.push(bytes[i]);
            assert(self@ =~= old(self)@ + bytes@.subrange(0, i + 1));
            i = i + 1;
        }
        assert(bytes@.subrange(0, bytes@.len() as int) =~= bytes@);
    }

    /// Writes a `u16` in big-endian order.
    pub fn write_u16(&mut self, value: u16)
        ensures
            final(self)@ == old(self)@ + be_bytes(value as nat, 2),
    {
        push_be(&mut self.bytes, value as u128, 2);
    }

    /// Writes a `u32` in big-endian order.
    pub fn write_u32(&mut self, value: u32)
        ensures
            final(self)@ == old(self)@ + be_bytes(value as nat, 4),
    {
        push_be(&mut self.bytes, value as u128, 4);
    }

    /// Writes a `u64` in big-endian order.
    pub fn write_u64(&mut self, value: u64)
        ensures
            final(self)@ == old(self)@ + be_bytes(value as nat, 8),
    {
        push_be(&mut self.bytes, value as u128, 8);
    }

    /// Writes a `u128` in big-endian order.
    pub fn write_u128(&mut self, value: u128)
        ensures
            final(self)@ == old(self)@ + be_bytes(value as nat, 16),
    {
        push_be(&mut self.bytes, value as u128, 16);
    }

    /// Writes what `reader` holds from its position to its logical end.
    pub fn copy_from(&mut self, reader: Reader)
        requires
            reader.wf(),
        ensures
            reader@.offset <= reader@.file_size ==> final(self)@ == old(self)@
                + reader@.bytes.subrange(reader@.offset, reader@.file_size),
            reader@.offset > reader@.file_size ==> final(self)@ == old(self)@,
    {
        if reader.offset < reader.file_size {
            self.write_bytes(&reader.bytes.as_slice()[reader.offset..reader.file_size]);
        } else {
            proof {
                assert(reader@.offset == reader@.file_size ==> reader@.bytes.subrange(
                    reader@.offset,
                    reader@.file_size,
                ) =~= Seq::<u8>::empty());
                assert(reader@.offset == reader@.file_size ==> old(self)@ + Seq::<u8>::empty()
                    =~= old(self)@);
            }
        }
    }

    /// Finishes the file, returning its bytes.
    pub fn finish(self) -> (r: Vec<u8>)
        ensures
            r@ == self@,
    {
        self.bytes
    }
}

} // verus!
