//! The footer of delta files.
//!
//! A delta file holds the entries that its link adds, followed by the footer:
//! `previous` (16 bytes, `0` for none), `index`, `total` and `count` (4 bytes
//! each) and the format version (2 bytes), all big-endian. The version comes
//! last so that it stays at the same place should later versions grow the
//! footer.

use vstd::prelude::*;

use crate::bytes::{be_bytes, be_value, lemma_be_round_trip, lemma_pow256_16};
use crate::error::Error;
use crate::storage::{Reader, Writer, VERSION};
use crate::LinkId;

verus! {

/// The size of the footer of a delta file.
pub const SIZE: usize = 30;

/// The value encoding a previous link: its ID, or `0` where there is none.
pub open spec fn previous_value(previous: Option<LinkId>) -> nat {
    match previous {
        Some(id) => id.value as nat,
        None => 0,
    }
}

/// The previous link that a value encodes.
pub open spec fn previous_of(v: nat) -> Option<LinkId> {
    if v == 0 {
        None
    } else {
        Some(LinkId { value: v as u128 })
    }
}

/// A previous link that the binary format can encode: none, or an ID other than `0`.
pub open spec fn previous_valid(previous: Option<LinkId>) -> bool {
    match previous {
        Some(id) => id.value != 0,
        None => true,
    }
}

/// The footer of a delta file.
#[derive(Clone, Copy, PartialEq, Eq, Structural, Debug)]
pub struct Footer {
    /// The link which this link extends.
    pub previous: Option<LinkId>,
    /// The position of this link in its chain, which is its number of ancestors.
    pub index: u32,
    /// The number of entries of the dictionary at this link.
    pub total: u32,
    /// The number of entries that this link adds.
    pub count: u32,
}

/// The bytes of a footer.
pub open spec fn encoding(f: Footer) -> Seq<u8> {
    be_bytes(previous_value(f.previous), 16) + be_bytes(f.index as nat, 4) + be_bytes(
        f.total as nat,
        4,
    ) + be_bytes(f.count as nat, 4) + be_bytes(VERSION as nat, 2)
}

/// The footer whose fields are the last `SIZE` bytes of `file`, a file of at
/// least `SIZE` bytes.
pub open spec fn fields(file: Seq<u8>) -> Footer {
    let t = file.subrange(file.len() - 30, file.len() as int);
    Footer {
        previous: previous_of(be_value(t.subrange(0, 16))),
        index: be_value(t.subrange(16, 20)) as u32,
        total: be_value(t.subrange(20, 24)) as u32,
        count: be_value(t.subrange(24, 28)) as u32,
    }
}

/// The version that the last two bytes of `file` give.
pub open spec fn version_of(file: Seq<u8>) -> u16 {
    be_value(file.subrange(file.len() - 2, file.len() as int)) as u16
}

/// What reading the footer of `file` gives.
pub open spec fn parse(file: Seq<u8>) -> Result<Footer, Error> {
    if file.len() < 30 {
        Err(Error::FileSize { expected: 30, got: file.len() as usize })
    } else if version_of(file) != VERSION {
        Err(Error::Version { expected: VERSION, got: version_of(file) })
    } else {
        Ok(fields(file))
    }
}

/// A footer read back from a file gives the footer written, whatever the body
/// before it: the round trip of the format.
pub proof fn lemma_round_trip(body: Seq<u8>, f: Footer)
    requires
        previous_valid(f.previous),
    ensures
        encoding(f).len() == SIZE,
        parse(body + encoding(f)) == Ok::<Footer, Error>(f),
{
    let e = encoding(f);
    let file = body + e;
    lemma_be_round_trip(previous_value(f.previous), 16);
    lemma_be_round_trip(f.index as nat, 4);
    lemma_be_round_trip(f.total as nat, 4);
    lemma_be_round_trip(f.count as nat, 4);
    lemma_be_round_trip(VERSION as nat, 2);
    lemma_pow256_16();
    let t = file.subrange(file.len() - 30, file.len() as int);
    assert(t =~= e);
    assert(t.subrange(0, 16) =~= be_bytes(previous_value(f.previous), 16));
    assert(t.subrange(16, 20) =~= be_bytes(f.index as nat, 4));
    assert(t.subrange(20, 24) =~= be_bytes(f.total as nat, 4));
    assert(t.subrange(24, 28) =~= be_bytes(f.count as nat, 4));
    assert(file.subrange(file.len() - 2, file.len() as int) =~= be_bytes(VERSION as nat, 2));
    assert(fields(file) == f);
}

impl Footer {
    /// Reads the footer at the end of the file that `reader` reads, then hides
    /// the footer by shrinking the reader's logical size and goes back to the
    /// start of the file, where its entries are.
    ///
    /// Fails with `FileSize` where the file is smaller than a footer, and with
    /// `Version` where its last two bytes are not the current version.
    pub fn read(reader: &mut Reader) -> (r: Result<Footer, Error>)
        requires
            old(reader).wf(),
        ensures
            final(reader).wf(),
            r == parse(old(reader)@.bytes.subrange(0, old(reader)@.file_size)),
            final(reader)@.bytes == old(reader)@.bytes,
            r is Ok ==> final(reader)@.file_size == old(reader)@.file_size - SIZE
                && final(reader)@.offset == 0,
    {
        let ghost file = reader@.bytes.subrange(0, reader@.file_size);
        let file_size = reader.file_size();
        if file_size < SIZE {
            return Err(Error::FileSize { expected: SIZE, got: file_size });
        }
        reader.goto(-2)?;
        let version = reader.read_u16()?;
        assert(reader@.bytes.subrange(file_size - 2, file_size as int) =~= file.subrange(
            file.len() - 2,
            file.len() as int,
        ));
        if version != VERSION {
            return Err(Error::Version { expected: VERSION, got: version });
        }
        reader.goto(-30)?;
        let ghost t = file.subrange(file.len() - 30, file.len() as int);
        let previous = reader.read_u128()?;
        assert(reader@.bytes.subrange(file_size - 30, file_size - 14) =~= t.subrange(0, 16));
        let index = reader.read_u32()?;
        assert(reader@.bytes.subrange(file_size - 14, file_size - 10) =~= t.subrange(16, 20));
        let total = reader.read_u32()?;
        assert(reader@.bytes.subrange(file_size - 10, file_size - 6) =~= t.subrange(20, 24));
        let count = reader.read_u32()?;
        assert(reader@.bytes.subrange(file_size - 6, file_size - 2) =~= t.subrange(24, 28));
        let previous = if previous == 0 {
            None
        } else {
            Some(LinkId::from_u128(previous))
        };
        reader.set_file_size(file_size - SIZE);
        reader.rewind();
        Ok(Footer { previous, index, total, count })
    }

    /// Writes the footer at the end of the file that `writer` writes.
    pub fn write(&self, writer: &mut Writer)
        ensures
            final(writer)@ == old(writer)@ + encoding(*self),
    {
        let previous: u128 = match self.previous {
            Some(id) => id.as_u128(),
            None => 0,
        };
        writer.write_u128(previous);
        writer.write_u32(self.index);
        writer.write_u32(self.total);
        writer.write_u32(self.count);
        writer.write_u16(VERSION);
        assert(final(writer)@ =~= old(writer)@ + encoding(*self));
    }
}

} // verus!
