//! A cursor over a byte slice and the big-endian primitives read through it.
//!
//! A read either yields its value and moves the cursor behind it, or fails
//! and leaves the cursor where it was: no read consumes a part of what it
//! could not have whole.

use vstd::prelude::*;
use vstd::slice::*;
use crate::model::views;

verus! {

/// A read ran out of input: `needed` bytes were asked for when only
/// `available` were left.
#[derive(Debug, Clone, Copy, PartialEq, Eq, Structural)]
pub struct ShortRead {
    pub needed: usize,
    pub available: usize,
}

/// The value of two bytes read as a big-endian integer.
pub open spec fn be_u16(b0: u8, b1: u8) -> u16 {
    (b0 as int * 0x100 + b1 as int) as u16
}

/// The value of four bytes read as a big-endian integer.
pub open spec fn be_u32(b0: u8, b1: u8, b2: u8, b3: u8) -> u32 {
    (b0 as int * 0x100_0000 + b1 as int * 0x1_0000 + b2 as int * 0x100 + b3 as int) as u32
}

/// Whether `n` bytes can be read from `s` starting at `pos`.
pub open spec fn can_read(s: Seq<u8>, pos: int, n: int) -> bool {
    0 <= pos && 0 <= n && pos + n <= s.len()
}

/// The error reported when `n` bytes are wanted at `pos` and `s` is too short.
pub open spec fn short_read(s: Seq<u8>, pos: int, n: int) -> ShortRead {
    ShortRead { needed: n as usize, available: (s.len() - pos) as usize }
}

/// Reading one byte of `s` at `pos`: the byte and the position behind it.
pub open spec fn spec_read_u8(s: Seq<u8>, pos: int) -> Result<(u8, int), ShortRead> {
    if can_read(s, pos, 1) {
        Ok((s[pos], pos + 1))
    } else {
        Err(short_read(s, pos, 1))
    }
}

/// Reading a big-endian `u16` of `s` at `pos`.
pub open spec fn spec_read_u16(s: Seq<u8>, pos: int) -> Result<(u16, int), ShortRead> {
    if can_read(s, pos, 2) {
        Ok((be_u16(s[pos], s[pos + 1]), pos + 2))
    } else {
        Err(short_read(s, pos, 2))
    }
}

/// Reading a big-endian `u32` of `s` at `pos`.
pub open spec fn spec_read_u32(s: Seq<u8>, pos: int) -> Result<(u32, int), ShortRead> {
    if can_read(s, pos, 4) {
        Ok((be_u32(s[pos], s[pos + 1], s[pos + 2], s[pos + 3]), pos + 4))
    } else {
        Err(short_read(s, pos, 4))
    }
}

/// Reading `n` raw bytes of `s` at `pos`.
pub open spec fn spec_read_length(s: Seq<u8>, pos: int, n: int) -> Result<
    (Seq<u8>, int),
    ShortRead,
> {
    if can_read(s, pos, n) {
        Ok((s.subrange(pos, pos + n), pos + n))
    } else {
        Err(short_read(s, pos, n))
    }
}

/// Passing over `n` bytes of `s` at `pos` without looking at them.
pub open spec fn spec_skip_length(s: Seq<u8>, pos: int, n: int) -> Result<((), int), ShortRead> {
    if can_read(s, pos, n) {
        Ok(((), pos + n))
    } else {
        Err(short_read(s, pos, n))
    }
}

/// What a read returned, with the reader left at `end`, is the outcome that the
/// model `want` describes: the same error, or a value with the modelled view
/// and the modelled end position.
pub open spec fn reads_as<T: View, E>(
    res: Result<T, E>,
    end: int,
    want: Result<(T::V, int), E>,
) -> bool {
    match (res, want) {
        (Ok(v), Ok((m, pos))) => v@ == m && end == pos,
        (Err(e), Err(f)) => e == f,
        _ => false,
    }
}

/// As [`reads_as`], for a read that returns a list: the views of its items
/// are the modelled views, in the same order.
pub open spec fn reads_all_as<T: View, E>(
    res: Result<Vec<T>, E>,
    end: int,
    want: Result<(Seq<T::V>, int), E>,
) -> bool {
    match (res, want) {
        (Ok(v), Ok((m, pos))) => views(v@) == m && end == pos,
        (Err(e), Err(f)) => e == f,
        _ => false,
    }
}

/// A forward-only cursor over a borrowed byte slice.
pub struct ByteReader<'a> {
    data: &'a [u8],
    pos: usize,
}

impl<'a> ByteReader<'a> {
    /// The position never passes the end of the data.
    #[verifier::type_invariant]
    spec fn in_bounds(self) -> bool {
        self.pos <= self.data@.len()
    }

    /// All the bytes the reader was created over, consumed or not.
    pub closed spec fn bytes(self) -> Seq<u8> {
        self.data@
    }

    /// The number of bytes consumed so far.
    pub closed spec fn offset(self) -> int {
        self.pos as int
    }

    /// A reader positioned at the first byte of `data`.
    pub fn new(data: &'a [u8]) -> (reader: Self)
        ensures
            reader.bytes() == data@,
            reader.offset() == 0,
    {
        ByteReader { data, pos: 0 }
    }

    /// A second reader over the same bytes, at the same position.  Reading
    /// from it leaves this reader where it is.
    pub fn fork(&self) -> (reader: Self)
        ensures
            reader.bytes() == self.bytes(),
            reader.offset() == self.offset(),
    {
        proof {
            use_type_invariant(self);
        }
        ByteReader { data: self.data, pos: self.pos }
    }

    /// The number of bytes consumed so far.
    pub fn position(&self) -> (pos: usize)
        ensures
            pos == self.offset(),
            pos <= self.bytes().len(),
    {
        proof {
            use_type_invariant(self);
        }
        self.pos
    }

    /// The number of bytes not yet consumed.
    pub fn remaining(&self) -> (n: usize)
        ensures
            n == self.bytes().len() - self.offset(),
    {
        proof {
            use_type_invariant(self);
        }
        self.data.len() - self.pos
    }
}

/// Reads one byte, or reports how far the input fell short.
pub fn read_u8(reader: &mut ByteReader) -> (res: Result<u8, ShortRead>)
    ensures
        final(reader).bytes() == old(reader).bytes(),
        reads_as(
            res,
            final(reader).offset(),
            spec_read_u8(old(reader).bytes(), old(reader).offset()),
        ),
        res is Err ==> final(reader).offset() == old(reader).offset(),
{
    proof {
        use_type_invariant(&*reader);
    }
    let available: usize = reader.data.len() - reader.pos;
    if available < 1 {
        return Err(ShortRead { needed: 1, available });
    }
    let v: u8 = reader.data[reader.pos];
    reader.pos = reader.pos + 1;
    Ok(v)
}

/// Reads a big-endian `u32`, or reports how far the input fell short.
pub fn read_u32(reader: &mut ByteReader) -> (res: Result<u32, ShortRead>)
    ensures
        final(reader).bytes() == old(reader).bytes(),
        reads_as(
            res,
            final(reader).offset(),
            spec_read_u32(old(reader).bytes(), old(reader).offset()),
        ),
        res is Err ==> final(reader).offset() == old(reader).offset(),
{
    proof {
        use_type_invariant(&*reader);
    }
    let available: usize = reader.data.len() - reader.pos;
    if available < 4 {
        return Err(ShortRead { needed: 4, available });
    }
    let b0: u32 = reader.data[reader.pos] as u32;
    let b1: u32 = reader.data[reader.pos + 1] as u32;
    let b2: u32 = reader.data[reader.pos + 2] as u32;
    let b3: u32 = reader.data[reader.pos + 3] as u32;
    reader.pos = reader.pos + 4;
    Ok(b0 * 0x100_0000 + b1 * 0x1_0000 + b2 * 0x100 + b3)
}

/// Reads a big-endian `u16`, or reports how far the input fell short.
pub fn read_u16(reader: &mut ByteReader) -> (res: Result<u16, ShortRead>)
    ensures
        final(reader).bytes() == old(reader).bytes(),
        reads_as(
            res,
            final(reader).offset(),
            spec_read_u16(old(reader).bytes(), old(reader).offset()),
        ),
        res is Err ==> final(reader).offset() == old(reader).offset(),
{
    proof {
        use_type_invariant(&*reader);
    }
    let available: usize = reader.data.len() - reader.pos;
    if available < 2 {
        return Err(ShortRead { needed: 2, available });
    }
    let b0: u16 = reader.data[reader.pos] as u16;
    let b1: u16 = reader.data[reader.pos + 1] as u16;
    reader.pos = reader.pos + 2;
    Ok(b0 * 0x100 + b1)
}

/// Reads exactly `length` raw bytes, or reports how far the input fell short.
pub fn read_length(reader: &mut ByteReader, length: usize) -> (res: Result<Vec<u8>, ShortRead>)
    ensures
        final(reader).bytes() == old(reader).bytes(),
        reads_as(
            res,
            final(reader).offset(),
            spec_read_length(old(reader).bytes(), old(reader).offset(), length as int),
        ),
        res is Err ==> final(reader).offset() == old(reader).offset(),
{
    proof {
        use_type_invariant(&*reader);
    }
    let available: usize = reader.data.len() - reader.pos;
    if available < length {
        return Err(ShortRead { needed: length, available });
    }
    let end: usize = reader.pos + length;
    let bytes = slice_to_vec(slice_subrange(reader.data, reader.pos, end));
    reader.pos = end;
    Ok(bytes)
}

/// Passes over exactly `length` bytes, or reports how far the input fell short.
pub fn skip_length(reader: &mut ByteReader, length: usize) -> (res: Result<(), ShortRead>)
    ensures
        final(reader).bytes() == old(reader).bytes(),
        reads_as(
            res,
            final(reader).offset(),
            spec_skip_length(old(reader).bytes(), old(reader).offset(), length as int),
        ),
        res is Err ==> final(reader).offset() == old(reader).offset(),
{
    proof {
        use_type_invariant(&*reader);
    }
    let available: usize = reader.data.len() - reader.pos;
    if available < length {
        return Err(ShortRead { needed: length, available });
    }
    reader.pos = reader.pos + length;
    Ok(())
}

} // verus!
