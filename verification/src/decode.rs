//! Decoding errors, and reads that know which field they are reading.
//!
//! Every decoder of this library follows one rule: where it fails, it leaves
//! the reader where it found it.

use vstd::prelude::*;
use crate::reader::{
    read_length, read_u16, read_u32, read_u8, reads_as, skip_length, spec_read_length,
    spec_read_u16, spec_read_u32, spec_read_u8, spec_skip_length, ByteReader, ShortRead,
};

verus! {

/// The fields of the class-file format, as far as this decoder reads them.
#[derive(Debug, Clone, Copy, PartialEq, Eq, Structural)]
pub enum Field {
    /// The magic number and the two version numbers: eight bytes.
    Header,
    ConstantCount,
    ConstantTag,
    Utf8Length,
    Utf8Bytes,
    ClassNameIndex,
    /// The payload of a constant that is consumed without being decoded.
    ConstantPayload,
    ClassAccessFlags,
    ThisClass,
    SuperClass,
    InterfaceCount,
    Interfaces,
    FieldCount,
    MethodCount,
    /// The access flags of a field or a method.
    MemberAccessFlags,
    MemberNameIndex,
    MemberDescriptorIndex,
    AttributeCount,
    AttributeNameIndex,
    AttributeLength,
    AttributeInfo,
    MaxStack,
    MaxLocals,
    CodeLength,
    Bytecode,
    ExceptionTableLength,
    ExceptionTable,
}

/// Why a byte stream could not be decoded.
#[derive(Debug, Clone, Copy, PartialEq, Eq, Structural)]
pub enum DecodeError {
    /// The stream ended inside `field`.
    Truncated { field: Field, short: ShortRead },
    /// The bytes of a `Utf8` constant are not well-formed text.
    MalformedText,
    /// A constant starts with a tag that this decoder does not know, so the
    /// length of its payload is unknown too.
    UnknownTag { tag: u8 },
}

/// Names the field that a short read happened in.
pub open spec fn in_field<T>(r: Result<T, ShortRead>, field: Field) -> Result<T, DecodeError> {
    match r {
        Ok(v) => Ok(v),
        Err(short) => Err(DecodeError::Truncated { field, short }),
    }
}

/// Reading the one-byte field `field` of `s` at `pos`.
pub open spec fn spec_u8(s: Seq<u8>, pos: int, field: Field) -> Result<(u8, int), DecodeError> {
    in_field(spec_read_u8(s, pos), field)
}

/// Reading the two-byte field `field` of `s` at `pos`.
pub open spec fn spec_u16(s: Seq<u8>, pos: int, field: Field) -> Result<(u16, int), DecodeError> {
    in_field(spec_read_u16(s, pos), field)
}

/// Reading the four-byte field `field` of `s` at `pos`.
pub open spec fn spec_u32(s: Seq<u8>, pos: int, field: Field) -> Result<(u32, int), DecodeError> {
    in_field(spec_read_u32(s, pos), field)
}

/// Reading the field `field` of `n` raw bytes of `s` at `pos`.
pub open spec fn spec_bytes(s: Seq<u8>, pos: int, n: int, field: Field) -> Result<
    (Seq<u8>, int),
    DecodeError,
> {
    in_field(spec_read_length(s, pos, n), field)
}

/// Passing over the field `field` of `n` bytes of `s` at `pos`.
pub open spec fn spec_skip(s: Seq<u8>, pos: int, n: int, field: Field) -> Result<
    ((), int),
    DecodeError,
> {
    in_field(spec_skip_length(s, pos, n), field)
}

/// Reads the one-byte field `field`.
pub fn field_u8(reader: &mut ByteReader, field: Field) -> (res: Result<u8, DecodeError>)
    ensures
        final(reader).bytes() == old(reader).bytes(),
        reads_as(
            res,
            final(reader).offset(),
            spec_u8(old(reader).bytes(), old(reader).offset(), field),
        ),
        res is Err ==> final(reader).offset() == old(reader).offset(),
{
    match read_u8(reader) {
        Ok(v) => Ok(v),
        Err(short) => Err(DecodeError::Truncated { field, short }),
    }
}

/// Reads the two-byte field `field`.
pub fn field_u16(reader: &mut ByteReader, field: Field) -> (res: Result<u16, DecodeError>)
    ensures
        final(reader).bytes() == old(reader).bytes(),
        reads_as(
            res,
            final(reader).offset(),
            spec_u16(old(reader).bytes(), old(reader).offset(), field),
        ),
        res is Err ==> final(reader).offset() == old(reader).offset(),
{
    match read_u16(reader) {
        Ok(v) => Ok(v),
        Err(short) => Err(DecodeError::Truncated { field, short }),
    }
}

/// Reads the four-byte field `field`.
pub fn field_u32(reader: &mut ByteReader, field: Field) -> (res: Result<u32, DecodeError>)
    ensures
        final(reader).bytes() == old(reader).bytes(),
        reads_as(
            res,
            final(reader).offset(),
            spec_u32(old(reader).bytes(), old(reader).offset(), field),
        ),
        res is Err ==> final(reader).offset() == old(reader).offset(),
{
    match read_u32(reader) {
        Ok(v) => Ok(v),
        Err(short) => Err(DecodeError::Truncated { field, short }),
    }
}

/// Reads the field `field` of `length` raw bytes.
pub fn field_bytes(reader: &mut ByteReader, length: usize, field: Field) -> (res: Result<
    Vec<u8>,
    DecodeError,
>)
    ensures
        final(reader).bytes() == old(reader).bytes(),
        reads_as(
            res,
            final(reader).offset(),
            spec_bytes(old(reader).bytes(), old(reader).offset(), length as int, field),
        ),
        res is Err ==> final(reader).offset() == old(reader).offset(),
{
    match read_length(reader, length) {
        Ok(v) => Ok(v),
        Err(short) => Err(DecodeError::Truncated { field, short }),
    }
}

/// Passes over the field `field` of `length` bytes.
pub fn field_skip(reader: &mut ByteReader, length: usize, field: Field) -> (res: Result<
    (),
    DecodeError,
>)
    ensures
        final(reader).bytes() == old(reader).bytes(),
        reads_as(
            res,
            final(reader).offset(),
            spec_skip(old(reader).bytes(), old(reader).offset(), length as int, field),
        ),
        res is Err ==> final(reader).offset() == old(reader).offset(),
{
    match skip_length(reader, length) {
        Ok(v) => Ok(v),
        Err(short) => Err(DecodeError::Truncated { field, short }),
    }
}

} // verus!
