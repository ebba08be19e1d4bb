//! The body of a method: the `Code` attribute and its decoder.

use vstd::prelude::*;
use crate::class_file::{read_attributes, spec_attribute_list};
use crate::decode::{
    field_bytes, field_u16, field_u32, spec_bytes, spec_u16, spec_u32, DecodeError, Field,
};
use crate::reader::{be_u16, reads_as, ByteReader};

verus! {

/// One row of an exception table: the handler at `handler_pc` covers the
/// offsets from `start_pc` up to, not including, `end_pc`, for exceptions of
/// the class that `catch_type` names.
#[derive(Debug, Clone, Copy, PartialEq, Eq, Structural)]
pub struct ExceptionEntry {
    pub start_pc: u16,
    pub end_pc: u16,
    pub handler_pc: u16,
    pub catch_type: u16,
}

/// What executing a method needs of its `Code` attribute.
#[derive(Debug)]
pub struct Code {
    pub max_stack: u16,
    pub max_locals: u16,
    pub code: Vec<u8>,
    pub exception_table: Vec<ExceptionEntry>,
}

/// The mathematical value of a [`Code`].
pub struct CodeView {
    pub max_stack: u16,
    pub max_locals: u16,
    pub code: Seq<u8>,
    pub exception_table: Seq<ExceptionEntry>,
}

impl View for Code {
    type V = CodeView;

    open spec fn view(&self) -> CodeView {
        CodeView {
            max_stack: self.max_stack,
            max_locals: self.max_locals,
            code: self.code@,
            exception_table: self.exception_table@,
        }
    }
}

/// The body of a method that has none: no code, no handlers, no stack.
pub open spec fn spec_empty_code() -> CodeView {
    CodeView { max_stack: 0, max_locals: 0, code: Seq::empty(), exception_table: Seq::empty() }
}

/// Row `i` of the exception table stored in `block`: four big-endian `u16`
/// fields in eight bytes.
pub open spec fn spec_exception_entry(block: Seq<u8>, i: int) -> ExceptionEntry {
    ExceptionEntry {
        start_pc: be_u16(block[8 * i], block[8 * i + 1]),
        end_pc: be_u16(block[8 * i + 2], block[8 * i + 3]),
        handler_pc: be_u16(block[8 * i + 4], block[8 * i + 5]),
        catch_type: be_u16(block[8 * i + 6], block[8 * i + 7]),
    }
}

/// The exception table stored in `block`: one row for every eight bytes.
pub open spec fn spec_exception_table(block: Seq<u8>) -> Seq<ExceptionEntry> {
    Seq::new((block.len() / 8) as nat, |i: int| spec_exception_entry(block, i))
}

/// Decoding the payload of a `Code` attribute of `s` at `pos`: the stack and
/// local sizes, the length-prefixed bytecode, the count-prefixed exception
/// table and an attribute list, which is passed over.
pub open spec fn spec_code(s: Seq<u8>, pos: int) -> Result<(CodeView, int), DecodeError> {
    match spec_u16(s, pos, Field::MaxStack) {
        Err(e) => Err(e),
        Ok((max_stack, pos1)) => match spec_u16(s, pos1, Field::MaxLocals) {
            Err(e) => Err(e),
            Ok((max_locals, pos2)) => match spec_u32(s, pos2, Field::CodeLength) {
                Err(e) => Err(e),
                Ok((code_length, pos3)) => match spec_bytes(
                    s,
                    pos3,
                    code_length as int,
                    Field::Bytecode,
                ) {
                    Err(e) => Err(e),
                    Ok((code, pos4)) => match spec_code_tail(s, pos4) {
                        Err(e) => Err(e),
                        Ok((exception_table, pos5)) => Ok(
                            (CodeView { max_stack, max_locals, code, exception_table }, pos5),
                        ),
                    },
                },
            },
        },
    }
}

/// Decoding what follows the bytecode: the exception table, which is kept,
/// and the attributes of the code, which are passed over.
pub open spec fn spec_code_tail(s: Seq<u8>, pos: int) -> Result<
    (Seq<ExceptionEntry>, int),
    DecodeError,
> {
    match spec_u16(s, pos, Field::ExceptionTableLength) {
        Err(e) => Err(e),
        Ok((table_length, pos1)) => match spec_bytes(
            s,
            pos1,
            8 * table_length,
            Field::ExceptionTable,
        ) {
            Err(e) => Err(e),
            Ok((block, pos2)) => match spec_attribute_list(s, pos2) {
                Err(e) => Err(e),
                Ok((_, pos3)) => Ok((spec_exception_table(block), pos3)),
            },
        },
    }
}

/// Whether `code` has as many bytes of code as the stream `s`, which holds
/// its encoding at `pos`, declares in its code length, and as many rows in
/// its exception table as the stream declares in its table length.
pub open spec fn has_declared_lengths(s: Seq<u8>, pos: int, code: CodeView) -> bool {
    spec_u32(s, pos + 4, Field::CodeLength) matches Ok((code_length, behind)) && spec_u16(
        s,
        behind + code_length,
        Field::ExceptionTableLength,
    ) matches Ok((table_length, _)) && code.code.len() == code_length
        && code.exception_table.len() == table_length
}

/// A decoded body has the lengths that the stream declares.
pub proof fn lemma_declared_lengths(s: Seq<u8>, pos: int)
    requires
        spec_code(s, pos) is Ok,
    ensures
        has_declared_lengths(s, pos, spec_code(s, pos)->Ok_0.0),
{
}

/// Decodes the rows of an exception table from the bytes that hold it.
fn exception_table(block: &Vec<u8>, rows: u16) -> (table: Vec<ExceptionEntry>)
    requires
        block@.len() == 8 * rows,
    ensures
        table@ == spec_exception_table(block@),
{
    let mut table: Vec<ExceptionEntry> = Vec::with_capacity(rows as usize);
    let mut i: usize = 0;
    while i < rows as usize
        invariant
            i <= rows,
            block@.len() == 8 * rows,
            table@.len() == i,
            forall|j: int| 0 <= j < i ==> table@[j] == spec_exception_entry(block@, j),
        decreases rows - i,
    {
        let at: usize = 8 * i;
        let entry = ExceptionEntry {
            start_pc: block[at] as u16 * 0x100 + block[at + 1] as u16,
            end_pc: block[at + 2] as u16 * 0x100 + block[at + 3] as u16,
            handler_pc: block[at + 4] as u16 * 0x100 + block[at + 5] as u16,
            catch_type: block[at + 6] as u16 * 0x100 + block[at + 7] as u16,
        };
        table.push(entry);
        i = i + 1;
    }
    assert(table@ =~= spec_exception_table(block@));
    table
}

impl Code {
    /// The body of a method that has none, as an abstract or a native method.
    pub fn empty() -> (code: Code)
        ensures
            code@ == spec_empty_code(),
    {
        Code { max_stack: 0, max_locals: 0, code: Vec::new(), exception_table: Vec::new() }
    }

    /// Decodes the payload of a `Code` attribute.
    ///
    /// The bytecode has exactly the length that the payload declares, and the
    /// exception table exactly the declared number of rows.  The attributes
    /// of the code are read and dropped.
    pub fn read_from(reader: &mut ByteReader) -> (res: Result<Code, DecodeError>)
        ensures
            final(reader).bytes() == old(reader).bytes(),
            reads_as(
                res,
                final(reader).offset(),
                spec_code(old(reader).bytes(), old(reader).offset()),
            ),
            res matches Ok(code) ==> has_declared_lengths(
                old(reader).bytes(),
                old(reader).offset(),
                code@,
            ),
            res is Err ==> final(reader).offset() == old(reader).offset(),
    {
        let mut work = reader.fork();
        let max_stack: u16 = field_u16(&mut work, Field::MaxStack)?;
        let max_locals: u16 = field_u16(&mut work, Field::MaxLocals)?;
        let code_length: u32 = field_u32(&mut work, Field::CodeLength)?;
        let code = field_bytes(&mut work, code_length as usize, Field::Bytecode)?;
        let table_length: u16 = field_u16(&mut work, Field::ExceptionTableLength)?;
        let block = field_bytes(&mut work, 8 * (table_length as usize), Field::ExceptionTable)?;
        let exception_table = exception_table(&block, table_length);
        let _attributes = read_attributes(&mut work)?;
        *reader = work;
        Ok(Code { max_stack, max_locals, code, exception_table })
    }
}

} // verus!
