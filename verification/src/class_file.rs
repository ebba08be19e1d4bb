//! The structural model of a class file and its decoder.
//!
//! The format is big-endian and positional: nothing in it describes itself
//! beyond length prefixes, so every field is read in its place, kept or not.
//! Neither the magic number nor the version is checked.

use vstd::prelude::*;
use crate::constant_pool::{spec_const_pool, ConstPool, ConstView};
use crate::decode::{
    field_bytes, field_skip, field_u16, field_u32, spec_bytes, spec_skip, spec_u16, spec_u32,
    DecodeError, Field,
};
use crate::model::{lemma_views_push, views};
use crate::reader::{reads_all_as, reads_as, ByteReader};

verus! {

/// A named blob attached to a class, a field, a method or a code body.
#[derive(Debug)]
pub struct Attribute {
    pub name_idx: u16,
    pub info: Vec<u8>,
}

/// The mathematical value of an [`Attribute`].
pub struct AttributeView {
    pub name_idx: u16,
    pub info: Seq<u8>,
}

impl View for Attribute {
    type V = AttributeView;

    open spec fn view(&self) -> AttributeView {
        AttributeView { name_idx: self.name_idx, info: self.info@ }
    }
}

/// A method as the class file declares it: its name and descriptor are still
/// indices into the constant pool, its attributes are kept as they came.
#[derive(Debug)]
pub struct Method {
    pub name_idx: u16,
    pub descriptor_idx: u16,
    pub attributes: Vec<Attribute>,
}

/// The mathematical value of a [`Method`].
pub struct MethodView {
    pub name_idx: u16,
    pub descriptor_idx: u16,
    pub attributes: Seq<AttributeView>,
}

impl View for Method {
    type V = MethodView;

    open spec fn view(&self) -> MethodView {
        MethodView {
            name_idx: self.name_idx,
            descriptor_idx: self.descriptor_idx,
            attributes: views(self.attributes@),
        }
    }
}

/// What decoding a class file yields.
#[derive(Debug)]
pub struct ClassFile {
    pub const_pool: ConstPool,
    /// The index of the class constant that names this class.
    pub this_class: u16,
    /// The index of the class constant that names the super class.
    pub super_class: u16,
    pub methods: Vec<Method>,
}

/// The mathematical value of a [`ClassFile`].
pub struct ClassFileView {
    pub const_pool: Seq<ConstView>,
    pub this_class: u16,
    pub super_class: u16,
    pub methods: Seq<MethodView>,
}

impl View for ClassFile {
    type V = ClassFileView;

    open spec fn view(&self) -> ClassFileView {
        ClassFileView {
            const_pool: self.const_pool@,
            this_class: self.this_class,
            super_class: self.super_class,
            methods: views(self.methods@),
        }
    }
}

/// Decoding one attribute of `s` at `pos`: a name index, a length and that
/// many raw bytes.
pub open spec fn spec_attribute(s: Seq<u8>, pos: int) -> Result<(AttributeView, int), DecodeError> {
    match spec_u16(s, pos, Field::AttributeNameIndex) {
        Err(e) => Err(e),
        Ok((name_idx, pos1)) => match spec_u32(s, pos1, Field::AttributeLength) {
            Err(e) => Err(e),
            Ok((length, pos2)) => match spec_bytes(s, pos2, length as int, Field::AttributeInfo) {
                Err(e) => Err(e),
                Ok((info, pos3)) => Ok((AttributeView { name_idx, info }, pos3)),
            },
        },
    }
}

/// Decoding the first `n` attributes of `s` from `pos` on.
pub open spec fn spec_attributes(s: Seq<u8>, pos: int, n: nat) -> Result<
    (Seq<AttributeView>, int),
    DecodeError,
>
    decreases n,
{
    if n == 0 {
        Ok((Seq::empty(), pos))
    } else {
        match spec_attributes(s, pos, (n - 1) as nat) {
            Err(e) => Err(e),
            Ok((attributes, p)) => match spec_attribute(s, p) {
                Err(e) => Err(e),
                Ok((a, q)) => Ok((attributes.push(a), q)),
            },
        }
    }
}

/// Decoding an attribute list of `s` at `pos`: a count, then that many
/// attributes.
pub open spec fn spec_attribute_list(s: Seq<u8>, pos: int) -> Result<
    (Seq<AttributeView>, int),
    DecodeError,
> {
    match spec_u16(s, pos, Field::AttributeCount) {
        Err(e) => Err(e),
        Ok((count, p)) => spec_attributes(s, p, count as nat),
    }
}

/// Decoding one field or method of `s` at `pos`; the two have the same shape:
/// access flags, a name index, a descriptor index and an attribute list.
pub open spec fn spec_member(s: Seq<u8>, pos: int) -> Result<(MethodView, int), DecodeError> {
    match spec_u16(s, pos, Field::MemberAccessFlags) {
        Err(e) => Err(e),
        Ok((_, pos1)) => match spec_u16(s, pos1, Field::MemberNameIndex) {
            Err(e) => Err(e),
            Ok((name_idx, pos2)) => match spec_u16(s, pos2, Field::MemberDescriptorIndex) {
                Err(e) => Err(e),
                Ok((descriptor_idx, pos3)) => match spec_attribute_list(s, pos3) {
                    Err(e) => Err(e),
                    Ok((attributes, pos4)) => Ok(
                        (MethodView { name_idx, descriptor_idx, attributes }, pos4),
                    ),
                },
            },
        },
    }
}

/// Decoding the first `n` fields or methods of `s` from `pos` on.
pub open spec fn spec_members(s: Seq<u8>, pos: int, n: nat) -> Result<
    (Seq<MethodView>, int),
    DecodeError,
>
    decreases n,
{
    if n == 0 {
        Ok((Seq::empty(), pos))
    } else {
        match spec_members(s, pos, (n - 1) as nat) {
            Err(e) => Err(e),
            Ok((members, p)) => match spec_member(s, p) {
                Err(e) => Err(e),
                Ok((m, q)) => Ok((members.push(m), q)),
            },
        }
    }
}

/// Decoding a list of fields or methods of `s` at `pos`: a count, read as the
/// field `count_field`, then that many members.
pub open spec fn spec_member_list(s: Seq<u8>, pos: int, count_field: Field) -> Result<
    (Seq<MethodView>, int),
    DecodeError,
> {
    match spec_u16(s, pos, count_field) {
        Err(e) => Err(e),
        Ok((count, p)) => spec_members(s, p, count as nat),
    }
}

/// Passing over the interface list of `s` at `pos`: a count, then that many
/// two-byte indices.
pub open spec fn spec_interfaces(s: Seq<u8>, pos: int) -> Result<((), int), DecodeError> {
    match spec_u16(s, pos, Field::InterfaceCount) {
        Err(e) => Err(e),
        Ok((count, p)) => spec_skip(s, p, 2 * count, Field::Interfaces),
    }
}

/// Decoding a class file of `s` at `pos`, field by field in the order of the
/// format: the header, the constant pool, the access flags, this class, the
/// super class, the interfaces, the fields, the methods and the attributes
/// of the class.
pub open spec fn spec_class_file(s: Seq<u8>, pos: int) -> Result<
    (ClassFileView, int),
    DecodeError,
> {
    match spec_skip(s, pos, 8, Field::Header) {
        Err(e) => Err(e),
        Ok((_, pos1)) => match spec_const_pool(s, pos1) {
            Err(e) => Err(e),
            Ok((const_pool, pos2)) => match spec_u16(s, pos2, Field::ClassAccessFlags) {
                Err(e) => Err(e),
                Ok((_, pos3)) => match spec_u16(s, pos3, Field::ThisClass) {
                    Err(e) => Err(e),
                    Ok((this_class, pos4)) => match spec_u16(s, pos4, Field::SuperClass) {
                        Err(e) => Err(e),
                        Ok((super_class, pos5)) => match spec_class_members(s, pos5) {
                            Err(e) => Err(e),
                            Ok((methods, pos6)) => Ok(
                                (
                                    ClassFileView { const_pool, this_class, super_class, methods },
                                    pos6,
                                ),
                            ),
                        },
                    },
                },
            },
        },
    }
}

/// Decoding what follows the super class: the interfaces and the fields,
/// which are passed over, the methods, which are kept, and the attributes of
/// the class, which are passed over too.
pub open spec fn spec_class_members(s: Seq<u8>, pos: int) -> Result<
    (Seq<MethodView>, int),
    DecodeError,
> {
    match spec_interfaces(s, pos) {
        Err(e) => Err(e),
        Ok((_, pos1)) => match spec_member_list(s, pos1, Field::FieldCount) {
            Err(e) => Err(e),
            Ok((_, pos2)) => match spec_member_list(s, pos2, Field::MethodCount) {
                Err(e) => Err(e),
                Ok((methods, pos3)) => match spec_attribute_list(s, pos3) {
                    Err(e) => Err(e),
                    Ok((_, pos4)) => Ok((methods, pos4)),
                },
            },
        },
    }
}

/// Once the first `k` attributes fail to decode, so do the first `n >= k`,
/// and in the same way.
pub proof fn lemma_attributes_error_persists(s: Seq<u8>, pos: int, k: nat, n: nat)
    requires
        k <= n,
        spec_attributes(s, pos, k) is Err,
    ensures
        spec_attributes(s, pos, n) == spec_attributes(s, pos, k),
    decreases n,
{
    if k < n {
        lemma_attributes_error_persists(s, pos, k, (n - 1) as nat);
    }
}

/// Once the first `k` members fail to decode, so do the first `n >= k`, and
/// in the same way.
pub proof fn lemma_members_error_persists(s: Seq<u8>, pos: int, k: nat, n: nat)
    requires
        k <= n,
        spec_members(s, pos, k) is Err,
    ensures
        spec_members(s, pos, n) == spec_members(s, pos, k),
    decreases n,
{
    if k < n {
        lemma_members_error_persists(s, pos, k, (n - 1) as nat);
    }
}

/// Decoding `n` attributes yields `n` attributes.
pub proof fn lemma_attributes_len(s: Seq<u8>, pos: int, n: nat)
    requires
        spec_attributes(s, pos, n) is Ok,
    ensures
        spec_attributes(s, pos, n)->Ok_0.0.len() == n,
    decreases n,
{
    if n > 0 {
        lemma_attributes_len(s, pos, (n - 1) as nat);
    }
}

/// Decoding `n` members yields `n` members.
pub proof fn lemma_members_len(s: Seq<u8>, pos: int, n: nat)
    requires
        spec_members(s, pos, n) is Ok,
    ensures
        spec_members(s, pos, n)->Ok_0.0.len() == n,
    decreases n,
{
    if n > 0 {
        lemma_members_len(s, pos, (n - 1) as nat);
    }
}

impl Attribute {
    /// Decodes one attribute: a name index, a length and that many raw bytes.
    pub fn from_reader(reader: &mut ByteReader) -> (res: Result<Attribute, DecodeError>)
        ensures
            final(reader).bytes() == old(reader).bytes(),
            reads_as(
                res,
                final(reader).offset(),
                spec_attribute(old(reader).bytes(), old(reader).offset()),
            ),
            res is Err ==> final(reader).offset() == old(reader).offset(),
    {
        let mut work = reader.fork();
        let name_idx: u16 = field_u16(&mut work, Field::AttributeNameIndex)?;
        let length: u32 = field_u32(&mut work, Field::AttributeLength)?;
        let info = field_bytes(&mut work, length as usize, Field::AttributeInfo)?;
        *reader = work;
        Ok(Attribute { name_idx, info })
    }
}

/// Decodes an attribute list: a count, then that many attributes.
pub fn read_attributes(reader: &mut ByteReader) -> (res: Result<Vec<Attribute>, DecodeError>)
    ensures
        final(reader).bytes() == old(reader).bytes(),
        reads_all_as(
            res,
            final(reader).offset(),
            spec_attribute_list(old(reader).bytes(), old(reader).offset()),
        ),
        res is Err ==> final(reader).offset() == old(reader).offset(),
{
    let mut work = reader.fork();
    let count: u16 = field_u16(&mut work, Field::AttributeCount)?;
    let ghost s = work.bytes();
    let ghost start = work.offset();
    let mut attributes: Vec<Attribute> = Vec::with_capacity(count as usize);
    let mut i: u16 = 0;
    assert(views(attributes@) =~= Seq::<AttributeView>::empty());
    while i < count
        invariant
            i <= count,
            s == old(reader).bytes(),
            *reader == *old(reader),
            spec_u16(s, old(reader).offset(), Field::AttributeCount) == Ok::<
                (u16, int),
                DecodeError,
            >((count, start)),
            work.bytes() == s,
            spec_attributes(s, start, i as nat) == Ok::<(Seq<AttributeView>, int), DecodeError>(
                (views(attributes@), work.offset()),
            ),
        decreases count - i,
    {
        match Attribute::from_reader(&mut work) {
            Ok(a) => {
                proof {
                    lemma_views_push(attributes@, a);
                }
                attributes.push(a);
            },
            Err(e) => {
                proof {
                    lemma_attributes_error_persists(s, start, (i + 1) as nat, count as nat);
                }
                return Err(e);
            },
        }
        i = i + 1;
    }
    *reader = work;
    Ok(attributes)
}

impl Method {
    /// Decodes one method: access flags, which are dropped, a name index, a
    /// descriptor index and an attribute list.  A field has the same shape.
    pub fn from_reader(reader: &mut ByteReader) -> (res: Result<Method, DecodeError>)
        ensures
            final(reader).bytes() == old(reader).bytes(),
            reads_as(
                res,
                final(reader).offset(),
                spec_member(old(reader).bytes(), old(reader).offset()),
            ),
            res is Err ==> final(reader).offset() == old(reader).offset(),
    {
        let mut work = reader.fork();
        let _access_flags: u16 = field_u16(&mut work, Field::MemberAccessFlags)?;
        let name_idx: u16 = field_u16(&mut work, Field::MemberNameIndex)?;
        let descriptor_idx: u16 = field_u16(&mut work, Field::MemberDescriptorIndex)?;
        let attributes = read_attributes(&mut work)?;
        *reader = work;
        Ok(Method { name_idx, descriptor_idx, attributes })
    }
}

/// Decodes a list of fields or methods: a count, read as the field
/// `count_field`, then that many members.
pub fn read_members(reader: &mut ByteReader, count_field: Field) -> (res: Result<
    Vec<Method>,
    DecodeError,
>)
    ensures
        final(reader).bytes() == old(reader).bytes(),
        reads_all_as(
            res,
            final(reader).offset(),
            spec_member_list(old(reader).bytes(), old(reader).offset(), count_field),
        ),
        res is Err ==> final(reader).offset() == old(reader).offset(),
{
    let mut work = reader.fork();
    let count: u16 = field_u16(&mut work, count_field)?;
    let ghost s = work.bytes();
    let ghost start = work.offset();
    let mut members: Vec<Method> = Vec::with_capacity(count as usize);
    let mut i: u16 = 0;
    assert(views(members@) =~= Seq::<MethodView>::empty());
    while i < count
        invariant
            i <= count,
            s == old(reader).bytes(),
            *reader == *old(reader),
            spec_u16(s, old(reader).offset(), count_field) == Ok::<(u16, int), DecodeError>(
                (count, start),
            ),
            work.bytes() == s,
            spec_members(s, start, i as nat) == Ok::<(Seq<MethodView>, int), DecodeError>(
                (views(members@), work.offset()),
            ),
        decreases count - i,
    {
        match Method::from_reader(&mut work) {
            Ok(m) => {
                proof {
                    lemma_views_push(members@, m);
                }
                members.push(m);
            },
            Err(e) => {
                proof {
                    lemma_members_error_persists(s, start, (i + 1) as nat, count as nat);
                }
                return Err(e);
            },
        }
        i = i + 1;
    }
    *reader = work;
    Ok(members)
}

impl ClassFile {
    /// Decodes a class file from a reader that stands at its first byte.
    ///
    /// The header is passed over unchecked.  Interfaces, fields and the
    /// attributes of the class are read, so that what follows them is found
    /// in its place, and dropped.  The reader is left behind the last byte of
    /// the class file, or, where the bytes are no class file, where it was.
    pub fn read_from(reader: &mut ByteReader) -> (res: Result<ClassFile, DecodeError>)
        ensures
            final(reader).bytes() == old(reader).bytes(),
            reads_as(
                res,
                final(reader).offset(),
                spec_class_file(old(reader).bytes(), old(reader).offset()),
            ),
            res is Err ==> final(reader).offset() == old(reader).offset(),
    {
        let mut work = reader.fork();
        field_skip(&mut work, 8, Field::Header)?;
        let const_pool = ConstPool::from_reader(&mut work)?;
        let _access_flags: u16 = field_u16(&mut work, Field::ClassAccessFlags)?;
        let this_class: u16 = field_u16(&mut work, Field::ThisClass)?;
        let super_class: u16 = field_u16(&mut work, Field::SuperClass)?;
        let interface_count: u16 = field_u16(&mut work, Field::InterfaceCount)?;
        field_skip(&mut work, 2 * (interface_count as usize), Field::Interfaces)?;
        let _fields = read_members(&mut work, Field::FieldCount)?;
        let methods = read_members(&mut work, Field::MethodCount)?;
        let _attributes = read_attributes(&mut work)?;
        *reader = work;
        Ok(ClassFile { const_pool, this_class, super_class, methods })
    }
}

} // verus!
