//! The constant pool: its entries, their decoder and the typed accessors.

use vstd::prelude::*;
use crate::decode::{
    field_bytes, field_skip, field_u16, field_u8, spec_bytes, spec_skip, spec_u16, spec_u8,
    DecodeError, Field,
};
use crate::model::{agrees, lemma_views_push, views};
use crate::reader::{reads_as, ByteReader};
use crate::text::{decode_text, spec_decode_text};

verus! {

/// A constant that holds text.
#[derive(Debug, PartialEq)]
pub struct Utf8 {
    pub bytes: String,
}

/// A constant that refers to a class by the index of the `Utf8` constant
/// that holds its binary name.
#[derive(Debug, PartialEq)]
pub struct Class {
    pub name_idx: u16,
}

/// One entry of the constant pool.
#[derive(Debug, PartialEq)]
pub enum Const {
    Utf8(Utf8),
    Class(Class),
    /// A constant of a kind that is recognised and passed over.
    Opaque,
}

/// The mathematical value of a [`Const`].
pub enum ConstView {
    Utf8(Seq<char>),
    Class { name_idx: u16 },
    Opaque,
}

impl View for Utf8 {
    type V = Seq<char>;

    open spec fn view(&self) -> Seq<char> {
        self.bytes@
    }
}

impl View for Class {
    type V = u16;

    /// A class constant is the index of its name.
    open spec fn view(&self) -> u16 {
        self.name_idx
    }
}

impl View for Const {
    type V = ConstView;

    open spec fn view(&self) -> ConstView {
        match self {
            Const::Utf8(utf8) => ConstView::Utf8(utf8@),
            Const::Class(class) => ConstView::Class { name_idx: class.name_idx },
            Const::Opaque => ConstView::Opaque,
        }
    }
}

/// The constant pool of a class: an ordered table whose first entry has
/// index 1.
#[derive(Debug)]
pub struct ConstPool {
    consts: Vec<Const>,
}

impl View for ConstPool {
    type V = Seq<ConstView>;

    /// The entries in order; the entry of index `i` stands at `i - 1`.
    closed spec fn view(&self) -> Seq<ConstView> {
        views(self.consts@)
    }
}

/// The kinds of constant that the pool tells apart.
#[derive(Debug, Clone, Copy, PartialEq, Eq, Structural)]
pub enum ConstKind {
    Utf8,
    Class,
    Opaque,
}

/// Why a constant could not be had from the pool.
#[derive(Debug, Clone, Copy, PartialEq, Eq, Structural)]
pub enum PoolError {
    /// The pool has no entry of this index.
    OutOfRange { index: u16 },
    /// The entry of this index is of another kind than the one asked for.
    WrongKind { index: u16, expected: ConstKind, found: ConstKind },
}

/// The number of payload bytes behind the tag of a constant that is passed
/// over, or `None` for any other tag.
pub open spec fn spec_opaque_payload(tag: u8) -> Option<usize> {
    if tag == 3 || tag == 4 {
        // a 32-bit integer or float
        Some(4)
    } else if tag == 5 || tag == 6 {
        // a 64-bit integer or float
        Some(8)
    } else if tag == 8 || tag == 16 {
        // a string or a method type: one index
        Some(2)
    } else if tag == 9 || tag == 10 || tag == 11 || tag == 12 || tag == 18 {
        // a field, method or interface-method reference, a name-and-type
        // pair, a dynamic call site: two indices
        Some(4)
    } else if tag == 15 {
        // a method handle: a kind and an index
        Some(3)
    } else {
        None
    }
}

/// Decoding one constant of `s` at `pos`.
pub open spec fn spec_const(s: Seq<u8>, pos: int) -> Result<(ConstView, int), DecodeError> {
    match spec_u8(s, pos, Field::ConstantTag) {
        Err(e) => Err(e),
        Ok((tag, pos1)) => if tag == 1 {
            match spec_u16(s, pos1, Field::Utf8Length) {
                Err(e) => Err(e),
                Ok((length, pos2)) => match spec_bytes(s, pos2, length as int, Field::Utf8Bytes) {
                    Err(e) => Err(e),
                    Ok((bytes, pos3)) => match spec_decode_text(bytes) {
                        None => Err(DecodeError::MalformedText),
                        Some(text) => Ok((ConstView::Utf8(text), pos3)),
                    },
                },
            }
        } else if tag == 7 {
            match spec_u16(s, pos1, Field::ClassNameIndex) {
                Err(e) => Err(e),
                Ok((name_idx, pos2)) => Ok((ConstView::Class { name_idx }, pos2)),
            }
        } else {
            match spec_opaque_payload(tag) {
                None => Err(DecodeError::UnknownTag { tag }),
                Some(n) => match spec_skip(s, pos1, n as int, Field::ConstantPayload) {
                    Err(e) => Err(e),
                    Ok((_, pos2)) => Ok((ConstView::Opaque, pos2)),
                },
            }
        },
    }
}

/// Decoding the first `n` constants of `s` from `pos` on.
pub open spec fn spec_consts(s: Seq<u8>, pos: int, n: nat) -> Result<
    (Seq<ConstView>, int),
    DecodeError,
>
    decreases n,
{
    if n == 0 {
        Ok((Seq::empty(), pos))
    } else {
        match spec_consts(s, pos, (n - 1) as nat) {
            Err(e) => Err(e),
            Ok((consts, p)) => match spec_const(s, p) {
                Err(e) => Err(e),
                Ok((c, q)) => Ok((consts.push(c), q)),
            },
        }
    }
}

/// The number of entries of a pool whose declared count is `count`: index 0
/// is reserved and has no entry.
pub open spec fn spec_pool_entries(count: u16) -> nat {
    if count == 0 {
        0
    } else {
        (count - 1) as nat
    }
}

/// Decoding a constant pool of `s` at `pos`: its count, then its entries.
pub open spec fn spec_const_pool(s: Seq<u8>, pos: int) -> Result<
    (Seq<ConstView>, int),
    DecodeError,
> {
    match spec_u16(s, pos, Field::ConstantCount) {
        Err(e) => Err(e),
        Ok((count, p)) => spec_consts(s, p, spec_pool_entries(count)),
    }
}

/// The kind of a constant.
pub open spec fn spec_kind(c: ConstView) -> ConstKind {
    match c {
        ConstView::Utf8(_) => ConstKind::Utf8,
        ConstView::Class { .. } => ConstKind::Class,
        ConstView::Opaque => ConstKind::Opaque,
    }
}

/// The entry of index `idx` in `pool`.  Index 0 is reserved, and so has no
/// entry; the last index is the number of entries.
pub open spec fn pool_get(pool: Seq<ConstView>, idx: u16) -> Result<ConstView, PoolError> {
    if 1 <= idx <= pool.len() {
        Ok(pool[idx - 1])
    } else {
        Err(PoolError::OutOfRange { index: idx })
    }
}

/// The text of the entry of index `idx`, which must be a `Utf8` constant.
pub open spec fn pool_utf8(pool: Seq<ConstView>, idx: u16) -> Result<Seq<char>, PoolError> {
    match pool_get(pool, idx) {
        Err(e) => Err(e),
        Ok(ConstView::Utf8(text)) => Ok(text),
        Ok(other) => Err(
            PoolError::WrongKind {
                index: idx,
                expected: ConstKind::Utf8,
                found: spec_kind(other),
            },
        ),
    }
}

/// The name index of the entry of index `idx`, which must be a class
/// constant.
pub open spec fn pool_class(pool: Seq<ConstView>, idx: u16) -> Result<u16, PoolError> {
    match pool_get(pool, idx) {
        Err(e) => Err(e),
        Ok(ConstView::Class { name_idx }) => Ok(name_idx),
        Ok(other) => Err(
            PoolError::WrongKind {
                index: idx,
                expected: ConstKind::Class,
                found: spec_kind(other),
            },
        ),
    }
}

/// Once the first `k` constants fail to decode, so do the first `n >= k`,
/// and in the same way.
pub proof fn lemma_consts_error_persists(s: Seq<u8>, pos: int, k: nat, n: nat)
    requires
        k <= n,
        spec_consts(s, pos, k) is Err,
    ensures
        spec_consts(s, pos, n) == spec_consts(s, pos, k),
    decreases n,
{
    if k < n {
        lemma_consts_error_persists(s, pos, k, (n - 1) as nat);
    }
}

/// Decoding `n` constants yields `n` entries.
pub proof fn lemma_consts_len(s: Seq<u8>, pos: int, n: nat)
    requires
        spec_consts(s, pos, n) is Ok,
    ensures
        spec_consts(s, pos, n)->Ok_0.0.len() == n,
    decreases n,
{
    if n > 0 {
        lemma_consts_len(s, pos, (n - 1) as nat);
    }
}

/// An index finds an entry exactly when it lies from 1 up to the number of
/// entries: index 0 finds none, and no index above the last does.
pub proof fn lemma_index_in_range(pool: Seq<ConstView>, idx: u16)
    ensures
        pool_get(pool, idx) is Ok <==> 1 <= idx <= pool.len(),
        pool_get(pool, idx) is Err ==> pool_get(pool, idx) == Err::<ConstView, PoolError>(
            PoolError::OutOfRange { index: idx },
        ),
{
}

/// In a pool that was decoded from a stream, the indices that find an entry
/// are those from 1 up to, not including, the count that the stream
/// declares.
pub proof fn lemma_decoded_pool_indices(s: Seq<u8>, pos: int, idx: u16)
    requires
        spec_const_pool(s, pos) is Ok,
    ensures
        spec_u16(s, pos, Field::ConstantCount) matches Ok((count, _)) && (pool_get(
            spec_const_pool(s, pos)->Ok_0.0,
            idx,
        ) is Ok <==> 1 <= idx < count),
{
    let count = spec_u16(s, pos, Field::ConstantCount)->Ok_0.0;
    lemma_consts_len(s, pos + 2, spec_pool_entries(count));
}

/// The typed accessors do not coerce: text is had from a `Utf8` constant
/// and from no other, a class reference from a class constant and from no
/// other, and what is had is what the entry holds.
pub proof fn lemma_typed_access(pool: Seq<ConstView>, idx: u16)
    ensures
        pool_utf8(pool, idx) is Ok <==> pool_get(pool, idx) matches Ok(ConstView::Utf8(_)),
        pool_class(pool, idx) is Ok <==> pool_get(pool, idx) matches Ok(ConstView::Class { .. }),
        pool_utf8(pool, idx) matches Ok(text) ==> pool_get(pool, idx) == Ok::<
            ConstView,
            PoolError,
        >(ConstView::Utf8(text)),
        pool_class(pool, idx) matches Ok(name_idx) ==> pool_get(pool, idx) == Ok::<
            ConstView,
            PoolError,
        >(ConstView::Class { name_idx }),
        !(pool_utf8(pool, idx) is Ok && pool_class(pool, idx) is Ok),
{
}

/// The number of payload bytes behind the tag of a constant that is passed
/// over.
fn opaque_payload(tag: u8) -> (res: Option<usize>)
    ensures
        res == spec_opaque_payload(tag),
{
    match tag {
        3 | 4 => Some(4),
        5 | 6 => Some(8),
        8 | 16 => Some(2),
        9 | 10 | 11 | 12 | 18 => Some(4),
        15 => Some(3),
        _ => None,
    }
}

/// Decodes one constant: a tag byte and the payload that the tag calls for.
pub fn read_const(reader: &mut ByteReader) -> (res: Result<Const, DecodeError>)
    ensures
        final(reader).bytes() == old(reader).bytes(),
        reads_as(
            res,
            final(reader).offset(),
            spec_const(old(reader).bytes(), old(reader).offset()),
        ),
        res is Err ==> final(reader).offset() == old(reader).offset(),
{
    let mut work = reader.fork();
    let tag: u8 = field_u8(&mut work, Field::ConstantTag)?;
    let constant = match tag {
        1 => {
            let length: u16 = field_u16(&mut work, Field::Utf8Length)?;
            let bytes = field_bytes(&mut work, length as usize, Field::Utf8Bytes)?;
            match decode_text(bytes.as_slice()) {
                Some(text) => Const::Utf8(Utf8 { bytes: text }),
                None => {
                    return Err(DecodeError::MalformedText);
                },
            }
        },
        7 => {
            let name_idx: u16 = field_u16(&mut work, Field::ClassNameIndex)?;
            Const::Class(Class { name_idx })
        },
        _ => match opaque_payload(tag) {
            Some(n) => {
                field_skip(&mut work, n, Field::ConstantPayload)?;
                Const::Opaque
            },
            None => {
                return Err(DecodeError::UnknownTag { tag });
            },
        },
    };
    *reader = work;
    Ok(constant)
}

impl Const {
    /// The kind of this constant.
    pub fn kind(&self) -> (kind: ConstKind)
        ensures
            kind == spec_kind(self@),
    {
        match self {
            Const::Utf8(_) => ConstKind::Utf8,
            Const::Class(_) => ConstKind::Class,
            Const::Opaque => ConstKind::Opaque,
        }
    }
}

impl ConstPool {
    /// A pool with the given entries, the first of which gets index 1.
    pub fn new(consts: Vec<Const>) -> (pool: ConstPool)
        ensures
            pool@ == views(consts@),
    {
        ConstPool { consts }
    }

    /// Decodes a constant pool: its count, then one entry for each index
    /// from 1 up to the count.
    pub fn from_reader(reader: &mut ByteReader) -> (res: Result<ConstPool, DecodeError>)
        ensures
            final(reader).bytes() == old(reader).bytes(),
            reads_as(
                res,
                final(reader).offset(),
                spec_const_pool(old(reader).bytes(), old(reader).offset()),
            ),
            res is Err ==> final(reader).offset() == old(reader).offset(),
    {
        let mut work = reader.fork();
        let count: u16 = field_u16(&mut work, Field::ConstantCount)?;
        let entries: u16 = if count == 0 {
            0
        } else {
            count - 1
        };
        let ghost s = work.bytes();
        let ghost start = work.offset();
        let mut consts: Vec<Const> = Vec::with_capacity(entries as usize);
        let mut i: u16 = 0;
        assert(views(consts@) =~= Seq::<ConstView>::empty());
        while i < entries
            invariant
                i <= entries,
                entries == spec_pool_entries(count),
                s == old(reader).bytes(),
                *reader == *old(reader),
                spec_u16(s, old(reader).offset(), Field::ConstantCount) == Ok::<
                    (u16, int),
                    DecodeError,
                >((count, start)),
                work.bytes() == s,
                spec_consts(s, start, i as nat) == Ok::<(Seq<ConstView>, int), DecodeError>(
                    (views(consts@), work.offset()),
                ),
            decreases entries - i,
        {
            match read_const(&mut work) {
                Ok(c) => {
                    proof {
                        lemma_views_push(consts@, c);
                    }
                    consts.push(c);
                },
                Err(e) => {
                    proof {
                        lemma_consts_error_persists(s, start, (i + 1) as nat, entries as nat);
                    }
                    return Err(e);
                },
            }
            i = i + 1;
        }
        *reader = work;
        Ok(ConstPool { consts })
    }

    /// The number of entries.
    pub fn len(&self) -> (n: usize)
        ensures
            n == self@.len(),
    {
        self.consts.len()
    }

    /// The entry of index `idx`, or an error if there is none: index 0 and
    /// every index above the number of entries are out of range.
    pub fn get_const(&self, idx: u16) -> (res: Result<&Const, PoolError>)
        ensures
            agrees(res, pool_get(self@, idx)),
            res is Ok <==> 1 <= idx <= self@.len(),
    {
        if idx == 0 || idx as usize > self.consts.len() {
            return Err(PoolError::OutOfRange { index: idx });
        }
        Ok(&self.consts[idx as usize - 1])
    }

    /// The `Utf8` constant of index `idx`, or an error if the index is out of
    /// range or the entry is of another kind.
    pub fn get_utf8(&self, idx: u16) -> (res: Result<&Utf8, PoolError>)
        ensures
            agrees(res, pool_utf8(self@, idx)),
            res is Ok <==> 1 <= idx <= self@.len() && self@[idx - 1] is Utf8,
    {
        let const_item = self.get_const(idx)?;
        match const_item {
            Const::Utf8(utf8) => Ok(utf8),
            _ => Err(
                PoolError::WrongKind {
                    index: idx,
                    expected: ConstKind::Utf8,
                    found: const_item.kind(),
                },
            ),
        }
    }

    /// The class constant of index `idx`, or an error if the index is out of
    /// range or the entry is of another kind.
    pub fn get_class(&self, idx: u16) -> (res: Result<&Class, PoolError>)
        ensures
            agrees(res, pool_class(self@, idx)),
            res is Ok <==> 1 <= idx <= self@.len() && self@[idx - 1] is Class,
    {
        let const_item = self.get_const(idx)?;
        match const_item {
            Const::Class(class) => Ok(class),
            _ => Err(
                PoolError::WrongKind {
                    index: idx,
                    expected: ConstKind::Class,
                    found: const_item.kind(),
                },
            ),
        }
    }
}

} // verus!
