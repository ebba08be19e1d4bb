//! What decoding makes of an input that was cut short.
//!
//! Decoding looks at no byte behind the last one that it consumes, so the
//! bytes that follow an encoding do not matter; and it fills in no byte that
//! is missing, so an encoding that lost its end is refused as truncated.

use vstd::prelude::*;
use crate::class_file::{
    spec_attribute, spec_attribute_list, spec_attributes, spec_class_file, spec_class_members,
    spec_interfaces, spec_member, spec_member_list, spec_members,
};
use crate::code::{spec_code, spec_code_tail};
use crate::constant_pool::{spec_const, spec_const_pool, spec_consts};
use crate::decode::{DecodeError, Field};

verus! {

/// Whether a decoding failed because the input ended too early.
pub open spec fn is_truncated<T>(r: Result<T, DecodeError>) -> bool {
    r matches Err(DecodeError::Truncated { .. })
}

/// How the decoding `cut` of the first `k` bytes of an input relates to the
/// decoding `whole` of all of it, where that succeeds: it is the same if the
/// encoding ends within the first `k` bytes, and fails as truncated if not.
pub open spec fn cut_short<T>(
    whole: Result<(T, int), DecodeError>,
    cut: Result<(T, int), DecodeError>,
    k: int,
) -> bool {
    whole matches Ok((_, end)) ==> if end <= k {
        cut == whole
    } else {
        is_truncated(cut)
    }
}

/// Where a decoding of `s` from `pos` succeeds it ends at or behind `pos`,
/// and within `s`.
pub open spec fn ends_within<T>(
    whole: Result<(T, int), DecodeError>,
    pos: int,
    s: Seq<u8>,
) -> bool {
    whole matches Ok((_, end)) ==> pos <= end <= s.len()
}

/// A constant, decoded from an input that is cut to its first `k` bytes.
pub proof fn lemma_const_cut_short(s: Seq<u8>, pos: int, k: int)
    requires
        0 <= pos <= k <= s.len(),
    ensures
        ends_within(spec_const(s, pos), pos, s),
        cut_short(spec_const(s, pos), spec_const(s.take(k), pos), k),
{
    if let Ok((_, end)) = spec_const(s, pos) {
        if end <= k && s[pos] == 1 {
            let length = crate::reader::be_u16(s[pos + 1], s[pos + 2]);
            assert(s.take(k).subrange(pos + 3, pos + 3 + length) =~= s.subrange(
                pos + 3,
                pos + 3 + length,
            ));
        }
    }
}

/// The first `n` constants, decoded from an input that is cut to its first
/// `k` bytes.
pub proof fn lemma_consts_cut_short(s: Seq<u8>, pos: int, n: nat, k: int)
    requires
        0 <= pos <= k <= s.len(),
    ensures
        ends_within(spec_consts(s, pos, n), pos, s),
        cut_short(spec_consts(s, pos, n), spec_consts(s.take(k), pos, n), k),
    decreases n,
{
    if n > 0 {
        lemma_consts_cut_short(s, pos, (n - 1) as nat, k);
        if let Ok((_, p)) = spec_consts(s, pos, (n - 1) as nat) {
            lemma_const_cut_short(s, p, s.len() as int);
            if p <= k {
                lemma_const_cut_short(s, p, k);
            }
        }
    }
}

/// A constant pool, decoded from an input that is cut to its first `k`
/// bytes.
pub proof fn lemma_const_pool_cut_short(s: Seq<u8>, pos: int, k: int)
    requires
        0 <= pos <= k <= s.len(),
    ensures
        ends_within(spec_const_pool(s, pos), pos, s),
        cut_short(spec_const_pool(s, pos), spec_const_pool(s.take(k), pos), k),
{
    if spec_const_pool(s, pos) is Ok {
        let count = crate::reader::be_u16(s[pos], s[pos + 1]);
        let n = crate::constant_pool::spec_pool_entries(count);
        lemma_consts_cut_short(s, pos + 2, n, s.len() as int);
        if pos + 2 <= k {
            lemma_consts_cut_short(s, pos + 2, n, k);
        }
    }
}

/// An attribute, decoded from an input that is cut to its first `k` bytes.
pub proof fn lemma_attribute_cut_short(s: Seq<u8>, pos: int, k: int)
    requires
        0 <= pos <= k <= s.len(),
    ensures
        ends_within(spec_attribute(s, pos), pos, s),
        cut_short(spec_attribute(s, pos), spec_attribute(s.take(k), pos), k),
{
    if let Ok((_, end)) = spec_attribute(s, pos) {
        if end <= k {
            assert(s.take(k).subrange(pos + 6, end) =~= s.subrange(pos + 6, end));
        }
    }
}

/// The first `n` attributes, decoded from an input that is cut to its first
/// `k` bytes.
pub proof fn lemma_attributes_cut_short(s: Seq<u8>, pos: int, n: nat, k: int)
    requires
        0 <= pos <= k <= s.len(),
    ensures
        ends_within(spec_attributes(s, pos, n), pos, s),
        cut_short(spec_attributes(s, pos, n), spec_attributes(s.take(k), pos, n), k),
    decreases n,
{
    if n > 0 {
        lemma_attributes_cut_short(s, pos, (n - 1) as nat, k);
        if let Ok((_, p)) = spec_attributes(s, pos, (n - 1) as nat) {
            lemma_attribute_cut_short(s, p, s.len() as int);
            if p <= k {
                lemma_attribute_cut_short(s, p, k);
            }
        }
    }
}

/// An attribute list, decoded from an input that is cut to its first `k`
/// bytes.
pub proof fn lemma_attribute_list_cut_short(s: Seq<u8>, pos: int, k: int)
    requires
        0 <= pos <= k <= s.len(),
    ensures
        ends_within(spec_attribute_list(s, pos), pos, s),
        cut_short(spec_attribute_list(s, pos), spec_attribute_list(s.take(k), pos), k),
{
    if spec_attribute_list(s, pos) is Ok {
        let count = crate::reader::be_u16(s[pos], s[pos + 1]);
        lemma_attributes_cut_short(s, pos + 2, count as nat, s.len() as int);
        if pos + 2 <= k {
            lemma_attributes_cut_short(s, pos + 2, count as nat, k);
        }
    }
}

/// A field or a method, decoded from an input that is cut to its first `k`
/// bytes.
pub proof fn lemma_member_cut_short(s: Seq<u8>, pos: int, k: int)
    requires
        0 <= pos <= k <= s.len(),
    ensures
        ends_within(spec_member(s, pos), pos, s),
        cut_short(spec_member(s, pos), spec_member(s.take(k), pos), k),
{
    if spec_member(s, pos) is Ok {
        lemma_attribute_list_cut_short(s, pos + 6, s.len() as int);
        if pos + 6 <= k {
            lemma_attribute_list_cut_short(s, pos + 6, k);
        }
    }
}

/// The first `n` fields or methods, decoded from an input that is cut to its
/// first `k` bytes.
pub proof fn lemma_members_cut_short(s: Seq<u8>, pos: int, n: nat, k: int)
    requires
        0 <= pos <= k <= s.len(),
    ensures
        ends_within(spec_members(s, pos, n), pos, s),
        cut_short(spec_members(s, pos, n), spec_members(s.take(k), pos, n), k),
    decreases n,
{
    if n > 0 {
        lemma_members_cut_short(s, pos, (n - 1) as nat, k);
        if let Ok((_, p)) = spec_members(s, pos, (n - 1) as nat) {
            lemma_member_cut_short(s, p, s.len() as int);
            if p <= k {
                lemma_member_cut_short(s, p, k);
            }
        }
    }
}

/// A list of fields or methods, decoded from an input that is cut to its
/// first `k` bytes.
pub proof fn lemma_member_list_cut_short(s: Seq<u8>, pos: int, count_field: Field, k: int)
    requires
        0 <= pos <= k <= s.len(),
    ensures
        ends_within(spec_member_list(s, pos, count_field), pos, s),
        cut_short(
            spec_member_list(s, pos, count_field),
            spec_member_list(s.take(k), pos, count_field),
            k,
        ),
{
    if spec_member_list(s, pos, count_field) is Ok {
        let count = crate::reader::be_u16(s[pos], s[pos + 1]);
        lemma_members_cut_short(s, pos + 2, count as nat, s.len() as int);
        if pos + 2 <= k {
            lemma_members_cut_short(s, pos + 2, count as nat, k);
        }
    }
}

/// What follows the super class, decoded from an input that is cut to its
/// first `k` bytes.
pub proof fn lemma_class_members_cut_short(s: Seq<u8>, pos: int, k: int)
    requires
        0 <= pos <= k <= s.len(),
    ensures
        ends_within(spec_class_members(s, pos), pos, s),
        cut_short(spec_class_members(s, pos), spec_class_members(s.take(k), pos), k),
{
    if spec_class_members(s, pos) is Ok {
        let pos1 = spec_interfaces(s, pos)->Ok_0.1;
        lemma_member_list_cut_short(s, pos1, Field::FieldCount, s.len() as int);
        let pos2 = spec_member_list(s, pos1, Field::FieldCount)->Ok_0.1;
        lemma_member_list_cut_short(s, pos2, Field::MethodCount, s.len() as int);
        let pos3 = spec_member_list(s, pos2, Field::MethodCount)->Ok_0.1;
        lemma_attribute_list_cut_short(s, pos3, s.len() as int);
        if pos1 <= k {
            lemma_member_list_cut_short(s, pos1, Field::FieldCount, k);
            if pos2 <= k {
                lemma_member_list_cut_short(s, pos2, Field::MethodCount, k);
                if pos3 <= k {
                    lemma_attribute_list_cut_short(s, pos3, k);
                }
            }
        }
    }
}

/// A class file, decoded from an input that is cut to its first `k` bytes:
/// where the whole input decodes, the cut one decodes to the same class file
/// if it still holds all of the encoding, and is refused as truncated if it
/// lost any byte of it.
pub proof fn lemma_class_file_cut_short(s: Seq<u8>, pos: int, k: int)
    requires
        0 <= pos <= k <= s.len(),
    ensures
        ends_within(spec_class_file(s, pos), pos, s),
        cut_short(spec_class_file(s, pos), spec_class_file(s.take(k), pos), k),
{
    if spec_class_file(s, pos) is Ok {
        lemma_const_pool_cut_short(s, pos + 8, s.len() as int);
        let pos2 = spec_const_pool(s, pos + 8)->Ok_0.1;
        lemma_class_members_cut_short(s, pos2 + 6, s.len() as int);
        if pos + 8 <= k {
            lemma_const_pool_cut_short(s, pos + 8, k);
            if pos2 + 6 <= k {
                lemma_class_members_cut_short(s, pos2 + 6, k);
            }
        }
    }
}

/// What follows the bytecode, decoded from an input that is cut to its
/// first `k` bytes.
pub proof fn lemma_code_tail_cut_short(s: Seq<u8>, pos: int, k: int)
    requires
        0 <= pos <= k <= s.len(),
    ensures
        ends_within(spec_code_tail(s, pos), pos, s),
        cut_short(spec_code_tail(s, pos), spec_code_tail(s.take(k), pos), k),
{
    if spec_code_tail(s, pos) is Ok {
        let rows = crate::reader::be_u16(s[pos], s[pos + 1]);
        let pos2 = pos + 2 + 8 * rows;
        lemma_attribute_list_cut_short(s, pos2, s.len() as int);
        if pos2 <= k {
            assert(s.take(k).subrange(pos + 2, pos2) =~= s.subrange(pos + 2, pos2));
            lemma_attribute_list_cut_short(s, pos2, k);
        }
    }
}

/// The payload of a `Code` attribute, decoded from an input that is cut to
/// its first `k` bytes: where the whole input decodes, the cut one decodes
/// to the same body if it still holds all of the encoding, and is refused as
/// truncated if it lost any byte of it.
pub proof fn lemma_code_cut_short(s: Seq<u8>, pos: int, k: int)
    requires
        0 <= pos <= k <= s.len(),
    ensures
        ends_within(spec_code(s, pos), pos, s),
        cut_short(spec_code(s, pos), spec_code(s.take(k), pos), k),
{
    if spec_code(s, pos) is Ok {
        let length = crate::reader::be_u32(s[pos + 4], s[pos + 5], s[pos + 6], s[pos + 7]);
        let pos4 = pos + 8 + length;
        lemma_code_tail_cut_short(s, pos4, s.len() as int);
        if pos4 <= k {
            assert(s.take(k).subrange(pos + 8, pos4) =~= s.subrange(pos + 8, pos4));
            lemma_code_tail_cut_short(s, pos4, k);
        }
    }
}

} // verus!
