//! The encoding that the text decoder undoes.
//!
//! Every text has exactly one encoding that the decoder accepts, and the
//! decoder gives back the text that was encoded.

use vstd::prelude::*;
use crate::text::{
    pair_value, spec_decode_char, spec_decode_text, spec_decode_text_from, surrogate_pair_value,
    triple_value,
};

verus! {

/// The three-byte form `1110xxxx 10xxxxxx 10xxxxxx` of a value below
/// 0x10000.
pub open spec fn spec_triple(v: int) -> Seq<u8> {
    seq![(0xE0 + v / 0x1000) as u8, (0x80 + (v / 0x40) % 0x40) as u8, (0x80 + v % 0x40) as u8]
}

/// The bytes that encode one character: one byte from U+0001 to U+007F, two
/// for U+0000 and up to U+07FF, three up to U+FFFF, and above that a
/// surrogate pair, each half in three bytes.
pub open spec fn spec_encode_char(c: char) -> Seq<u8> {
    let v = c as int;
    if 0x01 <= v <= 0x7F {
        seq![v as u8]
    } else if v <= 0x7FF {
        seq![(0xC0 + v / 0x40) as u8, (0x80 + v % 0x40) as u8]
    } else if v <= 0xFFFF {
        spec_triple(v)
    } else {
        spec_triple(0xD800 + (v - 0x10000) / 0x400) + spec_triple(0xDC00 + (v - 0x10000) % 0x400)
    }
}

/// The bytes that encode a text: those of its characters, one after the
/// other.
pub open spec fn spec_encode_text(text: Seq<char>) -> Seq<u8>
    decreases text.len(),
{
    if text.len() == 0 {
        Seq::empty()
    } else {
        spec_encode_char(text[0]) + spec_encode_text(text.drop_first())
    }
}

/// Decoding the encoding of a character that stands at the head of `rest`
/// gives the character and the length of its encoding.
proof fn lemma_decode_encoded_char(c: char, rest: Seq<u8>)
    ensures
        spec_decode_char(spec_encode_char(c) + rest, 0) == Some(
            (c, spec_encode_char(c).len() as int),
        ),
        1 <= spec_encode_char(c).len() <= 6,
{
    let v = c as int;
    let b = spec_encode_char(c) + rest;
    vstd::utf8::char_is_scalar(c);
    vstd::utf8::char_u32_cast(c, c as u32);
    if 0x01 <= v <= 0x7F {
        assert(b[0] == v as u8);
    } else if v <= 0x7FF {
        assert(b[0] == (0xC0 + v / 0x40) as u8);
        assert(b[1] == (0x80 + v % 0x40) as u8);
        assert(pair_value(b[0], b[1]) == v);
    } else if v <= 0xFFFF {
        assert(b[0] == (0xE0 + v / 0x1000) as u8);
        assert(b[1] == (0x80 + (v / 0x40) % 0x40) as u8);
        assert(b[2] == (0x80 + v % 0x40) as u8);
        assert(triple_value(b[0], b[1], b[2]) == v);
    } else {
        let high = 0xD800 + (v - 0x10000) / 0x400;
        let low = 0xDC00 + (v - 0x10000) % 0x400;
        assert(b[0] == (0xE0 + high / 0x1000) as u8);
        assert(b[1] == (0x80 + (high / 0x40) % 0x40) as u8);
        assert(b[2] == (0x80 + high % 0x40) as u8);
        assert(b[3] == (0xE0 + low / 0x1000) as u8);
        assert(b[4] == (0x80 + (low / 0x40) % 0x40) as u8);
        assert(b[5] == (0x80 + low % 0x40) as u8);
        assert(triple_value(b[0], b[1], b[2]) == high);
        assert(triple_value(b[3], b[4], b[5]) == low);
        assert(surrogate_pair_value(high, low) == v);
    }
}

/// Decoding looks at the bytes from its position on only: what stands before
/// does not matter.
proof fn lemma_decode_behind_prefix(prefix: Seq<u8>, rest: Seq<u8>, i: int)
    requires
        0 <= i,
    ensures
        spec_decode_text_from(prefix + rest, prefix.len() + i) == spec_decode_text_from(rest, i),
    decreases rest.len() - i,
{
    let b = prefix + rest;
    if i < rest.len() {
        assert(forall|j: int| 0 <= j < rest.len() ==> b[prefix.len() + j] == rest[j]);
        assert(spec_decode_char(b, prefix.len() + i) == spec_decode_char(rest, i));
        if let Some((_, n)) = spec_decode_char(rest, i) {
            lemma_decode_behind_prefix(prefix, rest, i + n);
        }
    }
}

/// Decoding gives back the text that was encoded.
pub proof fn lemma_decode_encode(text: Seq<char>)
    ensures
        spec_decode_text(spec_encode_text(text)) == Some(text),
    decreases text.len(),
{
    if text.len() > 0 {
        let head = spec_encode_char(text[0]);
        let rest = spec_encode_text(text.drop_first());
        lemma_decode_encoded_char(text[0], rest);
        lemma_decode_behind_prefix(head, rest, 0);
        lemma_decode_encode(text.drop_first());
        assert(seq![text[0]] + text.drop_first() =~= text);
    }
}

/// The bytes at which a character decodes are the encoding of that
/// character.
proof fn lemma_encode_decoded_char(b: Seq<u8>, i: int)
    requires
        spec_decode_char(b, i) is Some,
    ensures
        ({
            let (c, n) = spec_decode_char(b, i)->Some_0;
            0 <= i && 1 <= n && i + n <= b.len() && spec_encode_char(c) == b.subrange(i, i + n)
        }),
{
    let (c, n) = spec_decode_char(b, i)->Some_0;
    vstd::utf8::char_is_scalar(c);
    if 0x01 <= b[i] <= 0x7F {
        assert(c as int == b[i]);
        assert(spec_encode_char(c) =~= b.subrange(i, i + n));
    } else if 0xC0 <= b[i] <= 0xDF {
        let v = pair_value(b[i], b[i + 1]);
        assert(c as int == v);
        assert(spec_encode_char(c) =~= b.subrange(i, i + n));
    } else {
        let v = triple_value(b[i], b[i + 1], b[i + 2]);
        if v < 0xD800 || v > 0xDFFF {
            assert(c as int == v);
            assert(spec_encode_char(c) =~= b.subrange(i, i + n));
        } else {
            let low = triple_value(b[i + 3], b[i + 4], b[i + 5]);
            let full = surrogate_pair_value(v, low);
            assert(c as int == full);
            assert((full - 0x10000) / 0x400 == v - 0xD800);
            assert((full - 0x10000) % 0x400 == low - 0xDC00);
            assert(spec_triple(v) =~= b.subrange(i, i + 3));
            assert(spec_triple(low) =~= b.subrange(i + 3, i + 6));
            assert(spec_encode_char(c) =~= b.subrange(i, i + n));
        }
    }
}

/// The bytes from which a text decodes are the encoding of that text, from
/// the position of the decoding on.
proof fn lemma_encode_decoded_from(b: Seq<u8>, i: int)
    requires
        0 <= i <= b.len(),
        spec_decode_text_from(b, i) is Some,
    ensures
        spec_encode_text(spec_decode_text_from(b, i)->Some_0) == b.subrange(i, b.len() as int),
    decreases b.len() - i,
{
    let text = spec_decode_text_from(b, i)->Some_0;
    if i < b.len() {
        lemma_encode_decoded_char(b, i);
        let (c, n) = spec_decode_char(b, i)->Some_0;
        lemma_encode_decoded_from(b, i + n);
        let tail = spec_decode_text_from(b, i + n)->Some_0;
        assert(text.drop_first() =~= tail);
        assert(b.subrange(i, i + n) + b.subrange(i + n, b.len() as int) =~= b.subrange(
            i,
            b.len() as int,
        ));
    } else {
        assert(b.subrange(i, b.len() as int) =~= Seq::<u8>::empty());
    }
}

/// The decoder accepts one encoding of a text and no other: bytes that
/// decode to a text are the encoding of that text.
pub proof fn lemma_encode_decode(b: Seq<u8>)
    requires
        spec_decode_text(b) is Some,
    ensures
        spec_encode_text(spec_decode_text(b)->Some_0) == b,
{
    lemma_encode_decoded_from(b, 0);
    assert(b.subrange(0, b.len() as int) =~= b);
}

/// Bytes decode to a text exactly when they are its encoding.
pub proof fn lemma_decodes_iff_encodes(b: Seq<u8>, text: Seq<char>)
    ensures
        spec_decode_text(b) == Some(text) <==> b == spec_encode_text(text),
{
    if spec_decode_text(b) == Some(text) {
        lemma_encode_decode(b);
    }
    if b == spec_encode_text(text) {
        lemma_decode_encode(text);
    }
}

} // verus!
