//! Decoding of class-file text, which is stored in modified UTF-8.
//!
//! Modified UTF-8 differs from UTF-8 in three ways: the character U+0000 is
//! written as the two bytes `C0 80`, so that no byte of a text is zero; only
//! the one-, two- and three-byte forms are used; and a character above U+FFFF
//! is written as a surrogate pair, each half in the three-byte form.  This
//! decoder is strict: apart from `C0 80` it refuses a form that is longer than
//! its character needs, and it refuses a surrogate without its partner, which
//! no `char` can hold.

use vstd::prelude::*;

verus! {

/// `char::from_u32` returns the character with the given scalar value, and
/// `None` exactly when the value is a surrogate or lies above U+10FFFF.
pub assume_specification[ char::from_u32 ](i: u32) -> (res: Option<char>)
    ensures
        match res {
            Some(c) => c as u32 == i,
            None => !vstd::utf8::is_scalar(i),
        },
;

/// `String::push` appends the character to the end of the string.
pub assume_specification[ String::push ](s: &mut String, ch: char)
    ensures
        final(s)@ == old(s)@.push(ch),
;

/// Whether `b` is a continuation byte, of the form `10xxxxxx`.
pub open spec fn is_continuation(b: u8) -> bool {
    0x80 <= b <= 0xBF
}

/// The value carried by the two-byte form `110xxxxx 10xxxxxx`.
pub open spec fn pair_value(b0: u8, b1: u8) -> int {
    (b0 - 0xC0) * 0x40 + (b1 - 0x80)
}

/// The value carried by the three-byte form `1110xxxx 10xxxxxx 10xxxxxx`.
pub open spec fn triple_value(b0: u8, b1: u8, b2: u8) -> int {
    (b0 - 0xE0) * 0x1000 + (b1 - 0x80) * 0x40 + (b2 - 0x80)
}

/// The character above U+FFFF that a high and a low surrogate stand for.
pub open spec fn surrogate_pair_value(high: int, low: int) -> int {
    0x10000 + (high - 0xD800) * 0x400 + (low - 0xDC00)
}

/// The character encoded in `b` at position `i` and the number of bytes it
/// takes, or `None` where no well-formed character starts at `i`.
pub open spec fn spec_decode_char(b: Seq<u8>, i: int) -> Option<(char, int)> {
    if !(0 <= i < b.len()) {
        None
    } else if 0x01 <= b[i] <= 0x7F {
        Some((b[i] as char, 1))
    } else if 0xC0 <= b[i] <= 0xDF {
        if i + 1 < b.len() && is_continuation(b[i + 1]) && (pair_value(b[i], b[i + 1]) == 0
            || pair_value(b[i], b[i + 1]) >= 0x80) {
            Some((pair_value(b[i], b[i + 1]) as char, 2))
        } else {
            None
        }
    } else if 0xE0 <= b[i] <= 0xEF {
        if i + 2 < b.len() && is_continuation(b[i + 1]) && is_continuation(b[i + 2])
            && triple_value(b[i], b[i + 1], b[i + 2]) >= 0x800 {
            let v = triple_value(b[i], b[i + 1], b[i + 2]);
            if v < 0xD800 || v > 0xDFFF {
                Some((v as char, 3))
            } else if v <= 0xDBFF && i + 5 < b.len() && b[i + 3] == 0xED && 0xB0 <= b[i + 4] <= 0xBF
                && is_continuation(b[i + 5]) {
                let low = triple_value(b[i + 3], b[i + 4], b[i + 5]);
                Some((surrogate_pair_value(v, low) as char, 6))
            } else {
                None
            }
        } else {
            None
        }
    } else {
        None
    }
}

/// The characters encoded in `b` from position `i` to its end, or `None`
/// where some byte on the way starts no well-formed character.
pub open spec fn spec_decode_text_from(b: Seq<u8>, i: int) -> Option<Seq<char>>
    decreases b.len() - i,
{
    if i >= b.len() {
        Some(Seq::empty())
    } else {
        match spec_decode_char(b, i) {
            None => None,
            Some((c, n)) => match spec_decode_text_from(b, i + n) {
                None => None,
                Some(rest) => Some(seq![c] + rest),
            },
        }
    }
}

/// The text that the bytes `b` encode in modified UTF-8, or `None` where they
/// are malformed.
pub open spec fn spec_decode_text(b: Seq<u8>) -> Option<Seq<char>> {
    spec_decode_text_from(b, 0)
}

/// Decodes one character at `bytes[i]`, with the number of bytes it takes.
fn decode_char(bytes: &[u8], i: usize) -> (res: Option<(char, usize)>)
    requires
        i < bytes@.len(),
    ensures
        match res {
            Some((c, n)) => spec_decode_char(bytes@, i as int) == Some((c, n as int)) && 1 <= n
                && i + n <= bytes@.len(),
            None => spec_decode_char(bytes@, i as int) is None,
        },
{
    let len: usize = bytes.len();
    let b0: u8 = bytes[i];
    if 0x01 <= b0 && b0 <= 0x7F {
        Some((b0 as char, 1))
    } else if 0xC0 <= b0 && b0 <= 0xDF {
        if len - i < 2 {
            return None;
        }
        let b1: u8 = bytes[i + 1];
        if !(0x80 <= b1 && b1 <= 0xBF) {
            return None;
        }
        let v: u32 = (b0 - 0xC0) as u32 * 0x40 + (b1 - 0x80) as u32;
        if v != 0 && v < 0x80 {
            return None;
        }
        match char::from_u32(v) {
            Some(c) => {
                proof {
                    vstd::utf8::char_u32_cast(c, v);
                }
                Some((c, 2))
            },
            None => None,
        }
    } else if 0xE0 <= b0 && b0 <= 0xEF {
        if len - i < 3 {
            return None;
        }
        let b1: u8 = bytes[i + 1];
        let b2: u8 = bytes[i + 2];
        if !(0x80 <= b1 && b1 <= 0xBF && 0x80 <= b2 && b2 <= 0xBF) {
            return None;
        }
        let v: u32 = (b0 - 0xE0) as u32 * 0x1000 + (b1 - 0x80) as u32 * 0x40 + (b2 - 0x80) as u32;
        if v < 0x800 {
            return None;
        }
        if v < 0xD800 || v > 0xDFFF {
            return match char::from_u32(v) {
                Some(c) => {
                    proof {
                        vstd::utf8::char_u32_cast(c, v);
                    }
                    Some((c, 3))
                },
                None => None,
            };
        }
        if v > 0xDBFF || len - i < 6 {
            return None;
        }
        let b3: u8 = bytes[i + 3];
        let b4: u8 = bytes[i + 4];
        let b5: u8 = bytes[i + 5];
        if !(b3 == 0xED && 0xB0 <= b4 && b4 <= 0xBF && 0x80 <= b5 && b5 <= 0xBF) {
            return None;
        }
        let low: u32 = 0xD000 + (b4 - 0x80) as u32 * 0x40 + (b5 - 0x80) as u32;
        let full: u32 = 0x10000 + (v - 0xD800) * 0x400 + (low - 0xDC00);
        match char::from_u32(full) {
            Some(c) => {
                proof {
                    vstd::utf8::char_u32_cast(c, full);
                }
                Some((c, 6))
            },
            None => None,
        }
    } else {
        None
    }
}

/// Decodes `bytes` as modified UTF-8 text.
///
/// Returns the text exactly when the bytes are well formed, and `None`
/// otherwise.
pub fn decode_text(bytes: &[u8]) -> (res: Option<String>)
    ensures
        match res {
            Some(text) => spec_decode_text(bytes@) == Some(text@),
            None => spec_decode_text(bytes@) is None,
        },
{
    let mut text = String::new();
    let mut i: usize = 0;
    while i < bytes.len()
        invariant
            i <= bytes@.len(),
            spec_decode_text(bytes@) == match spec_decode_text_from(bytes@, i as int) {
                None => None::<Seq<char>>,
                Some(rest) => Some(text@ + rest),
            },
        decreases bytes@.len() - i,
    {
        match decode_char(bytes, i) {
            None => {
                return None;
            },
            Some((c, n)) => {
                proof {
                    let rest = spec_decode_text_from(bytes@, i + n);
                    if rest is Some {
                        assert(text@ + (seq![c] + rest->0) =~= text@.push(c) + rest->0);
                    }
                }
                text.push(c);
                i = i + n;
            },
        }
    }
    proof {
        assert(text@ + Seq::<char>::empty() =~= text@);
    }
    Some(text)
}

/// A `.` for a `/`, and any other character for itself.
pub open spec fn spec_dot(c: char) -> char {
    if c == '/' {
        '.'
    } else {
        c
    }
}

/// A binary class name in the form that users write: every `/` that parts
/// two packages becomes a `.`.
pub open spec fn spec_dotted(name: Seq<char>) -> Seq<char> {
    name.map_values(|c: char| spec_dot(c))
}

/// Turns the `/`-separated form of a class name into the `.`-separated one.
pub fn dotted(name: &str) -> (res: String)
    ensures
        res@ == spec_dotted(name@),
{
    let mut out = String::new();
    for c in it: name.chars()
        invariant
            it.seq() == name@,
            out@ == spec_dotted(name@.take(it.index() as int)),
    {
        let ghost done = name@.take(it.index() as int);
        assert(name@.take(it.index() + 1) =~= done.push(c));
        assert(spec_dotted(done.push(c)) =~= spec_dotted(done).push(spec_dot(c)));
        out.push(if c == '/' { '.' } else { c });
    }
    assert(name@.take(name@.len() as int) =~= name@);
    out
}

/// Whether two strings hold the same characters.
pub fn text_eq(a: &str, b: &str) -> (eq: bool)
    ensures
        eq == (a@ == b@),
{
    let x = a.as_bytes();
    let y = b.as_bytes();
    proof {
        vstd::utf8::encode_utf8_decode_utf8(a@);
        vstd::utf8::encode_utf8_decode_utf8(b@);
    }
    if x.len() != y.len() {
        return false;
    }
    let mut i: usize = 0;
    while i < x.len()
        invariant
            i <= x@.len(),
            x@.len() == y@.len(),
            x@ == vstd::utf8::encode_utf8(a@),
            y@ == vstd::utf8::encode_utf8(b@),
            forall|j: int| 0 <= j < i ==> x@[j] == y@[j],
        decreases x@.len() - i,
    {
        if x[i] != y[i] {
            return false;
        }
        i = i + 1;
    }
    assert(x@ =~= y@);
    true
}

/// Whether the last characters of `text` are those of `suffix`.
pub open spec fn spec_ends_with(text: Seq<char>, suffix: Seq<char>) -> bool {
    suffix.len() <= text.len() && text.subrange(text.len() - suffix.len(), text.len() as int)
        == suffix
}

/// Whether `text` ends with `suffix`.  The characters are compared one by
/// one, each found by its position, which takes a pass over the string.
pub fn ends_with(text: &str, suffix: &str) -> (res: bool)
    ensures
        res == spec_ends_with(text@, suffix@),
{
    let n: usize = text.unicode_len();
    let m: usize = suffix.unicode_len();
    if n < m {
        return false;
    }
    let start: usize = n - m;
    let ghost tail = text@.subrange(start as int, n as int);
    let mut i: usize = 0;
    while i < m
        invariant
            i <= m,
            n == text@.len(),
            m == suffix@.len(),
            start + m == n,
            tail == text@.subrange(start as int, n as int),
            forall|j: int| 0 <= j < i ==> tail[j] == suffix@[j],
        decreases m - i,
    {
        if text.get_char(start + i) != suffix.get_char(i) {
            assert(tail[i as int] != suffix@[i as int]);
            return false;
        }
        i = i + 1;
    }
    assert(tail =~= suffix@);
    true
}

} // verus!
