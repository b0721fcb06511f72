//! Conversion between UTF-8 byte offsets and UTF-16 code-unit offsets,
//! for consumers that index text the UTF-16 way. Surrogate pairs count
//! as two code units; conversion walks the codepoints accumulating
//! UTF-16 lengths.

use vstd::prelude::*;
use vstd::utf8::{valid_utf8, is_char_boundary, encode_utf8};
use crate::unicode::{scalar_len_at, cp_at, lemma_scalar_at_boundary};

verus! {

/// Number of UTF-16 code units of one scalar value.
pub open spec fn utf16_width(cp: u32) -> int {
    if cp < 0x10000 {
        1
    } else {
        2
    }
}

/// UTF-16 offset of UTF-8 offset `offset`: the summed UTF-16 widths of
/// every codepoint starting before `offset`, walking from boundary `i`.
pub open spec fn spec_utf8_to_utf16(s: Seq<u8>, i: int, offset: int) -> int
    decreases s.len() - i,
    when 0 <= i <= s.len() && valid_utf8(s) && is_char_boundary(s, i)
    via spec_utf8_to_utf16_dec
{
    if i >= s.len() || i >= offset {
        0
    } else {
        utf16_width(cp_at(s, i)) + spec_utf8_to_utf16(
            s,
            boundary_step(s, i),
            offset,
        )
    }
}

#[via_fn]
proof fn spec_utf8_to_utf16_dec(s: Seq<u8>, i: int, offset: int) {
    if i < s.len() && i < offset {
        lemma_scalar_at_boundary(s, i);
    }
}

/// The boundary one codepoint after `i`.
pub open spec fn boundary_step(s: Seq<u8>, i: int) -> int {
    i + scalar_len_at(s, i)
}

/// UTF-8 offset of UTF-16 offset `t`, walking from boundary `i`: the
/// first codepoint boundary at which `t` code units have been consumed,
/// snapping an offset inside a pair to the following boundary, and the
/// text length when the offsets run out.
pub open spec fn spec_utf16_to_utf8(s: Seq<u8>, i: int, t: int) -> int
    decreases s.len() - i,
    when 0 <= i <= s.len() && valid_utf8(s) && is_char_boundary(s, i)
    via spec_utf16_to_utf8_dec
{
    if i >= s.len() {
        s.len() as int
    } else if t <= 0 {
        i
    } else {
        spec_utf16_to_utf8(s, boundary_step(s, i), t - utf16_width(cp_at(s, i)))
    }
}

#[via_fn]
proof fn spec_utf16_to_utf8_dec(s: Seq<u8>, i: int, t: int) {
    if i < s.len() && t > 0 {
        lemma_scalar_at_boundary(s, i);
    }
}

/// Convert a UTF-8 byte offset into a UTF-16 code-unit offset. An offset
/// inside a codepoint counts that codepoint; one at or past the end of
/// the text yields the full UTF-16 length.
#[verifier::loop_isolation(false)]
pub fn offset_utf8_to_utf16(bytes: &Vec<u8>, offset: usize) -> (r: usize)
    requires
        valid_utf8(bytes@),
    ensures
        r == spec_utf8_to_utf16(bytes@, 0, offset as int),
{
    let n = bytes.len();
    let mut i: usize = 0;
    let mut acc: usize = 0;
    proof {
        vstd::utf8::is_char_boundary_start_end_of_seq(bytes@);
    }
    while i < n && i < offset
        invariant
            0 <= i <= n,
            is_char_boundary(bytes@, i as int),
            acc <= i,
            spec_utf8_to_utf16(bytes@, 0, offset as int) == acc + spec_utf8_to_utf16(
                bytes@,
                i as int,
                offset as int,
            ),
        decreases n - i,
    {
        proof {
            lemma_scalar_at_boundary(bytes@, i as int);
        }
        let cp = crate::unicode::decode_codepoint_at(bytes, i);
        let w: usize = if cp < 0x10000 {
            1
        } else {
            2
        };
        let k = crate::unicode::len_utf8_from_first_byte(bytes[i]);
        proof {
            assert(w == utf16_width(cp_at(bytes@, i as int)));
            assert(w <= k);
        }
        acc = acc + w;
        i = i + k;
    }
    acc
}

/// Convert a UTF-16 code-unit offset into a UTF-8 byte offset. An offset
/// falling inside a surrogate pair snaps to the following boundary; one
/// past the end of the text yields the text's byte length.
#[verifier::loop_isolation(false)]
pub fn offset_utf16_to_utf8(bytes: &Vec<u8>, offset: usize) -> (r: usize)
    requires
        valid_utf8(bytes@),
    ensures
        r == spec_utf16_to_utf8(bytes@, 0, offset as int),
{
    let n = bytes.len();
    let mut i: usize = 0;
    let mut t: usize = offset;
    proof {
        vstd::utf8::is_char_boundary_start_end_of_seq(bytes@);
    }
    while i < n && t > 0
        invariant
            0 <= i <= n,
            is_char_boundary(bytes@, i as int),
            t <= offset,
            spec_utf16_to_utf8(bytes@, 0, offset as int) == spec_utf16_to_utf8(
                bytes@,
                i as int,
                t as int,
            ),
        decreases n - i,
    {
        proof {
            lemma_scalar_at_boundary(bytes@, i as int);
        }
        let cp = crate::unicode::decode_codepoint_at(bytes, i);
        let w: usize = if cp < 0x10000 {
            1
        } else {
            2
        };
        let k = crate::unicode::len_utf8_from_first_byte(bytes[i]);
        proof {
            assert(w == utf16_width(cp_at(bytes@, i as int)));
        }
        let ghost told = t as int;
        i = i + k;
        if t >= w {
            t = t - w;
        } else {
            t = 0;
            proof {
                assert(spec_utf16_to_utf8(bytes@, i as int, told - w) == spec_utf16_to_utf8(
                    bytes@,
                    i as int,
                    0,
                ));
            }
        }
    }
    i
}

/// The byte offset a UTF-16 walk stops at never passes the text's end.
pub proof fn lemma_utf16_to_utf8_bounds(s: Seq<u8>, t: int)
    requires
        valid_utf8(s),
    ensures
        0 <= spec_utf16_to_utf8(s, 0, t) <= s.len(),
{
    vstd::utf8::is_char_boundary_start_end_of_seq(s);
    lemma_utf16_to_utf8_bounds_from(s, 0, t);
}

proof fn lemma_utf16_to_utf8_bounds_from(s: Seq<u8>, i: int, t: int)
    requires
        valid_utf8(s),
        0 <= i <= s.len(),
        is_char_boundary(s, i),
    ensures
        i <= spec_utf16_to_utf8(s, i, t) <= s.len(),
    decreases s.len() - i,
{
    if i < s.len() && t > 0 {
        lemma_scalar_at_boundary(s, i);
        lemma_utf16_to_utf8_bounds_from(s, boundary_step(s, i), t - utf16_width(cp_at(s, i)));
    }
}

/// `offset_utf8_to_utf16` on the encoding of a string slice.
pub fn offset_utf8_to_utf16_str(text: &str, offset: usize) -> (r: usize)
    ensures
        r == spec_utf8_to_utf16(encode_utf8(text@), 0, offset as int),
{
    proof {
        vstd::utf8::encode_utf8_valid_utf8(text@);
    }
    let bytes = text.as_bytes_vec();
    offset_utf8_to_utf16(&bytes, offset)
}

/// `offset_utf16_to_utf8` on the encoding of a string slice.
pub fn offset_utf16_to_utf8_str(text: &str, offset: usize) -> (r: usize)
    ensures
        r == spec_utf16_to_utf8(encode_utf8(text@), 0, offset as int),
{
    proof {
        vstd::utf8::encode_utf8_valid_utf8(text@);
    }
    let bytes = text.as_bytes_vec();
    offset_utf16_to_utf8(&bytes, offset)
}

} // verus!
