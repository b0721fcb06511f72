//! Byte-level helpers over UTF-8 encoded text.
//!
//! The buffer stores text as UTF-8 bytes, and every offset the library hands
//! out is a byte offset. This module provides the codepoint-level
//! primitives: boundary tests, forward/backward codepoint navigation, and
//! decoding, all specified against `vstd::utf8`.

use vstd::prelude::*;
use vstd::utf8::*;

verus! {

/// Byte length of the UTF-8 scalar starting at boundary `i`.
pub open spec fn scalar_len_at(s: Seq<u8>, i: int) -> int {
    length_of_first_scalar(s.subrange(i, s.len() as int))
}

/// Code point of the UTF-8 scalar starting at boundary `i`.
pub open spec fn cp_at(s: Seq<u8>, i: int) -> u32 {
    decode_first_scalar(s.subrange(i, s.len() as int))
}

/// The character starting at boundary `i`.
pub open spec fn char_at(s: Seq<u8>, i: int) -> char {
    cp_at(s, i) as char
}

/// Byte length of the UTF-8 scalar that ends just before boundary `i`.
pub open spec fn prev_scalar_len(s: Seq<u8>, i: int) -> int {
    length_of_last_scalar(s.subrange(0, i))
}

/// Number of bytes in the encoding that starts with first byte `b`,
/// judged from that byte alone.
pub open spec fn spec_len_utf8_from_first_byte(b: u8) -> usize {
    if b < 0x80 {
        1
    } else if b < 0xe0 {
        2
    } else if b < 0xf0 {
        3
    } else {
        4
    }
}

/// Number of bytes in the UTF-8 encoding that starts with first byte `b`.
pub fn len_utf8_from_first_byte(b: u8) -> (r: usize)
    ensures
        r == spec_len_utf8_from_first_byte(b),
{
    if b < 0x80 {
        1
    } else if b < 0xe0 {
        2
    } else if b < 0xf0 {
        3
    } else {
        4
    }
}

/// A valid UTF-8 sequence that starts at a boundary `i < len` has a
/// well-formed scalar there, whose length agrees with its first byte.
pub proof fn lemma_scalar_at_boundary(s: Seq<u8>, i: int)
    requires
        valid_utf8(s),
        is_char_boundary(s, i),
        0 <= i < s.len(),
    ensures
        valid_first_scalar(s.subrange(i, s.len() as int)),
        valid_utf8(s.subrange(i, s.len() as int)),
        1 <= scalar_len_at(s, i) <= 4,
        i + scalar_len_at(s, i) <= s.len(),
        scalar_len_at(s, i) == spec_len_utf8_from_first_byte(s[i]),
        is_char_boundary(s, i + scalar_len_at(s, i)),
        is_scalar(cp_at(s, i)),
{
    broadcast use vstd::seq::group_seq_axioms;

    valid_utf8_split(s, i);
    let suffix = s.subrange(i, s.len() as int);
    assert(suffix.len() > 0);
    assert(valid_first_scalar(suffix));
    let k = length_of_first_scalar(suffix);
    let b = suffix[0];
    assert(b == s[i]);
    // the four leading-byte ranges are disjoint, so the table agrees
    if is_leading_byte_width_1(b) {
        assert(k == 1);
    } else if is_leading_byte_width_2(b) {
        assert(k == 2);
    } else if is_leading_byte_width_3(b) {
        assert(k == 3);
    } else {
        assert(is_leading_byte_width_4(b));
        assert(k == 4);
    }
    assert(i + k <= s.len());
    // the decoded value is a scalar
    let cp = decode_first_scalar(suffix);
    if is_leading_byte_width_1(b) {
        assert(has_width_1_encoding(cp)) by {
            lemma_decode_width_1(b);
        }
    } else if is_leading_byte_width_2(b) {
        assert(has_width_2_encoding(cp)) by {
            lemma_decode_width_2(suffix[0], suffix[1]);
        }
    } else if is_leading_byte_width_3(b) {
        assert(has_width_3_encoding(cp)) by {
            lemma_decode_width_3(suffix[0], suffix[1], suffix[2]);
        }
    } else {
        assert(has_width_4_encoding(cp)) by {
            lemma_decode_width_4(suffix[0], suffix[1], suffix[2], suffix[3]);
        }
    }
    // the next position is a boundary
    let rest = pop_first_scalar(suffix);
    assert(valid_utf8(rest)) by {
        assert(valid_utf8(suffix));
    }
    if i + k == s.len() {
        is_char_boundary_start_end_of_seq(s);
    } else {
        assert(rest.len() > 0);
        assert(rest[0] == s[i + k]);
        assert(valid_first_scalar(rest));
        assert(!is_continuation_byte(rest[0]));
        is_char_boundary_iff_not_is_continuation_byte(s, i + k);
    }
}

proof fn lemma_decode_width_1(b1: u8)
    by (bit_vector)
    requires
        is_leading_byte_width_1(b1),
    ensures
        has_width_1_encoding(codepoint_width_1(b1)),
{
}

proof fn lemma_decode_width_2(b1: u8, b2: u8)
    by (bit_vector)
    requires
        is_leading_byte_width_2(b1),
        is_continuation_byte(b2),
        not_overlong_encoding(codepoint_width_2(b1, b2), 2),
    ensures
        has_width_2_encoding(codepoint_width_2(b1, b2)),
{
}

proof fn lemma_decode_width_3(b1: u8, b2: u8, b3: u8)
    by (bit_vector)
    requires
        is_leading_byte_width_3(b1),
        is_continuation_byte(b2),
        is_continuation_byte(b3),
        not_overlong_encoding(codepoint_width_3(b1, b2, b3), 3),
        not_surrogate(codepoint_width_3(b1, b2, b3)),
    ensures
        has_width_3_encoding(codepoint_width_3(b1, b2, b3)),
{
}

proof fn lemma_decode_width_4(b1: u8, b2: u8, b3: u8, b4: u8)
    by (bit_vector)
    requires
        is_leading_byte_width_4(b1),
        is_continuation_byte(b2),
        is_continuation_byte(b3),
        is_continuation_byte(b4),
        not_overlong_encoding(codepoint_width_4(b1, b2, b3, b4), 4),
    ensures
        has_width_4_encoding(codepoint_width_4(b1, b2, b3, b4)),
{
}

/// Test whether byte offset `i` falls on a codepoint boundary.
pub fn is_codepoint_boundary(bytes: &Vec<u8>, i: usize) -> (r: bool)
    requires
        valid_utf8(bytes@),
    ensures
        r == is_char_boundary(bytes@, i as int),
{
    proof {
        is_char_boundary_start_end_of_seq(bytes@);
    }
    if i == 0 || i == bytes.len() {
        true
    } else if i > bytes.len() {
        false
    } else {
        proof {
            is_char_boundary_iff_not_is_continuation_byte(bytes@, i as int);
        }
        let b = bytes[i];
        !(0x80 <= b && b <= 0xbf)
    }
}

/// A boundary index always lies within the sequence.
pub proof fn lemma_boundary_in_range(s: Seq<u8>, i: int)
    requires
        valid_utf8(s),
        is_char_boundary(s, i),
    ensures
        0 <= i <= s.len(),
    decreases s.len(),
{
    if i != 0 {
        if i < 0 || s.len() < i {
            assert(!is_char_boundary(s, i));
        }
    }
}

/// Next codepoint boundary after `from`, or `None` at the end of the text.
pub fn next_codepoint_offset(bytes: &Vec<u8>, from: usize) -> (r: Option<usize>)
    requires
        valid_utf8(bytes@),
        is_char_boundary(bytes@, from as int),
    ensures
        from == bytes@.len() ==> r is None,
        from < bytes@.len() ==> r == Some((from + scalar_len_at(bytes@, from as int)) as usize),
        r matches Some(j) ==> from < j <= bytes@.len() && is_char_boundary(bytes@, j as int),
{
    proof {
        lemma_boundary_in_range(bytes@, from as int);
    }
    if from == bytes.len() {
        None
    } else {
        proof {
            lemma_scalar_at_boundary(bytes@, from as int);
        }
        let k = len_utf8_from_first_byte(bytes[from]);
        Some(from + k)
    }
}

/// The last scalar of a valid sequence starts at a boundary, and its length
/// is found by scanning back over continuation bytes.
pub proof fn lemma_last_scalar(s: Seq<u8>)
    requires
        valid_utf8(s),
        s.len() > 0,
    ensures
        1 <= length_of_last_scalar(s) <= 4,
        length_of_last_scalar(s) <= s.len(),
        is_char_boundary(s, s.len() - length_of_last_scalar(s)),
        forall|j: int|
            s.len() - length_of_last_scalar(s) < j < s.len() ==> is_continuation_byte(#[trigger] s[j]),
    decreases s.len(),
{
    broadcast use vstd::seq::group_seq_axioms;

    let n = s.len() as int;
    let first_len = length_of_first_scalar(s);
    let rest = pop_first_scalar(s);
    assert(valid_first_scalar(s));
    assert(valid_utf8(rest));
    if rest.len() == 0 {
        // the whole sequence is one scalar: its first byte is a lead byte,
        // every later byte is a continuation byte
        assert(n == first_len);
        assert(!is_continuation_byte(s[0])) by {
            lemma_lead_not_continuation(s[0]);
        }
        assert(forall|j: int| 0 < j < n ==> is_continuation_byte(#[trigger] s[j]));
        assert(length_of_last_scalar(s) == n);
        assert(is_char_boundary(s, 0));
    } else {
        lemma_last_scalar(rest);
        let rl = length_of_last_scalar(rest);
        // rest begins with a lead byte, so the back-scan on s stops inside rest
        assert(rest.len() >= rl);
        assert(forall|j: int| 0 <= j < rest.len() ==> rest[j] == s[first_len + j]);
        assert(length_of_last_scalar(s) == rl) by {
            assert(!is_continuation_byte(rest[rest.len() - rl])) by {
                if rest.len() - rl < rest.len() {
                    is_char_boundary_iff_not_is_continuation_byte(rest, rest.len() - rl);
                }
            }
        }
        assert(is_char_boundary(s, n - rl)) by {
            assert(is_char_boundary(rest, rest.len() - rl));
            assert(n - rl == first_len + (rest.len() - rl));
        }
    }
}

proof fn lemma_lead_not_continuation(b: u8)
    by (bit_vector)
    ensures
        is_leading_byte_width_1(b) || is_leading_byte_width_2(b) || is_leading_byte_width_3(b)
            || is_leading_byte_width_4(b) ==> !is_continuation_byte(b),
{
}

/// Previous codepoint boundary before `from`, or `None` at the start.
pub fn prev_codepoint_offset(bytes: &Vec<u8>, from: usize) -> (r: Option<usize>)
    requires
        valid_utf8(bytes@),
        is_char_boundary(bytes@, from as int),
    ensures
        from == 0 ==> r is None,
        from > 0 ==> r == Some((from - prev_scalar_len(bytes@, from as int)) as usize),
        r matches Some(j) ==> j < from && is_char_boundary(bytes@, j as int),
{
    proof {
        lemma_boundary_in_range(bytes@, from as int);
    }
    if from == 0 {
        return None;
    }
    let ghost prefix = bytes@.subrange(0, from as int);
    proof {
        broadcast use vstd::seq::group_seq_axioms;

        valid_utf8_split(bytes@, from as int);
        lemma_last_scalar(prefix);
        lemma_prefix_boundary(bytes@, from as int, from - prev_scalar_len(bytes@, from as int));
        // the first byte of the prefix is a lead byte, never a continuation
        assert(valid_first_scalar(prefix));
        assert(!is_continuation_byte(prefix[0])) by {
            lemma_lead_not_continuation(prefix[0]);
        }
        assert(forall|j: int| 0 <= j < from ==> prefix[j] == bytes@[j]);
    }
    // mirror length_of_last_scalar: scan back over continuation bytes
    let k: usize;
    if !is_cont_byte(bytes[from - 1]) {
        k = 1;
    } else if !is_cont_byte(bytes[from - 2]) {
        k = 2;
    } else if !is_cont_byte(bytes[from - 3]) {
        k = 3;
    } else {
        k = 4;
    }
    proof {
        assert(k == length_of_last_scalar(prefix));
    }
    Some(from - k)
}

/// Whether `b` has the form of a UTF-8 continuation byte, 10xxxxxx.
fn is_cont_byte(b: u8) -> (r: bool)
    ensures
        r == is_continuation_byte(b),
{
    0x80 <= b && b <= 0xbf
}

/// A boundary of a prefix is a boundary of the whole sequence.
pub proof fn lemma_prefix_boundary(s: Seq<u8>, i: int, j: int)
    requires
        valid_utf8(s),
        is_char_boundary(s, i),
        0 <= j <= i <= s.len(),
        is_char_boundary(s.subrange(0, i), j),
    ensures
        is_char_boundary(s, j),
{
    broadcast use vstd::seq::group_seq_axioms;

    valid_utf8_split(s, i);
    if j < i {
        is_char_boundary_iff_not_is_continuation_byte(s.subrange(0, i), j);
        assert(s.subrange(0, i)[j] == s[j]);
        is_char_boundary_iff_not_is_continuation_byte(s, j);
    } else {
        // j == i: the prefix ends at j, so j is a boundary of the prefix;
        // in the whole sequence it is either the end or a lead byte
        if j == s.len() {
            is_char_boundary_start_end_of_seq(s);
        } else {
            valid_utf8_split(s, i);
            let suffix = s.subrange(i, s.len() as int);
            assert(suffix.len() > 0);
            assert(valid_first_scalar(suffix));
            assert(suffix[0] == s[j]);
            assert(!is_continuation_byte(s[j])) by {
                lemma_lead_not_continuation(s[j]);
            }
            is_char_boundary_iff_not_is_continuation_byte(s, j);
        }
    }
}

/// Relies on `char::from_u32`: it returns `Some` exactly for Unicode
/// scalar values, converting the number to the character with that code.
pub assume_specification[ char::from_u32 ](i: u32) -> (r: Option<char>)
    ensures
        r == (if is_scalar(i) {
            Some(i as char)
        } else {
            None::<char>
        }),
;

/// Decode the scalar value starting at boundary `i`.
pub fn decode_codepoint_at(bytes: &Vec<u8>, i: usize) -> (r: u32)
    requires
        valid_utf8(bytes@),
        is_char_boundary(bytes@, i as int),
        i < bytes@.len(),
    ensures
        r == cp_at(bytes@, i as int),
        is_scalar(r),
{
    let n = bytes.len();
    proof {
        lemma_scalar_at_boundary(bytes@, i as int);
        broadcast use vstd::seq::group_seq_axioms;

        assert(bytes@.subrange(i as int, bytes@.len() as int)[0] == bytes@[i as int]);
    }
    let b0 = bytes[i];
    if b0 < 0x80 {
        (b0 & 0x7f) as u32
    } else if b0 < 0xe0 {
        proof {
            assert(bytes@.subrange(i as int, bytes@.len() as int)[1] == bytes@[i + 1]);
        }
        let b1 = bytes[i + 1];
        (((b0 & 0x1f) as u32) << 6u32) | ((b1 & 0x3f) as u32)
    } else if b0 < 0xf0 {
        proof {
            assert(bytes@.subrange(i as int, bytes@.len() as int)[1] == bytes@[i + 1]);
            assert(bytes@.subrange(i as int, bytes@.len() as int)[2] == bytes@[i + 2]);
        }
        let b1 = bytes[i + 1];
        let b2 = bytes[i + 2];
        (((b0 & 0x0f) as u32) << 12u32) | (((b1 & 0x3f) as u32) << 6u32) | ((b2 & 0x3f) as u32)
    } else {
        proof {
            assert(bytes@.subrange(i as int, bytes@.len() as int)[1] == bytes@[i + 1]);
            assert(bytes@.subrange(i as int, bytes@.len() as int)[2] == bytes@[i + 2]);
            assert(bytes@.subrange(i as int, bytes@.len() as int)[3] == bytes@[i + 3]);
        }
        let b1 = bytes[i + 1];
        let b2 = bytes[i + 2];
        let b3 = bytes[i + 3];
        (((b0 & 0x07) as u32) << 18u32) | (((b1 & 0x3f) as u32) << 12u32) | (((b2 & 0x3f) as u32)
            << 6u32) | ((b3 & 0x3f) as u32)
    }
}

/// Decode the character starting at boundary `i`.
pub fn decode_char_at(bytes: &Vec<u8>, i: usize) -> (r: char)
    requires
        valid_utf8(bytes@),
        is_char_boundary(bytes@, i as int),
        i < bytes@.len(),
    ensures
        r == char_at(bytes@, i as int),
{
    let cp = decode_codepoint_at(bytes, i);
    match char::from_u32(cp) {
        Some(c) => c,
        None => ' ',
    }
}

/// Splitting two valid UTF-8 sequences at their seam is a boundary of
/// the concatenation.
pub proof fn lemma_concat_boundary(a: Seq<u8>, b: Seq<u8>)
    requires
        valid_utf8(a),
        valid_utf8(b),
    ensures
        valid_utf8(a + b),
        is_char_boundary(a + b, a.len() as int),
{
    broadcast use vstd::seq::group_seq_axioms;

    valid_utf8_concat(a, b);
    if b.len() == 0 {
        assert(a + b =~= a);
        is_char_boundary_start_end_of_seq(a + b);
    } else {
        assert(valid_first_scalar(b));
        assert(!is_continuation_byte(b[0])) by {
            lemma_lead_not_continuation(b[0]);
        }
        assert((a + b)[a.len() as int] == b[0]);
        is_char_boundary_iff_not_is_continuation_byte(a + b, a.len() as int);
    }
}

} // verus!
