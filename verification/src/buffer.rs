//! The authoritative text store: UTF-8 bytes in a contiguous growable
//! buffer. Every offset in the public interface is a byte offset, and
//! mutating operations demand codepoint-boundary alignment, returning a
//! typed error otherwise rather than corrupting the text.

use vstd::prelude::*;
use vstd::utf8::*;
use crate::unicode;
use crate::delta::TextDelta;

verus! {

/// Error for a slice or conversion whose range does not fit the buffer.
#[derive(Debug, Clone, Copy, PartialEq, Eq, Structural)]
pub enum ConversionError {
    InvalidRange,
}

/// Error for a mutation at an offset that is not a codepoint boundary.
#[derive(Debug, Clone, Copy, PartialEq, Eq, Structural)]
pub enum BoundaryError {
    NotCharBoundary,
}

/// The text buffer: a sequence of Unicode scalar values encoded as UTF-8
/// bytes. The invariant `wf()` says the bytes are always valid UTF-8.
pub struct TextBuffer {
    bytes: Vec<u8>,
}

impl View for TextBuffer {
    type V = Seq<u8>;

    closed spec fn view(&self) -> Seq<u8> {
        self.bytes@
    }
}

impl TextBuffer {
    /// The buffer always holds valid UTF-8.
    pub open spec fn wf(&self) -> bool {
        valid_utf8(self@)
    }

    /// Create an empty buffer.
    pub fn new() -> (r: Self)
        ensures
            r.wf(),
            r@ == Seq::<u8>::empty(),
    {
        proof {
            assert(valid_utf8(Seq::<u8>::empty()));
        }
        TextBuffer { bytes: Vec::new() }
    }

    /// Build a buffer holding the UTF-8 encoding of `s`.
    pub fn from_str(s: &str) -> (r: Self)
        ensures
            r.wf(),
            r@ == encode_utf8(s@),
    {
        proof {
            vstd::utf8::encode_utf8_valid_utf8(s@);
        }
        TextBuffer { bytes: s.as_bytes_vec() }
    }

    /// Build a buffer from raw bytes; `None` if they are not valid UTF-8.
    pub fn from_bytes(bytes: Vec<u8>) -> (r: Option<Self>)
        ensures
            valid_utf8(bytes@) ==> (r matches Some(b) && b@ == bytes@ && b.wf()),
            !valid_utf8(bytes@) ==> r is None,
    {
        if validate_utf8(&bytes) {
            Some(TextBuffer { bytes })
        } else {
            None
        }
    }

    /// Length of the text in bytes.
    pub fn len(&self) -> (r: usize)
        ensures
            r == self@.len(),
    {
        self.bytes.len()
    }

    /// `true` if this text has zero length.
    pub fn is_empty(&self) -> (r: bool)
        ensures
            r == (self@.len() == 0),
    {
        self.bytes.len() == 0
    }

    /// A copy of the whole content as bytes.
    pub fn bytes(&self) -> (r: Vec<u8>)
        ensures
            r@ == self@,
    {
        copy_range(&self.bytes, 0, self.bytes.len())
    }

    /// The whole content as a `String`.
    pub fn take(&self) -> (r: String)
        requires
            self.wf(),
        ensures
            encode_utf8(r@) == self@,
    {
        bytes_to_string(self.bytes())
    }

    /// The bytes in `[start, end)`, or `InvalidRange` when the range does
    /// not fit the current length.
    pub fn slice(&self, start: usize, end: usize) -> (r: Result<Vec<u8>, ConversionError>)
        ensures
            start <= end <= self@.len() ==> (r matches Ok(v) && v@ == self@.subrange(
                start as int,
                end as int,
            )),
            !(start <= end <= self@.len()) ==> r == Err::<Vec<u8>, ConversionError>(
                ConversionError::InvalidRange,
            ),
    {
        if start <= end && end <= self.bytes.len() {
            Ok(copy_range(&self.bytes, start, end))
        } else {
            Err(ConversionError::InvalidRange)
        }
    }

    /// Whether `offset` falls on a codepoint boundary.
    pub fn is_char_boundary(&self, offset: usize) -> (r: bool)
        requires
            self.wf(),
        ensures
            r == is_char_boundary(self@, offset as int),
    {
        unicode::is_codepoint_boundary(&self.bytes, offset)
    }

    /// Insert `s` at byte offset `offset`. On success the text grows by
    /// the encoding of `s` and the edit's shape is returned as a delta.
    /// Fails with a boundary error when `offset` is not a codepoint
    /// boundary of the current text.
    pub fn write(&mut self, offset: usize, s: &str) -> (r: Result<TextDelta, BoundaryError>)
        requires
            old(self).wf(),
        ensures
            final(self).wf(),
            is_char_boundary(old(self)@, offset as int) ==> (r matches Ok(d) && d
                == (TextDelta {
                start: offset,
                deleted: 0,
                inserted: encode_utf8(s@).len() as usize,
            }) && final(self)@ == old(self)@.subrange(0, offset as int) + encode_utf8(s@) + old(
                self,
            )@.subrange(offset as int, old(self)@.len() as int)),
            !is_char_boundary(old(self)@, offset as int) ==> r == Err::<TextDelta, BoundaryError>(
                BoundaryError::NotCharBoundary,
            ) && final(self)@ == old(self)@,
    {
        if !unicode::is_codepoint_boundary(&self.bytes, offset) {
            return Err(BoundaryError::NotCharBoundary);
        }
        proof {
            unicode::lemma_boundary_in_range(self@, offset as int);
            vstd::utf8::encode_utf8_valid_utf8(s@);
            valid_utf8_split(self@, offset as int);
        }
        let ins = s.as_bytes_vec();
        let ghost pre = self@.subrange(0, offset as int);
        let ghost post = self@.subrange(offset as int, self@.len() as int);
        let n = ins.len();
        splice(&mut self.bytes, offset, offset, &ins);
        proof {
            valid_utf8_concat(pre, ins@);
            valid_utf8_concat(pre + ins@, post);
        }
        Ok(TextDelta { start: offset, deleted: 0, inserted: n })
    }

    /// Replace the bytes in `[start, end)` with the encoding of
    /// `replace_with`: an atomic delete-then-insert. Fails with a boundary
    /// error unless `start <= end <= len` and both ends are codepoint
    /// boundaries.
    pub fn replace_range(&mut self, start: usize, end: usize, replace_with: &str) -> (r: Result<
        TextDelta,
        BoundaryError,
    >)
        requires
            old(self).wf(),
        ensures
            final(self).wf(),
            spec_range_ok(old(self)@, start as int, end as int) ==> (r matches Ok(d) && d
                == (TextDelta {
                start,
                deleted: (end - start) as usize,
                inserted: encode_utf8(replace_with@).len() as usize,
            }) && final(self)@ == old(self)@.subrange(0, start as int)
                + encode_utf8(replace_with@) + old(self)@.subrange(
                end as int,
                old(self)@.len() as int,
            )),
            !spec_range_ok(old(self)@, start as int, end as int) ==> r == Err::<
                TextDelta,
                BoundaryError,
            >(BoundaryError::NotCharBoundary) && final(self)@ == old(self)@,
    {
        let ok = start <= end && end <= self.bytes.len()
            && unicode::is_codepoint_boundary(&self.bytes, start)
            && unicode::is_codepoint_boundary(&self.bytes, end);
        if !ok {
            return Err(BoundaryError::NotCharBoundary);
        }
        proof {
            vstd::utf8::encode_utf8_valid_utf8(replace_with@);
            valid_utf8_split(self@, end as int);
            lemma_boundary_of_prefix(self@, end as int, start as int);
            valid_utf8_split(self@.subrange(0, end as int), start as int);
            assert(self@.subrange(0, end as int).subrange(0, start as int) == self@.subrange(
                0,
                start as int,
            ));
        }
        let ins = replace_with.as_bytes_vec();
        let ghost pre = self@.subrange(0, start as int);
        let ghost post = self@.subrange(end as int, self@.len() as int);
        let n = ins.len();
        splice(&mut self.bytes, start, end, &ins);
        proof {
            valid_utf8_concat(pre, ins@);
            valid_utf8_concat(pre + ins@, post);
        }
        Ok(TextDelta { start, deleted: end - start, inserted: n })
    }

    /// Remove the bytes in `[start, end)` and return them as text.
    /// Fails with a boundary error unless the range is boundary-aligned.
    pub fn drain(&mut self, start: usize, end: usize) -> (r: Result<String, BoundaryError>)
        requires
            old(self).wf(),
        ensures
            final(self).wf(),
            spec_range_ok(old(self)@, start as int, end as int) ==> (r matches Ok(removed)
                && encode_utf8(removed@) == old(self)@.subrange(start as int, end as int)
                && final(self)@ == old(self)@.subrange(0, start as int) + old(self)@.subrange(
                end as int,
                old(self)@.len() as int,
            )),
            !spec_range_ok(old(self)@, start as int, end as int) ==> r == Err::<
                String,
                BoundaryError,
            >(BoundaryError::NotCharBoundary) && final(self)@ == old(self)@,
    {
        let ok = start <= end && end <= self.bytes.len()
            && unicode::is_codepoint_boundary(&self.bytes, start)
            && unicode::is_codepoint_boundary(&self.bytes, end);
        if !ok {
            return Err(BoundaryError::NotCharBoundary);
        }
        proof {
            valid_utf8_split(self@, end as int);
            lemma_boundary_of_prefix(self@, end as int, start as int);
            valid_utf8_split(self@.subrange(0, end as int), start as int);
            assert(self@.subrange(0, end as int).subrange(0, start as int) == self@.subrange(
                0,
                start as int,
            ));
            assert(self@.subrange(0, end as int).subrange(start as int, end as int)
                == self@.subrange(start as int, end as int));
        }
        let removed = copy_range(&self.bytes, start, end);
        let ghost pre = self@.subrange(0, start as int);
        let ghost post = self@.subrange(end as int, self@.len() as int);
        let empty: Vec<u8> = Vec::new();
        splice(&mut self.bytes, start, end, &empty);
        proof {
            valid_utf8_concat(pre, post);
            assert(pre + empty@ + post == pre + post);
        }
        Ok(bytes_to_string(removed))
    }
}

/// A range is acceptable for a mutation when it fits the text and both
/// ends are codepoint boundaries.
pub open spec fn spec_range_ok(s: Seq<u8>, start: int, end: int) -> bool {
    &&& 0 <= start <= end <= s.len()
    &&& is_char_boundary(s, start)
    &&& is_char_boundary(s, end)
}

/// A boundary below a prefix boundary is also a boundary of that prefix.
pub proof fn lemma_boundary_of_prefix(s: Seq<u8>, i: int, j: int)
    requires
        valid_utf8(s),
        is_char_boundary(s, i),
        is_char_boundary(s, j),
        0 <= j <= i <= s.len(),
    ensures
        is_char_boundary(s.subrange(0, i), j),
{
    broadcast use vstd::seq::group_seq_axioms;

    valid_utf8_split(s, i);
    let prefix = s.subrange(0, i);
    if j == 0 || j == i {
        is_char_boundary_start_end_of_seq(prefix);
    } else {
        is_char_boundary_iff_not_is_continuation_byte(s, j);
        assert(prefix[j] == s[j]);
        is_char_boundary_iff_not_is_continuation_byte(prefix, j);
    }
}

/// Copy of the bytes in `[start, end)`.
#[verifier::loop_isolation(false)]
pub fn copy_range(bytes: &Vec<u8>, start: usize, end: usize) -> (r: Vec<u8>)
    requires
        start <= end <= bytes@.len(),
    ensures
        r@ == bytes@.subrange(start as int, end as int),
{
    let mut out: Vec<u8> = Vec::new();
    let mut i = start;
    while i < end
        invariant
            start <= i <= end,
            out@ == bytes@.subrange(start as int, i as int),
        decreases end - i,
    {
        out.push(bytes[i]);
        proof {
            assert(out@ == bytes@.subrange(start as int, i + 1 as int));
        }
        i = i + 1;
    }
    out
}

/// Replace `bytes[start..end]` with `repl`, in place.
#[verifier::loop_isolation(false)]
fn splice(bytes: &mut Vec<u8>, start: usize, end: usize, repl: &Vec<u8>)
    requires
        start <= end <= old(bytes)@.len(),
    ensures
        final(bytes)@ == old(bytes)@.subrange(0, start as int) + repl@ + old(bytes)@.subrange(
            end as int,
            old(bytes)@.len() as int,
        ),
{
    let ghost orig = bytes@;
    let mut out: Vec<u8> = Vec::new();
    let mut i: usize = 0;
    while i < start
        invariant
            i <= start,
            out@ == orig.subrange(0, i as int),
        decreases start - i,
    {
        out.push(bytes[i]);
        proof {
            assert(out@ == orig.subrange(0, i + 1 as int));
        }
        i = i + 1;
    }
    let mut j: usize = 0;
    while j < repl.len()
        invariant
            j <= repl@.len(),
            out@ == orig.subrange(0, start as int) + repl@.subrange(0, j as int),
        decreases repl@.len() - j,
    {
        out.push(repl[j]);
        proof {
            assert(out@ == orig.subrange(0, start as int) + repl@.subrange(0, j + 1 as int));
        }
        j = j + 1;
    }
    let mut k: usize = end;
    while k < bytes.len()
        invariant
            end <= k <= orig.len(),
            bytes@ == orig,
            out@ == orig.subrange(0, start as int) + repl@ + orig.subrange(end as int, k as int),
        decreases orig.len() - k,
    {
        out.push(bytes[k]);
        proof {
            assert(out@ == orig.subrange(0, start as int) + repl@ + orig.subrange(
                end as int,
                k + 1 as int,
            ));
        }
        k = k + 1;
    }
    proof {
        assert(repl@.subrange(0, repl@.len() as int) == repl@);
    }
    *bytes = out;
}

/// Relies on `String::from_utf8`: for input that is valid UTF-8 it returns
/// `Ok` with the string whose bytes are exactly the input.
#[verifier::external_body]
pub fn bytes_to_string(v: Vec<u8>) -> (r: String)
    requires
        valid_utf8(v@),
    ensures
        encode_utf8(r@) == v@,
{
    match String::from_utf8(v) {
        Ok(s) => s,
        Err(_) => String::new(),
    }
}

/// Decide whether the bytes form valid UTF-8, mirroring the spec table:
/// each scalar needs a well-formed lead byte, the right number of
/// continuation bytes, no overlong encoding and no surrogate value.
#[verifier::loop_isolation(false)]
pub fn validate_utf8(bytes: &Vec<u8>) -> (r: bool)
    ensures
        r == valid_utf8(bytes@),
{
    let n = bytes.len();
    let mut i: usize = 0;
    while i < n
        invariant
            i <= n,
            partial_valid_utf8(bytes@, i as int),
        decreases n - i,
    {
        let ghost suffix = bytes@.subrange(i as int, n as int);
        let b0 = bytes[i];
        proof {
            assert(suffix[0] == bytes@[i as int]);
        }
        if b0 < 0x80 {
            proof {
                lemma_cp1_bound(b0);
                assert(valid_first_scalar(suffix));
                partial_valid_utf8_extend(bytes@, i as int);
            }
            i = i + 1;
        } else if 0xc0 <= b0 && b0 <= 0xdf {
            if n - i < 2 || !(0x80 <= bytes[i + 1] && bytes[i + 1] <= 0xbf) {
                proof {
                    lemma_invalid_suffix(bytes@, i as int);
                }
                return false;
            }
            let b1 = bytes[i + 1];
            let cp: u32 = ((((b0 & 0x1f) as u32) << 6u32) | ((b1 & 0x3f) as u32));
            proof {
                assert(suffix[1] == bytes@[i + 1]);
                assert(cp == codepoint_width_2(b0, b1));
            }
            if cp < 0x80 {
                proof {
                    lemma_invalid_suffix(bytes@, i as int);
                }
                return false;
            }
            proof {
                lemma_cp2_bound(b0, b1);
                assert(valid_first_scalar(suffix));
                partial_valid_utf8_extend(bytes@, i as int);
            }
            i = i + 2;
        } else if 0xe0 <= b0 && b0 <= 0xef {
            if n - i < 3 || !(0x80 <= bytes[i + 1] && bytes[i + 1] <= 0xbf) || !(0x80 <= bytes[i
                + 2] && bytes[i + 2] <= 0xbf) {
                proof {
                    lemma_invalid_suffix(bytes@, i as int);
                }
                return false;
            }
            let b1 = bytes[i + 1];
            let b2 = bytes[i + 2];
            let cp: u32 = ((((b0 & 0x0f) as u32) << 12u32) | (((b1 & 0x3f) as u32) << 6u32) | ((b2
                & 0x3f) as u32));
            proof {
                assert(suffix[1] == bytes@[i + 1]);
                assert(suffix[2] == bytes@[i + 2]);
                assert(cp == codepoint_width_3(b0, b1, b2));
            }
            if cp < 0x800 || (0xd800 <= cp && cp <= 0xdfff) {
                proof {
                    lemma_invalid_suffix(bytes@, i as int);
                }
                return false;
            }
            proof {
                assert(valid_first_scalar(suffix));
                partial_valid_utf8_extend(bytes@, i as int);
            }
            i = i + 3;
        } else if 0xf0 <= b0 && b0 <= 0xf7 {
            if n - i < 4 || !(0x80 <= bytes[i + 1] && bytes[i + 1] <= 0xbf) || !(0x80 <= bytes[i
                + 2] && bytes[i + 2] <= 0xbf) || !(0x80 <= bytes[i + 3] && bytes[i + 3] <= 0xbf) {
                proof {
                    lemma_invalid_suffix(bytes@, i as int);
                }
                return false;
            }
            let b1 = bytes[i + 1];
            let b2 = bytes[i + 2];
            let b3 = bytes[i + 3];
            let cp: u32 = ((((b0 & 0x07) as u32) << 18u32) | (((b1 & 0x3f) as u32) << 12u32) | (((
            b2 & 0x3f) as u32) << 6u32) | ((b3 & 0x3f) as u32));
            proof {
                assert(suffix[1] == bytes@[i + 1]);
                assert(suffix[2] == bytes@[i + 2]);
                assert(suffix[3] == bytes@[i + 3]);
                assert(cp == codepoint_width_4(b0, b1, b2, b3));
            }
            if cp < 0x10000 || cp > 0x10ffff {
                proof {
                    lemma_invalid_suffix(bytes@, i as int);
                }
                return false;
            }
            proof {
                assert(valid_first_scalar(suffix));
                partial_valid_utf8_extend(bytes@, i as int);
            }
            i = i + 4;
        } else {
            proof {
                lemma_invalid_suffix(bytes@, i as int);
            }
            return false;
        }
    }
    proof {
        assert(bytes@.subrange(0, n as int) == bytes@);
    }
    true
}

proof fn lemma_cp1_bound(b0: u8)
    by (bit_vector)
    ensures
        codepoint_width_1(b0) <= 0x7f,
{
}

proof fn lemma_cp2_bound(b0: u8, b1: u8)
    by (bit_vector)
    ensures
        codepoint_width_2(b0, b1) <= 0x7ff,
{
}

/// When the scalar starting at `i` is malformed, the whole sequence is
/// not valid UTF-8.
proof fn lemma_invalid_suffix(s: Seq<u8>, i: int)
    requires
        0 <= i < s.len(),
        partial_valid_utf8(s, i),
        !valid_first_scalar(s.subrange(i, s.len() as int)),
    ensures
        !valid_utf8(s),
{
    let suffix = s.subrange(i, s.len() as int);
    assert(suffix.len() > 0);
    assert(!valid_utf8(suffix));
    partial_valid_partial_invalid_utf8(s, i);
}

/// Offset of the byte just after the closest line feed at or before
/// `from` (scanning `[0, from)`), or 0 when there is none.
pub open spec fn spec_preceding_line_break(s: Seq<u8>, from: int) -> int
    decreases from,
{
    if from <= 0 {
        0
    } else if s[from - 1] == 10u8 {
        from
    } else {
        spec_preceding_line_break(s, from - 1)
    }
}

/// Offset of the first line feed at or after `from`, or the text length
/// when there is none.
pub open spec fn spec_next_line_break(s: Seq<u8>, from: int) -> int
    decreases s.len() - from,
    when from <= s.len()
{
    if from >= s.len() {
        s.len() as int
    } else if s[from] == 10u8 {
        from
    } else {
        spec_next_line_break(s, from + 1)
    }
}

impl TextBuffer {
    /// Next codepoint boundary after `from`, or `None` at the end.
    pub fn next_codepoint_offset(&self, from: usize) -> (r: Option<usize>)
        requires
            self.wf(),
            is_char_boundary(self@, from as int),
        ensures
            from == self@.len() ==> r is None,
            from < self@.len() ==> r == Some(
                (from + crate::unicode::scalar_len_at(self@, from as int)) as usize,
            ),
            r matches Some(j) ==> from < j <= self@.len() && is_char_boundary(self@, j as int),
    {
        crate::unicode::next_codepoint_offset(&self.bytes, from)
    }

    /// Previous codepoint boundary before `from`, or `None` at the start.
    pub fn prev_codepoint_offset(&self, from: usize) -> (r: Option<usize>)
        requires
            self.wf(),
            is_char_boundary(self@, from as int),
        ensures
            from == 0 ==> r is None,
            from > 0 ==> r == Some(
                (from - crate::unicode::prev_scalar_len(self@, from as int)) as usize,
            ),
            r matches Some(j) ==> j < from && is_char_boundary(self@, j as int),
    {
        crate::unicode::prev_codepoint_offset(&self.bytes, from)
    }

    /// Next grapheme cluster boundary after `from`, or `None` at the end.
    pub fn next_grapheme_offset(&self, from: usize) -> (r: Option<usize>)
        requires
            self.wf(),
            is_char_boundary(self@, from as int),
        ensures
            crate::graphemes::spec_next_grapheme_boundary(self@, from as int) == match r {
                None => None::<int>,
                Some(j) => Some(j as int),
            },
            r matches Some(j) ==> from < j <= self@.len() && is_char_boundary(self@, j as int),
    {
        crate::graphemes::next_grapheme_offset(&self.bytes, from)
    }

    /// Previous grapheme cluster boundary before `from`, or `None` at the
    /// start.
    pub fn prev_grapheme_offset(&self, from: usize) -> (r: Option<usize>)
        requires
            self.wf(),
            is_char_boundary(self@, from as int),
        ensures
            crate::graphemes::spec_prev_grapheme_boundary(self@, from as int) == match r {
                None => None::<int>,
                Some(j) => Some(j as int),
            },
            r matches Some(j) ==> j < from && is_char_boundary(self@, j as int),
    {
        crate::graphemes::prev_grapheme_offset(&self.bytes, from)
    }

    /// Whether `offset` is a grapheme cluster boundary.
    pub fn is_grapheme_boundary(&self, offset: usize) -> (r: bool)
        requires
            self.wf(),
            is_char_boundary(self@, offset as int),
        ensures
            r == crate::graphemes::is_grapheme_boundary_at(self@, offset as int),
    {
        crate::graphemes::is_grapheme_boundary(&self.bytes, offset)
    }

    /// Walk `n` grapheme boundaries forward from `from`.
    pub fn nth_next_grapheme_boundary(&self, from: usize, n: usize) -> (r: Option<usize>)
        requires
            self.wf(),
            is_char_boundary(self@, from as int),
        ensures
            crate::graphemes::spec_nth_next_grapheme_boundary(self@, from as int, n as nat)
                == match r {
                None => None::<int>,
                Some(j) => Some(j as int),
            },
            r matches Some(j) ==> j <= self@.len() && is_char_boundary(self@, j as int),
    {
        crate::graphemes::nth_next_grapheme_boundary(&self.bytes, from, n)
    }

    /// Walk `n` grapheme boundaries backward from `from`.
    pub fn nth_prev_grapheme_boundary(&self, from: usize, n: usize) -> (r: Option<usize>)
        requires
            self.wf(),
            is_char_boundary(self@, from as int),
        ensures
            crate::graphemes::spec_nth_prev_grapheme_boundary(self@, from as int, n as nat)
                == match r {
                None => None::<int>,
                Some(j) => Some(j as int),
            },
            r matches Some(j) ==> j <= self@.len() && is_char_boundary(self@, j as int),
    {
        crate::graphemes::nth_prev_grapheme_boundary(&self.bytes, from, n)
    }

    /// Offset just after the closest line feed before `from`, or 0.
    #[verifier::loop_isolation(false)]
    pub fn preceding_line_break(&self, from: usize) -> (r: usize)
        requires
            from <= self@.len(),
        ensures
            r == spec_preceding_line_break(self@, from as int),
    {
        let mut offset = from;
        while offset > 0
            invariant
                offset <= from,
                spec_preceding_line_break(self@, from as int) == spec_preceding_line_break(
                    self@,
                    offset as int,
                ),
            decreases offset,
        {
            if self.bytes[offset - 1] == 10 {
                return offset;
            }
            offset = offset - 1;
        }
        0
    }

    /// Offset of the first line feed at or after `from`, or the length.
    #[verifier::loop_isolation(false)]
    pub fn next_line_break(&self, from: usize) -> (r: usize)
        requires
            from <= self@.len(),
        ensures
            r == spec_next_line_break(self@, from as int),
    {
        let n = self.bytes.len();
        let mut offset = from;
        while offset < n
            invariant
                from <= offset <= n,
                spec_next_line_break(self@, from as int) == spec_next_line_break(
                    self@,
                    offset as int,
                ),
            decreases n - offset,
        {
            if self.bytes[offset] == 10 {
                return offset;
            }
            offset = offset + 1;
        }
        n
    }

    /// A codepoint cursor over a snapshot of this text, placed at
    /// `position`; `None` when the position is not a codepoint boundary.
    pub fn cursor(&self, position: usize) -> (r: Option<TextCursor>)
        requires
            self.wf(),
        ensures
            is_char_boundary(self@, position as int) ==> (r matches Some(c) && c@ == self@
                && c.pos_spec() == position && c.wf()),
            !is_char_boundary(self@, position as int) ==> r is None,
    {
        if crate::unicode::is_codepoint_boundary(&self.bytes, position) {
            Some(TextCursor { bytes: self.bytes(), position })
        } else {
            None
        }
    }
}

/// A codepoint cursor: an owned snapshot of the text and a byte
/// position on a codepoint boundary. A cursor taken before an edit must
/// be discarded and re-acquired after it.
pub struct TextCursor {
    bytes: Vec<u8>,
    position: usize,
}

impl View for TextCursor {
    type V = Seq<u8>;

    closed spec fn view(&self) -> Seq<u8> {
        self.bytes@
    }
}

impl TextCursor {
    /// The snapshot is valid text and the position a boundary of it.
    pub open spec fn wf(&self) -> bool {
        valid_utf8(self@) && is_char_boundary(self@, self.pos_spec() as int)
    }

    /// Spec view of the current position.
    pub closed spec fn pos_spec(&self) -> usize {
        self.position
    }

    /// Current byte position.
    pub fn pos(&self) -> (r: usize)
        ensures
            r == self.pos_spec(),
    {
        self.position
    }

    /// Return the current position and step one codepoint forward, or
    /// `None` at the end of the text.
    pub fn next(&mut self) -> (r: Option<usize>)
        requires
            old(self).wf(),
        ensures
            final(self).wf(),
            final(self)@ == old(self)@,
            old(self).pos_spec() == old(self)@.len() ==> r is None && final(self).pos_spec()
                == old(self).pos_spec(),
            old(self).pos_spec() < old(self)@.len() ==> r == Some(old(self).pos_spec())
                && final(self).pos_spec() == old(self).pos_spec()
                + crate::unicode::scalar_len_at(old(self)@, old(self).pos_spec() as int),
    {
        let n = self.bytes.len();
        proof {
            if self.position < n {
                crate::unicode::lemma_scalar_at_boundary(self@, self.position as int);
            }
        }
        match crate::unicode::next_codepoint_offset(&self.bytes, self.position) {
            Some(j) => {
                let r = self.position;
                self.position = j;
                Some(r)
            },
            None => None,
        }
    }

    /// Step one codepoint backward and return the new position, or
    /// `None` at the start of the text.
    pub fn prev(&mut self) -> (r: Option<usize>)
        requires
            old(self).wf(),
        ensures
            final(self).wf(),
            final(self)@ == old(self)@,
            old(self).pos_spec() == 0 ==> r is None && final(self).pos_spec() == 0,
            old(self).pos_spec() > 0 ==> r == Some(final(self).pos_spec())
                && final(self).pos_spec() == old(self).pos_spec()
                - crate::unicode::prev_scalar_len(old(self)@, old(self).pos_spec() as int),
    {
        match crate::unicode::prev_codepoint_offset(&self.bytes, self.position) {
            Some(j) => {
                self.position = j;
                Some(j)
            },
            None => None,
        }
    }

    /// The character at the cursor, without moving, or `None` at the end.
    pub fn peek_next_codepoint(&self) -> (r: Option<char>)
        requires
            self.wf(),
        ensures
            self.pos_spec() == self@.len() ==> r is None,
            self.pos_spec() < self@.len() ==> r == Some(
                crate::unicode::char_at(self@, self.pos_spec() as int),
            ),
    {
        if self.position == self.bytes.len() {
            None
        } else {
            proof {
                crate::unicode::lemma_boundary_in_range(self@, self.position as int);
            }
            Some(crate::unicode::decode_char_at(&self.bytes, self.position))
        }
    }

    /// The character at the cursor, stepping past it, or `None` at the
    /// end.
    pub fn next_codepoint(&mut self) -> (r: Option<char>)
        requires
            old(self).wf(),
        ensures
            final(self).wf(),
            final(self)@ == old(self)@,
            old(self).pos_spec() == old(self)@.len() ==> r is None && final(self).pos_spec()
                == old(self).pos_spec(),
            old(self).pos_spec() < old(self)@.len() ==> r == Some(
                crate::unicode::char_at(old(self)@, old(self).pos_spec() as int),
            ) && final(self).pos_spec() == old(self).pos_spec() + crate::unicode::scalar_len_at(
                old(self)@,
                old(self).pos_spec() as int,
            ),
    {
        let c = self.peek_next_codepoint();
        match c {
            Some(c) => {
                let _ = self.next();
                Some(c)
            },
            None => None,
        }
    }

    /// Step one codepoint backward and return the character now under
    /// the cursor, or `None` at the start.
    pub fn prev_codepoint(&mut self) -> (r: Option<char>)
        requires
            old(self).wf(),
        ensures
            final(self).wf(),
            final(self)@ == old(self)@,
            old(self).pos_spec() == 0 ==> r is None && final(self).pos_spec() == 0,
            old(self).pos_spec() > 0 ==> final(self).pos_spec() == old(self).pos_spec()
                - crate::unicode::prev_scalar_len(old(self)@, old(self).pos_spec() as int) && r
                == Some(crate::unicode::char_at(old(self)@, final(self).pos_spec() as int)),
    {
        match self.prev() {
            Some(j) => {
                proof {
                    crate::unicode::lemma_boundary_in_range(self@, self.position as int);
                }
                Some(crate::unicode::decode_char_at(&self.bytes, j))
            },
            None => None,
        }
    }
}

/// The next word boundary at or after `i`, walking grapheme clusters
/// and judging each by whether its first character is alphanumeric:
/// once alphanumeric text has been passed, the walk stops at the first
/// non-alphanumeric cluster; otherwise it runs to the end of the text.
pub open spec fn spec_next_word_offset(s: Seq<u8>, i: int, passed: bool) -> int
    decreases s.len() - i,
    when 0 <= i <= s.len() && valid_utf8(s) && is_char_boundary(s, i)
    via spec_next_word_offset_dec
{
    if i >= s.len() {
        s.len() as int
    } else {
        let alnum = crate::codepoint::spec_char_is_alphanumeric(
            crate::unicode::char_at(s, i),
        );
        if !alnum && passed {
            i
        } else {
            spec_next_word_offset(s, grapheme_step(s, i), alnum || passed)
        }
    }
}

/// The boundary one grapheme cluster after `i`, running to the end when
/// the segmentation reports no further boundary.
pub open spec fn grapheme_step(s: Seq<u8>, i: int) -> int {
    match crate::graphemes::spec_next_grapheme_boundary(s, i) {
        Some(j) => j,
        None => s.len() as int,
    }
}

#[via_fn]
proof fn spec_next_word_offset_dec(s: Seq<u8>, i: int, passed: bool) {
    if i < s.len() {
        match crate::graphemes::spec_next_grapheme_boundary(s, i) {
            Some(j) => {
                crate::graphemes::lemma_next_props(s, i, j);
            },
            None => {},
        }
    }
}

/// The start of a backward word walk from `i`: judging each grapheme
/// cluster before the position, the walk returns the cluster-end offset
/// where alphanumeric text gives way backwards to something else, and
/// `None` when it reaches the start of the text first.
pub open spec fn spec_prev_word_offset(s: Seq<u8>, i: int, passed: bool) -> Option<int>
    decreases i,
    when 0 <= i <= s.len() && valid_utf8(s) && is_char_boundary(s, i)
    via spec_prev_word_offset_dec
{
    if i <= 0 {
        None
    } else {
        let j = grapheme_step_back(s, i);
        let alnum = crate::codepoint::spec_char_is_alphanumeric(
            crate::unicode::char_at(s, j),
        );
        if alnum {
            spec_prev_word_offset(s, j, true)
        } else if passed {
            Some(i)
        } else {
            spec_prev_word_offset(s, j, false)
        }
    }
}

/// The boundary one grapheme cluster before `i`, clamped to the start.
pub open spec fn grapheme_step_back(s: Seq<u8>, i: int) -> int {
    match crate::graphemes::spec_prev_grapheme_boundary(s, i) {
        Some(j) => j,
        None => 0,
    }
}

#[via_fn]
proof fn spec_prev_word_offset_dec(s: Seq<u8>, i: int, passed: bool) {
    if i > 0 {
        match crate::graphemes::spec_prev_grapheme_boundary(s, i) {
            Some(j) => {
                crate::graphemes::lemma_prev_props(s, i, j);
            },
            None => {},
        }
    }
}

impl TextBuffer {
    /// The next word boundary at or after `from`, or the text's length
    /// when only alphanumeric text (or none) follows.
    #[verifier::loop_isolation(false)]
    pub fn next_word_offset(&self, from: usize) -> (r: Option<usize>)
        requires
            self.wf(),
            is_char_boundary(self@, from as int),
        ensures
            r == Some(spec_next_word_offset(self@, from as int, false) as usize),
    {
        let n = self.bytes.len();
        proof {
            crate::unicode::lemma_boundary_in_range(self@, from as int);
        }
        let mut i = from;
        let mut passed = false;
        while i < n
            invariant
                from <= i <= n,
                is_char_boundary(self@, i as int),
                spec_next_word_offset(self@, from as int, false) == spec_next_word_offset(
                    self@,
                    i as int,
                    passed,
                ),
            decreases n - i,
        {
            proof {
                crate::unicode::lemma_boundary_in_range(self@, i as int);
            }
            let c = crate::unicode::decode_char_at(&self.bytes, i);
            let alnum = crate::codepoint::char_is_alphanumeric(c);
            if !alnum && passed {
                return Some(i);
            }
            let j = match crate::graphemes::next_grapheme_offset(&self.bytes, i) {
                Some(j) => j,
                None => n,
            };
            proof {
                if j > i {
                } else {
                    crate::graphemes::lemma_next_props(self@, i as int, j as int);
                }
                vstd::utf8::is_char_boundary_start_end_of_seq(self@);
            }
            passed = alnum || passed;
            i = j;
        }
        Some(n)
    }

    /// The previous word boundary before `from`, or `None` when only
    /// alphanumeric text (or none) precedes it.
    #[verifier::loop_isolation(false)]
    pub fn prev_word_offset(&self, from: usize) -> (r: Option<usize>)
        requires
            self.wf(),
            is_char_boundary(self@, from as int),
        ensures
            match spec_prev_word_offset(self@, from as int, false) {
                Some(o) => r == Some(o as usize),
                None => r is None,
            },
    {
        proof {
            crate::unicode::lemma_boundary_in_range(self@, from as int);
        }
        let mut i = from;
        let mut passed = false;
        while i > 0
            invariant
                i <= from,
                is_char_boundary(self@, i as int),
                spec_prev_word_offset(self@, from as int, false) == spec_prev_word_offset(
                    self@,
                    i as int,
                    passed,
                ),
            decreases i,
        {
            let j = match crate::graphemes::prev_grapheme_offset(&self.bytes, i) {
                Some(j) => j,
                None => 0,
            };
            proof {
                crate::unicode::lemma_boundary_in_range(self@, i as int);
                vstd::utf8::is_char_boundary_start_end_of_seq(self@);
            }
            let c = crate::unicode::decode_char_at(&self.bytes, j);
            let alnum = crate::codepoint::char_is_alphanumeric(c);
            if alnum {
                passed = true;
            } else if passed {
                return Some(i);
            }
            i = j;
        }
        None
    }
}

/// Number of line feeds in `s[0, end)`: the 0-based line of offset `end`.
pub open spec fn spec_line_of_offset(s: Seq<u8>, end: int) -> int
    decreases end,
{
    if end <= 0 {
        0
    } else if s[end - 1] == 10u8 {
        1 + spec_line_of_offset(s, end - 1)
    } else {
        spec_line_of_offset(s, end - 1)
    }
}

/// Byte offset where 0-based `line` starts: just after its preceding
/// line feed, clamped to the text's end.
pub open spec fn spec_offset_of_line(s: Seq<u8>, line: nat) -> int
    decreases line,
{
    if line == 0 {
        0
    } else {
        let p = spec_offset_of_line(s, (line - 1) as nat);
        if p >= s.len() {
            s.len() as int
        } else {
            let b = spec_next_line_break(s, p);
            if b < s.len() {
                b + 1
            } else {
                s.len() as int
            }
        }
    }
}

/// Number of grapheme-cluster steps from `a` up to `b`.
pub open spec fn spec_grapheme_count(s: Seq<u8>, a: int, b: int) -> int
    decreases s.len() - a,
    when 0 <= a <= s.len() && valid_utf8(s) && is_char_boundary(s, a)
    via spec_grapheme_count_dec
{
    if a >= b || a >= s.len() {
        0
    } else {
        1 + spec_grapheme_count(s, grapheme_step(s, a), b)
    }
}

#[via_fn]
proof fn spec_grapheme_count_dec(s: Seq<u8>, a: int, b: int) {
    if a < b && a < s.len() {
        match crate::graphemes::spec_next_grapheme_boundary(s, a) {
            Some(j) => {
                crate::graphemes::lemma_next_props(s, a, j);
            },
            None => {},
        }
    }
}

impl TextBuffer {
    /// The 0-based line number of byte offset `offset`: the count of
    /// line feeds before it.
    #[verifier::loop_isolation(false)]
    pub fn line_of_offset(&self, offset: usize) -> (r: usize)
        requires
            offset <= self@.len(),
        ensures
            r == spec_line_of_offset(self@, offset as int),
    {
        let mut count: usize = 0;
        let mut i: usize = 0;
        while i < offset
            invariant
                i <= offset,
                count <= i,
                count == spec_line_of_offset(self@, i as int),
            decreases offset - i,
        {
            if self.bytes[i] == 10 {
                count = count + 1;
            }
            i = i + 1;
        }
        count
    }

    /// The byte offset where 0-based `line` starts, clamped to the end
    /// of the text for lines past the last.
    #[verifier::loop_isolation(false)]
    pub fn offset_of_line(&self, line: usize) -> (r: usize)
        ensures
            r == spec_offset_of_line(self@, line as nat),
    {
        let n = self.bytes.len();
        let mut l: usize = 0;
        let mut p: usize = 0;
        while l < line
            invariant
                l <= line,
                p <= n,
                p == spec_offset_of_line(self@, l as nat),
            decreases line - l,
        {
            if p >= n {
                proof {
                    lemma_offset_of_line_saturates(self@, l as nat, line as nat);
                }
                return p;
            }
            let b = self.next_line_break(p);
            p = if b < n {
                b + 1
            } else {
                n
            };
            l = l + 1;
        }
        p
    }

    /// Document coordinates of byte offset `head`: the 0-based row and
    /// the grapheme column within its line.
    pub fn cursor_coords(&self, head: usize) -> (r: crate::position::CursorDocCoords)
        requires
            self.wf(),
            head <= self@.len(),
            is_char_boundary(self@, head as int),
        ensures
            r.row == spec_line_of_offset(self@, head as int),
            r.col == spec_grapheme_count(
                self@,
                spec_preceding_line_break(self@, head as int),
                head as int,
            ),
    {
        let row = self.line_of_offset(head);
        let start = self.preceding_line_break(head);
        proof {
            lemma_line_start_boundary(self@, head as int);
        }
        let col = self.grapheme_count_between(start, head);
        crate::position::CursorDocCoords { row, col }
    }

    /// Number of grapheme clusters between two boundaries.
    #[verifier::loop_isolation(false)]
    pub fn grapheme_count_between(&self, start: usize, end: usize) -> (r: usize)
        requires
            self.wf(),
            start <= end <= self@.len(),
            is_char_boundary(self@, start as int),
        ensures
            r == spec_grapheme_count(self@, start as int, end as int),
    {
        let n = self.bytes.len();
        let mut i = start;
        let mut count: usize = 0;
        while i < end
            invariant
                start <= i,
                i <= n,
                count <= i,
                is_char_boundary(self@, i as int),
                spec_grapheme_count(self@, start as int, end as int) == count
                    + spec_grapheme_count(self@, i as int, end as int),
            decreases n - i,
        {
            let j = match crate::graphemes::next_grapheme_offset(&self.bytes, i) {
                Some(j) => j,
                None => n,
            };
            proof {
                vstd::utf8::is_char_boundary_start_end_of_seq(self@);
            }
            count = count + 1;
            i = j;
        }
        count
    }

    /// The protocol position of a byte offset: its 0-based line and its
    /// UTF-16 column within that line.
    pub fn offset_to_position(&self, offset: usize) -> (r: crate::position::Position)
        requires
            self.wf(),
            offset <= self@.len(),
        ensures
            r.line == spec_line_of_offset(self@, offset as int),
            r.character as int == crate::encoding::spec_utf8_to_utf16(
                self@.subrange(
                    spec_preceding_line_break(self@, offset as int),
                    self@.len() as int,
                ),
                0,
                offset - spec_preceding_line_break(self@, offset as int),
            ),
    {
        let line = self.line_of_offset(offset);
        let start = self.preceding_line_break(offset);
        proof {
            lemma_line_start_boundary(self@, offset as int);
            vstd::utf8::valid_utf8_split(self@, start as int);
        }
        let tail = copy_range(&self.bytes, start, self.bytes.len());
        let character = crate::encoding::offset_utf8_to_utf16(&tail, offset - start);
        crate::position::Position { line, character }
    }

    /// The byte offset of a protocol position: the line's start plus the
    /// UTF-16 column converted to bytes within the line's tail.
    pub fn offset_of_position(&self, pos: &crate::position::Position) -> (r: usize)
        requires
            self.wf(),
        ensures
            ({
                let start = spec_offset_of_line(self@, pos.line as nat);
                r == start + crate::encoding::spec_utf16_to_utf8(
                    self@.subrange(start, self@.len() as int),
                    0,
                    pos.character as int,
                )
            }),
    {
        let start = self.offset_of_line(pos.line);
        proof {
            lemma_offset_of_line_bounds(self@, pos.line as nat);
            lemma_offset_of_line_is_boundary(self@, pos.line as nat);
            vstd::utf8::valid_utf8_split(self@, start as int);
        }
        let tail = copy_range(&self.bytes, start, self.bytes.len());
        let within = crate::encoding::offset_utf16_to_utf8(&tail, pos.character);
        proof {
            crate::encoding::lemma_utf16_to_utf8_bounds(tail@, pos.character as int);
        }
        start + within
    }
}

/// Once a line start saturates at the text's end, all later lines do.
proof fn lemma_offset_of_line_saturates(s: Seq<u8>, l: nat, line: nat)
    requires
        l <= line,
        spec_offset_of_line(s, l) >= s.len(),
    ensures
        spec_offset_of_line(s, line) == spec_offset_of_line(s, l),
        spec_offset_of_line(s, l) == s.len(),
    decreases line - l,
{
    lemma_offset_of_line_bounds(s, l);
    if l < line {
        lemma_offset_of_line_saturates(s, (l + 1) as nat, line);
    }
}

/// A line start offset never passes the text's end.
proof fn lemma_offset_of_line_bounds(s: Seq<u8>, line: nat)
    ensures
        0 <= spec_offset_of_line(s, line) <= s.len(),
    decreases line,
{
    if line > 0 {
        lemma_offset_of_line_bounds(s, (line - 1) as nat);
        let p = spec_offset_of_line(s, (line - 1) as nat);
        if p < s.len() {
            lemma_next_break_bounds(s, p);
        }
    }
}

/// The stopping point of `spec_next_line_break` lies in range.
proof fn lemma_next_break_bounds(s: Seq<u8>, from: int)
    requires
        0 <= from <= s.len(),
    ensures
        from <= spec_next_line_break(s, from) <= s.len(),
    decreases s.len() - from,
{
    if from < s.len() && s[from] != 10u8 {
        lemma_next_break_bounds(s, from + 1);
    }
}

/// A line start is a codepoint boundary: it is 0, the end, or the byte
/// right after a one-byte line feed.
proof fn lemma_offset_of_line_is_boundary(s: Seq<u8>, line: nat)
    requires
        valid_utf8(s),
    ensures
        is_char_boundary(s, spec_offset_of_line(s, line)),
    decreases line,
{
    vstd::utf8::is_char_boundary_start_end_of_seq(s);
    if line > 0 {
        let p = spec_offset_of_line(s, (line - 1) as nat);
        lemma_offset_of_line_bounds(s, (line - 1) as nat);
        if p < s.len() {
            let b = spec_next_line_break(s, p);
            lemma_next_break_bounds(s, p);
            if b < s.len() {
                lemma_break_is_newline(s, p);
                vstd::utf8::is_char_boundary_iff_not_is_continuation_byte(s, b);
                crate::unicode::lemma_scalar_at_boundary(s, b);
            }
        }
    }
}

/// The byte at a non-end stopping point is the line feed itself.
proof fn lemma_break_is_newline(s: Seq<u8>, from: int)
    requires
        0 <= from <= s.len(),
        spec_next_line_break(s, from) < s.len(),
    ensures
        s[spec_next_line_break(s, from)] == 10u8,
    decreases s.len() - from,
{
    if from < s.len() && s[from] != 10u8 {
        lemma_break_is_newline(s, from + 1);
    }
}

/// The offset just after a line feed, or 0, is a codepoint boundary.
pub proof fn lemma_line_start_boundary(s: Seq<u8>, head: int)
    requires
        valid_utf8(s),
        0 <= head <= s.len(),
    ensures
        is_char_boundary(s, spec_preceding_line_break(s, head)),
        0 <= spec_preceding_line_break(s, head) <= head,
    decreases head,
{
    vstd::utf8::is_char_boundary_start_end_of_seq(s);
    if head > 0 {
        if s[head - 1] == 10u8 {
            vstd::utf8::is_char_boundary_iff_not_is_continuation_byte(s, head - 1);
            crate::unicode::lemma_scalar_at_boundary(s, head - 1);
        } else {
            lemma_line_start_boundary(s, head - 1);
        }
    }
}

} // verus!
