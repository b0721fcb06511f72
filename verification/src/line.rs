//! Line iteration that keeps each line's ending attached.

use vstd::prelude::*;
use vstd::utf8::{valid_utf8, is_char_boundary};
use crate::buffer::spec_next_line_break;

verus! {

/// Walks a text's lines front to back; each produced line carries its
/// trailing line feed, and only the last line may lack one.
pub struct LineWithEnding {
    bytes: Vec<u8>,
    position: usize,
}

impl View for LineWithEnding {
    type V = Seq<u8>;

    closed spec fn view(&self) -> Seq<u8> {
        self.bytes@
    }
}

impl LineWithEnding {
    /// Spec view of the walk position.
    pub closed spec fn pos_spec(&self) -> usize {
        self.position
    }

    /// The walker is within its text, on a codepoint boundary.
    pub open spec fn wf(&self) -> bool {
        valid_utf8(self@) && is_char_boundary(self@, self.pos_spec() as int) && self.pos_spec()
            <= self@.len()
    }

    /// Start walking the lines of `s`.
    pub fn new(s: &str) -> (r: Self)
        ensures
            r.wf(),
            r@ == vstd::utf8::encode_utf8(s@),
            r.pos_spec() == 0,
    {
        proof {
            vstd::utf8::encode_utf8_valid_utf8(s@);
            vstd::utf8::is_char_boundary_start_end_of_seq(vstd::utf8::encode_utf8(s@));
        }
        LineWithEnding { bytes: s.as_bytes_vec(), position: 0 }
    }

    /// The next line including its ending, as bytes, or `None` after the
    /// last line.
    pub fn next(&mut self) -> (r: Option<Vec<u8>>)
        requires
            old(self).wf(),
        ensures
            final(self).wf(),
            final(self)@ == old(self)@,
            old(self).pos_spec() == old(self)@.len() ==> r is None && *final(self) == *old(self),
            old(self).pos_spec() < old(self)@.len() ==> ({
                let stop = spec_next_line_break(old(self)@, old(self).pos_spec() as int);
                let cut = if stop < old(self)@.len() {
                    stop + 1
                } else {
                    stop
                };
                r matches Some(line) && line@ == old(self)@.subrange(
                    old(self).pos_spec() as int,
                    cut,
                ) && final(self).pos_spec() == cut
            }),
    {
        let n = self.bytes.len();
        if self.position >= n {
            return None;
        }
        let stop = line_break_from(&self.bytes, self.position);
        let cut = if stop < n {
            stop + 1
        } else {
            stop
        };
        let line = crate::buffer::copy_range(&self.bytes, self.position, cut);
        proof {
            lemma_line_break_bounds(self@, self.position as int);
            if stop < n {
                vstd::utf8::is_char_boundary_iff_not_is_continuation_byte(self@, stop as int);
                crate::unicode::lemma_scalar_at_boundary(self@, stop as int);
            } else {
                vstd::utf8::is_char_boundary_start_end_of_seq(self@);
            }
        }
        self.position = cut;
        Some(line)
    }
}

/// The stopping point of `spec_next_line_break` lies between `from` and
/// the length.
proof fn lemma_line_break_bounds(s: Seq<u8>, from: int)
    requires
        0 <= from <= s.len(),
    ensures
        from <= spec_next_line_break(s, from) <= s.len(),
    decreases s.len() - from,
{
    if from < s.len() && s[from] != 10u8 {
        lemma_line_break_bounds(s, from + 1);
    }
}

/// Exec mirror of `spec_next_line_break` from a starting point.
#[verifier::loop_isolation(false)]
fn line_break_from(bytes: &Vec<u8>, from: usize) -> (r: usize)
    requires
        from <= bytes@.len(),
    ensures
        r == spec_next_line_break(bytes@, from as int),
        from <= r <= bytes@.len(),
        r < bytes@.len() ==> bytes@[r as int] == 10u8,
{
    let n = bytes.len();
    let mut offset = from;
    while offset < n
        invariant
            from <= offset <= n,
            spec_next_line_break(bytes@, from as int) == spec_next_line_break(
                bytes@,
                offset as int,
            ),
        decreases n - offset,
    {
        if bytes[offset] == 10 {
            return offset;
        }
        offset = offset + 1;
    }
    n
}

/// Error raised by line-cursor operations.
#[derive(Debug, Clone, Copy, PartialEq, Eq, Structural)]
pub enum LineCursorError {
    InvalidLine,
}

} // verus!
