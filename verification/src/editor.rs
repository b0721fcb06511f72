//! The edit-transaction state machine: the single entry point that takes
//! a `Transaction`, applies it atomically to the buffer, the cursor range
//! and the spans, and reports whether the visible state changed.
//!
//! Deliberate choices, both documented here: a backward delete with a
//! non-empty selection deletes the selection, and a cursor motion that
//! runs past a text edge clamps to the nearest boundary and still
//! succeeds.

use vstd::prelude::*;
use vstd::utf8::{valid_utf8, is_char_boundary, encode_utf8};
use crate::buffer::{TextBuffer, BoundaryError, ConversionError};
use crate::cursor::CursorRange;
use crate::delta::{TextDelta, InsertDrift};
use crate::graphemes::{
    GraphemeCursorError,
    spec_prev_grapheme_boundary,
    spec_nth_prev_grapheme_boundary,
    spec_nth_next_grapheme_boundary,
    is_grapheme_boundary_at,
};
use crate::span::{SpanSet, Span, spec_update_span};

verus! {

/// A normalized editing operation, the sole mutation entry point.
pub enum Transaction {
    InsertAtCursorHead { value: String },
    Paste { clipboard: String },
    InsertNewLine,
    DeleteBackward,
    DeleteSelection,
    MoveCursorLeft { grapheme_count: usize },
    MoveCursorRight { grapheme_count: usize },
    MoveCursorHeadTo { offset: usize },
}

/// A structural failure while applying a transaction.
#[derive(Debug, Clone, Copy, PartialEq, Eq, Structural)]
pub enum BluebookCoreError {
    Buffer(BoundaryError),
    Conversion(ConversionError),
    GraphemeCursor(GraphemeCursorError),
}

/// The current document state: the text, one selection, and the spans.
pub struct TextEditorContext {
    pub text_buffer: TextBuffer,
    pub cursor_range: CursorRange,
    pub spans: SpanSet,
}

/// The spans after an edit: every span re-indexed through its delta.
pub open spec fn spec_spans_updated(olds: Seq<Span>, news: Seq<Span>, d: TextDelta) -> bool {
    news.len() == olds.len() && forall|i: int|
        0 <= i < olds.len() ==> #[trigger] news[i] == spec_update_span(
            olds[i],
            d,
            InsertDrift::Default,
            false,
        )
}

impl TextEditorContext {
    /// The context is consistent: the text is valid, both selection ends
    /// sit on codepoint boundaries of it, and every span lies within it.
    pub open spec fn wf(&self) -> bool {
        &&& self.text_buffer.wf()
        &&& is_char_boundary(self.text_buffer@, self.cursor_range.anchor as int)
        &&& is_char_boundary(self.text_buffer@, self.cursor_range.head as int)
        &&& self.cursor_range.anchor <= self.text_buffer@.len()
        &&& self.cursor_range.head <= self.text_buffer@.len()
        &&& self.spans.wf()
        &&& forall|i: int|
            0 <= i < self.spans@.len() ==> (#[trigger] self.spans@[i]).end
                <= self.text_buffer@.len()
    }

    pub fn new(text_buffer: TextBuffer, cursor_range: CursorRange, spans: SpanSet) -> (r: Self)
        ensures
            r.text_buffer == text_buffer,
            r.cursor_range == cursor_range,
            r.spans == spans,
    {
        Self { text_buffer, cursor_range, spans }
    }

    /// Apply one transaction atomically. `Ok(true)` means the visible
    /// state changed, `Ok(false)` a well-formed no-op; a structural
    /// failure leaves the whole state untouched.
    #[verifier::loop_isolation(false)]
    #[verifier::rlimit(60)]
    pub fn consume_transaction(&mut self, transaction: Transaction) -> (r: Result<
        bool,
        BluebookCoreError,
    >)
        requires
            old(self).wf(),
        ensures
            final(self).wf(),
            r is Err ==> *final(self) == *old(self),
            match transaction {
                // inserting writes the encoded text at the head, puts the
                // point after it, and re-indexes the spans by the delta
                Transaction::InsertAtCursorHead { value } => spec_inserted(
                    *old(self),
                    *final(self),
                    value@,
                    r,
                ),
                Transaction::Paste { clipboard } => spec_inserted(
                    *old(self),
                    *final(self),
                    clipboard@,
                    r,
                ),
                Transaction::InsertNewLine => spec_inserted(
                    *old(self),
                    *final(self),
                    seq!['\n'],
                    r,
                ),
                // an empty selection is a well-formed no-op; otherwise the
                // selected range is removed and the cursor collapses to
                // its lower end
                Transaction::DeleteSelection => spec_selection_deleted(
                    *old(self),
                    *final(self),
                    r,
                ),
                // with a selection this behaves as selection deletion;
                // with a point it removes one grapheme cluster before the
                // head, and is a no-op at the start of the text
                Transaction::DeleteBackward => (if old(self).cursor_range.anchor != old(
                    self,
                ).cursor_range.head {
                    spec_selection_deleted(*old(self), *final(self), r)
                } else {
                    spec_deleted_backward(*old(self), *final(self), r)
                }),
                // motions clamp at the text edges and report whether the
                // head moved
                Transaction::MoveCursorLeft { grapheme_count } => spec_moved(
                    *old(self),
                    *final(self),
                    spec_nth_prev_grapheme_boundary(
                        old(self).text_buffer@,
                        old(self).cursor_range.head as int,
                        grapheme_count as nat,
                    ),
                    0,
                    r,
                ),
                Transaction::MoveCursorRight { grapheme_count } => spec_moved(
                    *old(self),
                    *final(self),
                    spec_nth_next_grapheme_boundary(
                        old(self).text_buffer@,
                        old(self).cursor_range.head as int,
                        grapheme_count as nat,
                    ),
                    old(self).text_buffer@.len() as int,
                    r,
                ),
                // a direct head move is validated against the grapheme
                // boundaries of the current text
                Transaction::MoveCursorHeadTo { offset } => (if offset
                    <= old(self).text_buffer@.len() && is_char_boundary(
                    old(self).text_buffer@,
                    offset as int,
                ) && is_grapheme_boundary_at(old(self).text_buffer@, offset as int) {
                    &&& final(self).text_buffer@ == old(self).text_buffer@
                    &&& final(self).spans@ == old(self).spans@
                    &&& final(self).cursor_range.head == offset
                    &&& final(self).cursor_range.anchor == old(self).cursor_range.anchor
                    &&& r == Ok::<bool, BluebookCoreError>(offset != old(self).cursor_range.head)
                } else {
                    r == Err::<bool, BluebookCoreError>(
                        BluebookCoreError::GraphemeCursor(GraphemeCursorError::InvalidCharacter),
                    )
                }),
            },
    {
        match transaction {
            Transaction::InsertAtCursorHead { value } => self.insert_at_head(&value),
            Transaction::Paste { clipboard } => self.insert_at_head(&clipboard),
            Transaction::InsertNewLine => {
                let newline = newline_string();
                self.insert_at_head(&newline)
            },
            Transaction::DeleteSelection => self.delete_selection(),
            Transaction::DeleteBackward => {
                if self.cursor_range.anchor != self.cursor_range.head {
                    self.delete_selection()
                } else {
                    self.delete_backward_point()
                }
            },
            Transaction::MoveCursorLeft { grapheme_count } => {
                let head = self.cursor_range.head;
                let target = match self.text_buffer.nth_prev_grapheme_boundary(
                    head,
                    grapheme_count,
                ) {
                    Some(j) => j,
                    None => 0,
                };
                proof {
                    vstd::utf8::is_char_boundary_start_end_of_seq(self.text_buffer@);
                }
                self.cursor_range.set_point(target);
                Ok(target != head)
            },
            Transaction::MoveCursorRight { grapheme_count } => {
                let head = self.cursor_range.head;
                let target = match self.text_buffer.nth_next_grapheme_boundary(
                    head,
                    grapheme_count,
                ) {
                    Some(j) => j,
                    None => self.text_buffer.len(),
                };
                proof {
                    vstd::utf8::is_char_boundary_start_end_of_seq(self.text_buffer@);
                }
                self.cursor_range.set_point(target);
                Ok(target != head)
            },
            Transaction::MoveCursorHeadTo { offset } => {
                let ok = offset <= self.text_buffer.len() && self.text_buffer.is_char_boundary(
                    offset,
                ) && self.text_buffer.is_grapheme_boundary(offset);
                if ok {
                    let changed = offset != self.cursor_range.head;
                    self.cursor_range.set_head(offset);
                    Ok(changed)
                } else {
                    Err(BluebookCoreError::GraphemeCursor(GraphemeCursorError::InvalidCharacter))
                }
            },
        }
    }

    /// Write `s` at the cursor head, advance the point past it, and
    /// re-index the spans.
    fn insert_at_head(&mut self, s: &String) -> (r: Result<bool, BluebookCoreError>)
        requires
            old(self).wf(),
        ensures
            final(self).wf(),
            spec_inserted(*old(self), *final(self), s@, r),
    {
        let head = self.cursor_range.head;
        let ghost olds = self.text_buffer@;
        let d = match self.text_buffer.write(head, s.as_str()) {
            Ok(d) => d,
            Err(_) => {
                proof {
                    assert(false);
                }
                return Err(BluebookCoreError::Buffer(BoundaryError::NotCharBoundary));
            },
        };
        let n2 = self.text_buffer.len();
        proof {
            vstd::utf8::encode_utf8_valid_utf8(s@);
            vstd::utf8::valid_utf8_split(olds, head as int);
            vstd::utf8::valid_utf8_concat(olds.subrange(0, head as int), encode_utf8(s@));
            crate::unicode::lemma_concat_boundary(
                olds.subrange(0, head as int) + encode_utf8(s@),
                olds.subrange(head as int, olds.len() as int),
            );
            assert(n2 == olds.len() + encode_utf8(s@).len());
            crate::delta::lemma_transform_bounded(d, olds.len() as int);
        }
        let new_head = head + d.inserted;
        proof {
            assert(self.text_buffer@.subrange(0, new_head as int) =~= olds.subrange(0, head as int)
                + encode_utf8(s@));
        }
        self.cursor_range.set_point(new_head);
        self.spans.update(&d, InsertDrift::Default, false);
        proof {
            assert forall|i: int| 0 <= i < self.spans@.len() implies (#[trigger] self.spans@[i]).end
                <= self.text_buffer@.len() by {
                let o = old(self).spans@[i];
                assert(self.spans@[i] == spec_update_span(o, d, InsertDrift::Default, false));
                assert(0 <= crate::delta::spec_transform(d, o.end as int, false) <= olds.len()
                    - d.deleted + d.inserted);
                assert(0 <= crate::delta::spec_transform(d, o.start as int, false) <= olds.len()
                    - d.deleted + d.inserted);
            }
        }
        Ok(true)
    }

    /// Remove `[from, to)` of the selection, collapse the cursor to
    /// `from`, and re-index the spans.
    fn delete_selection(&mut self) -> (r: Result<bool, BluebookCoreError>)
        requires
            old(self).wf(),
        ensures
            final(self).wf(),
            spec_selection_deleted(*old(self), *final(self), r),
    {
        if self.cursor_range.anchor == self.cursor_range.head {
            return Ok(false);
        }
        let from = self.cursor_range.from();
        let to = self.cursor_range.to();
        self.delete_range(from, to)
    }

    /// Remove one grapheme cluster before the head of a point cursor.
    fn delete_backward_point(&mut self) -> (r: Result<bool, BluebookCoreError>)
        requires
            old(self).wf(),
            old(self).cursor_range.anchor == old(self).cursor_range.head,
        ensures
            final(self).wf(),
            spec_deleted_backward(*old(self), *final(self), r),
    {
        let head = self.cursor_range.head;
        let from = match self.text_buffer.prev_grapheme_offset(head) {
            Some(j) => j,
            None => {
                return Ok(false);
            },
        };
        self.delete_range(from, head)
    }

    /// Remove `[from, to)`, collapse the cursor to `from`, re-index.
    fn delete_range(&mut self, from: usize, to: usize) -> (r: Result<bool, BluebookCoreError>)
        requires
            old(self).wf(),
            from < to <= old(self).text_buffer@.len(),
            is_char_boundary(old(self).text_buffer@, from as int),
            is_char_boundary(old(self).text_buffer@, to as int),
        ensures
            final(self).wf(),
            final(self).text_buffer@ == old(self).text_buffer@.subrange(0, from as int) + old(
                self,
            ).text_buffer@.subrange(to as int, old(self).text_buffer@.len() as int),
            final(self).cursor_range.anchor == from && final(self).cursor_range.head == from,
            spec_spans_updated(
                old(self).spans@,
                final(self).spans@,
                TextDelta { start: from, deleted: (to - from) as usize, inserted: 0 },
            ),
            r == Ok::<bool, BluebookCoreError>(true),
    {
        let ghost olds = self.text_buffer@;
        let empty = empty_string();
        let d = match self.text_buffer.replace_range(from, to, empty.as_str()) {
            Ok(d) => d,
            Err(_) => {
                proof {
                    assert(false);
                }
                return Err(BluebookCoreError::Buffer(BoundaryError::NotCharBoundary));
            },
        };
        proof {
            assert(encode_utf8(Seq::<char>::empty()) =~= Seq::<u8>::empty());
            assert(self.text_buffer@ =~= olds.subrange(0, from as int) + olds.subrange(
                to as int,
                olds.len() as int,
            ));
            vstd::utf8::valid_utf8_split(olds, from as int);
            vstd::utf8::valid_utf8_split(olds, to as int);
            crate::unicode::lemma_concat_boundary(
                olds.subrange(0, from as int),
                olds.subrange(to as int, olds.len() as int),
            );
            crate::delta::lemma_transform_bounded(d, olds.len() as int);
        }
        self.cursor_range.set_point(from);
        self.spans.update(&d, InsertDrift::Default, false);
        proof {
            assert forall|i: int| 0 <= i < self.spans@.len() implies (#[trigger] self.spans@[i]).end
                <= self.text_buffer@.len() by {
                let o = old(self).spans@[i];
                assert(self.spans@[i] == spec_update_span(o, d, InsertDrift::Default, false));
                assert(0 <= crate::delta::spec_transform(d, o.end as int, false) <= olds.len()
                    - d.deleted + d.inserted);
                assert(0 <= crate::delta::spec_transform(d, o.start as int, false) <= olds.len()
                    - d.deleted + d.inserted);
            }
        }
        Ok(true)
    }

}

/// After an insertion of `chars` at the head: the buffer holds the
/// encoded text at the old head, the cursor is a point just past it, and
/// every span went through the insertion delta.
pub open spec fn spec_inserted(
    oldc: TextEditorContext,
    newc: TextEditorContext,
    chars: Seq<char>,
    r: Result<bool, BluebookCoreError>,
) -> bool {
    let head = oldc.cursor_range.head as int;
    let ins = encode_utf8(chars);
    let d = TextDelta { start: oldc.cursor_range.head, deleted: 0, inserted: ins.len() as usize };
    &&& newc.text_buffer@ == oldc.text_buffer@.subrange(0, head) + ins + oldc.text_buffer@.subrange(
        head,
        oldc.text_buffer@.len() as int,
    )
    &&& newc.cursor_range.anchor == head + ins.len()
    &&& newc.cursor_range.head == head + ins.len()
    &&& spec_spans_updated(oldc.spans@, newc.spans@, d)
    &&& r == Ok::<bool, BluebookCoreError>(true)
}

/// After a selection deletion: `Ok(false)` and no change for a point;
/// otherwise the selected range is gone, the cursor sits at its lower
/// end, and every span went through the deletion delta.
pub open spec fn spec_selection_deleted(
    oldc: TextEditorContext,
    newc: TextEditorContext,
    r: Result<bool, BluebookCoreError>,
) -> bool {
    if oldc.cursor_range.anchor == oldc.cursor_range.head {
        newc == oldc && r == Ok::<bool, BluebookCoreError>(false)
    } else {
        let from = crate::cursor::range_from(oldc.cursor_range);
        let to = crate::cursor::range_to(oldc.cursor_range);
        &&& newc.text_buffer@ == oldc.text_buffer@.subrange(0, from)
            + oldc.text_buffer@.subrange(to, oldc.text_buffer@.len() as int)
        &&& newc.cursor_range.anchor == from && newc.cursor_range.head == from
        &&& spec_spans_updated(
            oldc.spans@,
            newc.spans@,
            TextDelta { start: from as usize, deleted: (to - from) as usize, inserted: 0 },
        )
        &&& r == Ok::<bool, BluebookCoreError>(true)
    }
}

/// After a backward delete at a point: no change at the start of the
/// text, else exactly the grapheme cluster before the head is removed.
pub open spec fn spec_deleted_backward(
    oldc: TextEditorContext,
    newc: TextEditorContext,
    r: Result<bool, BluebookCoreError>,
) -> bool {
    let head = oldc.cursor_range.head as int;
    match spec_prev_grapheme_boundary(oldc.text_buffer@, head) {
        None => newc == oldc && r == Ok::<bool, BluebookCoreError>(false),
        Some(from) => {
            &&& newc.text_buffer@ == oldc.text_buffer@.subrange(0, from)
                + oldc.text_buffer@.subrange(head, oldc.text_buffer@.len() as int)
            &&& newc.cursor_range.anchor == from && newc.cursor_range.head == from
            &&& spec_spans_updated(
                oldc.spans@,
                newc.spans@,
                TextDelta { start: from as usize, deleted: (head - from) as usize, inserted: 0 },
            )
            &&& r == Ok::<bool, BluebookCoreError>(true)
        },
    }
}

/// After a clamped motion: the cursor is a point at the walked-to
/// boundary, or at the `edge` when the walk ran out of text, and the
/// result reports whether the head moved.
pub open spec fn spec_moved(
    oldc: TextEditorContext,
    newc: TextEditorContext,
    target: Option<int>,
    edge: int,
    r: Result<bool, BluebookCoreError>,
) -> bool {
    let t = match target {
        Some(j) => j,
        None => edge,
    };
    &&& newc.text_buffer@ == oldc.text_buffer@
    &&& newc.spans@ == oldc.spans@
    &&& newc.cursor_range.anchor == t && newc.cursor_range.head == t
    &&& r == Ok::<bool, BluebookCoreError>(t != oldc.cursor_range.head)
}

/// A fresh owned newline, for the dedicated newline transaction.
fn newline_string() -> (r: String)
    ensures
        r@ == seq!['\n'],
{
    proof {
        reveal_strlit("\n");
    }
    let s: &str = "\n";
    s.to_owned()
}

/// A fresh owned empty string.
fn empty_string() -> (r: String)
    ensures
        r@ == Seq::<char>::empty(),
{
    String::new()
}

} // verus!
