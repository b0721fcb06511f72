use bluebook_core::buffer::TextBuffer;
use bluebook_core::cursor::CursorRange;
use bluebook_core::delta::{InsertDrift, TextDelta};
use bluebook_core::editor::{TextEditorContext, Transaction};
use bluebook_core::span::{AttrValue, Behavior, Span, SpanSet};

#[test]
fn magic_params_editor() {}

#[test]
fn test_cursor_coords_multiple_lines_middle() {}

#[test]
fn test_cursor_coords_multiple_lines_end() {}

#[test]
fn test_cursor_coords_at_start() {}

#[test]
fn test_cursor_coords_past_end() {}

#[test]
fn cursor_impl_test_cursor_coords_multiple_lines_middle() {}

#[test]
fn cursor_impl_test_cursor_coords_multiple_lines_end() {}

#[test]
fn cursor_impl_test_cursor_coords_at_start() {}

#[test]
fn cursor_impl_test_cursor_coords_past_end() {}

fn span(start: usize, end: usize, type_: &str, behavior: Behavior, lamport: u64) -> Span {
    Span {
        start,
        end,
        type_: type_.to_string(),
        value: AttrValue::Null,
        behavior,
        lamport,
    }
}

#[test]
fn basic_insert_scenario() {
    let mut ctx = TextEditorContext::new(
        TextBuffer::from_str("Hello world"),
        CursorRange::new(5, 5),
        SpanSet::new(),
    );
    let applied = ctx
        .consume_transaction(Transaction::InsertAtCursorHead {
            value: " there".to_string(),
        })
        .unwrap();
    assert!(applied);
    assert_eq!(ctx.text_buffer.take(), "Hello there world");
    assert_eq!(ctx.cursor_range.head, 11);
    assert_eq!(ctx.cursor_range.anchor, 11);
}

#[test]
fn backward_delete_at_boundary_scenario() {
    // the emoji is a 4-byte codepoint forming one grapheme cluster
    let mut ctx = TextEditorContext::new(
        TextBuffer::from_str("a😀b"),
        CursorRange::new(5, 5),
        SpanSet::new(),
    );
    let applied = ctx.consume_transaction(Transaction::DeleteBackward).unwrap();
    assert!(applied);
    assert_eq!(ctx.text_buffer.take(), "ab");
    assert_eq!(ctx.cursor_range.head, 1);
    assert_eq!(ctx.cursor_range.anchor, 1);
}

#[test]
fn span_survives_edit_before_it() {
    let mut spans = SpanSet::new();
    spans.annotate(span(10, 20, "bold", Behavior::Merge, 1));
    let delta = TextDelta {
        start: 0,
        deleted: 0,
        inserted: 5,
    };
    spans.update(&delta, InsertDrift::Default, false);
    let all = spans.spans();
    assert_eq!(all.len(), 1);
    assert_eq!(all[0].start, 15);
    assert_eq!(all[0].end, 25);
}

#[test]
fn noop_delta_leaves_spans_unchanged() {
    let mut spans = SpanSet::new();
    spans.annotate(span(3, 9, "italic", Behavior::Merge, 1));
    spans.annotate(span(5, 15, "comment", Behavior::AllowMultiple, 2));
    let before = spans.spans();
    let delta = TextDelta {
        start: 4,
        deleted: 0,
        inserted: 0,
    };
    spans.update(&delta, InsertDrift::Default, false);
    assert_eq!(spans.spans(), before);
}

#[test]
fn allow_multiple_spans_coexist() {
    let mut spans = SpanSet::new();
    spans.annotate(span(5, 15, "comment", Behavior::AllowMultiple, 1));
    spans.annotate(span(10, 20, "comment", Behavior::AllowMultiple, 2));
    let in_range = spans.spans_in_range(0, 25);
    assert_eq!(in_range.len(), 2);
    // both comments are active anywhere inside [10, 15)
    let at = spans.spans_at(12);
    assert_eq!(at.len(), 2);
}

#[test]
fn merge_coalesces_overlapping_spans() {
    let mut spans = SpanSet::new();
    spans.annotate(span(2, 5, "bold", Behavior::Merge, 1));
    spans.annotate(span(1, 4, "bold", Behavior::Merge, 2));
    let all = spans.spans();
    assert_eq!(all.len(), 1);
    assert_eq!(all[0].start, 1);
    assert_eq!(all[0].end, 5);
}

#[test]
fn delete_keeps_newer_span() {
    let mut spans = SpanSet::new();
    spans.annotate(span(0, 10, "link", Behavior::Delete, 1));
    spans.annotate(span(5, 12, "link", Behavior::Delete, 2));
    let all = spans.spans();
    assert_eq!(all.len(), 1);
    assert_eq!(all[0].start, 5);
    assert_eq!(all[0].end, 12);
    assert_eq!(all[0].lamport, 2);
}

#[test]
fn move_cursor_clamps_at_edges() {
    let mut ctx = TextEditorContext::new(
        TextBuffer::from_str("hi"),
        CursorRange::new(1, 1),
        SpanSet::new(),
    );
    let applied = ctx
        .consume_transaction(Transaction::MoveCursorLeft { grapheme_count: 5 })
        .unwrap();
    assert!(applied);
    assert_eq!(ctx.cursor_range.head, 0);
    let applied = ctx
        .consume_transaction(Transaction::MoveCursorLeft { grapheme_count: 1 })
        .unwrap();
    assert!(!applied);
    assert_eq!(ctx.cursor_range.head, 0);
    let applied = ctx
        .consume_transaction(Transaction::MoveCursorRight { grapheme_count: 9 })
        .unwrap();
    assert!(applied);
    assert_eq!(ctx.cursor_range.head, 2);
}

#[test]
fn delete_selection_collapses_to_start() {
    let mut ctx = TextEditorContext::new(
        TextBuffer::from_str("abcdef"),
        CursorRange::new(4, 2),
        SpanSet::new(),
    );
    let applied = ctx.consume_transaction(Transaction::DeleteSelection).unwrap();
    assert!(applied);
    assert_eq!(ctx.text_buffer.take(), "abef");
    assert_eq!(ctx.cursor_range.head, 2);
    assert_eq!(ctx.cursor_range.anchor, 2);
}

#[test]
fn cursor_coords_and_positions() {
    let buf = TextBuffer::from_str("Hello \nworld\n\n");
    let coords = buf.cursor_coords(9);
    assert_eq!(coords.row, 1);
    assert_eq!(coords.col, 2);
    let pos = buf.offset_to_position(9);
    assert_eq!(pos.line, 1);
    assert_eq!(pos.character, 2);
    assert_eq!(buf.offset_of_line(0), 0);
    assert_eq!(buf.offset_of_line(1), 7);
    assert_eq!(buf.offset_of_line(2), 13);
    assert_eq!(buf.offset_of_position(&pos), 9);
    assert_eq!(buf.line_of_offset(6), 0);
    assert_eq!(buf.line_of_offset(7), 1);
}

#[test]
fn insert_empty_string_reports_change_without_effect() {
    let mut ctx = TextEditorContext::new(
        TextBuffer::from_str("abc"),
        CursorRange::new(1, 1),
        SpanSet::new(),
    );
    ctx.consume_transaction(Transaction::InsertAtCursorHead {
        value: String::new(),
    })
    .unwrap();
    assert_eq!(ctx.text_buffer.take(), "abc");
    assert_eq!(ctx.cursor_range.head, 1);
}

#[test]
fn insert_newline_advances_by_one() {
    let mut ctx = TextEditorContext::new(
        TextBuffer::from_str("ab"),
        CursorRange::new(1, 1),
        SpanSet::new(),
    );
    let applied = ctx.consume_transaction(Transaction::InsertNewLine).unwrap();
    assert!(applied);
    assert_eq!(ctx.text_buffer.take(), "a\nb");
    assert_eq!(ctx.cursor_range.head, 2);
}

#[test]
fn move_head_to_rejects_mid_grapheme_offset() {
    let mut ctx = TextEditorContext::new(
        TextBuffer::from_str("a😀b"),
        CursorRange::new(0, 0),
        SpanSet::new(),
    );
    assert!(ctx
        .consume_transaction(Transaction::MoveCursorHeadTo { offset: 3 })
        .is_err());
    assert!(ctx
        .consume_transaction(Transaction::MoveCursorHeadTo { offset: 5 })
        .unwrap());
    assert_eq!(ctx.cursor_range.head, 5);
}

#[test]
fn slice_out_of_range_is_an_error() {
    let buf = TextBuffer::from_str("abc");
    assert!(buf.slice(2, 1).is_err());
    assert!(buf.slice(0, 4).is_err());
    assert_eq!(buf.slice(1, 3).unwrap(), b"bc".to_vec());
}

#[test]
fn write_at_non_boundary_is_an_error() {
    let mut buf = TextBuffer::from_str("a😀b");
    assert!(buf.write(2, "x").is_err());
    assert_eq!(buf.take(), "a😀b");
}
