use bluebook_core::codepoint::CharClassification;
use bluebook_core::cursor::{CursorOrientation, CursorRange};
use bluebook_core::delta::{InsertDrift, TextDelta};
use bluebook_core::line_ending::{str_is_line_ending, LineEnding};
use bluebook_core::selection::Selection;
use bluebook_core::word::WordBoundary;

#[test]
fn overlap_symmetry_concrete() {
    let cases = [
        (CursorRange::new(0, 5), CursorRange::new(5, 9)),
        (CursorRange::new(0, 5), CursorRange::new(3, 9)),
        (CursorRange::new(2, 2), CursorRange::new(2, 7)),
        (CursorRange::new(7, 3), CursorRange::new(4, 1)),
        (CursorRange::new(1, 1), CursorRange::new(1, 1)),
    ];
    for (a, b) in cases {
        assert_eq!(a.overlaps(&b), b.overlaps(&a));
    }
}

#[test]
fn zero_width_overlaps_shared_left_edge() {
    // adjacent non-empty ranges do not overlap, but an empty range
    // overlaps the shared edge
    let left = CursorRange::new(0, 5);
    let right = CursorRange::new(5, 9);
    assert!(!left.overlaps(&right));
    let point = CursorRange::new(5, 5);
    assert!(point.overlaps(&right));
}

#[test]
fn merge_contains_both() {
    let cases = [
        (CursorRange::new(0, 5), CursorRange::new(7, 9)),
        (CursorRange::new(9, 4), CursorRange::new(2, 6)),
        (CursorRange::new(3, 3), CursorRange::new(1, 2)),
    ];
    for (a, b) in cases {
        let m = a.merge(b);
        assert!(m.contains_range(&a));
        assert!(m.contains_range(&b));
    }
}

#[test]
fn extend_covers_request() {
    let r = CursorRange::new(4, 6).extend(2, 9);
    assert!(r.from() <= 2 && r.to() >= 9);
    assert_eq!(r.orientation(), CursorOrientation::Forward);
}

#[test]
fn selection_tracks_ranges() {
    let mut sel = Selection::new();
    sel.add_curor_range(CursorRange::new(2, 6));
    sel.add_curor_range(CursorRange::new(9, 9));
    assert!(sel.contains(3));
    assert!(!sel.contains(7));
    assert!(!sel.is_point());
    let delta = TextDelta {
        start: 0,
        deleted: 0,
        inserted: 4,
    };
    let moved = sel.apply_delta(&delta, false, InsertDrift::Default);
    let ranges = moved.cursor_ranges();
    assert_eq!(ranges[0], CursorRange::new(6, 10));
    assert_eq!(ranges[1], CursorRange::new(13, 13));
}

#[test]
fn line_ending_recognition() {
    assert_eq!(LineEnding::from_str("\n"), Some(LineEnding::LF));
    assert_eq!(LineEnding::from_str("\r\n"), Some(LineEnding::Crlf));
    assert_eq!(LineEnding::from_str("x"), None);
    assert_eq!(LineEnding::from_char('\n'), Some(LineEnding::LF));
    assert_eq!(LineEnding::LF.len_chars(), 1);
    assert_eq!(LineEnding::Crlf.len_chars(), 2);
    assert_eq!(LineEnding::Crlf.as_str(), "\r\n");
    assert!(str_is_line_ending("\n"));
    assert!(!str_is_line_ending("ab"));
}

#[test]
fn word_boundary_table() {
    let b = WordBoundary::new(CharClassification::Space, CharClassification::Other);
    assert!(b.is_start());
    let e = WordBoundary::new(CharClassification::Other, CharClassification::Space);
    assert!(e.is_end());
    let both = WordBoundary::new(CharClassification::Punctuation, CharClassification::Other);
    assert!(both.is_start() && both.is_end() && both.is_boundary());
    let interior = WordBoundary::new(CharClassification::Space, CharClassification::Space);
    assert!(!interior.is_boundary());
}
