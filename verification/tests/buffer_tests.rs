use bluebook_core::buffer::TextBuffer;

#[test]
fn replace() {
    let mut buf = TextBuffer::from_str("hello world");
    buf.replace_range(1, 9, "era").unwrap();
    assert_eq!("herald", buf.take());
}

#[test]
fn buffer_impl_replace() {
    let mut buf = TextBuffer::from_str("hello world");
    buf.replace_range(1, 9, "era").unwrap();
    assert_eq!("herald", buf.take());
}

#[test]
fn buffer_replace() {}

#[test]
fn prev_codepoint_offset() {
    let a = TextBuffer::from_str("a\u{00A1}\u{4E00}\u{1F4A9}");
    assert_eq!(Some(6), a.prev_codepoint_offset(10));
    assert_eq!(Some(3), a.prev_codepoint_offset(6));
    assert_eq!(Some(1), a.prev_codepoint_offset(3));
    assert_eq!(Some(0), a.prev_codepoint_offset(1));
    assert_eq!(None, a.prev_codepoint_offset(0));
    let b = TextBuffer::from_bytes(a.slice(1, 10).unwrap()).unwrap();
    assert_eq!(Some(5), b.prev_codepoint_offset(9));
    assert_eq!(Some(2), b.prev_codepoint_offset(5));
    assert_eq!(Some(0), b.prev_codepoint_offset(2));
    assert_eq!(None, b.prev_codepoint_offset(0));
}

#[test]
fn next_codepoint_offset() {
    let a = TextBuffer::from_str("a\u{00A1}\u{4E00}\u{1F4A9}");
    assert_eq!(Some(10), a.next_codepoint_offset(6));
    assert_eq!(Some(6), a.next_codepoint_offset(3));
    assert_eq!(Some(3), a.next_codepoint_offset(1));
    assert_eq!(Some(1), a.next_codepoint_offset(0));
    assert_eq!(None, a.next_codepoint_offset(10));
    let b = TextBuffer::from_bytes(a.slice(1, 10).unwrap()).unwrap();
    assert_eq!(Some(9), b.next_codepoint_offset(5));
    assert_eq!(Some(5), b.next_codepoint_offset(2));
    assert_eq!(Some(2), b.next_codepoint_offset(0));
    assert_eq!(None, b.next_codepoint_offset(9));
}

#[test]
fn prev_next() {
    let buf = TextBuffer::from_str("abc");
    let mut cursor = buf.cursor(0).unwrap();

    assert_eq!(cursor.next(), Some(0));
    assert_eq!(cursor.next(), Some(1));
    assert_eq!(cursor.prev(), Some(1));
    assert_eq!(cursor.next(), Some(1));
    assert_eq!(cursor.next(), Some(2));
}

#[test]
fn peek_next_codepoint() {
    let inp = TextBuffer::from_str("$¢€£💶");
    let mut cursor = inp.cursor(0).unwrap();
    assert_eq!(cursor.peek_next_codepoint(), Some('$'));
    assert_eq!(cursor.peek_next_codepoint(), Some('$'));
    assert_eq!(cursor.next_codepoint(), Some('$'));
    assert_eq!(cursor.peek_next_codepoint(), Some('¢'));
    assert_eq!(cursor.prev_codepoint(), Some('$'));
    assert_eq!(cursor.peek_next_codepoint(), Some('$'));
    assert_eq!(cursor.next_codepoint(), Some('$'));
    assert_eq!(cursor.next_codepoint(), Some('¢'));
    assert_eq!(cursor.peek_next_codepoint(), Some('€'));
    assert_eq!(cursor.next_codepoint(), Some('€'));
    assert_eq!(cursor.peek_next_codepoint(), Some('£'));
    assert_eq!(cursor.next_codepoint(), Some('£'));
    assert_eq!(cursor.peek_next_codepoint(), Some('💶'));
    assert_eq!(cursor.next_codepoint(), Some('💶'));
    assert_eq!(cursor.peek_next_codepoint(), None);
    assert_eq!(cursor.next_codepoint(), None);
    assert_eq!(cursor.peek_next_codepoint(), None);
}

#[test]
fn prev_grapheme_offset() {
    // A with ring, hangul, regional indicator "US"
    let a = TextBuffer::from_str("A\u{030a}\u{110b}\u{1161}\u{1f1fa}\u{1f1f8}");
    assert_eq!(Some(9), a.prev_grapheme_offset(17));
    assert_eq!(Some(3), a.prev_grapheme_offset(9));
    assert_eq!(Some(0), a.prev_grapheme_offset(3));
    assert_eq!(None, a.prev_grapheme_offset(0));
}

#[test]
fn next_grapheme_offset() {
    // A with ring, hangul, regional indicator "US"
    let a = TextBuffer::from_str("A\u{030a}\u{110b}\u{1161}\u{1f1fa}\u{1f1f8}");
    assert_eq!(Some(3), a.next_grapheme_offset(0));
    assert_eq!(Some(9), a.next_grapheme_offset(3));
    assert_eq!(Some(17), a.next_grapheme_offset(9));
    assert_eq!(None, a.next_grapheme_offset(17));
}

#[test]
fn preceding_line_break() {
    let a = TextBuffer::from_str("Technically\na word:\n ৬藏A\u{030a}\n\u{110b}\u{1161}");
    assert_eq!(0, a.preceding_line_break(0));
    assert_eq!(0, a.preceding_line_break(11));
    assert_eq!(12, a.preceding_line_break(12));
    assert_eq!(12, a.preceding_line_break(13));
    assert_eq!(20, a.preceding_line_break(21));
    assert_eq!(31, a.preceding_line_break(31));
    assert_eq!(31, a.preceding_line_break(34));

    let b = TextBuffer::from_str("Technically a word: ৬藏A\u{030a}\u{110b}\u{1161}");
    assert_eq!(0, b.preceding_line_break(0));
    assert_eq!(0, b.preceding_line_break(11));
    assert_eq!(0, b.preceding_line_break(13));
    assert_eq!(0, b.preceding_line_break(21));
}

#[test]
fn next_line_break() {
    let a = TextBuffer::from_str("Technically\na word:\n ৬藏A\u{030a}\n\u{110b}\u{1161}");
    assert_eq!(11, a.next_line_break(0));
    assert_eq!(11, a.next_line_break(11));
    assert_eq!(19, a.next_line_break(13));
    assert_eq!(30, a.next_line_break(21));
    assert_eq!(a.len(), a.next_line_break(31));

    let b = TextBuffer::from_str("Technically a word: ৬藏A\u{030a}\u{110b}\u{1161}");
    assert_eq!(b.len(), b.next_line_break(0));
    assert_eq!(b.len(), b.next_line_break(11));
    assert_eq!(b.len(), b.next_line_break(13));
    assert_eq!(b.len(), b.next_line_break(19));
}
