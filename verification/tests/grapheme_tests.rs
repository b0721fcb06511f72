use bluebook_core::buffer::TextBuffer;

const TEXT: &str = "\r\n\
    Hello there!  How're you doing?  It's a fine day, \
    isn't it?  Aren't you glad we're alive?\r\n\
    こんにちは！元気ですか？日はいいですね。\
    私たちが生きだって嬉しいではないか？\r\n\
    ";

#[test]
fn nth_grapheme() {
    let buf = TextBuffer::from_str(TEXT);
    // one grapheme boundary back from the end of the text: the final
    // carriage return and line feed form a single cluster
    assert_eq!(
        buf.nth_prev_grapheme_boundary(TEXT.len(), 1),
        Some(TEXT.len() - 2)
    );
}

#[test]
fn grapheme_cursor_nth_grapheme() {
    let buf = TextBuffer::from_str(TEXT);
    let _offset = buf.nth_next_grapheme_boundary(0, 6);
}

#[test]
fn grapheme_round_trip_concrete() {
    // walking back and forward over the same boundaries returns home
    let buf = TextBuffer::from_str("a😀b");
    let back = buf.nth_prev_grapheme_boundary(5, 2).unwrap();
    assert_eq!(back, 0);
    assert_eq!(buf.nth_next_grapheme_boundary(back, 2), Some(5));
}
