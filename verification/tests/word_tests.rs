use bluebook_core::buffer::TextBuffer;

#[test]
fn prev_word_offset() {
    let a = TextBuffer::from_str("Technically a word: ৬藏A\u{030a}\u{110b}\u{1161}");
    assert_eq!(Some(20), a.prev_word_offset(35));
    assert_eq!(Some(20), a.prev_word_offset(27));
    assert_eq!(Some(20), a.prev_word_offset(23));
    assert_eq!(Some(14), a.prev_word_offset(20));
    assert_eq!(Some(14), a.prev_word_offset(19));
    assert_eq!(Some(12), a.prev_word_offset(13));
    assert_eq!(None, a.prev_word_offset(12));
    assert_eq!(None, a.prev_word_offset(11));
    assert_eq!(None, a.prev_word_offset(0));
}

#[test]
fn next_word_offset() {
    let a = TextBuffer::from_str("Technically a word: ৬藏A\u{030a}\u{110b}\u{1161}");
    assert_eq!(Some(11), a.next_word_offset(0));
    assert_eq!(Some(11), a.next_word_offset(7));
    assert_eq!(Some(13), a.next_word_offset(11));
    assert_eq!(Some(18), a.next_word_offset(14));
    assert_eq!(Some(35), a.next_word_offset(18));
    assert_eq!(Some(35), a.next_word_offset(19));
    assert_eq!(Some(35), a.next_word_offset(20));
    assert_eq!(Some(35), a.next_word_offset(26));
    assert_eq!(Some(35), a.next_word_offset(35));
}
