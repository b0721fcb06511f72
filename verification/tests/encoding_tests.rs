use bluebook_core::encoding::{offset_utf16_to_utf8_str, offset_utf8_to_utf16_str};

#[test]
fn utf8_to_utf16() {
    let text = "hello world";

    assert_eq!(offset_utf8_to_utf16_str(text, 0), 0);
    assert_eq!(offset_utf8_to_utf16_str("", 0), 0);

    assert_eq!(offset_utf8_to_utf16_str("", 1), 0);

    assert_eq!(offset_utf8_to_utf16_str("h", 0), 0);
    assert_eq!(offset_utf8_to_utf16_str("h", 1), 1);

    assert_eq!(offset_utf8_to_utf16_str(text, text.len()), text.len());

    assert_eq!(
        offset_utf8_to_utf16_str(text, text.len() - 1),
        text.len() - 1
    );

    assert_eq!(offset_utf8_to_utf16_str(text, text.len() + 1), text.len());

    assert_eq!(offset_utf8_to_utf16_str("×", 0), 0);
    assert_eq!(offset_utf8_to_utf16_str("×", 1), 1);
    assert_eq!(offset_utf8_to_utf16_str("×", 2), 1);
    assert_eq!(offset_utf8_to_utf16_str("a×", 0), 0);
    assert_eq!(offset_utf8_to_utf16_str("a×", 1), 1);
    assert_eq!(offset_utf8_to_utf16_str("a×", 2), 2);
    assert_eq!(offset_utf8_to_utf16_str("a×", 3), 2);
}

#[test]
fn utf16_to_utf8() {
    let text = "hello world";

    assert_eq!(offset_utf16_to_utf8_str(text, 0), 0);
    assert_eq!(offset_utf16_to_utf8_str("", 0), 0);

    assert_eq!(offset_utf16_to_utf8_str("", 1), 0);

    assert_eq!(offset_utf16_to_utf8_str("h", 0), 0);
    assert_eq!(offset_utf16_to_utf8_str("h", 1), 1);

    assert_eq!(offset_utf16_to_utf8_str(text, text.len()), text.len());

    assert_eq!(
        offset_utf16_to_utf8_str(text, text.len() - 1),
        text.len() - 1
    );

    assert_eq!(offset_utf16_to_utf8_str(text, text.len() + 1), text.len());

    assert_eq!(offset_utf16_to_utf8_str("×", 0), 0);
    assert_eq!(offset_utf16_to_utf8_str("×", 1), 2);
    assert_eq!(offset_utf16_to_utf8_str("a×", 0), 0);
    assert_eq!(offset_utf16_to_utf8_str("a×", 1), 1);
    assert_eq!(offset_utf16_to_utf8_str("a×", 2), 3);
    assert_eq!(offset_utf16_to_utf8_str("×a", 1), 2);
    assert_eq!(offset_utf16_to_utf8_str("×a", 2), 3);
}
