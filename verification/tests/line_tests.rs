use bluebook_core::line::LineWithEnding;

fn collect_lines(s: &str) -> Vec<Vec<u8>> {
    let mut iter = LineWithEnding::new(s);
    let mut out = Vec::new();
    while let Some(line) = iter.next() {
        out.push(line);
    }
    out
}

#[test]
fn test_empty_string() {
    let s = "";
    let str_array: Vec<Vec<u8>> = vec![];
    let lines = collect_lines(s);
    assert_eq!(lines, str_array);
}

#[test]
fn test_single_line() {
    let s = "Hello, world!";
    let lines = collect_lines(s);
    assert_eq!(lines, [b"Hello, world!".to_vec()]);
}

#[test]
fn test_lines_with_newline() {
    let s = "Line 1\nLine 2\nLine 3\n";
    let lines = collect_lines(s);
    assert_eq!(
        lines,
        [
            b"Line 1\n".to_vec(),
            b"Line 2\n".to_vec(),
            b"Line 3\n".to_vec()
        ]
    );
}

#[test]
fn test_lines_without_newline() {
    let s = "Line 1\nLine 2";
    let lines = collect_lines(s);
    assert_eq!(lines, [b"Line 1\n".to_vec(), b"Line 2".to_vec()]);
}

#[test]
fn test_empty_lines() {
    let s = "\n\n\n";
    let lines = collect_lines(s);
    assert_eq!(lines, [b"\n".to_vec(), b"\n".to_vec(), b"\n".to_vec()]);
}
