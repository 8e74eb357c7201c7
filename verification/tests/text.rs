use ci_diff::text::{chars_of, cut, cut_first, read_output, same_text, text_of, trim, white_space};

fn string(v: &Vec<char>) -> String {
    v.iter().collect()
}

#[test]
fn white_space_is_that_of_std() {
    for n in 0..=0x10ffffu32 {
        if let Some(c) = char::from_u32(n) {
            assert_eq!(white_space(c), c.is_whitespace(), "{n:x}");
        }
    }
}

#[test]
fn trimming_is_that_of_std() {
    for text in ["", " ", "a", "  a b\t\n", "\u{3000}x\u{2028}", "x \r"] {
        assert_eq!(string(&trim(&chars_of(text))), text.trim());
    }
}

#[test]
fn cutting() {
    let parts: Vec<String> = cut(&chars_of("a,,b,"), ',').iter().map(string).collect();
    assert_eq!(parts, ["a", "", "b", ""]);
    assert_eq!(cut(&chars_of(""), ',').len(), 1);
    let (head, tail) = cut_first(&chars_of("a,b,c"), ',');
    assert_eq!(string(&head), "a");
    assert_eq!(tail.map(|tail| string(&tail)).as_deref(), Some("b,c"));
    let (head, tail) = cut_first(&chars_of("abc"), ',');
    assert_eq!(string(&head), "abc");
    assert_eq!(tail, None);
}

#[test]
fn texts_are_compared_and_cut_by_character() {
    assert!(same_text("caf\u{e9}", "caf\u{e9}"));
    assert!(!same_text("cafe", "caf\u{e9}"));
    assert!(!same_text("a", "ab"));
    assert_eq!(text_of(&chars_of("h\u{e9}llo"), 1, 3), "\u{e9}l");
}

#[test]
fn output_is_read_as_in_std() {
    for bytes in [
        &b""[..],
        &b"plain"[..],
        &b"caf\xc3\xa9"[..],
        &b"\xff\xfe"[..],
        &b"a\xe2\x82b"[..],
        &b"\xf0\x9f\x98\x80"[..],
    ] {
        assert_eq!(read_output(bytes), String::from_utf8_lossy(bytes));
    }
}
