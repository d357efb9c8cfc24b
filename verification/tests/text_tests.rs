use osk_typer::text::{chars_of, string_of, wide};

#[test]
fn wide_strings() {
    assert_eq!(wide(""), vec![0]);
    assert_eq!(wide("Ab"), vec![0x41, 0x62, 0]);
    assert_eq!(wide("\u{e9}\u{1F600}"), vec![0xE9, 0xD83D, 0xDE00, 0]);
    let s = "On-Screen Keyboard \u{2328}";
    let mut expected: Vec<u16> = s.encode_utf16().collect();
    expected.push(0);
    assert_eq!(wide(s), expected);
}

#[test]
fn character_round_trip() {
    let v = chars_of("x\u{1F600}y");
    assert_eq!(v, vec!['x', '\u{1F600}', 'y']);
    assert_eq!(string_of(&v, 1, 3), "\u{1F600}y");
    assert_eq!(string_of(&v, 0, 0), "");
}
