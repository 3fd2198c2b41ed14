use uhttp::text::{chars_of, concat_str, find_text, is_single_char, string_of, trim};

#[test]
fn trimming_removes_unicode_white_space() {
    let cs = chars_of("\u{3000} \tab c\u{a0}\n");
    assert_eq!(string_of(&trim(&cs)), "ab c");
    assert_eq!(string_of(&trim(&chars_of("   "))), "");
}

#[test]
fn finding_text() {
    let cs = chars_of("gzip, br");
    assert!(find_text(&cs, &chars_of("br")));
    assert!(find_text(&cs, &chars_of("")));
    assert!(!find_text(&cs, &chars_of("zstd")));
    assert!(!find_text(&chars_of("b"), &chars_of("br")));
}

#[test]
fn small_text_helpers() {
    assert!(is_single_char("/", '/'));
    assert!(!is_single_char("//", '/'));
    assert_eq!(concat_str("ab", "cd"), "abcd");
}
