use quickxml_ref::text::{chars_of, is_whitespace, is_xml_whitespace, same_text, string_of};

#[test]
fn is_whitespace_is_the_unicode_property() {
    let mut code: u32 = 0;
    while code <= 0x10FFFF {
        if let Some(c) = char::from_u32(code) {
            assert_eq!(is_whitespace(c), c.is_whitespace(), "U+{:04X}", code);
        }
        code += 1;
    }
}

#[test]
fn xml_white_space_is_four_characters() {
    let mut count = 0;
    let mut code: u32 = 0;
    while code <= 0x10FFFF {
        if let Some(c) = char::from_u32(code) {
            if is_xml_whitespace(c) {
                count += 1;
            }
        }
        code += 1;
    }
    assert_eq!(count, 4);
    assert!(is_xml_whitespace(' ') && is_xml_whitespace('\t'));
    assert!(is_xml_whitespace('\r') && is_xml_whitespace('\n'));
    assert!(!is_xml_whitespace('\u{c}') && !is_xml_whitespace('\u{a0}'));
}

#[test]
fn chars_of_gives_the_characters() {
    assert_eq!(chars_of("a\u{e9}\u{1F600}"), vec!['a', '\u{e9}', '\u{1F600}']);
    assert_eq!(chars_of(""), Vec::<char>::new());
}

#[test]
fn string_of_takes_a_range_of_characters() {
    let chars = vec!['a', '\u{e9}', 'c', 'd'];
    assert_eq!(string_of(&chars, 1, 3), "\u{e9}c");
    assert_eq!(string_of(&chars, 0, 4), "a\u{e9}cd");
    assert_eq!(string_of(&chars, 2, 2), "");
}

#[test]
fn same_text_compares_by_characters() {
    assert!(same_text("version", "version"));
    assert!(same_text("", ""));
    assert!(!same_text("version", "versiom"));
    assert!(!same_text("version", "versio"));
    assert!(!same_text("", "v"));
}
