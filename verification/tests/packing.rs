use quickxml_ref::packing::{escape, unescape_input};

#[test]
fn escape_leaves_plain_text_alone() {
    assert_eq!(escape("plain text, \u{e9}\u{20AC} 'single'"), "plain text, \u{e9}\u{20AC} 'single'");
}

#[test]
fn escape_marks_the_five_characters() {
    assert_eq!(escape("a\\b\"c\nd\re\tf"), "a\\\\b\\\"c\\nd\\re\\tf");
}

#[test]
fn escape_of_the_empty_text() {
    assert_eq!(escape(""), "");
}

#[test]
fn escape_does_not_read_its_own_backslashes_again() {
    assert_eq!(escape("\\n"), "\\\\n");
    assert_eq!(escape("\\\""), "\\\\\\\"");
}

#[test]
fn escaped_text_has_no_line_break_or_tab() {
    let out = escape("a\nb\rc\td\u{b}");
    assert!(!out.contains('\n') && !out.contains('\r') && !out.contains('\t'));
    assert_eq!(out, "a\\nb\\rc\\td\u{b}");
}

#[test]
fn unescape_input_resolves_known_pairs() {
    assert_eq!(unescape_input("a\\nb\\rc\\td\\\\e"), "a\nb\rc\td\\e");
}

#[test]
fn unescape_input_keeps_unknown_pairs() {
    assert_eq!(unescape_input("\\q\\\""), "\\q\\\"");
}

#[test]
fn unescape_input_keeps_a_trailing_backslash() {
    assert_eq!(unescape_input("abc\\"), "abc\\");
}

#[test]
fn unescape_input_reads_from_left_to_right() {
    assert_eq!(unescape_input("\\\\n"), "\\n");
    assert_eq!(unescape_input("\\\\\\n"), "\\\n");
}

#[test]
fn unescape_input_of_plain_and_empty_text() {
    assert_eq!(unescape_input(""), "");
    assert_eq!(unescape_input("<a x=\"1\"/>"), "<a x=\"1\"/>");
}

#[test]
fn unescape_input_undoes_escape_where_no_quote_stands() {
    for text in ["", "plain", "a\\b", "l1\nl2\r\n\tx", "\\n", "\\\\"] {
        assert_eq!(unescape_input(&escape(text)), text);
    }
}
