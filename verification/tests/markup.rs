use quickxml_ref::markup::{
    declares_xml, first_word, run_length, split_instruction, split_tag, Class,
};

fn pair(a: &str, b: &str) -> (String, String) {
    (a.to_string(), b.to_string())
}

#[test]
fn classes_of_characters() {
    assert!(Class::Space.contains(' ') && Class::Space.contains('\u{a0}'));
    assert!(!Class::Space.contains('a'));
    assert!(Class::Word.contains('a') && !Class::Word.contains('\u{2003}'));
    assert!(Class::Name.contains('\u{a0}') && Class::Name.contains('='));
    assert!(!Class::Name.contains('\n'));
}

#[test]
fn run_length_counts_from_the_given_place() {
    let chars: Vec<char> = "ab  \tcd".chars().collect();
    assert_eq!(run_length(&chars, 0, Class::Word), 2);
    assert_eq!(run_length(&chars, 2, Class::Space), 3);
    assert_eq!(run_length(&chars, 2, Class::Word), 0);
    assert_eq!(run_length(&chars, 5, Class::Name), 2);
    assert_eq!(run_length(&chars, 7, Class::Name), 0);
}

#[test]
fn split_tag_at_the_first_white_space() {
    assert_eq!(split_tag("a x=\"1\" "), pair("a", " x=\"1\" "));
    assert_eq!(split_tag("name"), pair("name", ""));
    assert_eq!(split_tag("n\ta='b c'"), pair("n", "\ta='b c'"));
    assert_eq!(split_tag(""), pair("", ""));
    assert_eq!(split_tag(" a"), pair("", " a"));
}

#[test]
fn split_tag_keeps_other_white_space_in_the_name() {
    assert_eq!(split_tag("a\u{a0}b c"), pair("a\u{a0}b", " c"));
}

#[test]
fn split_instruction_into_target_and_data() {
    assert_eq!(split_instruction("p d"), pair("p", "d"));
    assert_eq!(split_instruction("p"), pair("p", ""));
    assert_eq!(split_instruction("p  \n d e "), pair("p", "d e "));
    assert_eq!(split_instruction("xml-stylesheet href=\"s.css\""), pair("xml-stylesheet", "href=\"s.css\""));
    assert_eq!(split_instruction(""), pair("", ""));
    assert_eq!(split_instruction(" d"), pair("", "d"));
    assert_eq!(split_instruction("p\u{a0}d"), pair("p", "d"));
}

#[test]
fn first_word_of_a_doctype() {
    assert_eq!(first_word("html"), "html");
    assert_eq!(first_word("root [<!ELEMENT a (b)>]"), "root");
    assert_eq!(first_word("html PUBLIC \"x\""), "html");
    assert_eq!(first_word("  r  "), "r");
}

#[test]
fn first_word_where_there_is_none() {
    assert_eq!(first_word(""), "");
    assert_eq!(first_word(" \t"), " \t");
}

#[test]
fn declares_xml_in_any_case_before_white_space() {
    assert!(declares_xml("xml version=\"1.0\""));
    assert!(declares_xml("XML\tversion='1.0'"));
    assert!(declares_xml("xMl "));
    assert!(!declares_xml("xml"));
    assert!(!declares_xml("xml-stylesheet href=\"s\""));
    assert!(!declares_xml("xm l"));
    assert!(!declares_xml("xml\u{a0}version"));
    assert!(!declares_xml(""));
}
