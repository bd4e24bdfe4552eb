use quickxml_ref::line::{parse_and_format, process_line};

#[test]
fn line_for_nested_elements() {
    assert_eq!(
        parse_and_format("<a><b>text</b></a>"),
        "[Start({name: \"a\", attributes: []}), Start({name: \"b\", attributes: []}), \
         Text(\"text\"), End(\"b\"), End(\"a\"), Eof]"
    );
}

#[test]
fn line_for_a_self_closing_element() {
    assert_eq!(
        parse_and_format("<a x=\"1\" y=\"2\"/>"),
        "[Empty({name: \"a\", attributes: [(\"x\", \"1\"), (\"y\", \"2\")]}), Eof]"
    );
}

#[test]
fn line_for_an_element_left_open() {
    assert_eq!(
        parse_and_format("<a>"),
        "[Start({name: \"a\", attributes: []}), Error(\"unterminated element: a\")]"
    );
}

#[test]
fn line_for_comment_and_instruction() {
    assert_eq!(
        parse_and_format("<!--c--><?p d?>"),
        "[Comment(\"c\"), PI(target=\"p\", data=\"d\"), Eof]"
    );
}

#[test]
fn line_for_a_declaration() {
    assert_eq!(
        parse_and_format("<?xml version=\"1.0\" encoding=\"UTF-8\"?>"),
        "[Decl(version=\"1.0\", encoding=Some(\"UTF-8\"), standalone=None), Eof]"
    );
}

#[test]
fn line_for_text_with_entity() {
    assert_eq!(parse_and_format("a &amp; b"), "[Text(\"a & b\"), Eof]");
}

#[test]
fn line_for_the_empty_text() {
    assert_eq!(parse_and_format(""), "[Eof]");
}

#[test]
fn line_escapes_what_the_events_hold() {
    assert_eq!(
        parse_and_format("<a>\n\t&quot;\\</a>"),
        "[Start({name: \"a\", attributes: []}), Text(\"\\n\\t\\\"\\\\\"), End(\"a\"), Eof]"
    );
}

#[test]
fn line_is_the_same_on_every_run() {
    for input in ["<a><b>text</b></a>", "<a x=1>", "&bogus;", "<!DOCTYPE>"] {
        assert_eq!(parse_and_format(input), parse_and_format(input));
    }
}

#[test]
fn line_with_an_error_of_the_reader_holds_one_line() {
    let out = parse_and_format("<a");
    assert!(out.starts_with("[Error(\"") && out.ends_with("\")]"), "{}", out);
    assert!(!out.contains('\n'));
}

#[test]
fn process_line_skips_the_empty_line() {
    assert_eq!(process_line(""), None);
}

#[test]
fn process_line_unpacks_the_line_first() {
    assert_eq!(
        process_line("<a>\\n</a>"),
        Some("[Start({name: \"a\", attributes: []}), Text(\"\\n\"), End(\"a\"), Eof]".to_string())
    );
    assert_eq!(process_line("a\\\\b"), Some("[Text(\"a\\\\b\"), Eof]".to_string()));
}

#[test]
fn process_line_of_white_space_is_text() {
    assert_eq!(process_line(" "), Some("[Text(\" \"), Eof]".to_string()));
}
