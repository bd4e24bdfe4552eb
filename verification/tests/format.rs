use quickxml_ref::event::{Attribute, Event};
use quickxml_ref::format::{format_event, format_events};

fn attribute(key: &str, value: &str) -> Attribute {
    Attribute { key: key.to_string(), value: value.to_string() }
}

#[test]
fn start_tag_without_attributes() {
    let event = Event::StartTag { name: "a".to_string(), attributes: vec![] };
    assert_eq!(format_event(&event), "Start({name: \"a\", attributes: []})");
}

#[test]
fn start_tag_with_attributes() {
    let event = Event::StartTag {
        name: "a".to_string(),
        attributes: vec![attribute("x", "1"), attribute("y", "2"), attribute("x", "3")],
    };
    assert_eq!(
        format_event(&event),
        "Start({name: \"a\", attributes: [(\"x\", \"1\"), (\"y\", \"2\"), (\"x\", \"3\")]})"
    );
}

#[test]
fn empty_tag_with_one_attribute() {
    let event = Event::EmptyTag { name: "a".to_string(), attributes: vec![attribute("x", "1")] };
    assert_eq!(format_event(&event), "Empty({name: \"a\", attributes: [(\"x\", \"1\")]})");
}

#[test]
fn end_tag() {
    assert_eq!(format_event(&Event::EndTag { name: "a:b".to_string() }), "End(\"a:b\")");
}

#[test]
fn text_cdata_and_comment() {
    assert_eq!(format_event(&Event::Text { content: "a & b".to_string() }), "Text(\"a & b\")");
    assert_eq!(format_event(&Event::CData { content: "<x>".to_string() }), "CData(\"<x>\")");
    assert_eq!(format_event(&Event::Comment { content: " c ".to_string() }), "Comment(\" c \")");
}

#[test]
fn processing_instruction() {
    let event = Event::ProcessingInstruction { target: "p".to_string(), data: "d".to_string() };
    assert_eq!(format_event(&event), "PI(target=\"p\", data=\"d\")");
}

#[test]
fn declaration_with_and_without_optional_fields() {
    let full = Event::Declaration {
        version: "1.0".to_string(),
        encoding: Some("UTF-8".to_string()),
        standalone: Some("yes".to_string()),
    };
    assert_eq!(
        format_event(&full),
        "Decl(version=\"1.0\", encoding=Some(\"UTF-8\"), standalone=Some(\"yes\"))"
    );
    let bare = Event::Declaration { version: String::new(), encoding: None, standalone: None };
    assert_eq!(format_event(&bare), "Decl(version=\"\", encoding=None, standalone=None)");
}

#[test]
fn doctype_end_of_input_and_error() {
    assert_eq!(format_event(&Event::DocType { name: "html".to_string() }), "DocType(\"html\")");
    assert_eq!(format_event(&Event::EndOfInput), "Eof");
    assert_eq!(
        format_event(&Event::Error { message: "unterminated element: a".to_string() }),
        "Error(\"unterminated element: a\")"
    );
}

#[test]
fn every_text_field_is_escaped() {
    let odd = "a\"b\\c\nd\re\tf";
    let out = "a\\\"b\\\\c\\nd\\re\\tf";
    assert_eq!(format_event(&Event::Text { content: odd.to_string() }), format!("Text(\"{}\")", out));
    assert_eq!(format_event(&Event::Error { message: odd.to_string() }), format!("Error(\"{}\")", out));
    assert_eq!(
        format_event(&Event::ProcessingInstruction { target: odd.to_string(), data: odd.to_string() }),
        format!("PI(target=\"{}\", data=\"{}\")", out, out)
    );
    assert_eq!(
        format_event(&Event::EmptyTag { name: odd.to_string(), attributes: vec![attribute(odd, odd)] }),
        format!("Empty({{name: \"{}\", attributes: [(\"{}\", \"{}\")]}})", out, out, out)
    );
    assert_eq!(
        format_event(&Event::Declaration {
            version: odd.to_string(),
            encoding: Some(odd.to_string()),
            standalone: None
        }),
        format!("Decl(version=\"{}\", encoding=Some(\"{}\"), standalone=None)", out, out)
    );
}

#[test]
fn other_characters_are_not_altered() {
    let event = Event::Text { content: "\u{e9}\u{0}\u{7f}'<>&\u{1F600}".to_string() };
    assert_eq!(format_event(&event), "Text(\"\u{e9}\u{0}\u{7f}'<>&\u{1F600}\")");
}

#[test]
fn a_run_is_joined_between_brackets() {
    let events = vec![
        Event::StartTag { name: "a".to_string(), attributes: vec![] },
        Event::Text { content: "t".to_string() },
        Event::EndTag { name: "a".to_string() },
        Event::EndOfInput,
    ];
    assert_eq!(
        format_events(&events),
        "[Start({name: \"a\", attributes: []}), Text(\"t\"), End(\"a\"), Eof]"
    );
}

#[test]
fn a_run_of_one_and_of_no_event() {
    assert_eq!(format_events(&vec![Event::EndOfInput]), "[Eof]");
    assert_eq!(format_events(&vec![]), "[]");
}
