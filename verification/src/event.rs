//! The events that a tokenizer run is made of.

use vstd::prelude::*;

verus! {

/// One attribute of a tag: its key as written and its value with references
/// resolved.
#[derive(Clone, Debug, PartialEq, Eq)]
pub struct Attribute {
    pub key: String,
    pub value: String,
}

/// The mathematical value of an [`Attribute`].
#[verifier::ext_equal]
pub struct AttributeView {
    pub key: Seq<char>,
    pub value: Seq<char>,
}

impl DeepView for Attribute {
    type V = AttributeView;

    open spec fn deep_view(&self) -> AttributeView {
        AttributeView { key: self.key@, value: self.value@ }
    }
}

impl View for Attribute {
    type V = AttributeView;

    open spec fn view(&self) -> AttributeView {
        self.deep_view()
    }
}

/// One unit of the flat output of the tokenizer.
#[derive(Clone, Debug, PartialEq, Eq)]
pub enum Event {
    /// The opening tag of an element that has content.
    StartTag { name: String, attributes: Vec<Attribute> },
    /// A closing tag.
    EndTag { name: String },
    /// A self-closing element.
    EmptyTag { name: String, attributes: Vec<Attribute> },
    /// Character data between tags, with references resolved.
    Text { content: String },
    /// The body of a CDATA section, as written.
    CData { content: String },
    /// The body of a comment, as written.
    Comment { content: String },
    /// A processing instruction.
    ProcessingInstruction { target: String, data: String },
    /// The XML declaration.
    Declaration { version: String, encoding: Option<String>, standalone: Option<String> },
    /// The root name of a document type declaration.
    DocType { name: String },
    /// The input ended where it may end.
    EndOfInput,
    /// The input is malformed; nothing follows this event.
    Error { message: String },
}

/// The mathematical value of an [`Event`].
#[verifier::ext_equal]
pub enum EventView {
    StartTag { name: Seq<char>, attributes: Seq<AttributeView> },
    EndTag { name: Seq<char> },
    EmptyTag { name: Seq<char>, attributes: Seq<AttributeView> },
    Text { content: Seq<char> },
    CData { content: Seq<char> },
    Comment { content: Seq<char> },
    ProcessingInstruction { target: Seq<char>, data: Seq<char> },
    Declaration { version: Seq<char>, encoding: Option<Seq<char>>, standalone: Option<Seq<char>> },
    DocType { name: Seq<char> },
    EndOfInput,
    Error { message: Seq<char> },
}

impl DeepView for Event {
    type V = EventView;

    open spec fn deep_view(&self) -> EventView {
        match *self {
            Event::StartTag { name, attributes } => EventView::StartTag {
                name: name@,
                attributes: attributes.deep_view(),
            },
            Event::EndTag { name } => EventView::EndTag { name: name@ },
            Event::EmptyTag { name, attributes } => EventView::EmptyTag {
                name: name@,
                attributes: attributes.deep_view(),
            },
            Event::Text { content } => EventView::Text { content: content@ },
            Event::CData { content } => EventView::CData { content: content@ },
            Event::Comment { content } => EventView::Comment { content: content@ },
            Event::ProcessingInstruction { target, data } => EventView::ProcessingInstruction {
                target: target@,
                data: data@,
            },
            Event::Declaration { version, encoding, standalone } => EventView::Declaration {
                version: version@,
                encoding: encoding.deep_view(),
                standalone: standalone.deep_view(),
            },
            Event::DocType { name } => EventView::DocType { name: name@ },
            Event::EndOfInput => EventView::EndOfInput,
            Event::Error { message } => EventView::Error { message: message@ },
        }
    }
}

impl View for Event {
    type V = EventView;

    open spec fn view(&self) -> EventView {
        self.deep_view()
    }
}

impl EventView {
    /// Whether this event ends a run: nothing may follow it.
    pub open spec fn is_terminal(self) -> bool {
        self is EndOfInput || self is Error
    }
}

impl Event {
    /// Whether this event ends a run: nothing may follow it.
    pub fn is_terminal(&self) -> (yes: bool)
        ensures
            yes == self@.is_terminal(),
    {
        match self {
            Event::EndOfInput => true,
            Event::Error { .. } => true,
            _ => false,
        }
    }
}

} // verus!
