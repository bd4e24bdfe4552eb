//! From what the reader hands out to events: names are split off, references
//! resolved, attributes gathered, and what cannot be decoded becomes an error
//! event.

use crate::event::{Attribute, AttributeView, Event, EventView};
use crate::markup::{
    declares_xml, doctype_name, first_word, instruction_data, instruction_target, is_declaration,
    split_instruction, split_tag, tag_name, tag_rest,
};
use crate::text::same_text;
use crate::xml::{
    attributes_in, raw_item, raw_pair, raw_pairs, raw_text, resolve_references, split_attributes,
    unescaped, RawEvent, RawItem, RawKind, RawPair,
};
use vstd::prelude::*;

verus! {

/// The event for a run of text: the text with its references resolved, or the
/// error where one of them cannot be resolved.
pub open spec fn text_event_for(resolved: Result<Seq<char>, Seq<char>>) -> EventView {
    match resolved {
        Ok(content) => EventView::Text { content },
        Err(message) => EventView::Error { message },
    }
}

/// Makes the event for a run of text from the outcome of resolving its
/// references.
pub fn text_event(resolved: Result<String, String>) -> (event: Event)
    ensures
        event@ == text_event_for(raw_text(resolved)),
{
    match resolved {
        Ok(content) => Event::Text { content },
        Err(message) => Event::Error { message },
    }
}

/// One attribute: the key with the value whose references are resolved, or
/// the error where one of them cannot be resolved.
pub open spec fn attribute_for(key: Seq<char>, resolved: Result<Seq<char>, Seq<char>>) -> Result<
    AttributeView,
    Seq<char>,
> {
    match resolved {
        Ok(value) => Ok(AttributeView { key, value }),
        Err(message) => Err(message),
    }
}

/// An attribute or the message of an error, as a mathematical value.
pub open spec fn attribute_result(attribute: Result<Attribute, String>) -> Result<
    AttributeView,
    Seq<char>,
> {
    match attribute {
        Ok(found) => Ok(found@),
        Err(message) => Err(message@),
    }
}

/// Makes an attribute from its key and the outcome of resolving the
/// references in its value.
pub fn attribute(key: String, resolved: Result<String, String>) -> (found: Result<
    Attribute,
    String,
>)
    ensures
        attribute_result(found) == attribute_for(key@, raw_text(resolved)),
{
    match resolved {
        Ok(value) => Ok(Attribute { key, value }),
        Err(message) => Err(message),
    }
}

/// What one pair as written gives: the attribute, or the error in its syntax
/// or in one of its references.
pub open spec fn decoded(pair: RawPair) -> Result<AttributeView, Seq<char>> {
    match pair {
        Err(message) => Err(message),
        Ok((key, raw)) => attribute_for(key, unescaped(raw)),
    }
}

/// The attributes of a tag in their order, or the error of the first pair
/// that has one.
pub open spec fn gathered(pairs: Seq<RawPair>) -> Result<Seq<AttributeView>, Seq<char>>
    decreases pairs.len(),
{
    if pairs.len() == 0 {
        Ok(Seq::empty())
    } else {
        match gathered(pairs.drop_last()) {
            Err(message) => Err(message),
            Ok(before) => match decoded(pairs.last()) {
                Ok(found) => Ok(before.push(found)),
                Err(message) => Err(message),
            },
        }
    }
}

/// A list of attributes or the message of an error, as a mathematical value.
pub open spec fn attributes_result(
    attributes: Result<Vec<Attribute>, String>,
) -> Result<Seq<AttributeView>, Seq<char>> {
    match attributes {
        Ok(list) => Ok(list.deep_view()),
        Err(message) => Err(message@),
    }
}

/// Resolves the references in the values of `pairs` and gathers the
/// attributes; stops at the first pair that is malformed or whose value
/// cannot be resolved, and returns its error.
pub fn gather(pairs: &Vec<Result<(String, String), String>>) -> (attributes: Result<
    Vec<Attribute>,
    String,
>)
    ensures
        attributes_result(attributes) == gathered(raw_pairs(pairs@)),
{
    let ghost all = raw_pairs(pairs@);
    let mut list: Vec<Attribute> = Vec::new();
    let mut i: usize = 0;
    proof {
        assert(list.deep_view() == Seq::<AttributeView>::empty());
    }
    while i < pairs.len()
        invariant
            i <= pairs.len(),
            all == raw_pairs(pairs@),
            gathered(all.take(i as int)) == Ok::<Seq<AttributeView>, Seq<char>>(list.deep_view()),
        decreases pairs.len() - i,
    {
        proof {
            assert(all.take(i + 1).drop_last() == all.take(i as int));
            assert(all.take(i + 1).last() == raw_pair(pairs@[i as int]));
        }
        let ghost before = list.deep_view();
        match &pairs[i] {
            Err(message) => {
                let message = message.clone();
                proof {
                    lemma_gathered_fails(all, i + 1);
                }
                return Err(message);
            },
            Ok((key, raw)) => match attribute(key.clone(), resolve_references(raw.as_str())) {
                Err(message) => {
                    proof {
                        lemma_gathered_fails(all, i + 1);
                    }
                    return Err(message);
                },
                Ok(found) => {
                    list.push(found);
                    proof {
                        assert(list.deep_view() == before.push(found@));
                    }
                },
            },
        }
        i = i + 1;
    }
    proof {
        assert(all.take(i as int) == all);
    }
    Ok(list)
}

/// An error among the first `n` pairs is the error of the whole list.
pub proof fn lemma_gathered_fails(pairs: Seq<RawPair>, n: int)
    requires
        0 <= n <= pairs.len(),
        gathered(pairs.take(n)) is Err,
    ensures
        gathered(pairs) == gathered(pairs.take(n)),
    decreases pairs.len() - n,
{
    if n < pairs.len() {
        assert(pairs.take(n + 1).drop_last() == pairs.take(n));
        lemma_gathered_fails(pairs, n + 1);
    } else {
        assert(pairs.take(n) == pairs);
    }
}

/// The event for a tag: an opening or a self-closing tag with its name and
/// attributes, or the error among its attributes.
pub open spec fn tag_event_for(
    closed: bool,
    name: Seq<char>,
    attributes: Result<Seq<AttributeView>, Seq<char>>,
) -> EventView {
    match attributes {
        Err(message) => EventView::Error { message },
        Ok(attributes) => if closed {
            EventView::EmptyTag { name, attributes }
        } else {
            EventView::StartTag { name, attributes }
        },
    }
}

/// Makes the event for a tag from its name and the outcome of gathering its
/// attributes; `closed` tells a self-closing tag from an opening one.
pub fn tag_event(closed: bool, name: String, attributes: Result<Vec<Attribute>, String>) -> (event:
    Event)
    ensures
        event@ == tag_event_for(closed, name@, attributes_result(attributes)),
{
    match attributes {
        Err(message) => Event::Error { message },
        Ok(attributes) => if closed {
            Event::EmptyTag { name, attributes }
        } else {
            Event::StartTag { name, attributes }
        },
    }
}

/// The value of the first pair with the key `key`; none where no pair has
/// that key or a malformed pair comes first.
pub open spec fn lookup(pairs: Seq<RawPair>, key: Seq<char>) -> Option<Seq<char>>
    decreases pairs.len(),
{
    if pairs.len() == 0 {
        None
    } else {
        match pairs[0] {
            Err(_) => None,
            Ok((found, value)) => if found == key {
                Some(value)
            } else {
                lookup(pairs.skip(1), key)
            },
        }
    }
}

/// Looks the key up among the pairs of a declaration.
pub fn find_value(pairs: &Vec<Result<(String, String), String>>, key: &str) -> (value: Option<
    String,
>)
    ensures
        value.deep_view() == lookup(raw_pairs(pairs@), key@),
{
    let ghost all = raw_pairs(pairs@);
    let mut i: usize = 0;
    proof {
        assert(all.skip(0) == all);
    }
    while i < pairs.len()
        invariant
            i <= pairs.len(),
            all == raw_pairs(pairs@),
            lookup(all.skip(i as int), key@) == lookup(all, key@),
        decreases pairs.len() - i,
    {
        proof {
            assert(all.skip(i as int)[0] == raw_pair(pairs@[i as int]));
            assert(all.skip(i as int).skip(1) == all.skip(i + 1));
        }
        match &pairs[i] {
            Err(_) => {
                return None;
            },
            Ok((found, value)) => {
                if same_text(found.as_str(), key) {
                    return Some(value.clone());
                }
            },
        }
        i = i + 1;
    }
    None
}

/// The XML declaration with the pseudo-attributes `pairs`: the version, or
/// the empty text where none is found, and the encoding and the standalone
/// flag where they are found.
pub open spec fn declaration_for(pairs: Seq<RawPair>) -> EventView {
    EventView::Declaration {
        version: match lookup(pairs, "version"@) {
            Some(version) => version,
            None => Seq::empty(),
        },
        encoding: lookup(pairs, "encoding"@),
        standalone: lookup(pairs, "standalone"@),
    }
}

/// Makes the declaration event from its pseudo-attributes.
pub fn declaration(pairs: &Vec<Result<(String, String), String>>) -> (event: Event)
    ensures
        event@ == declaration_for(raw_pairs(pairs@)),
{
    let version = match find_value(pairs, "version") {
        Some(version) => version,
        None => String::new(),
    };
    let encoding = find_value(pairs, "encoding");
    let standalone = find_value(pairs, "standalone");
    Event::Declaration { version, encoding, standalone }
}

/// The message of the error for an element that is still open where the
/// input ends.
pub open spec fn unterminated(name: Seq<char>) -> Seq<char> {
    "unterminated element: "@ + name
}

/// The event for the end of the input: a clean end where no element is
/// open, else the error that names the innermost open element.
pub open spec fn end_event_for(open: Seq<Seq<char>>) -> EventView {
    if open.len() == 0 {
        EventView::EndOfInput
    } else {
        EventView::Error { message: unterminated(open.last()) }
    }
}

/// Makes the event for the end of the input, given the names of the
/// elements that are open there, outermost first.
pub fn end_event(open: &Vec<String>) -> (event: Event)
    ensures
        event@ == end_event_for(open.deep_view()),
{
    if open.len() == 0 {
        Event::EndOfInput
    } else {
        let mut message = String::new();
        message.append("unterminated element: ");
        message.append(open[open.len() - 1].as_str());
        proof {
            assert(open.deep_view().last() == open@[open.len() - 1]@);
        }
        Event::Error { message }
    }
}

/// The event that the tokenizer gives for one outcome of a read, where the
/// elements `open` are open, outermost first.
pub open spec fn event_for(item: RawItem, open: Seq<Seq<char>>) -> EventView {
    match item {
        Err(message) => EventView::Error { message },
        Ok((kind, content)) => match kind {
            RawKind::Start => tag_event_for(
                false,
                tag_name(content),
                gathered(attributes_in(tag_rest(content))),
            ),
            RawKind::Empty => tag_event_for(
                true,
                tag_name(content),
                gathered(attributes_in(tag_rest(content))),
            ),
            RawKind::End => EventView::EndTag { name: content },
            RawKind::Text => text_event_for(unescaped(content)),
            RawKind::CData => EventView::CData { content },
            RawKind::Comment => EventView::Comment { content },
            RawKind::Decl | RawKind::PI => if is_declaration(content) {
                declaration_for(attributes_in(tag_rest(content)))
            } else {
                EventView::ProcessingInstruction {
                    target: instruction_target(content),
                    data: instruction_data(content),
                }
            },
            RawKind::DocType => EventView::DocType { name: doctype_name(content) },
            RawKind::Eof => end_event_for(open),
        },
    }
}

/// Makes the event for one outcome of a read.
pub fn interpret(item: Result<RawEvent, String>, open: &Vec<String>) -> (event: Event)
    ensures
        event@ == event_for(raw_item(item), open.deep_view()),
{
    match item {
        Err(message) => Event::Error { message },
        Ok(raw) => {
            let RawEvent { kind, content } = raw;
            match kind {
                RawKind::Start => {
                    let (name, rest) = split_tag(content.as_str());
                    let pairs = split_attributes(rest.as_str());
                    tag_event(false, name, gather(&pairs))
                },
                RawKind::Empty => {
                    let (name, rest) = split_tag(content.as_str());
                    let pairs = split_attributes(rest.as_str());
                    tag_event(true, name, gather(&pairs))
                },
                RawKind::End => Event::EndTag { name: content },
                RawKind::Text => text_event(resolve_references(content.as_str())),
                RawKind::CData => Event::CData { content },
                RawKind::Comment => Event::Comment { content },
                RawKind::Decl | RawKind::PI => {
                    if declares_xml(content.as_str()) {
                        let (_, rest) = split_tag(content.as_str());
                        let pairs = split_attributes(rest.as_str());
                        declaration(&pairs)
                    } else {
                        let (target, data) = split_instruction(content.as_str());
                        Event::ProcessingInstruction { target, data }
                    }
                },
                RawKind::DocType => Event::DocType { name: first_word(content.as_str()) },
                RawKind::Eof => end_event(open),
            }
        },
    }
}

} // verus!
