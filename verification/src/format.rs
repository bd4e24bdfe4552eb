//! The canonical one-line rendering of events.

use crate::event::{Attribute, AttributeView, Event, EventView};
use crate::packing::{escape, escaped};
use vstd::prelude::*;

verus! {

/// `s` escaped and set between double quotes.
pub open spec fn quoted(s: Seq<char>) -> Seq<char> {
    seq!['"'] + escaped(s) + seq!['"']
}

/// An optional text: `Some("..")` or `None`.
pub open spec fn optional(s: Option<Seq<char>>) -> Seq<char> {
    match s {
        Some(text) => "Some("@ + quoted(text) + ")"@,
        None => "None"@,
    }
}

/// The parts with `sep` between each two neighbours.
pub open spec fn joined(parts: Seq<Seq<char>>, sep: Seq<char>) -> Seq<char>
    decreases parts.len(),
{
    if parts.len() == 0 {
        Seq::empty()
    } else if parts.len() == 1 {
        parts[0]
    } else {
        joined(parts.drop_last(), sep) + sep + parts.last()
    }
}

/// One attribute: `("key", "value")`.
pub open spec fn attribute_rendering(a: AttributeView) -> Seq<char> {
    "("@ + quoted(a.key) + ", "@ + quoted(a.value) + ")"@
}

/// The attributes in their order, separated by a comma and a blank.
pub open spec fn attributes_rendering(attributes: Seq<AttributeView>) -> Seq<char> {
    joined(attributes.map_values(|a: AttributeView| attribute_rendering(a)), ", "@)
}

/// The rendering of one event.
pub open spec fn rendering(event: EventView) -> Seq<char> {
    match event {
        EventView::StartTag { name, attributes } => "Start({name: "@ + quoted(name)
            + ", attributes: ["@ + attributes_rendering(attributes) + "]})"@,
        EventView::EndTag { name } => "End("@ + quoted(name) + ")"@,
        EventView::EmptyTag { name, attributes } => "Empty({name: "@ + quoted(name)
            + ", attributes: ["@ + attributes_rendering(attributes) + "]})"@,
        EventView::Text { content } => "Text("@ + quoted(content) + ")"@,
        EventView::CData { content } => "CData("@ + quoted(content) + ")"@,
        EventView::Comment { content } => "Comment("@ + quoted(content) + ")"@,
        EventView::ProcessingInstruction { target, data } => "PI(target="@ + quoted(target)
            + ", data="@ + quoted(data) + ")"@,
        EventView::Declaration { version, encoding, standalone } => "Decl(version="@ + quoted(
            version,
        ) + ", encoding="@ + optional(encoding) + ", standalone="@ + optional(standalone) + ")"@,
        EventView::DocType { name } => "DocType("@ + quoted(name) + ")"@,
        EventView::EndOfInput => "Eof"@,
        EventView::Error { message } => "Error("@ + quoted(message) + ")"@,
    }
}

/// The rendering of a whole run: the events' renderings, separated by a comma
/// and a blank, between square brackets.
pub open spec fn line_rendering(events: Seq<EventView>) -> Seq<char> {
    "["@ + joined(events.map_values(|e: EventView| rendering(e)), ", "@) + "]"@
}

fn push_quoted(out: &mut String, s: &str)
    ensures
        final(out)@ == old(out)@ + quoted(s@),
{
    out.push('"');
    let inner = escape(s);
    out.append(inner.as_str());
    out.push('"');
    assert(out@ == old(out)@ + quoted(s@));
}

fn push_optional(out: &mut String, s: &Option<String>)
    ensures
        final(out)@ == old(out)@ + optional(s.deep_view()),
{
    match s {
        Some(text) => {
            out.append("Some(");
            push_quoted(out, text.as_str());
            out.append(")");
        },
        None => {
            out.append("None");
        },
    }
    assert(out@ == old(out)@ + optional(s.deep_view()));
}

fn push_attributes(out: &mut String, attributes: &Vec<Attribute>)
    ensures
        final(out)@ == old(out)@ + attributes_rendering(attributes.deep_view()),
{
    let ghost parts = attributes.deep_view().map_values(|a: AttributeView| attribute_rendering(a));
    let mut i: usize = 0;
    while i < attributes.len()
        invariant
            i <= attributes.len(),
            parts == attributes.deep_view().map_values(|a: AttributeView| attribute_rendering(a)),
            out@ == old(out)@ + joined(parts.take(i as int), ", "@),
        decreases attributes.len() - i,
    {
        let ghost before = out@;
        if i > 0 {
            out.append(", ");
        }
        let a = &attributes[i];
        out.append("(");
        push_quoted(out, a.key.as_str());
        out.append(", ");
        push_quoted(out, a.value.as_str());
        out.append(")");
        proof {
            let done = parts.take(i as int);
            let next = parts.take(i + 1);
            assert(next.drop_last() == done);
            assert(next.last() == attribute_rendering(attributes[i as int]@));
            if i > 0 {
                assert(out@ == before + ", "@ + attribute_rendering(a@));
                assert(out@ == old(out)@ + (joined(done, ", "@) + ", "@ + next.last()));
            } else {
                assert(out@ == before + attribute_rendering(a@));
                assert(joined(done, ", "@) == Seq::<char>::empty());
                assert(out@ == old(out)@ + next.last());
            }
        }
        i = i + 1;
    }
    proof {
        assert(parts.take(i as int) == parts);
    }
}

/// Renders one event in the canonical notation.
pub fn format_event(event: &Event) -> (out: String)
    ensures
        out@ == rendering(event@),
{
    let mut out = String::new();
    match event {
        Event::StartTag { name, attributes } => {
            out.append("Start({name: ");
            push_quoted(&mut out, name.as_str());
            out.append(", attributes: [");
            push_attributes(&mut out, attributes);
            out.append("]})");
        },
        Event::EndTag { name } => {
            out.append("End(");
            push_quoted(&mut out, name.as_str());
            out.append(")");
        },
        Event::EmptyTag { name, attributes } => {
            out.append("Empty({name: ");
            push_quoted(&mut out, name.as_str());
            out.append(", attributes: [");
            push_attributes(&mut out, attributes);
            out.append("]})");
        },
        Event::Text { content } => {
            out.append("Text(");
            push_quoted(&mut out, content.as_str());
            out.append(")");
        },
        Event::CData { content } => {
            out.append("CData(");
            push_quoted(&mut out, content.as_str());
            out.append(")");
        },
        Event::Comment { content } => {
            out.append("Comment(");
            push_quoted(&mut out, content.as_str());
            out.append(")");
        },
        Event::ProcessingInstruction { target, data } => {
            out.append("PI(target=");
            push_quoted(&mut out, target.as_str());
            out.append(", data=");
            push_quoted(&mut out, data.as_str());
            out.append(")");
        },
        Event::Declaration { version, encoding, standalone } => {
            out.append("Decl(version=");
            push_quoted(&mut out, version.as_str());
            out.append(", encoding=");
            push_optional(&mut out, encoding);
            out.append(", standalone=");
            push_optional(&mut out, standalone);
            out.append(")");
        },
        Event::DocType { name } => {
            out.append("DocType(");
            push_quoted(&mut out, name.as_str());
            out.append(")");
        },
        Event::EndOfInput => {
            out.append("Eof");
        },
        Event::Error { message } => {
            out.append("Error(");
            push_quoted(&mut out, message.as_str());
            out.append(")");
        },
    }
    assert(out@ == rendering(event@));
    out
}

/// Renders a run of events as one line.
pub fn format_events(events: &Vec<Event>) -> (out: String)
    ensures
        out@ == line_rendering(events.deep_view()),
{
    let ghost parts = events.deep_view().map_values(|e: EventView| rendering(e));
    let mut out = String::new();
    out.append("[");
    let mut i: usize = 0;
    while i < events.len()
        invariant
            i <= events.len(),
            parts == events.deep_view().map_values(|e: EventView| rendering(e)),
            out@ == "["@ + joined(parts.take(i as int), ", "@),
        decreases events.len() - i,
    {
        let ghost before = out@;
        if i > 0 {
            out.append(", ");
        }
        let one = format_event(&events[i]);
        out.append(one.as_str());
        proof {
            let done = parts.take(i as int);
            let next = parts.take(i + 1);
            assert(next.drop_last() == done);
            assert(next.last() == rendering(events[i as int]@));
            if i > 0 {
                assert(out@ == "["@ + (joined(done, ", "@) + ", "@ + next.last()));
            } else {
                assert(joined(done, ", "@) == Seq::<char>::empty());
                assert(out@ == "["@ + next.last());
            }
        }
        i = i + 1;
    }
    proof {
        assert(parts.take(i as int) == parts);
    }
    out.append("]");
    out
}

} // verus!
