//! What holds of every run of the tokenizer, stated over its model and
//! proved.

use crate::decode::{decoded, event_for, gathered};
use crate::event::{AttributeView, EventView};
use crate::format::{
    attribute_rendering, attributes_rendering, joined, line_rendering, optional, quoted, rendering,
};
use crate::markup::{run, tag_rest, Class};
use crate::packing::{escaped, escaped_char, lemma_escaped_first, unescaped_input};
use crate::tokenizer::{events_from, events_of, is_run, open_after};
use crate::xml::{attributes_in, complete, is_last, unescaped, RawItem, RawKind, RawPair};
use vstd::prelude::*;

verus! {

/// Tokenizing is a function of the text: two runs over the same text give
/// the same events and the same rendering.
pub proof fn law_same_text_same_events(
    xml: Seq<char>,
    first: Seq<EventView>,
    second: Seq<EventView>,
)
    requires
        first == events_of(xml),
        second == events_of(xml),
    ensures
        first == second,
        line_rendering(first) == line_rendering(second),
{
}

/// What is left of a whole run of reads after a read that is not the last
/// is a whole run of reads.
pub proof fn lemma_rest_is_complete(items: Seq<RawItem>)
    requires
        complete(items),
        !is_last(items[0]),
    ensures
        complete(items.skip(1)),
{
    let rest = items.skip(1);
    assert(rest.last() == items.last());
    assert forall|i: int| 0 <= i < rest.len() - 1 implies !is_last(#[trigger] rest[i]) by {
        assert(rest[i] == items[i + 1]);
    }
}

/// Whatever a whole run of reads holds, its events are finitely many, at most
/// one for each read, the last of them is the end of the input or an error,
/// and none before it is.
pub proof fn law_one_terminal_event_last(items: Seq<RawItem>, open: Seq<Seq<char>>)
    requires
        complete(items),
    ensures
        is_run(events_from(items, open)),
        events_from(items, open).len() <= items.len(),
    decreases items.len(),
{
    let event = event_for(items[0], open);
    if !event.is_terminal() {
        let rest = items.skip(1);
        let next = open_after(event, open);
        lemma_rest_is_complete(items);
        law_one_terminal_event_last(rest, next);
        let tail = events_from(rest, next);
        let all = events_from(items, open);
        assert(all == seq![event] + tail);
        assert(all.last() == tail.last());
        assert forall|i: int| 0 <= i < all.len() - 1 implies !(#[trigger] all[i]).is_terminal() by {
            if i > 0 {
                assert(all[i] == tail[i - 1]);
            }
        }
    }
}

/// Whether the outcome of a read can be decoded: the reader reports no error,
/// the references of a text can be resolved, and so can the attributes of a
/// tag.
pub open spec fn decodes(item: RawItem) -> bool {
    match item {
        Err(_) => false,
        Ok((kind, content)) => match kind {
            RawKind::Start | RawKind::Empty => gathered(attributes_in(tag_rest(content))) is Ok,
            RawKind::Text => unescaped(content) is Ok,
            _ => true,
        },
    }
}

/// Whether the tags in `items` nest, where `depth` elements are open at the
/// start: each closing tag finds an element open, and none is open where the
/// input ends.
pub open spec fn nests(items: Seq<RawItem>, depth: nat) -> bool
    decreases items.len(),
{
    if items.len() == 0 {
        true
    } else {
        match items[0] {
            Ok((RawKind::Start, _)) => nests(items.skip(1), depth + 1),
            Ok((RawKind::End, _)) => depth > 0 && nests(items.skip(1), (depth - 1) as nat),
            Ok((RawKind::Eof, _)) => depth == 0,
            _ => nests(items.skip(1), depth),
        }
    }
}

/// A well-formed text ends cleanly: where every outcome of the run of reads
/// can be decoded and the tags nest, the last event is the end of the input,
/// and no event is an error.
pub proof fn law_well_formed_ends_cleanly(items: Seq<RawItem>, open: Seq<Seq<char>>)
    requires
        complete(items),
        forall|i: int| 0 <= i < items.len() ==> decodes(#[trigger] items[i]),
        nests(items, open.len()),
    ensures
        events_from(items, open).last() == EventView::EndOfInput,
        forall|i: int|
            0 <= i < events_from(items, open).len() ==> !(#[trigger] events_from(
                items,
                open,
            )[i] is Error),
        events_from(items, open).len() == items.len(),
    decreases items.len(),
{
    let event = event_for(items[0], open);
    assert(decodes(items[0]));
    if is_last(items[0]) {
        assert(items.len() == 1);
    } else {
        let rest = items.skip(1);
        let next = open_after(event, open);
        lemma_rest_is_complete(items);
        assert forall|i: int| 0 <= i < rest.len() implies decodes(#[trigger] rest[i]) by {
            assert(rest[i] == items[i + 1]);
        }
        law_well_formed_ends_cleanly(rest, next);
        let tail = events_from(rest, next);
        let all = events_from(items, open);
        assert(all == seq![event] + tail);
        assert(all.last() == tail.last());
        assert forall|i: int| 0 <= i < all.len() implies !(#[trigger] all[i] is Error) by {
            if i > 0 {
                assert(all[i] == tail[i - 1]);
            }
        }
    }
}

/// A CDATA section is one event that holds its content as written: nothing
/// in it is decoded, and the events after it are those of what follows it.
pub proof fn law_cdata_is_opaque(items: Seq<RawItem>, open: Seq<Seq<char>>, content: Seq<char>)
    requires
        items.len() > 0,
        items[0] == Ok::<(RawKind, Seq<char>), Seq<char>>((RawKind::CData, content)),
    ensures
        events_from(items, open) == seq![EventView::CData { content }] + events_from(
            items.skip(1),
            open,
        ),
{
}

/// Attributes keep their order: where the attributes of a tag can be
/// gathered, there is one for each pair as written, in the same place, with
/// the key as written and the value with its references resolved.
pub proof fn law_attributes_keep_their_order(pairs: Seq<RawPair>)
    requires
        gathered(pairs) is Ok,
    ensures
        gathered(pairs)->Ok_0.len() == pairs.len(),
        forall|i: int|
            0 <= i < pairs.len() ==> decoded(#[trigger] pairs[i]) == Ok::<
                AttributeView,
                Seq<char>,
            >(gathered(pairs)->Ok_0[i]),
    decreases pairs.len(),
{
    if pairs.len() > 0 {
        let before = pairs.drop_last();
        law_attributes_keep_their_order(before);
        assert forall|i: int| 0 <= i < pairs.len() implies decoded(#[trigger] pairs[i]) == Ok::<
            AttributeView,
            Seq<char>,
        >(gathered(pairs)->Ok_0[i]) by {
            if i < pairs.len() - 1 {
                assert(pairs[i] == before[i]);
            }
        }
    }
}

/// A run is the longest prefix of its class: it is no longer than the text,
/// all its characters are of the class, and the character after it, if there
/// is one, is not.
pub proof fn law_run_is_the_longest(s: Seq<char>, class: Class)
    ensures
        run(s, class) <= s.len(),
        forall|i: int| 0 <= i < run(s, class) ==> class.has(#[trigger] s[i]),
        run(s, class) < s.len() ==> !class.has(s[run(s, class) as int]),
    decreases s.len(),
{
    if s.len() > 0 && class.has(s[0]) {
        let rest = s.skip(1);
        law_run_is_the_longest(rest, class);
        assert forall|i: int| 0 <= i < run(s, class) implies class.has(#[trigger] s[i]) by {
            if i > 0 {
                assert(s[i] == rest[i - 1]);
            }
        }
        if run(s, class) < s.len() {
            assert(s[run(s, class) as int] == rest[run(rest, class) as int]);
        }
    }
}

/// Whether `s` holds no newline, no carriage return and no tab.
pub open spec fn is_one_line(s: Seq<char>) -> bool {
    forall|i: int| 0 <= i < s.len() ==> s[i] != '\n' && s[i] != '\r' && s[i] != '\t'
}

/// An escaped text holds no newline, no carriage return and no tab.
pub proof fn law_escaped_is_one_line(s: Seq<char>)
    ensures
        is_one_line(escaped(s)),
    decreases s.len(),
{
    if s.len() > 0 {
        law_escaped_is_one_line(s.drop_last());
    }
}

proof fn lemma_one_line_concat(a: Seq<char>, b: Seq<char>)
    requires
        is_one_line(a),
        is_one_line(b),
    ensures
        is_one_line(a + b),
{
}

proof fn lemma_quoted_is_one_line(s: Seq<char>)
    ensures
        is_one_line(quoted(s)),
{
    law_escaped_is_one_line(s);
}

proof fn lemma_optional_is_one_line(s: Option<Seq<char>>)
    ensures
        is_one_line(optional(s)),
{
    reveal_strlit("Some(");
    reveal_strlit(")");
    reveal_strlit("None");
    if let Some(text) = s {
        lemma_quoted_is_one_line(text);
    }
}

proof fn lemma_joined_is_one_line(parts: Seq<Seq<char>>, sep: Seq<char>)
    requires
        is_one_line(sep),
        forall|i: int| 0 <= i < parts.len() ==> is_one_line(#[trigger] parts[i]),
    ensures
        is_one_line(joined(parts, sep)),
    decreases parts.len(),
{
    if parts.len() > 1 {
        lemma_joined_is_one_line(parts.drop_last(), sep);
        lemma_one_line_concat(joined(parts.drop_last(), sep), sep);
        lemma_one_line_concat(joined(parts.drop_last(), sep) + sep, parts.last());
    }
}

proof fn lemma_attributes_are_one_line(attributes: Seq<AttributeView>)
    ensures
        is_one_line(attributes_rendering(attributes)),
{
    reveal_strlit("(");
    reveal_strlit(", ");
    reveal_strlit(")");
    let parts = attributes.map_values(|a: AttributeView| attribute_rendering(a));
    assert forall|i: int| 0 <= i < parts.len() implies is_one_line(#[trigger] parts[i]) by {
        lemma_quoted_is_one_line(attributes[i].key);
        lemma_quoted_is_one_line(attributes[i].value);
    }
    lemma_joined_is_one_line(parts, ", "@);
}

/// The rendering of an event holds no newline, no carriage return and no
/// tab, whatever the event holds.
pub proof fn law_rendering_is_one_line(event: EventView)
    ensures
        is_one_line(rendering(event)),
{
    reveal_strlit("Start({name: ");
    reveal_strlit("Empty({name: ");
    reveal_strlit(", attributes: [");
    reveal_strlit("]})");
    reveal_strlit("End(");
    reveal_strlit("Text(");
    reveal_strlit("CData(");
    reveal_strlit("Comment(");
    reveal_strlit("PI(target=");
    reveal_strlit(", data=");
    reveal_strlit("Decl(version=");
    reveal_strlit(", encoding=");
    reveal_strlit(", standalone=");
    reveal_strlit("DocType(");
    reveal_strlit("Eof");
    reveal_strlit("Error(");
    reveal_strlit(")");
    match event {
        EventView::StartTag { name, attributes } => {
            lemma_quoted_is_one_line(name);
            lemma_attributes_are_one_line(attributes);
        },
        EventView::EndTag { name } => {
            lemma_quoted_is_one_line(name);
        },
        EventView::EmptyTag { name, attributes } => {
            lemma_quoted_is_one_line(name);
            lemma_attributes_are_one_line(attributes);
        },
        EventView::Text { content } => {
            lemma_quoted_is_one_line(content);
        },
        EventView::CData { content } => {
            lemma_quoted_is_one_line(content);
        },
        EventView::Comment { content } => {
            lemma_quoted_is_one_line(content);
        },
        EventView::ProcessingInstruction { target, data } => {
            lemma_quoted_is_one_line(target);
            lemma_quoted_is_one_line(data);
        },
        EventView::Declaration { version, encoding, standalone } => {
            lemma_quoted_is_one_line(version);
            lemma_optional_is_one_line(encoding);
            lemma_optional_is_one_line(standalone);
        },
        EventView::DocType { name } => {
            lemma_quoted_is_one_line(name);
        },
        EventView::EndOfInput => {},
        EventView::Error { message } => {
            lemma_quoted_is_one_line(message);
        },
    }
}

/// The rendering of a run of events is one line.
pub proof fn law_line_rendering_is_one_line(events: Seq<EventView>)
    ensures
        is_one_line(line_rendering(events)),
{
    reveal_strlit("[");
    reveal_strlit(", ");
    reveal_strlit("]");
    let parts = events.map_values(|e: EventView| rendering(e));
    assert forall|i: int| 0 <= i < parts.len() implies is_one_line(#[trigger] parts[i]) by {
        law_rendering_is_one_line(events[i]);
    }
    lemma_joined_is_one_line(parts, ", "@);
}

/// The text that an escaped text came from: a backslash and the character
/// after it stand for one character, every other character for itself.
pub open spec fn restored(t: Seq<char>) -> Seq<char>
    decreases t.len(),
{
    if t.len() == 0 {
        Seq::empty()
    } else if t[0] == '\\' && t.len() >= 2 {
        let c = if t[1] == 'n' {
            '\n'
        } else if t[1] == 'r' {
            '\r'
        } else if t[1] == 't' {
            '\t'
        } else {
            t[1]
        };
        seq![c] + restored(t.skip(2))
    } else {
        seq![t[0]] + restored(t.skip(1))
    }
}

/// Escaping loses nothing: the text can be had back from its escaped form,
/// so two texts with the same escaped form are the same text.
pub proof fn law_escape_loses_nothing(a: Seq<char>, b: Seq<char>)
    ensures
        restored(escaped(a)) == a,
        escaped(a) == escaped(b) ==> a == b,
{
    lemma_restored(a);
    lemma_restored(b);
}

proof fn lemma_restored(s: Seq<char>)
    ensures
        restored(escaped(s)) == s,
    decreases s.len(),
{
    if s.len() > 0 {
        let rest = s.skip(1);
        let t = escaped(s);
        lemma_escaped_first(s);
        lemma_restored(rest);
        if escaped_char(s[0]).len() == 2 {
            assert(t.skip(2) == escaped(rest));
        } else {
            assert(t.skip(1) == escaped(rest));
        }
        assert(seq![s[0]] + rest == s);
    }
}

/// Unpacking undoes escaping, but for the double quote: where a text holds
/// none, unpacking its escaped form gives the text back.
pub proof fn law_unescape_input_undoes_escape(s: Seq<char>)
    requires
        !s.contains('"'),
    ensures
        unescaped_input(escaped(s)) == s,
    decreases s.len(),
{
    if s.len() > 0 {
        let rest = s.skip(1);
        let t = escaped(s);
        lemma_escaped_first(s);
        assert(s.contains(s[0]));
        assert forall|c: char| rest.contains(c) implies s.contains(c) by {
            let i = choose|i: int| 0 <= i < rest.len() && rest[i] == c;
            assert(s[i + 1] == c);
        }
        law_unescape_input_undoes_escape(rest);
        if escaped_char(s[0]).len() == 2 {
            assert(t.skip(2) == escaped(rest));
        } else {
            assert(t.skip(1) == escaped(rest));
        }
        assert(seq![s[0]] + rest == s);
    }
}

} // verus!
