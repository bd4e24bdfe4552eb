//! The tokenizer: a text in, a run of events out, one at a time or all at
//! once.

use crate::decode::{event_for, interpret};
use crate::event::{Event, EventView};
use crate::laws::{law_one_terminal_event_last, lemma_rest_is_complete};
use crate::xml::{complete, parsed, pending, read_next, reader_for, RawItem};
use quick_xml::reader::Reader;
use vstd::prelude::*;

verus! {

/// The names of the open elements after `event`, where `open` were open
/// before it: an opening tag adds its name, a closing tag takes the innermost
/// away.
pub open spec fn open_after(event: EventView, open: Seq<Seq<char>>) -> Seq<Seq<char>> {
    match event {
        EventView::StartTag { name, .. } => open.push(name),
        EventView::EndTag { .. } => if open.len() > 0 {
            open.drop_last()
        } else {
            open
        },
        _ => open,
    }
}

/// Brings the names of the open elements up to date after `event`.
pub fn keep_track(open: &mut Vec<String>, event: &Event)
    ensures
        final(open).deep_view() == open_after(event@, old(open).deep_view()),
{
    let ghost before = open.deep_view();
    match event {
        Event::StartTag { name, .. } => {
            open.push(name.clone());
            proof {
                assert(open.deep_view() == before.push(name@));
            }
        },
        Event::EndTag { .. } => {
            open.pop();
            proof {
                if before.len() > 0 {
                    assert(open.deep_view() == before.drop_last());
                } else {
                    assert(open.deep_view() == before);
                }
            }
        },
        _ => {},
    }
}

/// The events for the outcomes `items` of a run of reads, where the elements
/// `open` are open at its start: one event for each outcome in turn, up to
/// and with the first terminal event.
pub open spec fn events_from(items: Seq<RawItem>, open: Seq<Seq<char>>) -> Seq<EventView>
    decreases items.len(),
{
    if items.len() == 0 {
        Seq::empty()
    } else {
        let event = event_for(items[0], open);
        if event.is_terminal() {
            seq![event]
        } else {
            seq![event] + events_from(items.skip(1), open_after(event, open))
        }
    }
}

/// The events of the text `xml`.
pub open spec fn events_of(xml: Seq<char>) -> Seq<EventView> {
    events_from(parsed(xml), Seq::empty())
}

/// Whether `events` is a whole run: it ends with a terminal event and holds
/// none before that.
pub open spec fn is_run(events: Seq<EventView>) -> bool {
    &&& events.len() > 0
    &&& events.last().is_terminal()
    &&& forall|i: int| 0 <= i < events.len() - 1 ==> !(#[trigger] events[i]).is_terminal()
}

/// A tokenizer over one text. It hands out the events of the text one at a
/// time, and nothing after the terminal event.
pub struct Tokenizer<'a> {
    reader: Reader<&'a [u8]>,
    open: Vec<String>,
    done: bool,
}

impl<'a> Tokenizer<'a> {
    /// Whether this tokenizer is in order: until it is done, its reader has a
    /// whole run of reads before it.
    pub closed spec fn wf(&self) -> bool {
        !self.done ==> complete(pending(&self.reader))
    }

    /// The events that this tokenizer has yet to give.
    pub closed spec fn remaining(&self) -> Seq<EventView> {
        if self.done {
            Seq::empty()
        } else {
            events_from(pending(&self.reader), self.open.deep_view())
        }
    }

    /// A tokenizer at the start of `xml`. The reads over `xml` are a whole
    /// run, and so are its events.
    pub fn new(xml: &'a str) -> (tokenizer: Self)
        ensures
            tokenizer.wf(),
            tokenizer.remaining() == events_of(xml@),
            complete(parsed(xml@)),
            is_run(events_of(xml@)),
    {
        let reader = reader_for(xml);
        let open: Vec<String> = Vec::new();
        proof {
            assert(open.deep_view() == Seq::<Seq<char>>::empty());
            law_one_terminal_event_last(pending(&reader), Seq::empty());
        }
        Tokenizer { reader, open, done: false }
    }

    /// The next event, or nothing once the terminal event has been given.
    pub fn next_event(&mut self) -> (event: Option<Event>)
        requires
            old(self).wf(),
        ensures
            final(self).wf(),
            match event {
                Some(e) => {
                    &&& old(self).remaining().len() > 0
                    &&& e@ == old(self).remaining()[0]
                    &&& final(self).remaining() == old(self).remaining().drop_first()
                },
                None => old(self).remaining().len() == 0 && final(self).remaining().len() == 0,
            },
    {
        if self.done {
            return None;
        }
        let ghost items = pending(&self.reader);
        let ghost open = self.open.deep_view();
        let item = read_next(&mut self.reader);
        let event = interpret(item, &self.open);
        if !event.is_terminal() {
            keep_track(&mut self.open, &event);
            proof {
                lemma_rest_is_complete(items);
                assert(items.drop_first() == items.skip(1));
                assert(self.remaining() == events_from(items.skip(1), open_after(event@, open)));
                assert(events_from(items, open).drop_first() == self.remaining());
            }
        } else {
            self.done = true;
            proof {
                assert(events_from(items, open).drop_first() == Seq::<EventView>::empty());
            }
        }
        Some(event)
    }
}

/// Tokenizes `xml`: all its events, the terminal one last. The reads over
/// `xml` are a whole run.
pub fn tokenize(xml: &str) -> (events: Vec<Event>)
    ensures
        events.deep_view() == events_of(xml@),
        is_run(events.deep_view()),
        complete(parsed(xml@)),
{
    let mut tokenizer = Tokenizer::new(xml);
    let mut events: Vec<Event> = Vec::new();
    proof {
        assert(events.deep_view() == Seq::<EventView>::empty());
    }
    loop
        invariant
            tokenizer.wf(),
            events.deep_view() + tokenizer.remaining() == events_of(xml@),
            complete(parsed(xml@)),
            is_run(events_of(xml@)),
        decreases tokenizer.remaining().len(),
    {
        let ghost before = events.deep_view();
        let ghost rest = tokenizer.remaining();
        match tokenizer.next_event() {
            Some(event) => {
                events.push(event);
                proof {
                    assert(events.deep_view() == before.push(event@));
                    assert(before.push(rest[0]) + rest.drop_first() == before + rest);
                }
            },
            None => {
                proof {
                    assert(before + rest == before);
                }
                return events;
            },
        }
    }
}

} // verus!
