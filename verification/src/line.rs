//! One input line in, one line of canonical text out.

use crate::format::{format_events, line_rendering};
use crate::packing::{unescape_input, unescaped_input};
use crate::tokenizer::{events_of, is_run, tokenize};
use crate::xml::{complete, parsed};
use vstd::prelude::*;

verus! {

/// Tokenizes `xml` and renders its events as one line. The reads over `xml`
/// are a whole run, and so are its events.
pub fn parse_and_format(xml: &str) -> (out: String)
    ensures
        out@ == line_rendering(events_of(xml@)),
        complete(parsed(xml@)),
        is_run(events_of(xml@)),
{
    let events = tokenize(xml);
    format_events(&events)
}

/// The output for one input line: nothing for an empty line, else the
/// rendering of the events of the text that the line stands for.
pub fn process_line(line: &str) -> (out: Option<String>)
    ensures
        out.deep_view() == if line@.len() == 0 {
            None
        } else {
            Some(line_rendering(events_of(unescaped_input(line@))))
        },
        line@.len() > 0 ==> complete(parsed(unescaped_input(line@))) && is_run(
            events_of(unescaped_input(line@)),
        ),
{
    if line.is_empty() {
        None
    } else {
        let xml = unescape_input(line);
        Some(parse_and_format(xml.as_str()))
    }
}

} // verus!
