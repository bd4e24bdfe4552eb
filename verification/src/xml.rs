//! The calls into `quick_xml`. Verus does not read that crate: each function
//! here states what the library takes on trust about one of its functions.

use quick_xml::events::attributes::Attributes;
use quick_xml::events::Event as XmlEvent;
use quick_xml::reader::Reader;
use vstd::prelude::*;

verus! {

/// `quick_xml::reader::Reader`, of which the library sees nothing but what
/// [`pending`] names.
#[verifier::external_type_specification]
#[verifier::external_body]
#[verifier::reject_recursive_types(R)]
pub struct ExReader<R>(Reader<R>);

/// The kinds of event that the reader tells apart.
#[derive(Clone, Copy, Debug, PartialEq, Eq, Structural)]
pub enum RawKind {
    Start,
    End,
    Empty,
    Text,
    CData,
    Comment,
    Decl,
    PI,
    DocType,
    Eof,
}

/// One event as the reader hands it out: its kind and the text between its
/// delimiters, with nothing decoded.
#[derive(Clone, Debug, PartialEq, Eq)]
pub struct RawEvent {
    pub kind: RawKind,
    pub content: String,
}

/// The outcome of one read: kind and content of an event, or the message of
/// the error that the reader reports.
pub type RawItem = Result<(RawKind, Seq<char>), Seq<char>>;

/// One attribute as written: key and value, or the message of the error in
/// its syntax.
pub type RawPair = Result<(Seq<char>, Seq<char>), Seq<char>>;

/// The outcome of a read as a mathematical value.
pub open spec fn raw_item(item: Result<RawEvent, String>) -> RawItem {
    match item {
        Ok(event) => Ok((event.kind, event.content@)),
        Err(message) => Err(message@),
    }
}

/// A text or the message of an error, as a mathematical value.
pub open spec fn raw_text(text: Result<String, String>) -> Result<Seq<char>, Seq<char>> {
    match text {
        Ok(resolved) => Ok(resolved@),
        Err(message) => Err(message@),
    }
}

/// One attribute as written, as a mathematical value.
pub open spec fn raw_pair(pair: Result<(String, String), String>) -> RawPair {
    match pair {
        Ok((key, value)) => Ok((key@, value@)),
        Err(message) => Err(message@),
    }
}

/// The attributes of a tag as written, as mathematical values.
pub open spec fn raw_pairs(pairs: Seq<Result<(String, String), String>>) -> Seq<RawPair> {
    pairs.map_values(|pair: Result<(String, String), String>| raw_pair(pair))
}

/// Whether nothing is read after this item: it is the end of the input or an
/// error.
pub open spec fn is_last(item: RawItem) -> bool {
    match item {
        Ok((kind, _)) => kind == RawKind::Eof,
        Err(_) => true,
    }
}

/// Whether `items` is a whole run of reads: it ends with the end of the input
/// or an error, and holds neither before that.
pub open spec fn complete(items: Seq<RawItem>) -> bool {
    &&& items.len() > 0
    &&& is_last(items.last())
    &&& forall|i: int| 0 <= i < items.len() - 1 ==> !is_last(#[trigger] items[i])
}

/// What a reader that `Reader::from_str` made for `xml` gives when it is read
/// again and again, up to and with the first end of input or error.
pub uninterp spec fn parsed(xml: Seq<char>) -> Seq<RawItem>;

/// What `reader`, in the state it is in, gives when it is read again and
/// again, up to and with the first end of input or error.
pub uninterp spec fn pending(reader: &Reader<&[u8]>) -> Seq<RawItem>;

/// What `quick_xml::escape::unescape` makes of `raw`: the text with the five
/// predefined entities and the character references resolved, or the message
/// of its error.
pub uninterp spec fn unescaped(raw: Seq<char>) -> Result<Seq<char>, Seq<char>>;

/// What `quick_xml::events::attributes::Attributes` finds in `text` when it
/// starts at its first byte and does not look for duplicates.
pub uninterp spec fn attributes_in(text: Seq<char>) -> Seq<RawPair>;

/// Makes a reader with `Reader::from_str` and has it keep the white space of
/// text. Trusted: what the reader will give depends on `xml` alone, and it
/// comes to the end of the input or to an error after finitely many reads
/// (each read before that consumes at least one byte of `xml`).
#[verifier::external_body]
pub(crate) fn reader_for<'a>(xml: &'a str) -> (reader: Reader<&'a [u8]>)
    ensures
        pending(&reader) == parsed(xml@),
        complete(pending(&reader)),
{
    let mut reader = Reader::from_str(xml);
    reader.config_mut().trim_text(false);
    reader
}

/// Reads one event with `Reader::read_event`. Trusted: the outcome is the
/// first of what the reader had yet to give; where it is neither the end of
/// the input nor an error, the rest is what the reader has yet to give
/// afterwards. Nothing is said of the reader after the end of the input or an
/// error. The content is the event's bytes as text; an error is given by its
/// message.
#[verifier::external_body]
pub(crate) fn read_next<'a>(reader: &mut Reader<&'a [u8]>) -> (item: Result<RawEvent, String>)
    requires
        pending(old(reader)).len() > 0,
    ensures
        raw_item(item) == pending(old(reader))[0],
        !is_last(pending(old(reader))[0]) ==> pending(final(reader)) == pending(
            old(reader),
        ).drop_first(),
{
    let event = reader.read_event().map_err(|e| e.to_string())?;
    let kind = match &event {
        XmlEvent::Start(_) => RawKind::Start,
        XmlEvent::End(_) => RawKind::End,
        XmlEvent::Empty(_) => RawKind::Empty,
        XmlEvent::Text(_) => RawKind::Text,
        XmlEvent::CData(_) => RawKind::CData,
        XmlEvent::Comment(_) => RawKind::Comment,
        XmlEvent::Decl(_) => RawKind::Decl,
        XmlEvent::PI(_) => RawKind::PI,
        XmlEvent::DocType(_) => RawKind::DocType,
        XmlEvent::Eof => RawKind::Eof,
    };
    Ok(RawEvent { kind, content: String::from_utf8_lossy(&event).into_owned() })
}

/// Resolves entity and character references with
/// `quick_xml::escape::unescape`. Trusted: the outcome depends on `raw`
/// alone; an error is given by its message.
#[verifier::external_body]
pub(crate) fn resolve_references(raw: &str) -> (text: Result<String, String>)
    ensures
        raw_text(text) == unescaped(raw@),
{
    match quick_xml::escape::unescape(raw) {
        Ok(resolved) => Ok(resolved.into_owned()),
        Err(e) => Err(e.to_string()),
    }
}

/// Walks the attributes in `text` with
/// `quick_xml::events::attributes::Attributes`, from the first byte and
/// without the check for duplicates. Trusted: the outcome depends on `text`
/// alone. Keys and values are the bytes as written, as text; an error is given
/// by its message.
#[verifier::external_body]
pub(crate) fn split_attributes(text: &str) -> (pairs: Vec<Result<(String, String), String>>)
    ensures
        raw_pairs(pairs@) == attributes_in(text@),
{
    let mut walk = Attributes::new(text, 0);
    walk.with_checks(false);
    walk.map(|found| match found {
        Ok(a) => Ok((
            String::from_utf8_lossy(a.key.as_ref()).into_owned(),
            String::from_utf8_lossy(&a.value).into_owned(),
        )),
        Err(e) => Err(e.to_string()),
    }).collect()
}

} // verus!
