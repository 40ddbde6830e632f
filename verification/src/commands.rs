//! The command's answer to each value of its input stream.
//!
//! A string value is a chunk of the stream: it goes to the parser, and each event that it
//! closes comes back as a record value. Any other value is answered with a type mismatch
//! and leaves the parser as it was.

use crate::event::{views, Event, EventView};
use crate::host::{
    make_record, make_type_mismatch, record_value, span_of, text_of, type_mismatch_value,
    value_span, value_text,
};
use crate::parser::{Parser, ParserView};
use nu_protocol::{Span, Value};
use vstd::prelude::*;

verus! {

/// The record value under which the host sees an event.
pub open spec fn record_of(event: EventView, span: Span) -> Value {
    record_value(event.entries(span), span)
}

/// The record values of a run of events, in order.
pub open spec fn records_of(events: Seq<EventView>, span: Span) -> Seq<Value> {
    events.map_values(|e: EventView| record_of(e, span))
}

/// The answer to a value that is not a string.
pub open spec fn type_mismatch(span: Span) -> Value {
    type_mismatch_value("Value is not a String"@, span)
}

/// The parser after one value of the input stream, and the values that answer it, each
/// tagged with the span of the value that came in.
pub open spec fn respond(parser: ParserView, value: Value) -> (ParserView, Seq<Value>) {
    match value_text(value) {
        Some(text) => {
            let (after, events) = parser.feed(text);
            (after, records_of(events, value_span(value)))
        },
        None => (parser, seq![type_mismatch(value_span(value))]),
    }
}

/// The parser after a run of values of the input stream, and the values that answer them,
/// in order.
pub open spec fn respond_all(parser: ParserView, values: Seq<Value>) -> (ParserView, Seq<Value>)
    decreases values.len(),
{
    if values.len() == 0 {
        (parser, Seq::empty())
    } else {
        let (before, out) = respond_all(parser, values.drop_last());
        let (after, more) = respond(before, values.last());
        (after, out + more)
    }
}

/// The event as a record value of the host, record and fields tagged with `span`.
pub fn event_to_record_value(event: &Event, span: Span) -> (value: Value)
    ensures
        value == record_of(event@, span),
{
    make_record(event.to_record(span), span)
}

/// Feeds the chunk `s` to the parser and returns the events that it closes as record
/// values, in order, each tagged with `span`.
pub fn process_string(s: &str, span: Span, parser: &mut Parser) -> (values: Vec<Value>)
    ensures
        final(parser)@ == old(parser)@.feed(s@).0,
        values@ == records_of(old(parser)@.feed(s@).1, span),
{
    let events = parser.push(s);
    let mut values: Vec<Value> = Vec::new();
    let mut i: usize = 0;
    while i < events.len()
        invariant
            i <= events.len(),
            values@ == records_of(views(events@).take(i as int), span),
        decreases events.len() - i,
    {
        values.push(event_to_record_value(&events[i], span));
        i = i + 1;
    }
    assert(views(events@).take(i as int) =~= views(events@));
    values
}

/// The answer to a value that is not a string: one error value, tagged with `span`.
pub fn process_error(span: Span) -> (values: Vec<Value>)
    ensures
        values@ == seq![type_mismatch(span)],
{
    let mut values: Vec<Value> = Vec::new();
    values.push(make_type_mismatch("Value is not a String", span));
    values
}

/// Answers one value of the input stream.
///
/// A string value is fed to the parser as the next chunk. A value of any other kind leaves
/// the parser untouched and is answered with one type mismatch, so the values after it are
/// read as if it had not been there.
pub fn process_value(value: Value, parser: &mut Parser) -> (values: Vec<Value>)
    ensures
        (final(parser)@, values@) == respond(old(parser)@, value),
{
    let span = span_of(&value);
    match text_of(&value) {
        Some(val) => process_string(val, span, parser),
        None => process_error(span),
    }
}

} // verus!
