//! One event of the stream: an optional id, an optional name, and the data gathered so far.

use crate::host::{
    empty_record, make_nothing, make_string, nothing_value, push_column, record_entries,
    string_value,
};
use nu_protocol::{Record, Span, Value};
use vstd::prelude::*;

verus! {

/// An event, finished or still being assembled.
#[derive(Debug)]
pub struct Event {
    id: Option<String>,
    name: Option<String>,
    data: String,
}

/// What an [`Event`] holds, as plain text.
#[verifier::ext_equal]
pub struct EventView {
    pub id: Option<Seq<char>>,
    pub name: Option<Seq<char>>,
    pub data: Seq<char>,
}

impl EventView {
    /// The event in which nothing has been set.
    pub open spec fn empty() -> EventView {
        EventView { id: None, name: None, data: Seq::empty() }
    }

    /// Whether nothing has been set: no id, no name, and no data.
    pub open spec fn is_empty(self) -> bool {
        self.data.len() == 0 && self.name is None && self.id is None
    }

    /// The event with `value` and a newline added to its data.
    pub open spec fn push_data(self, value: Seq<char>) -> EventView {
        EventView { data: self.data + value + seq!['\n'], ..self }
    }

    /// The event with its name set to `value`.
    pub open spec fn set_name(self, value: Seq<char>) -> EventView {
        EventView { name: Some(value), ..self }
    }

    /// The event with its id set to `value`.
    pub open spec fn set_id(self, value: Seq<char>) -> EventView {
        EventView { id: Some(value), ..self }
    }

    /// The columns under which the host sees the event: `id` and `name`, each a string or
    /// nothing, then `data`, a string; every value tagged with `span`.
    pub open spec fn entries(self, span: Span) -> Seq<(Seq<char>, Value)> {
        seq![
            ("id"@, nullable_string(self.id, span)),
            ("name"@, nullable_string(self.name, span)),
            ("data"@, string_value(self.data, span)),
        ]
    }
}

/// The host's value for a text that may be absent: a string, or nothing.
pub open spec fn nullable_string(text: Option<Seq<char>>, span: Span) -> Value {
    match text {
        Some(t) => string_value(t, span),
        None => nothing_value(span),
    }
}

/// The text of an optional string.
pub open spec fn option_text(s: Option<String>) -> Option<Seq<char>> {
    match s {
        Some(t) => Some(t@),
        None => None,
    }
}

/// What an optional event holds.
pub open spec fn option_view(e: Option<Event>) -> Option<EventView> {
    match e {
        Some(ev) => Some(ev@),
        None => None,
    }
}

/// What each event of a sequence holds.
pub open spec fn views(events: Seq<Event>) -> Seq<EventView> {
    events.map_values(|e: Event| e@)
}

impl View for Event {
    type V = EventView;

    closed spec fn view(&self) -> EventView {
        EventView { id: option_text(self.id), name: option_text(self.name), data: self.data@ }
    }
}

impl Default for Event {
    fn default() -> (event: Event)
        ensures
            event@ == EventView::empty(),
    {
        Event { id: None, name: None, data: String::new() }
    }
}

impl Clone for Event {
    fn clone(&self) -> (copy: Event)
        ensures
            copy@ == self@,
    {
        Event { id: clone_text(&self.id), name: clone_text(&self.name), data: self.data.clone() }
    }
}

/// A copy of an optional string.
fn clone_text(text: &Option<String>) -> (copy: Option<String>)
    ensures
        option_text(copy) == option_text(*text),
{
    match text {
        Some(t) => Some(t.clone()),
        None => None,
    }
}

/// The host's value for an optional string: a string value, or nothing.
fn nullable(text: &Option<String>, span: Span) -> (value: Value)
    ensures
        value == nullable_string(option_text(*text), span),
{
    match text {
        Some(t) => make_string(t.as_str(), span),
        None => make_nothing(span),
    }
}

impl Event {
    /// An event in which nothing has been set.
    pub fn new() -> (event: Event)
        ensures
            event@ == EventView::empty(),
    {
        Event::default()
    }

    /// An event with the given fields.
    pub fn with_fields(id: Option<String>, name: Option<String>, data: String) -> (event: Event)
        ensures
            event@ == (EventView { id: option_text(id), name: option_text(name), data: data@ }),
    {
        Event { id, name, data }
    }

    /// Unsets every field.
    pub fn reset(&mut self)
        ensures
            final(self)@ == EventView::empty(),
    {
        *self = Event::new();
    }

    /// Whether nothing has been set: no id, no name, and no data.
    pub fn is_empty(&self) -> (empty: bool)
        ensures
            empty == self@.is_empty(),
    {
        self.data.as_str().is_empty() && self.name.is_none() && self.id.is_none()
    }

    /// The id, where one has been set.
    pub fn id(&self) -> (id: &Option<String>)
        ensures
            option_text(*id) == self@.id,
    {
        &self.id
    }

    /// The name, where one has been set.
    pub fn name(&self) -> (name: &Option<String>)
        ensures
            option_text(*name) == self@.name,
    {
        &self.name
    }

    /// The data gathered so far: each value followed by a newline.
    pub fn data(&self) -> (data: &str)
        ensures
            data@ == self@.data,
    {
        self.data.as_str()
    }

    /// Adds `value` and a newline to the data.
    pub fn push_data(&mut self, value: &str)
        ensures
            final(self)@ == old(self)@.push_data(value@),
    {
        self.data.append(value);
        self.data.append("\n");
        proof {
            reveal_strlit("\n");
            assert("\n"@ =~= seq!['\n']);
        }
    }

    /// Sets the name to `value`, in place of any name set before.
    pub fn set_name(&mut self, value: &str)
        ensures
            final(self)@ == old(self)@.set_name(value@),
    {
        self.name = Some(String::from_str(value));
    }

    /// Sets the id to `value`, in place of any id set before.
    pub fn set_id(&mut self, value: &str)
        ensures
            final(self)@ == old(self)@.set_id(value@),
    {
        self.id = Some(String::from_str(value));
    }

    /// Hands the event out and leaves an empty one in its place.
    pub fn take(&mut self) -> (event: Event)
        ensures
            event@ == old(self)@,
            final(self)@ == EventView::empty(),
    {
        let mut event = Event::new();
        std::mem::swap(self, &mut event);
        event
    }

    /// The event as a record of the host, with the columns `id`, `name` and `data` in this
    /// order. An id or name that was never set is the host's nothing; every value is tagged
    /// with `internal_span`.
    pub fn to_record(&self, internal_span: Span) -> (record: Record)
        ensures
            record_entries(record) == self@.entries(internal_span),
    {
        let mut record = empty_record();
        push_column(&mut record, "id", nullable(&self.id, internal_span));
        push_column(&mut record, "name", nullable(&self.name, internal_span));
        push_column(&mut record, "data", make_string(self.data.as_str(), internal_span));
        record
    }
}

} // verus!
