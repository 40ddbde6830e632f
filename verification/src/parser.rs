//! The incremental parser: text in, in chunks of any size; events out.
//!
//! Each complete line either changes the event being assembled or, where the line is blank,
//! closes it. What a chunk leaves behind its last newline waits for the next chunk.

use crate::event::{option_view, views, Event, EventView};
use crate::lines::{complete_lines, has_newline, residue, texts, LineAccumulator};
use crate::text::{is_blank, strip_prefix_str, trim, trim_str};
use vstd::prelude::*;

verus! {

/// The value of a field line: what follows the field's prefix, trimmed.
pub open spec fn field_value(line: Seq<char>, prefix: Seq<char>) -> Seq<char> {
    trim(line.skip(prefix.len() as int))
}

/// The kinds of line, by what a line does to the event being assembled.
pub enum LineKind {
    /// A blank line: the boundary between events.
    Boundary,
    /// A `data:` line.
    Data,
    /// An `event:` line, which names the event.
    Name,
    /// An `id:` line.
    Id,
    /// Any other line, such as a comment or an unknown field.
    Other,
}

/// The kind of `line`. A line is tested for blankness first, then for the three prefixes in
/// the order `data:`, `event:`, `id:`, as it stands: whitespace before a prefix hides it.
pub open spec fn line_kind(line: Seq<char>) -> LineKind {
    if is_blank(line) {
        LineKind::Boundary
    } else if "data:"@.is_prefix_of(line) {
        LineKind::Data
    } else if "event:"@.is_prefix_of(line) {
        LineKind::Name
    } else if "id:"@.is_prefix_of(line) {
        LineKind::Id
    } else {
        LineKind::Other
    }
}

/// What one line does to the event being assembled: the event afterwards, and the event that
/// the line closes, if it closes one.
///
/// A boundary closes the event unless nothing has been set in it. A `data:` line adds its
/// value and a newline to the data. An `event:` or `id:` line sets the name or the id, in
/// place of an earlier one. Any other line changes nothing.
pub open spec fn step(event: EventView, line: Seq<char>) -> (EventView, Option<EventView>) {
    match line_kind(line) {
        LineKind::Boundary => if event.is_empty() {
            (event, None)
        } else {
            (EventView::empty(), Some(event))
        },
        LineKind::Data => (event.push_data(field_value(line, "data:"@)), None),
        LineKind::Name => (event.set_name(field_value(line, "event:"@)), None),
        LineKind::Id => (event.set_id(field_value(line, "id:"@)), None),
        LineKind::Other => (event, None),
    }
}

/// The events that a line adds to the output: the one it closes, or none.
pub open spec fn emitted(closed: Option<EventView>) -> Seq<EventView> {
    match closed {
        Some(e) => seq![e],
        None => Seq::empty(),
    }
}

/// What a run of lines does, taken in order: the event being assembled afterwards, and the
/// events closed on the way.
pub open spec fn assemble(event: EventView, lines: Seq<Seq<char>>) -> (EventView, Seq<EventView>)
    decreases lines.len(),
{
    if lines.len() == 0 {
        (event, Seq::empty())
    } else {
        let (before, out) = assemble(event, lines.drop_last());
        let (after, closed) = step(before, lines.last());
        (after, out + emitted(closed))
    }
}

/// Whether no line of the run is a boundary: the run leaves its event open.
pub open spec fn has_no_boundary(lines: Seq<Seq<char>>) -> bool {
    forall|j: int| 0 <= j < lines.len() ==> !(line_kind(#[trigger] lines[j]) is Boundary)
}

/// The data that a run of lines gathers: the value of each `data:` line, in order, each
/// followed by a newline.
pub open spec fn gathered_data(lines: Seq<Seq<char>>) -> Seq<char>
    decreases lines.len(),
{
    if lines.len() == 0 {
        Seq::empty()
    } else if line_kind(lines.last()) is Data {
        gathered_data(lines.drop_last()) + field_value(lines.last(), "data:"@) + seq!['\n']
    } else {
        gathered_data(lines.drop_last())
    }
}

/// What a [`Parser`] holds: the event being assembled, and the text behind the last newline
/// seen.
#[verifier::ext_equal]
pub struct ParserView {
    pub event: EventView,
    pub remaining: Seq<char>,
}

impl ParserView {
    /// The parser that has seen nothing.
    pub open spec fn fresh() -> ParserView {
        ParserView { event: EventView::empty(), remaining: Seq::empty() }
    }

    /// Whether the text held back is short of a newline, as it is between chunks: every
    /// complete line has been read.
    pub open spec fn holds_no_line(self) -> bool {
        !has_newline(self.remaining)
    }

    /// The parser after one more chunk, and the events which that chunk closes.
    pub open spec fn feed(self, chunk: Seq<char>) -> (ParserView, Seq<EventView>) {
        let text = self.remaining + chunk;
        let (event, out) = assemble(self.event, complete_lines(text));
        (ParserView { event, remaining: residue(text) }, out)
    }

    /// The parser after a run of chunks, and the events which they close, in order.
    pub open spec fn feed_all(self, chunks: Seq<Seq<char>>) -> (ParserView, Seq<EventView>)
        decreases chunks.len(),
    {
        if chunks.len() == 0 {
            (self, Seq::empty())
        } else {
            let (before, out) = self.feed_all(chunks.drop_last());
            let (after, more) = before.feed(chunks.last());
            (after, out + more)
        }
    }
}

/// An incremental parser of one event stream: a [`LineAccumulator`] for the text, and the
/// event that its lines are assembling.
pub struct Parser {
    event: Event,
    lines: LineAccumulator,
}

impl View for Parser {
    type V = ParserView;

    closed spec fn view(&self) -> ParserView {
        ParserView { event: self.event@, remaining: self.lines@ }
    }
}

impl Parser {
    /// A parser that has seen nothing.
    pub fn new() -> (parser: Parser)
        ensures
            parser@ == ParserView::fresh(),
            parser@.holds_no_line(),
    {
        Parser { event: Event::new(), lines: LineAccumulator::new() }
    }

    /// Takes the next chunk of the stream and returns the events that it closes, in order.
    ///
    /// The chunk may end anywhere: what follows its last newline is held back and read
    /// together with the next chunk. An event that no blank line has closed yet is not
    /// returned.
    pub fn push(&mut self, input: &str) -> (events: Vec<Event>)
        ensures
            (final(self)@, views(events@)) == old(self)@.feed(input@),
            final(self)@.holds_no_line(),
    {
        let lines = self.lines.push(input);
        let ghost start = self.event@;
        let mut ret: Vec<Event> = Vec::new();
        let mut i: usize = 0;
        assert(texts(lines@).take(0) =~= Seq::<Seq<char>>::empty());
        assert(views(ret@) =~= Seq::<EventView>::empty());
        while i < lines.len()
            invariant
                i <= lines.len(),
                (self.event@, views(ret@)) == assemble(start, texts(lines@).take(i as int)),
                self.lines@ == residue(old(self)@.remaining + input@),
            decreases lines.len() - i,
        {
            let ghost before = views(ret@);
            let closed = self.parse_line(lines[i].as_str());
            if let Some(event) = closed {
                ret.push(event);
            }
            proof {
                let read = texts(lines@).take(i + 1);
                assert(read.drop_last() =~= texts(lines@).take(i as int));
                assert(read.last() == lines@[i as int]@);
                assert(views(ret@) =~= before + emitted(option_view(closed)));
            }
            i = i + 1;
        }
        assert(texts(lines@).take(i as int) =~= texts(lines@));
        ret
    }

    /// Takes one line and returns the event that it closes, if it closes one.
    ///
    /// See [`step`] for what each kind of line does. The text held back between chunks is
    /// not touched.
    pub fn parse_line(&mut self, line: &str) -> (closed: Option<Event>)
        ensures
            (final(self)@.event, option_view(closed)) == step(old(self)@.event, line@),
            final(self)@.remaining == old(self)@.remaining,
            final(self)@.holds_no_line(),
    {
        proof {
            use_type_invariant(&self.lines);
        }
        if trim_str(line).is_empty() {
            if !self.event.is_empty() {
                return Some(self.event.take());
            }
        } else if let Some(value) = strip_prefix_str(line, "data:") {
            self.event.push_data(trim_str(value));
        } else if let Some(value) = strip_prefix_str(line, "event:") {
            self.event.set_name(trim_str(value));
        } else if let Some(value) = strip_prefix_str(line, "id:") {
            self.event.set_id(trim_str(value));
        }
        None
    }
}

} // verus!
