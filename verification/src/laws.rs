//! What holds of the parser on every input.
//!
//! The laws speak of [`step`], [`assemble`] and [`ParserView::feed`], the functions in which
//! the contracts of `Parser::parse_line` and `Parser::push` are stated.

use crate::commands::{respond, respond_all, type_mismatch};
use crate::event::EventView;
use crate::host::{value_span, value_text};
use crate::lines::{complete_lines, lemma_lines_append, residue};
use crate::parser::{
    assemble, emitted, field_value, gathered_data, has_no_boundary, line_kind, step, ParserView,
};
use crate::text::lemma_blank_iff_all_whitespace;
use nu_protocol::Value;
use vstd::prelude::*;

verus! {

/// A line that begins with a field prefix is of that field's kind: no prefix begins with
/// whitespace, and no two of them begin alike.
pub proof fn lemma_field_line_kinds(line: Seq<char>)
    ensures
        "data:"@.is_prefix_of(line) ==> line_kind(line) is Data,
        "event:"@.is_prefix_of(line) ==> line_kind(line) is Name,
        "id:"@.is_prefix_of(line) ==> line_kind(line) is Id,
{
    reveal_strlit("data:");
    reveal_strlit("event:");
    reveal_strlit("id:");
    lemma_blank_iff_all_whitespace(line);
    if "data:"@.is_prefix_of(line) {
        assert(line[0] == "data:"@.subrange(0, 5)[0]);
    }
    if "event:"@.is_prefix_of(line) {
        assert(line[0] == "event:"@.subrange(0, 6)[0]);
    }
    if "id:"@.is_prefix_of(line) {
        assert(line[0] == "id:"@.subrange(0, 3)[0]);
    }
}

/// A line that begins with a colon, a comment, is of the kind that changes nothing.
pub proof fn lemma_comment_line_kind(line: Seq<char>)
    requires
        line.len() > 0,
        line[0] == ':',
    ensures
        line_kind(line) is Other,
{
    reveal_strlit("data:");
    reveal_strlit("event:");
    reveal_strlit("id:");
    lemma_blank_iff_all_whitespace(line);
    if "data:"@.is_prefix_of(line) {
        assert(line[0] == "data:"@.subrange(0, 5)[0]);
    }
    if "event:"@.is_prefix_of(line) {
        assert(line[0] == "event:"@.subrange(0, 6)[0]);
    }
    if "id:"@.is_prefix_of(line) {
        assert(line[0] == "id:"@.subrange(0, 3)[0]);
    }
}

/// A run of one line does what the line does.
pub proof fn lemma_assemble_one(event: EventView, line: Seq<char>)
    ensures
        assemble(event, seq![line]) == (step(event, line).0, emitted(step(event, line).1)),
{
    let lines = seq![line];
    assert(lines.drop_last() =~= Seq::<Seq<char>>::empty());
    assert(lines.last() == line);
    assert(assemble(event, lines.drop_last()) == (event, Seq::<EventView>::empty()));
    assert(Seq::<EventView>::empty() + emitted(step(event, line).1) =~= emitted(
        step(event, line).1,
    ));
}

/// Lines taken in two runs do what they do taken in one: the second run starts from the
/// event that the first one left, and the closed events follow each other.
pub proof fn lemma_assemble_concat(event: EventView, first: Seq<Seq<char>>, second: Seq<Seq<char>>)
    ensures
        ({
            let (mid, out1) = assemble(event, first);
            let (end, out2) = assemble(mid, second);
            assemble(event, first + second) == (end, out1 + out2)
        }),
    decreases second.len(),
{
    let (mid, out1) = assemble(event, first);
    if second.len() == 0 {
        assert(first + second =~= first);
        assert(out1 + Seq::<EventView>::empty() =~= out1);
    } else {
        let front = second.drop_last();
        lemma_assemble_concat(event, first, front);
        assert((first + second).drop_last() =~= first + front);
        assert((first + second).last() == second.last());
        let (before, out2) = assemble(mid, front);
        let closed = step(before, second.last()).1;
        assert((out1 + out2) + emitted(closed) =~= out1 + (out2 + emitted(closed)));
    }
}

/// A text fed in two chunks does what it does fed in one: the same events are closed, in the
/// same order, and the parser is left in the same state.
pub proof fn lemma_feed_concat(parser: ParserView, first: Seq<char>, second: Seq<char>)
    ensures
        ({
            let (mid, out1) = parser.feed(first);
            let (end, out2) = mid.feed(second);
            parser.feed(first + second) == (end, out1 + out2)
        }),
{
    let text = parser.remaining + first;
    assert(parser.remaining + (first + second) =~= text + second);
    lemma_lines_append(text, second);
    lemma_assemble_concat(
        parser.event,
        complete_lines(text),
        complete_lines(residue(text) + second),
    );
}

/// Cutting a chunk in two at any place, inside a line or a field value as well, changes
/// neither the events that come out nor the state that the parser is left in.
pub proof fn lemma_feed_split(parser: ParserView, text: Seq<char>, at: int)
    requires
        0 <= at <= text.len(),
    ensures
        ({
            let (mid, out1) = parser.feed(text.take(at));
            let (end, out2) = mid.feed(text.skip(at));
            parser.feed(text) == (end, out1 + out2)
        }),
{
    assert(text.take(at) + text.skip(at) =~= text);
    lemma_feed_concat(parser, text.take(at), text.skip(at));
}

/// However a text is cut into chunks, feeding the chunks one by one closes the same events,
/// in the same order, as feeding the text whole, and leaves the parser in the same state.
pub proof fn lemma_chunking_is_immaterial(parser: ParserView, chunks: Seq<Seq<char>>)
    requires
        parser.holds_no_line(),
    ensures
        parser.feed_all(chunks) == parser.feed(chunks.flatten()),
    decreases chunks.len(),
{
    if chunks.len() == 0 {
        lemma_feed_nothing(parser);
    } else {
        let front = chunks.drop_last();
        lemma_chunking_is_immaterial(parser, front);
        lemma_feed_concat(parser, front.flatten(), chunks.last());
        front.lemma_flatten_push(chunks.last());
        assert(front.push(chunks.last()) =~= chunks);
    }
}

/// Two cuttings of the same text close the same events and leave the same state.
pub proof fn lemma_same_text_same_events(
    parser: ParserView,
    chunks: Seq<Seq<char>>,
    others: Seq<Seq<char>>,
)
    requires
        parser.holds_no_line(),
        chunks.flatten() == others.flatten(),
    ensures
        parser.feed_all(chunks) == parser.feed_all(others),
{
    lemma_chunking_is_immaterial(parser, chunks);
    lemma_chunking_is_immaterial(parser, others);
}

/// An empty chunk closes nothing. It leaves the parser as it was, provided no complete line
/// was waiting in it, as none is after [`ParserView::fresh`] or a `feed`.
pub proof fn lemma_feed_nothing(parser: ParserView)
    requires
        parser.holds_no_line(),
    ensures
        parser.feed(Seq::empty()) == (parser, Seq::<EventView>::empty()),
{
    assert(parser.remaining + Seq::<char>::empty() =~= parser.remaining);
}

/// Behind a boundary nothing is set: the event that was being assembled has been closed, or
/// there was none.
pub proof fn lemma_boundary_leaves_nothing_set(event: EventView, line: Seq<char>)
    requires
        line_kind(line) is Boundary,
    ensures
        step(event, line).0 == EventView::empty(),
        step(event, line).1 == if event.is_empty() {
            None
        } else {
            Some(event)
        },
{
    if event.is_empty() {
        assert(event =~= EventView::empty());
    }
}

/// Of two boundaries in a row the second closes nothing: together they close at most one
/// event.
pub proof fn lemma_consecutive_boundaries(event: EventView, first: Seq<char>, second: Seq<char>)
    requires
        line_kind(first) is Boundary,
        line_kind(second) is Boundary,
    ensures
        step(step(event, first).0, second).1 is None,
        assemble(event, seq![first, second]).1.len() <= 1,
        assemble(event, seq![first, second]).1 == emitted(step(event, first).1),
{
    let lines = seq![first, second];
    assert(lines.drop_last() =~= seq![first]);
    assert(lines.last() == second);
    lemma_assemble_one(event, first);
    let closed = step(event, first).1;
    assert(emitted(closed) + emitted(None) =~= emitted(closed));
}

/// The name of the event being assembled is the value of the last `event:` line, as long
/// as no boundary has followed it; `data:`, `id:` and other lines in between do not matter,
/// nor do `event:` lines before it.
pub proof fn lemma_name_is_last_seen(event: EventView, lines: Seq<Seq<char>>, last: int)
    requires
        0 <= last < lines.len(),
        line_kind(lines[last]) is Name,
        forall|j: int|
            last < j < lines.len() ==> !(line_kind(#[trigger] lines[j]) is Name) && !(line_kind(
                lines[j],
            ) is Boundary),
    ensures
        assemble(event, lines).0.name == Some(field_value(lines[last], "event:"@)),
    decreases lines.len(),
{
    let front = lines.drop_last();
    if last < lines.len() - 1 {
        assert(front[last] == lines[last]);
        assert forall|j: int| last < j < front.len() implies !(line_kind(
            #[trigger] front[j],
        ) is Name) && !(line_kind(front[j]) is Boundary) by {
            assert(front[j] == lines[j]);
        }
        lemma_name_is_last_seen(event, front, last);
    }
}

/// The id of the event being assembled is the value of the last `id:` line, as long as no
/// boundary has followed it.
pub proof fn lemma_id_is_last_seen(event: EventView, lines: Seq<Seq<char>>, last: int)
    requires
        0 <= last < lines.len(),
        line_kind(lines[last]) is Id,
        forall|j: int|
            last < j < lines.len() ==> !(line_kind(#[trigger] lines[j]) is Id) && !(line_kind(
                lines[j],
            ) is Boundary),
    ensures
        assemble(event, lines).0.id == Some(field_value(lines[last], "id:"@)),
    decreases lines.len(),
{
    let front = lines.drop_last();
    if last < lines.len() - 1 {
        assert(front[last] == lines[last]);
        assert forall|j: int| last < j < front.len() implies !(line_kind(
            #[trigger] front[j],
        ) is Id) && !(line_kind(front[j]) is Boundary) by {
            assert(front[j] == lines[j]);
        }
        lemma_id_is_last_seen(event, front, last);
    }
}

/// A run without boundary stays one when its last line is left off, and that line is no
/// boundary.
proof fn lemma_no_boundary_front(lines: Seq<Seq<char>>)
    requires
        has_no_boundary(lines),
        lines.len() > 0,
    ensures
        has_no_boundary(lines.drop_last()),
        !(line_kind(lines.last()) is Boundary),
{
    let front = lines.drop_last();
    assert forall|j: int| 0 <= j < front.len() implies !(line_kind(
        #[trigger] front[j],
    ) is Boundary) by {
        assert(front[j] == lines[j]);
    }
    assert(lines.last() == lines[lines.len() - 1]);
}

/// Until a boundary comes, the data of the event being assembled grows by the value of each
/// `data:` line, in order, each followed by one newline; no other line touches it.
pub proof fn lemma_data_is_gathered(event: EventView, lines: Seq<Seq<char>>)
    requires
        has_no_boundary(lines),
    ensures
        assemble(event, lines).0.data == event.data + gathered_data(lines),
    decreases lines.len(),
{
    if lines.len() == 0 {
        assert(event.data + Seq::<char>::empty() =~= event.data);
    } else {
        let front = lines.drop_last();
        lemma_no_boundary_front(lines);
        lemma_data_is_gathered(event, front);
        if line_kind(lines.last()) is Data {
            let value = field_value(lines.last(), "data:"@);
            let old = gathered_data(front);
            assert((event.data + old) + value + seq!['\n'] =~= event.data + (old + value
                + seq!['\n']));
        }
    }
}

/// Lines without a boundary among them close no event, whatever they set.
pub proof fn lemma_no_boundary_no_event(event: EventView, lines: Seq<Seq<char>>)
    requires
        has_no_boundary(lines),
    ensures
        assemble(event, lines).1 == Seq::<EventView>::empty(),
    decreases lines.len(),
{
    if lines.len() > 0 {
        let front = lines.drop_last();
        lemma_no_boundary_front(lines);
        lemma_no_boundary_no_event(event, front);
        let (before, out) = assemble(event, front);
        assert(out + emitted(step(before, lines.last()).1) =~= Seq::<EventView>::empty());
    }
}

/// A chunk that completes no blank line closes no event: an event that the stream has not
/// ended with a blank line stays with the parser.
pub proof fn lemma_unclosed_event_is_held(parser: ParserView, chunk: Seq<char>)
    requires
        has_no_boundary(complete_lines(parser.remaining + chunk)),
    ensures
        parser.feed(chunk).1 == Seq::<EventView>::empty(),
{
    lemma_no_boundary_no_event(parser.event, complete_lines(parser.remaining + chunk));
}

/// Where nothing has been set, boundaries alone close no event and set nothing.
pub proof fn lemma_boundaries_on_empty(lines: Seq<Seq<char>>)
    requires
        forall|j: int| 0 <= j < lines.len() ==> line_kind(#[trigger] lines[j]) is Boundary,
    ensures
        assemble(EventView::empty(), lines) == (EventView::empty(), Seq::<EventView>::empty()),
    decreases lines.len(),
{
    if lines.len() > 0 {
        let front = lines.drop_last();
        assert forall|j: int| 0 <= j < front.len() implies line_kind(
            #[trigger] front[j],
        ) is Boundary by {
            assert(front[j] == lines[j]);
        }
        lemma_boundaries_on_empty(front);
        assert(lines.last() == lines[lines.len() - 1]);
        assert(Seq::<EventView>::empty() + emitted(None) =~= Seq::<EventView>::empty());
    }
}

/// A line of the kind that changes nothing, such as a comment, may stand anywhere or be
/// left out: the events closed and the event being assembled are the same.
pub proof fn lemma_other_line_is_immaterial(
    event: EventView,
    before: Seq<Seq<char>>,
    line: Seq<char>,
    after: Seq<Seq<char>>,
)
    requires
        line_kind(line) is Other,
    ensures
        assemble(event, before + seq![line] + after) == assemble(event, before + after),
{
    let (mid, out) = assemble(event, before);
    lemma_assemble_concat(event, before, seq![line]);
    lemma_assemble_one(mid, line);
    assert(out + emitted(None) =~= out);
    lemma_assemble_concat(event, before + seq![line], after);
    lemma_assemble_concat(event, before, after);
}

/// No event is closed with nothing set in it.
pub proof fn lemma_closed_events_are_not_empty(event: EventView, lines: Seq<Seq<char>>)
    ensures
        forall|i: int|
            0 <= i < assemble(event, lines).1.len() ==> !(#[trigger] assemble(
                event,
                lines,
            ).1[i]).is_empty(),
    decreases lines.len(),
{
    if lines.len() > 0 {
        lemma_closed_events_are_not_empty(event, lines.drop_last());
        let (before, out) = assemble(event, lines.drop_last());
        let closed = step(before, lines.last()).1;
        let all = assemble(event, lines).1;
        assert(all == out + emitted(closed));
        assert forall|i: int| 0 <= i < all.len() implies !(#[trigger] all[i]).is_empty() by {
            if i < out.len() {
                assert(all[i] == out[i]);
            } else {
                assert(all[i] == emitted(closed)[i - out.len()]);
            }
        }
    }
}

/// Values answered in two runs are answered as in one: the second run starts from the
/// parser that the first one left, and the answers follow each other.
pub proof fn lemma_respond_concat(parser: ParserView, first: Seq<Value>, second: Seq<Value>)
    ensures
        ({
            let (mid, out1) = respond_all(parser, first);
            let (end, out2) = respond_all(mid, second);
            respond_all(parser, first + second) == (end, out1 + out2)
        }),
    decreases second.len(),
{
    let (mid, out1) = respond_all(parser, first);
    if second.len() == 0 {
        assert(first + second =~= first);
        assert(out1 + Seq::<Value>::empty() =~= out1);
    } else {
        let front = second.drop_last();
        lemma_respond_concat(parser, first, front);
        assert((first + second).drop_last() =~= first + front);
        assert((first + second).last() == second.last());
        let (before, out2) = respond_all(mid, front);
        let more = respond(before, second.last()).1;
        assert((out1 + out2) + more =~= out1 + (out2 + more));
    }
}

/// A value that is not a string, wherever it stands in the input, is answered with one type
/// mismatch in its place and does nothing else: the parser ends in the same state, and the
/// values before and after it are answered as if it had not been there.
pub proof fn lemma_mismatch_is_isolated(
    parser: ParserView,
    before: Seq<Value>,
    value: Value,
    after: Seq<Value>,
)
    requires
        value_text(value) is None,
    ensures
        ({
            let (mid, out1) = respond_all(parser, before);
            let (end, out2) = respond_all(mid, after);
            &&& respond_all(parser, before + after) == (end, out1 + out2)
            &&& respond_all(parser, before + seq![value] + after) == (
                end,
                out1 + seq![type_mismatch(value_span(value))] + out2,
            )
        }),
{
    let (mid, out1) = respond_all(parser, before);
    let one = seq![value];
    assert(one.drop_last() =~= Seq::<Value>::empty());
    assert(one.last() == value);
    let answer = seq![type_mismatch(value_span(value))];
    assert(respond_all(mid, one) == (mid, answer)) by {
        assert(respond_all(mid, one.drop_last()) == (mid, Seq::<Value>::empty()));
        assert(respond(mid, value) == (mid, answer));
        assert(Seq::<Value>::empty() + answer =~= answer);
    }
    lemma_respond_concat(parser, before, one);
    lemma_respond_concat(parser, before + one, after);
    lemma_respond_concat(parser, before, after);
}

} // verus!
