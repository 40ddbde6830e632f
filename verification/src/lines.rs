//! Reassembly of lines from text that arrives in pieces.
//!
//! A line is complete once its newline has arrived; it is handed out with that newline.
//! What follows the last newline is the residue, kept until more text arrives.
//! [`LineAccumulator`] does this; it knows nothing of what the lines mean.

use crate::utf8::{lemma_first_newline_byte, lemma_no_newline_byte, NEWLINE};
use vstd::prelude::*;
use vstd::utf8::encode_utf8_decode_utf8;

verus! {

/// The index of the first newline in `s`, or `s.len()` where there is none.
pub open spec fn first_newline(s: Seq<char>) -> nat
    decreases s.len(),
{
    if s.len() == 0 || s.first() == '\n' {
        0
    } else {
        1 + first_newline(s.drop_first())
    }
}

/// Whether `s` holds a newline.
pub open spec fn has_newline(s: Seq<char>) -> bool {
    first_newline(s) < s.len()
}

/// The first line of `s`, newline included. Meaningful where `has_newline(s)`.
pub open spec fn first_line(s: Seq<char>) -> Seq<char> {
    s.take(first_newline(s) as int + 1)
}

/// What follows the first line of `s`. Meaningful where `has_newline(s)`.
pub open spec fn after_first_line(s: Seq<char>) -> Seq<char> {
    s.skip(first_newline(s) as int + 1)
}

/// The complete lines of `buf`, in order, each with its newline.
pub open spec fn complete_lines(buf: Seq<char>) -> Seq<Seq<char>>
    decreases buf.len(),
{
    if has_newline(buf) {
        seq![first_line(buf)] + complete_lines(after_first_line(buf))
    } else {
        Seq::empty()
    }
}

/// What follows the last newline of `buf`; all of `buf` where it holds none.
pub open spec fn residue(buf: Seq<char>) -> Seq<char>
    decreases buf.len(),
{
    if has_newline(buf) {
        residue(after_first_line(buf))
    } else {
        buf
    }
}

/// Whether `line` is one line: it ends in a newline and holds no other.
pub open spec fn is_line(line: Seq<char>) -> bool {
    line.len() > 0 && first_newline(line) == line.len() - 1
}

/// `first_newline` lies within bounds, points at a newline if at anything, and nothing before
/// it is a newline.
pub proof fn lemma_first_newline(s: Seq<char>)
    ensures
        first_newline(s) <= s.len(),
        has_newline(s) ==> s[first_newline(s) as int] == '\n',
        forall|j: int| 0 <= j < first_newline(s) ==> #[trigger] s[j] != '\n',
    decreases s.len(),
{
    if s.len() == 0 || s.first() == '\n' {
    } else {
        let rest = s.drop_first();
        lemma_first_newline(rest);
        assert forall|j: int| 0 <= j < first_newline(s) implies #[trigger] s[j] != '\n' by {
            if j > 0 {
                assert(s[j] == rest[j - 1]);
            }
        }
    }
}

/// A text holds a newline, in the sense of [`has_newline`], exactly when one of its
/// characters is a newline.
pub proof fn lemma_has_newline_iff_contains(s: Seq<char>)
    ensures
        has_newline(s) <==> s.contains('\n'),
{
    lemma_first_newline(s);
    if has_newline(s) {
        assert(s[first_newline(s) as int] == '\n');
    }
    if s.contains('\n') {
        let k = choose|k: int| 0 <= k < s.len() && s[k] == '\n';
        if first_newline(s) >= s.len() {
            assert(s[k] != '\n');
        }
    }
}

/// An index with no newline before it, which is the end of `s` or holds a newline, is
/// `first_newline(s)`.
pub proof fn lemma_first_newline_at(s: Seq<char>, k: int)
    requires
        0 <= k <= s.len(),
        forall|j: int| 0 <= j < k ==> #[trigger] s[j] != '\n',
        k < s.len() ==> s[k] == '\n',
    ensures
        first_newline(s) == k,
    decreases k,
{
    if k > 0 {
        let rest = s.drop_first();
        assert(s[0] != '\n');
        assert forall|j: int| 0 <= j < k - 1 implies #[trigger] rest[j] != '\n' by {
            assert(rest[j] == s[j + 1]);
        }
        lemma_first_newline_at(rest, k - 1);
    }
}

/// Text appended behind a newline does not move that newline: the first line stays, and the
/// appended text joins what follows it.
pub proof fn lemma_first_line_append(buf: Seq<char>, more: Seq<char>)
    requires
        has_newline(buf),
    ensures
        has_newline(buf + more),
        first_line(buf + more) == first_line(buf),
        after_first_line(buf + more) == after_first_line(buf) + more,
{
    let k = first_newline(buf) as int;
    let all = buf + more;
    lemma_first_newline(buf);
    assert forall|j: int| 0 <= j < k implies #[trigger] all[j] != '\n' by {
        assert(all[j] == buf[j]);
    }
    assert(all[k] == buf[k]);
    lemma_first_newline_at(all, k);
    assert(all.take(k + 1) =~= buf.take(k + 1));
    assert(all.skip(k + 1) =~= buf.skip(k + 1) + more);
}

/// Appending text never changes the lines already complete: the new lines are those of the
/// residue with the appended text, and so is the new residue.
pub proof fn lemma_lines_append(buf: Seq<char>, more: Seq<char>)
    ensures
        complete_lines(buf + more) == complete_lines(buf) + complete_lines(residue(buf) + more),
        residue(buf + more) == residue(residue(buf) + more),
    decreases buf.len(),
{
    if has_newline(buf) {
        lemma_first_newline(buf);
        lemma_first_line_append(buf, more);
        let rest = after_first_line(buf);
        lemma_lines_append(rest, more);
        assert(complete_lines(buf + more) =~= complete_lines(buf) + complete_lines(
            residue(buf) + more,
        ));
    } else {
        assert(complete_lines(buf) + complete_lines(buf + more) =~= complete_lines(buf + more));
    }
}

/// Nothing is lost and nothing invented: the complete lines followed by the residue are the
/// text itself.
pub proof fn lemma_lines_then_residue(buf: Seq<char>)
    ensures
        complete_lines(buf).flatten() + residue(buf) == buf,
    decreases buf.len(),
{
    if has_newline(buf) {
        lemma_first_newline(buf);
        let rest = after_first_line(buf);
        lemma_lines_then_residue(rest);
        let lines = complete_lines(buf);
        assert(lines.first() == first_line(buf));
        assert(lines.drop_first() =~= complete_lines(rest));
        assert(lines.flatten() + residue(buf) =~= first_line(buf) + (complete_lines(
            rest,
        ).flatten() + residue(rest)));
        assert(first_line(buf) + rest =~= buf);
    } else {
        assert(Seq::<char>::empty() + buf =~= buf);
    }
}

/// Every complete line ends in a newline and holds no other.
pub proof fn lemma_complete_lines_are_lines(buf: Seq<char>)
    ensures
        forall|i: int|
            0 <= i < complete_lines(buf).len() ==> is_line(#[trigger] complete_lines(buf)[i]),
    decreases buf.len(),
{
    if has_newline(buf) {
        lemma_first_newline(buf);
        let k = first_newline(buf) as int;
        let line = first_line(buf);
        let rest = after_first_line(buf);
        assert forall|j: int| 0 <= j < k implies #[trigger] line[j] != '\n' by {
            assert(line[j] == buf[j]);
        }
        assert(line[k] == buf[k]);
        lemma_first_newline_at(line, k);
        lemma_complete_lines_are_lines(rest);
        let lines = complete_lines(buf);
        assert forall|i: int| 0 <= i < lines.len() implies is_line(#[trigger] lines[i]) by {
            if i > 0 {
                assert(lines[i] == complete_lines(rest)[i - 1]);
            }
        }
    }
}

/// The residue holds no newline.
pub proof fn lemma_residue_has_no_newline(buf: Seq<char>)
    ensures
        !has_newline(residue(buf)),
    decreases buf.len(),
{
    if has_newline(buf) {
        lemma_first_newline(buf);
        lemma_residue_has_no_newline(after_first_line(buf));
    }
}

/// Splits `buf` behind its first newline: the first line with its newline, and the rest.
/// `None` where `buf` holds no newline.
///
/// The search reads the bytes of `buf` up to the newline and no further.
pub fn split_first_line(buf: &str) -> (r: Option<(&str, &str)>)
    ensures
        match r {
            Some((line, rest)) => has_newline(buf@) && line@ == first_line(buf@) && rest@
                == after_first_line(buf@),
            None => !has_newline(buf@),
        },
{
    let bytes = buf.as_bytes();
    let mut at: usize = 0;
    while at < bytes.len() && bytes[at] != NEWLINE
        invariant
            at <= bytes@.len(),
            forall|j: int| 0 <= j < at ==> #[trigger] bytes@[j] != NEWLINE,
        decreases bytes@.len() - at,
    {
        at = at + 1;
    }
    if at < bytes.len() {
        proof {
            lemma_first_newline_byte(buf@, at as int);
        }
        let (line, rest) = buf.split_at(at + 1);
        proof {
            encode_utf8_decode_utf8(line@);
            encode_utf8_decode_utf8(rest@);
            encode_utf8_decode_utf8(first_line(buf@));
            encode_utf8_decode_utf8(after_first_line(buf@));
        }
        Some((line, rest))
    } else {
        proof {
            lemma_no_newline_byte(buf@);
        }
        None
    }
}

/// The text of each string of a sequence.
pub open spec fn texts(lines: Seq<String>) -> Seq<Seq<char>> {
    lines.map_values(|line: String| line@)
}

/// A buffer that takes text in chunks of any size and hands out the lines that each chunk
/// completes. Its view is the text held back: what has arrived behind the last newline.
pub struct LineAccumulator {
    buffer: String,
}

impl View for LineAccumulator {
    type V = Seq<char>;

    closed spec fn view(&self) -> Seq<char> {
        self.buffer@
    }
}

impl LineAccumulator {
    /// The text held back is always short of a newline: every complete line has been
    /// handed out.
    #[verifier::type_invariant]
    pub open spec fn holds_no_line(self) -> bool {
        !has_newline(self@)
    }

    /// An accumulator that holds no text.
    pub fn new() -> (accumulator: LineAccumulator)
        ensures
            accumulator@ == Seq::<char>::empty(),
    {
        LineAccumulator { buffer: String::new() }
    }

    /// The text held back. It holds no newline.
    pub fn pending(&self) -> (text: &str)
        ensures
            text@ == self@,
            !has_newline(self@),
    {
        proof {
            use_type_invariant(self);
        }
        self.buffer.as_str()
    }

    /// Takes the next chunk and returns the lines that it completes, in order, each with its
    /// newline. What follows the last newline is held back and begins the first line that a
    /// later chunk completes.
    pub fn push(&mut self, chunk: &str) -> (lines: Vec<String>)
        ensures
            texts(lines@) == complete_lines(old(self)@ + chunk@),
            final(self)@ == residue(old(self)@ + chunk@),
            !has_newline(final(self)@),
    {
        let mut text = String::new();
        std::mem::swap(&mut self.buffer, &mut text);
        text.append(chunk);
        let mut rest: &str = text.as_str();
        let mut lines: Vec<String> = Vec::new();
        assert(texts(lines@) =~= Seq::<Seq<char>>::empty());
        loop
            invariant
                complete_lines(text@) == texts(lines@) + complete_lines(rest@),
                residue(text@) == residue(rest@),
            ensures
                !has_newline(rest@),
            decreases rest@.len(),
        {
            let (line, after) = match split_first_line(rest) {
                Some(halves) => halves,
                None => {
                    break ;
                },
            };
            let ghost handed = texts(lines@);
            lines.push(line.to_owned());
            proof {
                lemma_first_newline(rest@);
                assert(texts(lines@) =~= handed.push(line@));
                assert(handed + complete_lines(rest@) =~= handed.push(line@) + complete_lines(
                    after@,
                ));
            }
            rest = after;
        }
        assert(complete_lines(text@) =~= texts(lines@));
        self.buffer = rest.to_owned();
        lines
    }
}

} // verus!
