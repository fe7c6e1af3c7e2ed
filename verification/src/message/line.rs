//! Telling the lines of a message apart: text, trailers and blank lines.
//!
//! A trailer may run over several lines. The lines that continue it are
//! indented, that is, they begin with white space, and they become part of
//! its value.

use vstd::prelude::*;
use vstd::string::StringExecFns;

use crate::message::source::LineSource;
use crate::text::{indented, is_whitespace, trim_end, trimmed_end, views};
use crate::trailer::{parse_trailer, value_text, Trailer, TrailerView, ValueView};

verus! {

/// What a line is to a contract.
pub enum LineView {
    Text(Seq<char>),
    Trailer(TrailerView),
    Blank,
}

/// A line of a message.
pub enum Line {
    /// A line of ordinary text, without the white space at its end.
    Text(String),
    /// A trailer, with the lines that continue it.
    Trailer(Trailer),
    /// A line that holds nothing but white space.
    Blank,
}

impl View for Line {
    type V = LineView;

    open spec fn view(&self) -> LineView {
        match self {
            Line::Text(s) => LineView::Text(s@),
            Line::Trailer(t) => LineView::Trailer(t@),
            Line::Blank => LineView::Blank,
        }
    }
}

/// What kind of line `line` is, taken by itself: blank if nothing but white
/// space, a trailer if it reads as one without the white space at its end,
/// and text if not.
pub open spec fn categorize(line: Seq<char>) -> LineView {
    let trimmed = trim_end(line);
    if trimmed.len() == 0 {
        LineView::Blank
    } else {
        match parse_trailer(trimmed) {
            Some(t) => LineView::Trailer(t),
            None => LineView::Text(trimmed),
        }
    }
}

/// Whether `line` continues the trailer before it: whether it is indented,
/// which is to say begins with white space.
pub open spec fn is_continuation(line: Seq<char>) -> bool {
    line.len() > 0 && is_whitespace(line[0])
}

/// The number of lines at the start of `lines` that continue a trailer.
pub open spec fn continuation_count(lines: Seq<Seq<char>>) -> nat
    decreases lines.len(),
{
    if lines.len() > 0 && is_continuation(lines[0]) {
        1 + continuation_count(lines.drop_first())
    } else {
        0
    }
}

/// No more lines continue a trailer than there are lines.
pub proof fn lemma_continuation_count_le(lines: Seq<Seq<char>>)
    ensures
        continuation_count(lines) <= lines.len(),
    decreases lines.len(),
{
    if lines.len() > 0 && is_continuation(lines[0]) {
        lemma_continuation_count_le(lines.drop_first());
    }
}

/// The text of `lines`, one behind the other.
pub open spec fn joined(lines: Seq<Seq<char>>) -> Seq<char>
    decreases lines.len(),
{
    if lines.len() == 0 {
        Seq::empty()
    } else {
        joined(lines.drop_last()) + lines.last()
    }
}

/// The trailer `t` continued by `more`: its value becomes text, with the
/// continuing lines behind it as they are. Without such lines it stays as it
/// is.
pub open spec fn continued(t: TrailerView, more: Seq<Seq<char>>) -> TrailerView {
    if more.len() == 0 {
        t
    } else {
        TrailerView { key: t.key, value: ValueView::String(value_text(t.value) + joined(more)) }
    }
}

/// The lines as they are categorized, one after the other: each line by
/// itself, but for a trailer, which takes the lines that continue it.
pub open spec fn categorized(lines: Seq<Seq<char>>) -> Seq<LineView>
    decreases lines.len(),
{
    if lines.len() == 0 {
        Seq::empty()
    } else {
        match categorize(lines[0]) {
            LineView::Trailer(t) => {
                proof {
                    lemma_continuation_count_le(lines.drop_first());
                }
                let n = continuation_count(lines.drop_first()) as int;
                seq![LineView::Trailer(continued(t, lines.subrange(1, 1 + n)))] + categorized(
                    lines.skip(1 + n),
                )
            },
            other => seq![other] + categorized(lines.drop_first()),
        }
    }
}

impl Line {
    /// Tells what kind of line `line` is, taken by itself.
    pub fn from(line: &str) -> (r: Line)
        ensures
            r@ == categorize(line@),
    {
        let trimmed = trimmed_end(line);
        if trimmed.unicode_len() == 0 {
            return Line::Blank;
        }
        match Trailer::from_str(trimmed) {
            Ok(trailer) => Line::Trailer(trailer),
            Err(_) => Line::Text(String::from_str(trimmed)),
        }
    }
}

/// Hands out the lines of a message, categorized.
pub struct Lines {
    inner: LineSource,
}

impl Lines {
    /// The lines that are still to be categorized.
    pub closed spec fn rest(&self) -> Seq<Seq<char>> {
        self.inner.rest()
    }

    /// What is still to be handed out.
    pub open spec fn output(&self) -> Seq<LineView> {
        categorized(self.rest())
    }

    /// A processor that categorizes `lines`.
    pub fn from(lines: Vec<String>) -> (r: Lines)
        ensures
            r.rest() == views(lines@),
    {
        Lines { inner: LineSource::new(lines) }
    }

    /// Hands out the next categorized line, if one is left.
    pub fn next(&mut self) -> (r: Option<Line>)
        ensures
            match r {
                Some(line) => old(self).output().len() > 0 && line@ == old(self).output()[0]
                    && final(self).output() == old(self).output().drop_first() && final(
                    self).rest().len() < old(self).rest().len(),
                None => old(self).output().len() == 0 && final(self).rest() == old(self).rest(),
            },
    {
        let ghost start = self.inner.rest();
        let total = self.inner.remaining();
        let first = match self.inner.next() {
            Some(line) => line,
            None => {
                return None;
            },
        };
        match Line::from(first.as_str()) {
            Line::Trailer(trailer) => {
                let mut trailer = trailer;
                let ghost head = trailer@;
                let ghost tail = start.drop_first();
                let mut taken: usize = 0;
                proof {
                    assert(tail.skip(0) =~= tail);
                    assert(start.subrange(1, 1) =~= Seq::<Seq<char>>::empty());
                    lemma_continuation_count_le(tail);
                }
                loop
                    invariant
                        tail == start.drop_first(),
                        start.len() > 0,
                        start.len() == total,
                        self.inner.rest() == tail.skip(taken as int),
                        taken <= tail.len(),
                        taken + continuation_count(tail.skip(taken as int)) == continuation_count(
                            tail,
                        ),
                        trailer@ == continued(head, start.subrange(1, 1 + taken)),
                    ensures
                        taken == continuation_count(tail),
                        self.inner.rest() == tail.skip(taken as int),
                        trailer@ == continued(head, start.subrange(1, 1 + taken)),
                    decreases tail.len() - taken,
                {
                    let more = match self.inner.peek() {
                        Some(line) => indented(line.as_str()),
                        None => false,
                    };
                    if !more {
                        break ;
                    }
                    let ghost had = start.subrange(1, 1 + taken);
                    let ghost before = trailer@;
                    let line = self.inner.next().unwrap();
                    trailer.value.append(line.as_str());
                    proof {
                        let now = start.subrange(1, 2 + taken);
                        assert(tail.skip(taken as int).drop_first() =~= tail.skip(taken + 1));
                        assert(now.drop_last() =~= had);
                        assert(now.last() == line@);
                        assert(joined(now) == joined(had) + line@);
                        if taken == 0 {
                            assert(joined(had) =~= Seq::<char>::empty());
                            assert(value_text(head.value) + joined(now) =~= value_text(
                                head.value,
                            ) + line@);
                        } else {
                            assert(value_text(before.value) + line@ =~= value_text(head.value)
                                + joined(now));
                        }
                    }
                    taken = taken + 1;
                }
                proof {
                    let n = continuation_count(tail) as int;
                    assert(tail.skip(n) =~= start.skip(1 + n));
                    let out = seq![LineView::Trailer(continued(head, start.subrange(1, 1 + n)))]
                        + categorized(start.skip(1 + n));
                    assert(out.drop_first() =~= categorized(start.skip(1 + n)));
                }
                Some(Line::Trailer(trailer))
            },
            other => {
                proof {
                    let out = seq![other@] + categorized(start.drop_first());
                    assert(out.drop_first() =~= categorized(start.drop_first()));
                }
                Some(other)
            },
        }
    }
}

} // verus!
