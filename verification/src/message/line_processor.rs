//! Line by line processing: quoting, stripping white space, dropping
//! comments and dropping the blank lines at the end.
//!
//! Each processor is made from lines and hands out, one `next` at a time,
//! what its `output` says; `collect` hands out all that is left at once.

use vstd::prelude::*;
use vstd::string::StringExecFns;

use crate::message::source::LineSource;
use crate::text::{
    glue, has_prefix, starts_with, trim_end, trim_start, trimmed_end, trimmed_start, views,
};

verus! {

/// A line as it is quoted: behind `>` and a blank, or as a bare `>` where it
/// is empty.
pub open spec fn quote(line: Seq<char>) -> Seq<char> {
    if line.len() == 0 {
        seq!['>']
    } else {
        seq!['>', ' '] + line
    }
}

/// The lines, each quoted.
pub open spec fn quoted(lines: Seq<Seq<char>>) -> Seq<Seq<char>> {
    lines.map_values(|line: Seq<char>| quote(line))
}

/// The lines, each without the white space at its start.
pub open spec fn left_stripped(lines: Seq<Seq<char>>) -> Seq<Seq<char>> {
    lines.map_values(|line: Seq<char>| trim_start(line))
}

/// The lines, each without the white space at its end.
pub open spec fn right_stripped(lines: Seq<Seq<char>>) -> Seq<Seq<char>> {
    lines.map_values(|line: Seq<char>| trim_end(line))
}

/// Whether a line is a comment: whether it starts with `#`.
pub open spec fn is_comment(line: Seq<char>) -> bool {
    starts_with(line, seq!['#'])
}

/// The lines that are no comments.
pub open spec fn without_comments(lines: Seq<Seq<char>>) -> Seq<Seq<char>>
    decreases lines.len(),
{
    if lines.len() == 0 {
        Seq::empty()
    } else if is_comment(lines[0]) {
        without_comments(lines.drop_first())
    } else {
        seq![lines[0]] + without_comments(lines.drop_first())
    }
}

/// The lines without the empty lines at their end.
pub open spec fn without_trailing_blanks(lines: Seq<Seq<char>>) -> Seq<Seq<char>>
    decreases lines.len(),
{
    if lines.len() > 0 && lines.last().len() == 0 {
        without_trailing_blanks(lines.drop_last())
    } else {
        lines
    }
}

/// `n` empty lines.
pub open spec fn blank_lines(n: nat) -> Seq<Seq<char>> {
    Seq::new(n, |i: int| Seq::<char>::empty())
}

/// Dropping the empty lines at the end leaves the first line in place,
/// unless nothing but empty lines follows an empty first line.
pub proof fn lemma_without_trailing_blanks_front(lines: Seq<Seq<char>>)
    requires
        lines.len() > 0,
    ensures
        without_trailing_blanks(lines) == if lines[0].len() > 0 || without_trailing_blanks(
            lines.drop_first(),
        ).len() > 0 {
            seq![lines[0]] + without_trailing_blanks(lines.drop_first())
        } else {
            Seq::empty()
        },
    decreases lines.len(),
{
    let tail = lines.drop_first();
    if lines.last().len() == 0 {
        let init = lines.drop_last();
        assert(without_trailing_blanks(lines) == without_trailing_blanks(init));
        if init.len() > 0 {
            lemma_without_trailing_blanks_front(init);
            assert(init.drop_first() =~= tail.drop_last());
            assert(init[0] == lines[0]);
            assert(tail.last() == lines.last());
            assert(without_trailing_blanks(tail) == without_trailing_blanks(tail.drop_last()));
        } else {
            assert(tail =~= Seq::<Seq<char>>::empty());
            assert(without_trailing_blanks(init) =~= Seq::<Seq<char>>::empty());
            assert(without_trailing_blanks(tail) =~= Seq::<Seq<char>>::empty());
        }
    } else {
        assert(without_trailing_blanks(lines) == lines);
        if tail.len() > 0 {
            assert(tail.last() == lines.last());
            assert(without_trailing_blanks(tail) == tail);
        } else {
            assert(without_trailing_blanks(tail) =~= tail);
        }
        assert(seq![lines[0]] + tail =~= lines);
    }
}

/// Hands out lines as quotations.
pub struct Quoted {
    inner: LineSource,
}

impl Quoted {
    /// The lines that are still to be quoted.
    pub closed spec fn rest(&self) -> Seq<Seq<char>> {
        self.inner.rest()
    }

    /// What is still to be handed out.
    pub open spec fn output(&self) -> Seq<Seq<char>> {
        quoted(self.rest())
    }

    /// A processor that quotes `lines`.
    pub fn from(lines: Vec<String>) -> (r: Quoted)
        ensures
            r.rest() == views(lines@),
    {
        Quoted { inner: LineSource::new(lines) }
    }

    /// Hands out the next line of the output, if one is left.
    pub fn next(&mut self) -> (r: Option<String>)
        ensures
            match r {
                Some(line) => old(self).output().len() > 0 && line@ == old(self).output()[0]
                    && final(self).output() == old(self).output().drop_first() && final(self).rest().len() < old(self).rest().len(),
                None => old(self).output().len() == 0 && final(self).rest() == old(self).rest(),
            },
    {
        match self.inner.next() {
            Some(line) => {
                proof {
                    reveal_strlit(">");
                    reveal_strlit("> ");
                    assert(">"@ =~= seq!['>']);
                    assert("> "@ =~= seq!['>', ' ']);
                    assert(quoted(old(self).rest()).drop_first() =~= quoted(
                        old(self).rest().drop_first(),
                    ));
                }
                if line.as_str().unicode_len() == 0 {
                    Some(String::from_str(">"))
                } else {
                    Some(glue("> ", line.as_str()))
                }
            },
            None => None,
        }
    }

    /// Hands out all of the output that is left.
    pub fn collect(self) -> (out: Vec<String>)
        ensures
            views(out@) == self.output(),
    {
        let mut state = self;
        let mut out: Vec<String> = Vec::new();
        proof {
            assert(views(out@) =~= Seq::<Seq<char>>::empty());
        }
        loop
            invariant
                views(out@) + state.output() == self.output(),
            ensures
                views(out@) == self.output(),
            decreases state.rest().len(),
        {
            let ghost before = state.output();
            let ghost had = views(out@);
            match state.next() {
                Some(line) => {
                    proof {
                        assert(views(out@.push(line)) =~= had.push(line@));
                        assert(had.push(line@) + before.drop_first() =~= had + before);
                    }
                    out.push(line);
                },
                None => {
                    proof {
                        assert(had + before =~= had);
                    }
                    break ;
                },
            }
        }
        out
    }
}

/// Hands out lines without the white space at their start.
pub struct StripWhiteSpaceLeftIter {
    inner: LineSource,
}

impl StripWhiteSpaceLeftIter {
    /// The lines that are still to be stripped.
    pub closed spec fn rest(&self) -> Seq<Seq<char>> {
        self.inner.rest()
    }

    /// What is still to be handed out.
    pub open spec fn output(&self) -> Seq<Seq<char>> {
        left_stripped(self.rest())
    }

    /// A processor that strips `lines`.
    pub fn from(lines: Vec<String>) -> (r: StripWhiteSpaceLeftIter)
        ensures
            r.rest() == views(lines@),
    {
        StripWhiteSpaceLeftIter { inner: LineSource::new(lines) }
    }

    /// Hands out the next line of the output, if one is left.
    pub fn next(&mut self) -> (r: Option<String>)
        ensures
            match r {
                Some(line) => old(self).output().len() > 0 && line@ == old(self).output()[0]
                    && final(self).output() == old(self).output().drop_first() && final(self).rest().len() < old(self).rest().len(),
                None => old(self).output().len() == 0 && final(self).rest() == old(self).rest(),
            },
    {
        match self.inner.next() {
            Some(line) => {
                proof {
                    assert(left_stripped(old(self).rest()).drop_first() =~= left_stripped(
                        old(self).rest().drop_first(),
                    ));
                }
                Some(String::from_str(trimmed_start(line.as_str())))
            },
            None => None,
        }
    }

    /// Hands out all of the output that is left.
    pub fn collect(self) -> (out: Vec<String>)
        ensures
            views(out@) == self.output(),
    {
        let mut state = self;
        let mut out: Vec<String> = Vec::new();
        proof {
            assert(views(out@) =~= Seq::<Seq<char>>::empty());
        }
        loop
            invariant
                views(out@) + state.output() == self.output(),
            ensures
                views(out@) == self.output(),
            decreases state.rest().len(),
        {
            let ghost before = state.output();
            let ghost had = views(out@);
            match state.next() {
                Some(line) => {
                    proof {
                        assert(views(out@.push(line)) =~= had.push(line@));
                        assert(had.push(line@) + before.drop_first() =~= had + before);
                    }
                    out.push(line);
                },
                None => {
                    proof {
                        assert(had + before =~= had);
                    }
                    break ;
                },
            }
        }
        out
    }
}

/// Hands out lines without the white space at their end.
pub struct StripWhiteSpaceRightIter {
    inner: LineSource,
}

impl StripWhiteSpaceRightIter {
    /// The lines that are still to be stripped.
    pub closed spec fn rest(&self) -> Seq<Seq<char>> {
        self.inner.rest()
    }

    /// What is still to be handed out.
    pub open spec fn output(&self) -> Seq<Seq<char>> {
        right_stripped(self.rest())
    }

    /// A processor that strips `lines`.
    pub fn from(lines: Vec<String>) -> (r: StripWhiteSpaceRightIter)
        ensures
            r.rest() == views(lines@),
    {
        StripWhiteSpaceRightIter { inner: LineSource::new(lines) }
    }

    /// Hands out the next line of the output, if one is left.
    pub fn next(&mut self) -> (r: Option<String>)
        ensures
            match r {
                Some(line) => old(self).output().len() > 0 && line@ == old(self).output()[0]
                    && final(self).output() == old(self).output().drop_first() && final(self).rest().len() < old(self).rest().len(),
                None => old(self).output().len() == 0 && final(self).rest() == old(self).rest(),
            },
    {
        match self.inner.next() {
            Some(line) => {
                proof {
                    assert(right_stripped(old(self).rest()).drop_first() =~= right_stripped(
                        old(self).rest().drop_first(),
                    ));
                }
                Some(String::from_str(trimmed_end(line.as_str())))
            },
            None => None,
        }
    }

    /// Hands out all of the output that is left.
    pub fn collect(self) -> (out: Vec<String>)
        ensures
            views(out@) == self.output(),
    {
        let mut state = self;
        let mut out: Vec<String> = Vec::new();
        proof {
            assert(views(out@) =~= Seq::<Seq<char>>::empty());
        }
        loop
            invariant
                views(out@) + state.output() == self.output(),
            ensures
                views(out@) == self.output(),
            decreases state.rest().len(),
        {
            let ghost before = state.output();
            let ghost had = views(out@);
            match state.next() {
                Some(line) => {
                    proof {
                        assert(views(out@.push(line)) =~= had.push(line@));
                        assert(had.push(line@) + before.drop_first() =~= had + before);
                    }
                    out.push(line);
                },
                None => {
                    proof {
                        assert(had + before =~= had);
                    }
                    break ;
                },
            }
        }
        out
    }
}

/// Hands out the lines that are no comments. White space before a `#` keeps
/// a line from being one, so that quoted code survives.
pub struct WithoutCommentsIter {
    inner: LineSource,
}

impl WithoutCommentsIter {
    /// The lines that are still to be looked at.
    pub closed spec fn rest(&self) -> Seq<Seq<char>> {
        self.inner.rest()
    }

    /// What is still to be handed out.
    pub open spec fn output(&self) -> Seq<Seq<char>> {
        without_comments(self.rest())
    }

    /// A processor that drops the comments from `lines`.
    pub fn from(lines: Vec<String>) -> (r: WithoutCommentsIter)
        ensures
            r.rest() == views(lines@),
    {
        WithoutCommentsIter { inner: LineSource::new(lines) }
    }

    /// Hands out the next line of the output, if one is left.
    pub fn next(&mut self) -> (r: Option<String>)
        ensures
            match r {
                Some(line) => old(self).output().len() > 0 && line@ == old(self).output()[0]
                    && final(self).output() == old(self).output().drop_first() && final(self).rest().len() < old(self).rest().len(),
                None => old(self).output().len() == 0 && final(self).rest().len() == 0,
            },
    {
        loop
            invariant
                self.output() == old(self).output(),
                self.rest().len() <= old(self).rest().len(),
            decreases self.rest().len(),
        {
            let ghost before = self.rest();
            match self.inner.next() {
                Some(line) => {
                    proof {
                        reveal_strlit("#");
                        assert("#"@ =~= seq!['#']);
                    }
                    if !has_prefix(line.as_str(), "#") {
                        proof {
                            let out = seq![before[0]] + without_comments(before.drop_first());
                            assert(out.drop_first() =~= without_comments(before.drop_first()));
                        }
                        return Some(line);
                    }
                },
                None => {
                    return None;
                },
            }
        }
    }

    /// Hands out all of the output that is left.
    pub fn collect(self) -> (out: Vec<String>)
        ensures
            views(out@) == self.output(),
    {
        let mut state = self;
        let mut out: Vec<String> = Vec::new();
        proof {
            assert(views(out@) =~= Seq::<Seq<char>>::empty());
        }
        loop
            invariant
                views(out@) + state.output() == self.output(),
            ensures
                views(out@) == self.output(),
            decreases state.rest().len(),
        {
            let ghost before = state.output();
            let ghost had = views(out@);
            match state.next() {
                Some(line) => {
                    proof {
                        assert(views(out@.push(line)) =~= had.push(line@));
                        assert(had.push(line@) + before.drop_first() =~= had + before);
                    }
                    out.push(line);
                },
                None => {
                    proof {
                        assert(had + before =~= had);
                    }
                    break ;
                },
            }
        }
        out
    }
}

/// Hands out lines but for the empty lines at the end. Empty lines between
/// others stay.
pub struct TrailingBlankTrimmer {
    inner: LineSource,
    /// Empty lines that were read and are still to be handed out.
    blanks: usize,
}

impl TrailingBlankTrimmer {
    /// The lines that are still to be read.
    pub closed spec fn rest(&self) -> Seq<Seq<char>> {
        self.inner.rest()
    }

    /// The number of empty lines that were read and not handed out yet.
    pub closed spec fn held(&self) -> nat {
        self.blanks as nat
    }

    /// What is still to be handed out.
    pub open spec fn output(&self) -> Seq<Seq<char>> {
        blank_lines(self.held()) + without_trailing_blanks(self.rest())
    }

    /// A processor that drops the empty lines at the end of `lines`.
    pub fn from(lines: Vec<String>) -> (r: TrailingBlankTrimmer)
        ensures
            r.rest() == views(lines@),
            r.held() == 0,
    {
        TrailingBlankTrimmer { inner: LineSource::new(lines), blanks: 0 }
    }

    /// Hands out the next line of the output, if one is left.
    pub fn next(&mut self) -> (r: Option<String>)
        ensures
            match r {
                Some(line) => old(self).output().len() > 0 && line@ == old(self).output()[0]
                    && final(self).output() == old(self).output().drop_first() && final(self).rest().len() + final(self).held() < old(self).rest().len() + old(self).held(),
                None => old(self).output().len() == 0 && final(self).output().len() == 0,
            },
    {
        if self.blanks > 0 {
            proof {
                let n = self.blanks as nat;
                assert(blank_lines(n).drop_first() =~= blank_lines((n - 1) as nat));
                assert((blank_lines(n) + without_trailing_blanks(self.rest())).drop_first()
                    =~= blank_lines((n - 1) as nat) + without_trailing_blanks(self.rest()));
            }
            self.blanks = self.blanks - 1;
            return Some(String::new());
        }
        proof {
            assert(blank_lines(0) + without_trailing_blanks(self.rest())
                =~= without_trailing_blanks(self.rest()));
        }
        let ghost start = self.inner.rest();
        let total = self.inner.remaining();
        let mut found: usize = 0;
        loop
            invariant
                self.blanks == 0,
                found + self.inner.rest().len() <= start.len(),
                start.len() == total,
                without_trailing_blanks(start) == if without_trailing_blanks(
                    self.inner.rest(),
                ).len() > 0 {
                    blank_lines(found as nat) + without_trailing_blanks(self.inner.rest())
                } else {
                    Seq::<Seq<char>>::empty()
                },
                start == old(self).inner.rest(),
            ensures
                self.blanks == 0,
                found + self.inner.rest().len() <= start.len(),
                without_trailing_blanks(start) == if without_trailing_blanks(
                    self.inner.rest(),
                ).len() > 0 {
                    blank_lines(found as nat) + without_trailing_blanks(self.inner.rest())
                } else {
                    Seq::<Seq<char>>::empty()
                },
                self.inner.rest().len() > 0 ==> self.inner.rest()[0].len() > 0,
                start == old(self).inner.rest(),
            decreases self.inner.rest().len(),
        {
            let blank = match self.inner.peek() {
                Some(line) => line.as_str().unicode_len() == 0,
                None => false,
            };
            if !blank {
                break ;
            }
            let ghost before = self.inner.rest();
            proof {
                lemma_without_trailing_blanks_front(before);
                assert(before[0] =~= Seq::<char>::empty());
                assert(blank_lines((found + 1) as nat) =~= blank_lines(found as nat).push(
                    before[0],
                ));
                assert(blank_lines(found as nat) + (seq![before[0]] + without_trailing_blanks(
                    before.drop_first(),
                )) =~= blank_lines((found + 1) as nat) + without_trailing_blanks(
                    before.drop_first(),
                ));
            }
            self.inner.next();
            found = found + 1;
        }
        proof {
            if self.inner.rest().len() > 0 {
                lemma_without_trailing_blanks_front(self.inner.rest());
            }
        }
        if found > 0 && self.inner.peek().is_some() {
            proof {
                let n = found as nat;
                let tail = without_trailing_blanks(self.inner.rest());
                assert((blank_lines(n) + tail).drop_first() =~= blank_lines((n - 1) as nat)
                    + tail);
                assert((blank_lines(n) + tail)[0] =~= Seq::<char>::empty());
            }
            self.blanks = found - 1;
            Some(String::new())
        } else {
            let ghost before = self.inner.rest();
            proof {
                assert(blank_lines(0) + without_trailing_blanks(before)
                    =~= without_trailing_blanks(before));
                if before.len() > 0 {
                    assert((seq![before[0]] + without_trailing_blanks(
                        before.drop_first(),
                    )).drop_first() =~= without_trailing_blanks(before.drop_first()));
                    assert(blank_lines(0) + without_trailing_blanks(before.drop_first())
                        =~= without_trailing_blanks(before.drop_first()));
                }
            }
            self.inner.next()
        }
    }

    /// Hands out all of the output that is left.
    pub fn collect(self) -> (out: Vec<String>)
        ensures
            views(out@) == self.output(),
    {
        let mut state = self;
        let mut out: Vec<String> = Vec::new();
        proof {
            assert(views(out@) =~= Seq::<Seq<char>>::empty());
        }
        loop
            invariant
                views(out@) + state.output() == self.output(),
            ensures
                views(out@) == self.output(),
            decreases state.rest().len() + state.held(),
        {
            let ghost before = state.output();
            let ghost had = views(out@);
            match state.next() {
                Some(line) => {
                    proof {
                        assert(views(out@.push(line)) =~= had.push(line@));
                        assert(had.push(line@) + before.drop_first() =~= had + before);
                    }
                    out.push(line);
                },
                None => {
                    proof {
                        assert(had + before =~= had);
                    }
                    break ;
                },
            }
        }
        out
    }
}

} // verus!
