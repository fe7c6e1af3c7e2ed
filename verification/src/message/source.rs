//! A sequence of lines that is read from the front.

use vstd::prelude::*;

use crate::text::views;

verus! {

/// Lines of text, and how many of them were read already.
pub struct LineSource {
    lines: Vec<String>,
    pos: usize,
}

impl LineSource {
    #[verifier::type_invariant]
    spec fn inv(&self) -> bool {
        self.pos <= self.lines@.len()
    }

    /// The lines that are still to be read.
    pub closed spec fn rest(&self) -> Seq<Seq<char>> {
        views(self.lines@).skip(self.pos as int)
    }

    /// A source from which all of `lines` are still to be read.
    pub fn new(lines: Vec<String>) -> (r: LineSource)
        ensures
            r.rest() == views(lines@),
    {
        proof {
            assert(views(lines@).skip(0) =~= views(lines@));
        }
        LineSource { lines, pos: 0 }
    }

    /// The number of lines that are still to be read.
    pub fn remaining(&self) -> (n: usize)
        ensures
            n == self.rest().len(),
    {
        proof {
            use_type_invariant(self);
        }
        self.lines.len() - self.pos
    }

    /// The line that is read next, if there is one.
    pub fn peek(&self) -> (r: Option<&String>)
        ensures
            match r {
                Some(line) => self.rest().len() > 0 && line@ == self.rest()[0],
                None => self.rest().len() == 0,
            },
    {
        proof {
            use_type_invariant(self);
        }
        if self.pos < self.lines.len() {
            Some(&self.lines[self.pos])
        } else {
            None
        }
    }

    /// Reads a line, if there is one.
    pub fn next(&mut self) -> (r: Option<String>)
        ensures
            match r {
                Some(line) => old(self).rest().len() > 0 && line@ == old(self).rest()[0]
                    && final(self).rest() == old(self).rest().drop_first(),
                None => old(self).rest().len() == 0 && final(self).rest() == old(self).rest(),
            },
    {
        proof {
            use_type_invariant(&*self);
        }
        if self.pos < self.lines.len() {
            let line = self.lines[self.pos].clone();
            proof {
                assert(views(self.lines@).skip(self.pos as int).drop_first() =~= views(
                    self.lines@,
                ).skip(self.pos + 1));
            }
            self.pos = self.pos + 1;
            Some(line)
        } else {
            None
        }
    }
}

} // verus!
