//! The text of a message: its lines, what kind of line each is, and the
//! paragraphs and blocks of trailers they form.
//!
//! A message has a subject, which is its first line and not empty. If more
//! follows, the second line is empty and the body starts at the third.

use vstd::prelude::*;
use vstd::string::StrSliceExecFns;
use vstd::string::StringExecFns;

use crate::commit::Commit;
use crate::error::Kind;
use crate::text::{glue, has_prefix, has_suffix, split, split_on, starts_with, views};

pub mod block;
pub mod line;
pub mod line_processor;
pub mod metadata;
pub mod source;

use self::block::{Blocks, Trailers};
use self::line_processor::{
    without_comments, Quoted, StripWhiteSpaceRightIter, WithoutCommentsIter,
};

verus! {

/// What is wrong with the form of a message, if anything.
pub enum FormatFault {
    /// The message has no line.
    EmptyMessage,
    /// The first line is empty.
    EmptySubject,
    /// The second line is not empty.
    MalformedMessage,
}

/// What is wrong with the form of the message with the lines `lines`, if
/// anything. The lines are taken to be without comments and without white
/// space at their ends.
pub open spec fn format_fault(lines: Seq<Seq<char>>) -> Option<FormatFault> {
    if lines.len() == 0 {
        Some(FormatFault::EmptyMessage)
    } else if lines[0].len() == 0 {
        Some(FormatFault::EmptySubject)
    } else if lines.len() > 1 && lines[1].len() > 0 {
        Some(FormatFault::MalformedMessage)
    } else {
        None
    }
}

/// The lines as one text, each line with a line break behind it.
pub open spec fn text_of(lines: Seq<Seq<char>>) -> Seq<char>
    decreases lines.len(),
{
    if lines.len() == 0 {
        Seq::empty()
    } else {
        text_of(lines.drop_last()) + lines.last().push('\n')
    }
}

/// What can be done with the lines of a message.
pub trait LineIteratorExt: Sized {
    /// The lines.
    spec fn lines(&self) -> Seq<Seq<char>>;

    /// Checks the form of a message: it has a subject, and nothing but an
    /// empty line follows the subject at once. The lines are taken to be
    /// without comments and without white space at their ends.
    fn check_message_format(self) -> (r: Result<(), Kind>)
        ensures
            match r {
                Ok(_) => format_fault(self.lines()) is None,
                Err(Kind::EmptyMessage) => format_fault(self.lines()) == Some(
                    FormatFault::EmptyMessage,
                ),
                Err(Kind::EmptySubject) => format_fault(self.lines()) == Some(
                    FormatFault::EmptySubject,
                ),
                Err(Kind::MalformedMessage) => format_fault(self.lines()) == Some(
                    FormatFault::MalformedMessage,
                ),
                Err(_) => false,
            },
    ;

    /// A processor that hands out the lines that are to be stored: those
    /// that are no comments, each without the white space at its end.
    fn stripped(self) -> (r: StripWhiteSpaceRightIter)
        ensures
            r.rest() == without_comments(self.lines()),
    ;

    /// A processor that hands out the lines as quotations.
    fn quoted(self) -> (r: Quoted)
        ensures
            r.rest() == self.lines(),
    ;

    /// A processor that hands out the blocks of the lines.
    fn line_blocks(self) -> (r: Blocks)
        ensures
            r.rest() == self.lines(),
    ;

    /// A processor that hands out the trailers of the lines: those that
    /// stand in blocks of trailers.
    fn trailers(self) -> (r: Trailers)
        ensures
            r.rest() == self.lines(),
            r.held().len() == 0,
    ;

    /// The lines as one text, each with a line break behind it.
    fn collect_string(self) -> (r: String)
        ensures
            r@ == text_of(self.lines()),
    ;
}

impl LineIteratorExt for Vec<String> {
    open spec fn lines(&self) -> Seq<Seq<char>> {
        views(self@)
    }

    fn check_message_format(self) -> (r: Result<(), Kind>) {
        if self.len() == 0 {
            return Err(Kind::EmptyMessage);
        }
        proof {
            assert(views(self@)[0] == self@[0]@);
        }
        if self[0].as_str().unicode_len() == 0 {
            return Err(Kind::EmptySubject);
        }
        if self.len() > 1 {
            proof {
                assert(views(self@)[1] == self@[1]@);
            }
            if self[1].as_str().unicode_len() > 0 {
                return Err(Kind::MalformedMessage);
            }
        }
        Ok(())
    }

    fn stripped(self) -> (r: StripWhiteSpaceRightIter) {
        let kept = WithoutCommentsIter::from(self).collect();
        StripWhiteSpaceRightIter::from(kept)
    }

    fn quoted(self) -> (r: Quoted) {
        Quoted::from(self)
    }

    fn line_blocks(self) -> (r: Blocks) {
        Blocks::from(self)
    }

    fn trailers(self) -> (r: Trailers) {
        Trailers::from(self)
    }

    fn collect_string(self) -> (r: String) {
        let mut r = String::new();
        let mut i: usize = 0;
        proof {
            assert(views(self@).take(0) =~= Seq::<Seq<char>>::empty());
        }
        while i < self.len()
            invariant
                i <= self.len(),
                r@ == text_of(views(self@).take(i as int)),
            decreases self.len() - i,
        {
            proof {
                reveal_strlit("\n");
                let now = views(self@).take(i + 1);
                assert(now.drop_last() =~= views(self@).take(i as int));
                assert(now.last() == self@[i as int]@);
                assert(self@[i as int]@ + "\n"@ =~= self@[i as int]@.push('\n'));
                assert(r@ + self@[i as int]@ + "\n"@ =~= r@ + self@[i as int]@.push('\n'));
            }
            r.append(self[i].as_str());
            r.append("\n");
            i += 1;
        }
        proof {
            assert(views(self@).take(i as int) =~= views(self@));
        }
        r
    }
}

/// A line without the carriage return at its end, if it ends in one.
pub open spec fn without_return(line: Seq<char>) -> Seq<char> {
    if line.len() > 0 && line.last() == '\r' {
        line.drop_last()
    } else {
        line
    }
}

/// The lines, each without the carriage return at its end.
pub open spec fn without_returns(lines: Seq<Seq<char>>) -> Seq<Seq<char>> {
    lines.map_values(|line: Seq<char>| without_return(line))
}

/// The lines of a text. A line feed ends a line, and so does a carriage
/// return with a line feed behind it; neither belongs to the line. What
/// follows the last line feed is a line too unless it is empty.
pub open spec fn text_lines(text: Seq<char>) -> Seq<Seq<char>> {
    let pieces = split(text, '\n');
    let ended = without_returns(pieces.drop_last());
    if pieces.last().len() == 0 {
        ended
    } else {
        ended.push(pieces.last())
    }
}

/// The lines of `text`.
pub fn lines_of(text: &str) -> (lines: Vec<String>)
    ensures
        views(lines@) == text_lines(text@),
{
    let pieces = split_on(text, '\n');
    let n = pieces.len();
    proof {
        crate::text::lemma_split_shape(text@, '\n');
    }
    let ghost all = views(pieces@);
    let ghost ended = without_returns(all.drop_last());
    let mut lines: Vec<String> = Vec::new();
    let mut i: usize = 0;
    proof {
        assert(views(lines@) =~= ended.take(0));
    }
    while i + 1 < n
        invariant
            n == pieces.len(),
            n >= 1,
            i + 1 <= n,
            all == views(pieces@),
            ended == without_returns(all.drop_last()),
            views(lines@) == ended.take(i as int),
        decreases n - i,
    {
        let piece = pieces[i].as_str();
        let ghost had = views(lines@);
        proof {
            reveal_strlit("\r");
            assert("\r"@ =~= seq!['\r']);
            assert(all[i as int] == pieces@[i as int]@);
            assert(ended[i as int] == without_return(all[i as int]));
            assert(ended.take(i + 1) =~= ended.take(i as int).push(ended[i as int]));
            if piece@.len() > 0 {
                assert(piece@.skip(piece@.len() - 1) =~= seq![piece@.last()]);
                assert(piece@.drop_last() =~= piece@.subrange(0, piece@.len() - 1));
            }
        }
        let line = if has_suffix(piece, "\r") {
            String::from_str(piece.substring_char(0, piece.unicode_len() - 1))
        } else {
            String::from_str(piece)
        };
        proof {
            if piece@.len() > 0 {
                let tail = piece@.skip(piece@.len() - 1);
                assert(tail[0] == piece@.last());
                if piece@.last() == '\r' {
                    assert(tail =~= seq!['\r']);
                }
                assert(crate::text::ends_with(piece@, seq!['\r']) == (piece@.last() == '\r'));
            }
            assert(line@ == without_return(piece@));
            assert(views(lines@.push(line)) =~= had.push(line@));
        }
        lines.push(line);
        i += 1;
    }
    proof {
        assert(ended.take(i as int) =~= ended);
        assert(all.last() == pieces@[n - 1]@);
    }
    if pieces[n - 1].as_str().unicode_len() > 0 {
        let last = pieces[n - 1].clone();
        proof {
            assert(views(lines@.push(last)) =~= views(lines@).push(last@));
        }
        lines.push(last);
    }
    lines
}

/// The subject for a reply to a message with the subject `subject`: the
/// subject behind `Re: `, unless it starts with that already.
pub open spec fn reply_subject_of(subject: Seq<char>) -> Seq<char> {
    if starts_with(subject, "Re: "@) {
        subject
    } else {
        "Re: "@ + subject
    }
}

/// The subject for a reply to a reply is the subject of the reply.
pub proof fn lemma_reply_subject_idempotent(subject: Seq<char>)
    ensures
        reply_subject_of(reply_subject_of(subject)) == reply_subject_of(subject),
        starts_with(subject, "Re: "@) ==> reply_subject_of(subject) == subject,
{
    if !starts_with(subject, "Re: "@) {
        let reply = "Re: "@ + subject;
        assert(reply.take("Re: "@.len() as int) =~= "Re: "@);
    }
}

/// The subject for a reply to a message with the subject `subject`.
pub fn reply_subject_for(subject: &str) -> (r: String)
    ensures
        r@ == reply_subject_of(subject@),
{
    if has_prefix(subject, "Re: ") {
        String::from_str(subject)
    } else {
        glue("Re: ", subject)
    }
}

/// What a commit is as a message.
pub trait Message {
    /// The text of the message; empty where the commit has none that can be
    /// read.
    spec fn text(&self) -> Seq<char>;

    /// The summary of the message, if it has one.
    spec fn subject(&self) -> Option<Seq<char>>;

    /// The lines of the message.
    fn message_lines(&self) -> (lines: Vec<String>)
        ensures
            views(lines@) == text_lines(self.text()),
    ;

    /// The lines of the body of the message: all but the subject and the
    /// line behind it.
    fn body_lines(&self) -> (lines: Vec<String>)
        ensures
            views(lines@) == body_of(text_lines(self.text())),
    ;

    /// A processor that hands out the blocks of the body.
    fn body_blocks(&self) -> (r: Blocks)
        ensures
            r.rest() == body_of(text_lines(self.text())),
    ;

    /// A processor that hands out the trailers of the body.
    fn trailers(&self) -> (r: Trailers)
        ensures
            r.rest() == body_of(text_lines(self.text())),
            r.held().len() == 0,
    ;

    /// A subject for a reply to the message, which starts with `Re: `. None
    /// where the message has no summary.
    fn reply_subject(&self) -> (r: Option<String>)
        ensures
            match r {
                Some(subject) => self.subject() matches Some(s) && subject@ == reply_subject_of(s),
                None => self.subject() is None,
            },
    ;
}

/// The lines of the body, given the lines of the message.
pub open spec fn body_of(lines: Seq<Seq<char>>) -> Seq<Seq<char>> {
    if lines.len() >= 2 {
        lines.skip(2)
    } else {
        Seq::empty()
    }
}

impl Message for Commit {
    open spec fn text(&self) -> Seq<char> {
        match self.message {
            Some(text) => text@,
            None => Seq::empty(),
        }
    }

    open spec fn subject(&self) -> Option<Seq<char>> {
        match self.summary {
            Some(s) => Some(s@),
            None => None,
        }
    }

    fn message_lines(&self) -> (lines: Vec<String>) {
        match &self.message {
            Some(text) => lines_of(text.as_str()),
            None => {
                let lines = lines_of("");
                proof {
                    reveal_strlit("");
                    assert(""@ =~= Seq::<char>::empty());
                }
                lines
            },
        }
    }

    fn body_lines(&self) -> (lines: Vec<String>) {
        let all = self.message_lines();
        let mut lines: Vec<String> = Vec::new();
        let mut i: usize = 2;
        proof {
            assert(views(lines@) =~= Seq::<Seq<char>>::empty());
            if all@.len() >= 2 {
                assert(views(all@).subrange(2, 2) =~= Seq::<Seq<char>>::empty());
            }
        }
        while i < all.len()
            invariant
                2 <= i,
                all@.len() >= 2 ==> i <= all@.len() && views(lines@) == views(all@).subrange(
                    2,
                    i as int,
                ),
                all@.len() < 2 ==> views(lines@) == Seq::<Seq<char>>::empty(),
            decreases all.len() - i,
        {
            let line = all[i].clone();
            proof {
                assert(views(lines@.push(line)) =~= views(lines@).push(line@));
                assert(views(all@).subrange(2, i + 1) =~= views(all@).subrange(2, i as int).push(
                    all@[i as int]@,
                ));
            }
            lines.push(line);
            i += 1;
        }
        proof {
            if all@.len() >= 2 {
                assert(views(all@).subrange(2, i as int) =~= views(all@).skip(2));
            }
        }
        lines
    }

    fn body_blocks(&self) -> (r: Blocks) {
        Blocks::from(self.body_lines())
    }

    fn trailers(&self) -> (r: Trailers) {
        Trailers::from(self.body_lines())
    }

    fn reply_subject(&self) -> (r: Option<String>) {
        match &self.summary {
            Some(subject) => Some(reply_subject_for(subject.as_str())),
            None => None,
        }
    }
}

} // verus!
