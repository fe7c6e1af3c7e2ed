//! Putting pieces of text together into lines.
//!
//! What is shown of a message is made of tokens: pieces of text, and ends of
//! lines. A line ends where an end of line says so, also where no text came
//! before it. Text behind the last end of line is a line too.

use vstd::prelude::*;
use vstd::string::StringExecFns;

use crate::text::views;

verus! {

/// What a token is to a contract.
pub enum PlainTokenView {
    Text(Seq<char>),
    LineEnd,
}

/// A token that stands for itself: a piece of text, or the end of a line.
#[derive(Debug, Clone, PartialEq, Eq)]
pub enum PlainToken {
    Text(String),
    LineEnd,
}

impl View for PlainToken {
    type V = PlainTokenView;

    open spec fn view(&self) -> PlainTokenView {
        match self {
            PlainToken::Text(text) => PlainTokenView::Text(text@),
            PlainToken::LineEnd => PlainTokenView::LineEnd,
        }
    }
}

/// The views of the tokens in `tokens`.
pub open spec fn token_views(tokens: Seq<PlainToken>) -> Seq<PlainTokenView> {
    tokens.map_values(|t: PlainToken| t@)
}

/// The text of a line that may not have begun yet.
pub open spec fn text_so_far(open: Option<Seq<char>>) -> Seq<char> {
    match open {
        Some(text) => text,
        None => Seq::empty(),
    }
}

/// The lines that `tokens` have ended, and the text of the line that they
/// have begun and not ended, if they have begun one.
pub open spec fn scanned(tokens: Seq<PlainTokenView>) -> (Seq<Seq<char>>, Option<Seq<char>>)
    decreases tokens.len(),
{
    if tokens.len() == 0 {
        (Seq::empty(), None)
    } else {
        let before = scanned(tokens.drop_last());
        match tokens.last() {
            PlainTokenView::Text(text) => (before.0, Some(text_so_far(before.1) + text)),
            PlainTokenView::LineEnd => (before.0.push(text_so_far(before.1)), None),
        }
    }
}

/// The lines that `tokens` amount to: those that they end, and the one that
/// they begin and do not end.
pub open spec fn token_lines(tokens: Seq<PlainTokenView>) -> Seq<Seq<char>> {
    let state = scanned(tokens);
    match state.1 {
        Some(text) => state.0.push(text),
        None => state.0,
    }
}

/// The lines that `tokens` amount to.
pub fn lines_of_tokens(tokens: &Vec<PlainToken>) -> (lines: Vec<String>)
    ensures
        views(lines@) == token_lines(token_views(tokens@)),
{
    let ghost all = token_views(tokens@);
    let mut lines: Vec<String> = Vec::new();
    let mut line: Option<String> = None;
    let mut i: usize = 0;
    proof {
        assert(all.take(0) =~= Seq::<PlainTokenView>::empty());
        assert(views(lines@) =~= Seq::<Seq<char>>::empty());
    }
    while i < tokens.len()
        invariant
            i <= tokens.len(),
            all == token_views(tokens@),
            views(lines@) == scanned(all.take(i as int)).0,
            match line {
                Some(text) => scanned(all.take(i as int)).1 == Some(text@),
                None => scanned(all.take(i as int)).1 is None,
            },
        decreases tokens.len() - i,
    {
        proof {
            assert(all.take(i + 1).drop_last() =~= all.take(i as int));
            assert(all.take(i + 1).last() == tokens@[i as int]@);
        }
        match &tokens[i] {
            PlainToken::Text(text) => {
                let mut grown = match line {
                    Some(begun) => begun,
                    None => String::new(),
                };
                grown.append(text.as_str());
                line = Some(grown);
            },
            PlainToken::LineEnd => {
                let ended = match line {
                    Some(begun) => begun,
                    None => String::new(),
                };
                proof {
                    assert(views(lines@.push(ended)) =~= views(lines@).push(ended@));
                }
                lines.push(ended);
                line = None;
            },
        }
        i += 1;
    }
    proof {
        assert(all.take(i as int) =~= all);
    }
    match line {
        Some(begun) => {
            proof {
                assert(views(lines@.push(begun)) =~= views(lines@).push(begun@));
            }
            lines.push(begun);
        },
        None => {},
    }
    lines
}

} // verus!
