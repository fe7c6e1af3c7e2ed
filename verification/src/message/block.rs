//! Blocks: the runs of lines between blank lines.
//!
//! A block is a block of trailers if its first line is a trailer and every
//! other line is a trailer or continues one. Any other block is text, and
//! what looks like a trailer in it is text too.

use vstd::prelude::*;
use vstd::string::StringExecFns;

use crate::message::line::is_continuation;
use crate::message::line_processor::right_stripped;
use crate::message::source::LineSource;
use crate::text::{indented, trim_end, trimmed_end, views};
use crate::trailer::{
    is_dit_key, is_trailer_line, parse_trailer, value_text, Trailer, TrailerKey, TrailerValue,
    TrailerView, ValueView,
};

verus! {

/// What a block is to a contract.
pub enum BlockView {
    Text(Seq<Seq<char>>),
    Trailer(Seq<TrailerView>),
}

/// A block of lines: a paragraph, or trailers.
pub enum Block {
    /// The lines of a paragraph, each without the white space at its end.
    Text(Vec<String>),
    /// The trailers of a block of trailers.
    Trailer(Vec<Trailer>),
}

/// The views of the trailers in `trailers`.
pub open spec fn trailer_views(trailers: Seq<Trailer>) -> Seq<TrailerView> {
    trailers.map_values(|t: Trailer| t@)
}

impl View for Block {
    type V = BlockView;

    open spec fn view(&self) -> BlockView {
        match self {
            Block::Text(lines) => BlockView::Text(views(lines@)),
            Block::Trailer(trailers) => BlockView::Trailer(trailer_views(trailers@)),
        }
    }
}

/// Whether a line is blank: whether it holds nothing but white space.
pub open spec fn is_blank(line: Seq<char>) -> bool {
    trim_end(line).len() == 0
}

/// The lines behind the blank lines at the start of `lines`.
pub open spec fn skip_blanks(lines: Seq<Seq<char>>) -> Seq<Seq<char>>
    decreases lines.len(),
{
    if lines.len() > 0 && is_blank(lines[0]) {
        skip_blanks(lines.drop_first())
    } else {
        lines
    }
}

/// The number of lines at the start of `lines` that are not blank.
pub open spec fn block_len(lines: Seq<Seq<char>>) -> nat
    decreases lines.len(),
{
    if lines.len() > 0 && !is_blank(lines[0]) {
        1 + block_len(lines.drop_first())
    } else {
        0
    }
}

/// The trailer `t` with `line` behind its value, which is text from then
/// on.
pub open spec fn extended(t: TrailerView, line: Seq<char>) -> TrailerView {
    TrailerView { key: t.key, value: ValueView::String(value_text(t.value) + line) }
}

/// The trailers that the lines of a block stand for, if the block is a
/// block of trailers. A line that begins with white space continues the
/// trailer before it, and there must be one. Any other line must be a
/// trailer.
pub open spec fn block_trailers(lines: Seq<Seq<char>>) -> Option<Seq<TrailerView>>
    decreases lines.len(),
{
    if lines.len() == 0 {
        Some(Seq::empty())
    } else {
        match block_trailers(lines.drop_last()) {
            None => None,
            Some(before) => {
                let line = lines.last();
                if is_continuation(line) {
                    if before.len() > 0 {
                        Some(before.drop_last().push(extended(before.last(), line)))
                    } else {
                        None
                    }
                } else {
                    match parse_trailer(line) {
                        Some(t) => Some(before.push(t)),
                        None => None,
                    }
                }
            },
        }
    }
}

/// The block that `lines` form, where none of them is blank and none ends in
/// white space.
pub open spec fn block_of(lines: Seq<Seq<char>>) -> BlockView {
    match block_trailers(lines) {
        Some(trailers) => BlockView::Trailer(trailers),
        None => BlockView::Text(lines),
    }
}

/// Skipping blank lines leaves no more lines than there were, and none that
/// starts with a blank line.
pub proof fn lemma_skip_blanks(lines: Seq<Seq<char>>)
    ensures
        skip_blanks(lines).len() <= lines.len(),
        skip_blanks(lines).len() > 0 ==> !is_blank(skip_blanks(lines)[0]),
        skip_blanks(lines) == lines.skip(lines.len() - skip_blanks(lines).len()),
    decreases lines.len(),
{
    if lines.len() > 0 && is_blank(lines[0]) {
        let tail = lines.drop_first();
        lemma_skip_blanks(tail);
        assert(tail.skip(tail.len() - skip_blanks(tail).len()) =~= lines.skip(
            lines.len() - skip_blanks(tail).len(),
        ));
    } else {
        assert(lines.skip(0) =~= lines);
    }
}

/// A block is no longer than the lines it is taken from.
pub proof fn lemma_block_len(lines: Seq<Seq<char>>)
    ensures
        block_len(lines) <= lines.len(),
        lines.len() > 0 && !is_blank(lines[0]) ==> block_len(lines) >= 1,
    decreases lines.len(),
{
    if lines.len() > 0 && !is_blank(lines[0]) {
        lemma_block_len(lines.drop_first());
    }
}

/// The blocks that `lines` form: blank lines part them, and a block is the
/// longest run of lines that are not blank.
pub open spec fn blocks(lines: Seq<Seq<char>>) -> Seq<BlockView>
    decreases lines.len(),
{
    let rest = skip_blanks(lines);
    if rest.len() == 0 {
        Seq::empty()
    } else {
        proof {
            lemma_skip_blanks(lines);
            lemma_block_len(rest);
        }
        let n = block_len(rest) as int;
        seq![block_of(right_stripped(rest.take(n)))] + blocks(rest.skip(n))
    }
}

/// A blank line at the start makes no difference to the blocks.
pub proof fn lemma_blocks_skip_blank(lines: Seq<Seq<char>>)
    requires
        lines.len() > 0,
        is_blank(lines[0]),
    ensures
        blocks(lines) == blocks(lines.drop_first()),
{
    assert(skip_blanks(lines) == skip_blanks(lines.drop_first()));
}

/// A block is a block of trailers exactly if its first line is a trailer
/// and every line is a trailer or continues one. So a single line that is
/// neither makes the block text.
pub proof fn lemma_block_kind(lines: Seq<Seq<char>>)
    requires
        lines.len() > 0,
    ensures
        block_trailers(lines) is Some <==> is_trailer_line(lines[0]) && forall|i: int|
            0 <= i < lines.len() ==> is_trailer_line(#[trigger] lines[i]) || is_continuation(
                lines[i],
            ),
        block_trailers(lines) is Some ==> block_trailers(lines)->0.len() >= 1,
    decreases lines.len(),
{
    let init = lines.drop_last();
    let line = lines.last();
    if init.len() == 0 {
        assert(block_trailers(init) == Some(Seq::<TrailerView>::empty()));
        assert(lines[0] == line);
        if is_continuation(line) {
            // A line that begins with white space has no key.
            assert(!crate::text::is_key_char(line[0]));
            assert(!is_trailer_line(line));
        }
    } else {
        lemma_block_kind(init);
        assert(init[0] == lines[0]);
        assert forall|i: int| 0 <= i < init.len() implies init[i] == lines[i] by {}
        if block_trailers(init) is Some {
            if is_continuation(line) {
                assert(!crate::text::is_key_char(line[0]));
            }
        } else {
            if is_trailer_line(lines[0]) && !(forall|i: int|
                0 <= i < init.len() ==> is_trailer_line(#[trigger] init[i]) || is_continuation(
                    init[i],
                )) {
                let i = choose|i: int|
                    0 <= i < init.len() && !(is_trailer_line(#[trigger] init[i])
                        || is_continuation(init[i]));
                assert(init[i] == lines[i]);
            }
        }
    }
}

/// Hands out the blocks of a message.
pub struct Blocks {
    inner: LineSource,
}

impl Blocks {
    /// The lines that are still to be read.
    pub closed spec fn rest(&self) -> Seq<Seq<char>> {
        self.inner.rest()
    }

    /// What is still to be handed out.
    pub open spec fn output(&self) -> Seq<BlockView> {
        blocks(self.rest())
    }

    /// A processor that finds the blocks in `lines`.
    pub fn from(lines: Vec<String>) -> (r: Blocks)
        ensures
            r.rest() == views(lines@),
    {
        Blocks { inner: LineSource::new(lines) }
    }

    /// Hands out the next block, if one is left.
    pub fn next(&mut self) -> (r: Option<Block>)
        ensures
            match r {
                Some(block) => old(self).output().len() > 0 && block@ == old(self).output()[0]
                    && final(self).output() == old(self).output().drop_first() && final(
                    self).rest().len() < old(self).rest().len(),
                None => old(self).output().len() == 0 && final(self).output().len() == 0,
            },
    {
        let ghost start = self.inner.rest();
        // Blank lines before the block are passed over.
        loop
            invariant
                skip_blanks(self.inner.rest()) == skip_blanks(start),
                self.inner.rest().len() <= start.len(),
                start == old(self).inner.rest(),
            ensures
                skip_blanks(self.inner.rest()) == skip_blanks(start),
                self.inner.rest().len() <= start.len(),
                self.inner.rest().len() > 0 ==> !is_blank(self.inner.rest()[0]),
                start == old(self).inner.rest(),
            decreases self.inner.rest().len(),
        {
            let blank = match self.inner.peek() {
                Some(line) => trimmed_end(line.as_str()).unicode_len() == 0,
                None => false,
            };
            if !blank {
                break ;
            }
            self.inner.next();
        }
        let ghost rest = self.inner.rest();
        proof {
            assert(skip_blanks(rest) == rest);
            lemma_block_len(rest);
        }
        if self.inner.peek().is_none() {
            return None;
        }
        let total = self.inner.remaining();
        let mut lines: Vec<String> = Vec::new();
        let mut trailers: Vec<Trailer> = Vec::new();
        let mut is_trailer = true;
        proof {
            assert(rest.skip(0) =~= rest);
            assert(rest.take(0) =~= Seq::<Seq<char>>::empty());
            assert(views(lines@) =~= right_stripped(rest.take(0)));
            assert(trailer_views(trailers@) =~= Seq::<TrailerView>::empty());
        }
        loop
            invariant_except_break
                self.inner.rest() == rest.skip(lines@.len() as int),
                lines@.len() + block_len(rest.skip(lines@.len() as int)) == block_len(rest),
            invariant
                rest.len() == total,
                lines@.len() <= rest.len(),
                views(lines@) == right_stripped(rest.take(lines@.len() as int)),
                is_trailer ==> block_trailers(views(lines@)) == Some(trailer_views(trailers@)),
                !is_trailer ==> block_trailers(views(lines@)) is None,
            ensures
                rest.len() == total,
                lines@.len() == block_len(rest),
                lines@.len() <= rest.len(),
                blocks(self.inner.rest()) == blocks(rest.skip(lines@.len() as int)),
                self.inner.rest().len() <= rest.len() - lines@.len(),
                views(lines@) == right_stripped(rest.take(lines@.len() as int)),
                is_trailer ==> block_trailers(views(lines@)) == Some(trailer_views(trailers@)),
                !is_trailer ==> block_trailers(views(lines@)) is None,
            decreases self.inner.rest().len(),
        {
            let ghost k = lines@.len() as int;
            let ghost before = self.inner.rest();
            let line = match self.inner.next() {
                Some(line) => line,
                None => {
                    break ;
                },
            };
            let trimmed = trimmed_end(line.as_str());
            if trimmed.unicode_len() == 0 {
                proof {
                    lemma_blocks_skip_blank(before);
                }
                break ;
            }
            let ghost had = views(lines@);
            proof {
                assert(before.drop_first() =~= rest.skip(k + 1));
                assert(rest.take(k + 1) =~= rest.take(k).push(rest[k]));
                assert(right_stripped(rest.take(k + 1)) =~= right_stripped(rest.take(k)).push(
                    trimmed@,
                ));
                assert(had.push(trimmed@).drop_last() =~= had);
            }
            let kept = String::from_str(trimmed);
            proof {
                assert(views(lines@.push(kept)) =~= had.push(trimmed@));
            }
            lines.push(kept);
            if is_trailer {
                if indented(trimmed) {
                    let ghost full = trailer_views(trailers@);
                    let ghost held = trailers@;
                    match trailers.pop() {
                        Some(last) => {
                            let mut last = last;
                            proof {
                                assert(full.last() == held.last()@);
                                assert(trailer_views(trailers@) =~= full.drop_last());
                            }
                            last.value.append(trimmed);
                            proof {
                                assert(trailer_views(trailers@.push(last)) =~= full.drop_last().push(
                                    extended(full.last(), trimmed@),
                                ));
                            }
                            trailers.push(last);
                        },
                        None => {
                            is_trailer = false;
                        },
                    }
                } else {
                    match Trailer::from_str(trimmed) {
                        Ok(trailer) => {
                            proof {
                                assert(trailer_views(trailers@.push(trailer)) =~= trailer_views(
                                    trailers@,
                                ).push(trailer@));
                            }
                            trailers.push(trailer);
                        },
                        Err(_) => {
                            is_trailer = false;
                        },
                    }
                }
            }
        }
        proof {
            let n = block_len(rest) as int;
            lemma_skip_blanks(start);
            let out = seq![block_of(right_stripped(rest.take(n)))] + blocks(rest.skip(n));
            assert(blocks(start) == out);
            assert(out.drop_first() =~= blocks(rest.skip(n)));
        }
        if is_trailer {
            Some(Block::Trailer(trailers))
        } else {
            Some(Block::Text(lines))
        }
    }
}

/// The trailers of a block; none where it is text.
pub open spec fn trailers_in(block: BlockView) -> Seq<TrailerView> {
    match block {
        BlockView::Trailer(trailers) => trailers,
        BlockView::Text(_) => Seq::empty(),
    }
}

/// The trailers of the blocks of trailers among `blocks`, in order.
pub open spec fn trailers_of(blocks: Seq<BlockView>) -> Seq<TrailerView>
    decreases blocks.len(),
{
    if blocks.len() == 0 {
        Seq::empty()
    } else {
        trailers_in(blocks[0]) + trailers_of(blocks.drop_first())
    }
}

/// The trailers among `trailers` whose key starts with `Dit`.
pub open spec fn dit_only(trailers: Seq<TrailerView>) -> Seq<TrailerView>
    decreases trailers.len(),
{
    if trailers.len() == 0 {
        Seq::empty()
    } else if is_dit_key(trailers[0].key) {
        seq![trailers[0]] + dit_only(trailers.drop_first())
    } else {
        dit_only(trailers.drop_first())
    }
}

/// Hands out the trailers of a message: those that stand in blocks of
/// trailers. What looks like a trailer in a paragraph is passed over.
pub struct Trailers {
    blocks: Blocks,
    /// The trailers of the block that was read last which are still to be
    /// handed out, the next one last.
    buf: Vec<Trailer>,
}

impl Trailers {
    /// The lines that are still to be read.
    pub closed spec fn rest(&self) -> Seq<Seq<char>> {
        self.blocks.rest()
    }

    /// The trailers that were read and are still to be handed out.
    pub closed spec fn held(&self) -> Seq<TrailerView> {
        trailer_views(self.buf@).reverse()
    }

    /// What is still to be handed out.
    pub open spec fn output(&self) -> Seq<TrailerView> {
        self.held() + trailers_of(blocks(self.rest()))
    }

    /// A processor that finds the trailers in `lines`.
    pub fn from(lines: Vec<String>) -> (r: Trailers)
        ensures
            r.rest() == views(lines@),
            r.held() == Seq::<TrailerView>::empty(),
    {
        let r = Trailers { blocks: Blocks::from(lines), buf: Vec::new() };
        proof {
            assert(r.held() =~= Seq::<TrailerView>::empty());
        }
        r
    }

    /// The same trailers, but for those whose key does not start with
    /// `Dit`.
    pub fn only_dit(self) -> (r: DitTrailers)
        ensures
            r.inner_output() == self.output(),
    {
        DitTrailers { inner: self }
    }

    /// Hands out the next trailer, if one is left.
    pub fn next(&mut self) -> (r: Option<Trailer>)
        ensures
            match r {
                Some(trailer) => old(self).output().len() > 0 && trailer@ == old(self).output()[0]
                    && final(self).output() == old(self).output().drop_first(),
                None => old(self).output().len() == 0 && final(self).output().len() == 0,
            },
    {
        loop
            invariant
                self.output() == old(self).output(),
            decreases self.blocks.rest().len(), self.buf@.len(),
        {
            let ghost before = trailer_views(self.buf@);
            let ghost later = trailers_of(blocks(self.blocks.rest()));
            match self.buf.pop() {
                Some(trailer) => {
                    proof {
                        assert(trailer_views(self.buf@) =~= before.drop_last());
                        assert(before.last() == trailer@);
                        assert(before.reverse().drop_first() =~= before.drop_last().reverse());
                        assert((before.reverse() + later).drop_first() =~= before.drop_last().reverse()
                            + later);
                    }
                    return Some(trailer);
                },
                None => {},
            }
            proof {
                assert(before.reverse() =~= Seq::<TrailerView>::empty());
                assert(before.reverse() + later =~= later);
            }
            let ghost all = blocks(self.blocks.rest());
            match self.blocks.next() {
                Some(Block::Trailer(trailers)) => {
                    let mut trailers = trailers;
                    let ghost found = trailer_views(trailers@);
                    reverse_trailers(&mut trailers);
                    proof {
                        assert(trailer_views(trailers@).reverse() =~= found);
                    }
                    self.buf = trailers;
                },
                Some(Block::Text(_)) => {
                    proof {
                        assert(Seq::<TrailerView>::empty() + trailers_of(all.drop_first())
                            =~= trailers_of(all.drop_first()));
                        assert(Seq::<TrailerView>::empty() + trailers_of(all) =~= trailers_of(all));
                    }
                },
                None => {
                    proof {
                        assert(self.output() =~= Seq::<TrailerView>::empty());
                    }
                    return None;
                },
            }
        }
    }

    /// Hands out all the trailers that are left.
    pub fn collect(self) -> (out: Vec<Trailer>)
        ensures
            trailer_views(out@) == self.output(),
    {
        let mut state = self;
        let mut out: Vec<Trailer> = Vec::new();
        proof {
            assert(trailer_views(out@) =~= Seq::<TrailerView>::empty());
        }
        loop
            invariant
                trailer_views(out@) + state.output() == self.output(),
            ensures
                trailer_views(out@) == self.output(),
            decreases state.output().len(),
        {
            let ghost before = state.output();
            let ghost had = trailer_views(out@);
            match state.next() {
                Some(trailer) => {
                    proof {
                        assert(trailer_views(out@.push(trailer)) =~= had.push(trailer@));
                        assert(had.push(trailer@) + before.drop_first() =~= had + before);
                    }
                    out.push(trailer);
                },
                None => {
                    proof {
                        assert(had + before =~= had);
                        assert(had + state.output() =~= had);
                    }
                    break ;
                },
            }
        }
        out
    }
}

/// Turns the order of `trailers` around.
fn reverse_trailers(trailers: &mut Vec<Trailer>)
    ensures
        trailer_views(final(trailers)@) == trailer_views(old(trailers)@).reverse(),
{
    let mut turned: Vec<Trailer> = Vec::new();
    let ghost all = trailer_views(trailers@);
    proof {
        assert(all.take(all.len() as int) =~= all);
        assert(all.skip(all.len() as int).reverse() =~= Seq::<TrailerView>::empty());
        assert(trailer_views(turned@) =~= Seq::<TrailerView>::empty());
    }
    loop
        invariant
            trailers@.len() <= all.len(),
            trailer_views(trailers@) == all.take(trailers@.len() as int),
            trailer_views(turned@) == all.skip(trailers@.len() as int).reverse(),
        ensures
            trailers@.len() == 0,
            trailer_views(turned@) == all.reverse(),
        decreases trailers@.len(),
    {
        let ghost n = trailers@.len() as int;
        let ghost held = trailers@;
        let ghost had = trailer_views(turned@);
        match trailers.pop() {
            Some(t) => {
                proof {
                    assert(trailer_views(held)[n - 1] == held[n - 1]@);
                    assert(all.take(n)[n - 1] == all[n - 1]);
                    assert(trailer_views(trailers@) =~= all.take(n - 1));
                    assert(trailer_views(turned@.push(t)) =~= had.push(t@));
                    assert(all.skip(n - 1).reverse() =~= all.skip(n).reverse().push(all[n - 1]));
                }
                turned.push(t);
            },
            None => {
                proof {
                    assert(all.skip(0) =~= all);
                }
                break ;
            },
        }
    }
    *trailers = turned;
}

/// Hands out the trailers of a message whose key starts with `Dit`.
pub struct DitTrailers {
    inner: Trailers,
}

impl DitTrailers {
    /// The trailers that are looked at, whatever their key.
    pub closed spec fn inner_output(&self) -> Seq<TrailerView> {
        self.inner.output()
    }

    /// What is still to be handed out.
    pub open spec fn output(&self) -> Seq<TrailerView> {
        dit_only(self.inner_output())
    }

    /// A processor that finds the trailers in `lines` whose key starts with
    /// `Dit`.
    pub fn from(lines: Vec<String>) -> (r: DitTrailers)
        ensures
            r.inner_output() == trailers_of(blocks(views(lines@))),
    {
        let inner = Trailers::from(lines);
        proof {
            assert(inner.output() =~= trailers_of(blocks(views(lines@))));
        }
        DitTrailers { inner }
    }

    /// Hands out the next trailer, if one is left.
    pub fn next(&mut self) -> (r: Option<Trailer>)
        ensures
            match r {
                Some(trailer) => old(self).output().len() > 0 && trailer@ == old(self).output()[0]
                    && final(self).output() == old(self).output().drop_first() && final(
                    self).inner_output().len() < old(self).inner_output().len(),
                None => old(self).output().len() == 0 && final(self).output().len() == 0,
            },
    {
        loop
            invariant
                self.output() == old(self).output(),
                self.inner_output().len() <= old(self).inner_output().len(),
            decreases self.inner.output().len(),
        {
            let ghost before = self.inner.output();
            match self.inner.next() {
                Some(trailer) => {
                    if trailer.is_dit() {
                        proof {
                            let out = seq![before[0]] + dit_only(before.drop_first());
                            assert(out.drop_first() =~= dit_only(before.drop_first()));
                        }
                        return Some(trailer);
                    }
                },
                None => {
                    return None;
                },
            }
        }
    }
}

/// Hands out trailers that are made from pairs of a key and a value.
pub struct PairsToTrailers {
    pairs: Vec<(String, TrailerValue)>,
    pos: usize,
}

/// The trailers that `pairs` stand for.
pub open spec fn pair_trailers(pairs: Seq<(String, TrailerValue)>) -> Seq<TrailerView> {
    pairs.map_values(|p: (String, TrailerValue)| TrailerView { key: p.0@, value: p.1@ })
}

impl PairsToTrailers {
    #[verifier::type_invariant]
    spec fn inv(&self) -> bool {
        self.pos <= self.pairs@.len()
    }

    /// What is still to be handed out.
    pub closed spec fn output(&self) -> Seq<TrailerView> {
        pair_trailers(self.pairs@).skip(self.pos as int)
    }

    /// A processor that makes a trailer of each of `pairs`.
    pub fn from(pairs: Vec<(String, TrailerValue)>) -> (r: PairsToTrailers)
        ensures
            r.output() == pair_trailers(pairs@),
    {
        proof {
            assert(pair_trailers(pairs@).skip(0) =~= pair_trailers(pairs@));
        }
        PairsToTrailers { pairs, pos: 0 }
    }

    /// Hands out the next trailer, if one is left.
    pub fn next(&mut self) -> (r: Option<Trailer>)
        ensures
            match r {
                Some(trailer) => old(self).output().len() > 0 && trailer@ == old(self).output()[0]
                    && final(self).output() == old(self).output().drop_first(),
                None => old(self).output().len() == 0 && final(self).output().len() == 0,
            },
    {
        proof {
            use_type_invariant(&*self);
        }
        if self.pos < self.pairs.len() {
            let key = TrailerKey::new(self.pairs[self.pos].0.clone());
            let value = self.pairs[self.pos].1.duplicate();
            proof {
                assert(pair_trailers(self.pairs@).skip(self.pos as int).drop_first()
                    =~= pair_trailers(self.pairs@).skip(self.pos + 1));
            }
            self.pos = self.pos + 1;
            Some(Trailer { key, value })
        } else {
            None
        }
    }
}

} // verus!
