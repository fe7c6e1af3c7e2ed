//! Matching a walk over commits against the references that are watched.
//!
//! The repository walks its commits; this module decides which of the
//! watched references a walk lets go. A reference is let go when the walk
//! visits the commit it points to, and at most once.

use vstd::prelude::*;

use crate::accumulation::{after_all, lemma_after_all_add, AccumulatorMap};
use crate::commit::Commit;
use crate::message::block::{blocks, trailer_views, trailers_of};
use crate::message::metadata::{fresh_entries, MetadataSpecification, ToMap};
use crate::message::{body_of, text_lines, Message};
use crate::oid::ObjectId;
use crate::reference::{id_views, ref_views, RefView, Reference};
use crate::trailer::TrailerView;

verus! {

/// The references of `refs` that point to `id` (`hit`), or those that do
/// not (`!hit`), in the order in which they stand in `refs`.
pub open spec fn select(refs: Seq<RefView>, id: Seq<u8>, hit: bool) -> Seq<RefView>
    decreases refs.len(),
{
    if refs.len() == 0 {
        Seq::empty()
    } else {
        let before = select(refs.drop_last(), id, hit);
        if (refs.last().target == id) == hit {
            before.push(refs.last())
        } else {
            before
        }
    }
}

/// The references that a walk lets go, in the order in which it does: for
/// each commit of `walk` in turn, the references of `watched` that point to
/// it and were not let go before, the one watched last coming first.
pub open spec fn referred(watched: Seq<RefView>, walk: Seq<Seq<u8>>) -> Seq<RefView>
    decreases walk.len(),
{
    if walk.len() == 0 {
        Seq::empty()
    } else {
        select(watched, walk[0], true).reverse() + referred(
            select(watched, walk[0], false),
            walk.drop_first(),
        )
    }
}

/// `select` keeps exactly the references that point to the id, or exactly
/// the others.
pub proof fn lemma_select_contains(refs: Seq<RefView>, id: Seq<u8>, hit: bool, r: RefView)
    ensures
        select(refs, id, hit).contains(r) <==> refs.contains(r) && (r.target == id) == hit,
    decreases refs.len(),
{
    if refs.len() > 0 {
        let init = refs.drop_last();
        lemma_select_contains(init, id, hit, r);
        let before = select(init, id, hit);
        if refs.contains(r) {
            let i = choose|i: int| 0 <= i < refs.len() && refs[i] == r;
            if i < init.len() {
                assert(init[i] == r);
            }
        }
        if init.contains(r) {
            let i = choose|i: int| 0 <= i < init.len() && init[i] == r;
            assert(refs[i] == r);
        }
        if (refs.last().target == id) == hit {
            assert(before.push(refs.last()).last() == refs.last());
            if before.contains(r) {
                let i = choose|i: int| 0 <= i < before.len() && before[i] == r;
                assert(before.push(refs.last())[i] == r);
            }
            if before.push(refs.last()).contains(r) {
                let i = choose|i: int|
                    0 <= i < before.push(refs.last()).len() && before.push(refs.last())[i] == r;
                if i < before.len() {
                    assert(before[i] == r);
                }
            }
        }
        assert(refs.last() == refs[refs.len() - 1]);
    }
}

/// A walk lets go exactly the watched references whose target it visits.
pub proof fn lemma_referred_contains(watched: Seq<RefView>, walk: Seq<Seq<u8>>, r: RefView)
    ensures
        referred(watched, walk).contains(r) <==> watched.contains(r) && walk.contains(r.target),
    decreases walk.len(),
{
    if walk.len() > 0 {
        let id = walk[0];
        let now = select(watched, id, true).reverse();
        let rest = select(watched, id, false);
        let later = referred(rest, walk.drop_first());
        lemma_select_contains(watched, id, true, r);
        lemma_select_contains(watched, id, false, r);
        lemma_referred_contains(rest, walk.drop_first(), r);
        let hits = select(watched, id, true);
        if hits.contains(r) {
            let i = choose|i: int| 0 <= i < hits.len() && hits[i] == r;
            assert(now[hits.len() - 1 - i] == r);
        }
        if now.contains(r) {
            let i = choose|i: int| 0 <= i < now.len() && now[i] == r;
            assert(hits[hits.len() - 1 - i] == r);
        }
        vstd::seq_lib::lemma_seq_concat_contains_all_elements(now, later, r);
        if walk.contains(r.target) {
            let i = choose|i: int| 0 <= i < walk.len() && walk[i] == r.target;
            if i > 0 {
                assert(walk.drop_first()[i - 1] == r.target);
            }
        }
        if walk.drop_first().contains(r.target) {
            let i = choose|i: int|
                0 <= i < walk.drop_first().len() && walk.drop_first()[i] == r.target;
            assert(walk[i + 1] == r.target);
        }
    }
}

/// The references of `refs` that point to `id`, and the others.
fn divide(refs: &Vec<Reference>, id: &ObjectId) -> (r: (Vec<Reference>, Vec<Reference>))
    ensures
        ref_views(r.0@) == select(ref_views(refs@), id@, true),
        ref_views(r.1@) == select(ref_views(refs@), id@, false),
{
    let mut hits: Vec<Reference> = Vec::new();
    let mut others: Vec<Reference> = Vec::new();
    let mut i: usize = 0;
    proof {
        assert(ref_views(refs@).take(0) =~= Seq::<RefView>::empty());
        assert(ref_views(hits@) =~= Seq::<RefView>::empty());
        assert(ref_views(others@) =~= Seq::<RefView>::empty());
    }
    while i < refs.len()
        invariant
            i <= refs.len(),
            ref_views(hits@) == select(ref_views(refs@).take(i as int), id@, true),
            ref_views(others@) == select(ref_views(refs@).take(i as int), id@, false),
        decreases refs.len() - i,
    {
        let copy = refs[i].duplicate();
        proof {
            let views = ref_views(refs@);
            assert(views.take(i + 1).drop_last() =~= views.take(i as int));
            assert(views.take(i + 1).last() == refs@[i as int]@);
            assert(ref_views(hits@.push(copy)) =~= ref_views(hits@).push(copy@));
            assert(ref_views(others@.push(copy)) =~= ref_views(others@).push(copy@));
        }
        if refs[i].target == *id {
            hits.push(copy);
        } else {
            others.push(copy);
        }
        i += 1;
    }
    proof {
        assert(ref_views(refs@).take(i as int) =~= ref_views(refs@));
    }
    (hits, others)
}

/// The references that are watched, and those that a walk has let go and
/// that were not handed out yet.
pub struct RefsReferringTo {
    watched: Vec<Reference>,
    current: Vec<Reference>,
}

impl RefsReferringTo {
    /// The references that are watched, in the order in which they came.
    pub closed spec fn watched(&self) -> Seq<RefView> {
        ref_views(self.watched@)
    }

    /// The references that were let go and are still to be handed out; the
    /// last of them is handed out first.
    pub closed spec fn pending(&self) -> Seq<RefView> {
        ref_views(self.current@)
    }

    /// Nothing watched, nothing pending.
    pub fn new() -> (r: RefsReferringTo)
        ensures
            r.watched() == Seq::<RefView>::empty(),
            r.pending() == Seq::<RefView>::empty(),
    {
        let r = RefsReferringTo { watched: Vec::new(), current: Vec::new() };
        proof {
            assert(r.watched() =~= Seq::<RefView>::empty());
            assert(r.pending() =~= Seq::<RefView>::empty());
        }
        r
    }

    /// Starts to watch `reference`.
    pub fn watch_ref(&mut self, reference: Reference)
        ensures
            final(self).watched() == old(self).watched().push(reference@),
            final(self).pending() == old(self).pending(),
    {
        proof {
            assert(ref_views(self.watched@.push(reference)) =~= ref_views(self.watched@).push(
                reference@,
            ));
        }
        self.watched.push(reference);
    }

    /// Starts to watch each of `references`.
    pub fn watch_refs(&mut self, references: Vec<Reference>)
        ensures
            final(self).watched() == old(self).watched() + ref_views(references@),
            final(self).pending() == old(self).pending(),
    {
        let mut references = references;
        proof {
            assert(ref_views(self.watched@ + references@) =~= ref_views(self.watched@) + ref_views(
                references@,
            ));
        }
        self.watched.append(&mut references);
    }

    /// Hands references that are pending to the matcher, to be handed out
    /// before any other.
    pub fn extend(&mut self, references: Vec<Reference>)
        ensures
            final(self).watched() == old(self).watched(),
            final(self).pending() == old(self).pending() + ref_views(references@),
    {
        let mut references = references;
        proof {
            assert(ref_views(self.current@ + references@) =~= ref_views(self.current@) + ref_views(
                references@,
            ));
        }
        self.current.append(&mut references);
    }

    /// Whether any reference is still watched. Where none is, no commit that
    /// a walk could still visit lets anything go.
    pub fn is_watching(&self) -> (b: bool)
        ensures
            b == (self.watched().len() > 0),
    {
        self.watched.len() > 0
    }

    /// Takes note that the walk visits the commit `id`: the references that
    /// point to it are watched no longer and become pending.
    pub fn visit(&mut self, id: &ObjectId)
        ensures
            final(self).watched() == select(old(self).watched(), id@, false),
            final(self).pending() == old(self).pending() + select(old(self).watched(), id@, true),
    {
        let (hits, others) = divide(&self.watched, id);
        let mut hits = hits;
        proof {
            assert(ref_views(self.current@ + hits@) =~= ref_views(self.current@) + ref_views(
                hits@,
            ));
        }
        self.watched = others;
        self.current.append(&mut hits);
    }

    /// Hands out one pending reference, the last first; `None` where none
    /// is pending.
    pub fn pop(&mut self) -> (r: Option<Reference>)
        ensures
            final(self).watched() == old(self).watched(),
            old(self).pending().len() == 0 ==> r is None && final(self).pending() == old(
                self,
            ).pending(),
            old(self).pending().len() > 0 ==> r is Some && r->0@ == old(self).pending().last()
                && final(self).pending() == old(self).pending().drop_last(),
    {
        let r = self.current.pop();
        proof {
            if r is Some {
                assert(ref_views(self.current@) =~= ref_views(old(self).current@).drop_last());
            }
        }
        r
    }

    /// Runs a finished walk: hands out what is pending, then visits the
    /// commits of `walk` in turn and hands out what each lets go.
    pub fn collect(self, walk: &Vec<ObjectId>) -> (out: Vec<Reference>)
        ensures
            ref_views(out@) == self.pending().reverse() + referred(
                self.watched(),
                id_views(walk@),
            ),
    {
        let mut state = self;
        let mut out: Vec<Reference> = Vec::new();
        state.drain_into(&mut out);
        let ghost first = ref_views(out@);
        let ghost ids = id_views(walk@);
        let mut i: usize = 0;
        proof {
            assert(ref_views(Seq::<Reference>::empty()) =~= Seq::<RefView>::empty());
            assert(first =~= self.pending().reverse());
            assert(ids.skip(0) =~= ids);
        }
        while i < walk.len()
            invariant
                i <= walk.len(),
                ids == id_views(walk@),
                state.pending().len() == 0,
                ref_views(out@) + referred(state.watched(), ids.skip(i as int)) == first
                    + referred(self.watched(), ids),
            decreases walk.len() - i,
        {
            let ghost before = state.watched();
            let ghost done = ref_views(out@);
            proof {
                assert(ids.skip(i as int)[0] == walk@[i as int]@);
                assert(ids.skip(i as int).drop_first() =~= ids.skip(i + 1));
            }
            state.visit(&walk[i]);
            proof {
                assert(state.pending() =~= select(before, walk@[i as int]@, true));
            }
            state.drain_into(&mut out);
            proof {
                let now = select(before, walk@[i as int]@, true).reverse();
                let later = referred(state.watched(), ids.skip(i + 1));
                assert((done + now) + later =~= done + (now + later));
            }
            i += 1;
        }
        proof {
            assert(ids.skip(i as int) =~= Seq::<Seq<u8>>::empty());
            assert(ref_views(out@) + Seq::<RefView>::empty() =~= ref_views(out@));
        }
        out
    }

    /// Moves all that is pending to the end of `out`, the last first.
    fn drain_into(&mut self, out: &mut Vec<Reference>)
        ensures
            final(self).watched() == old(self).watched(),
            final(self).pending().len() == 0,
            ref_views(final(out)@) == ref_views(old(out)@) + old(self).pending().reverse(),
    {
        let ghost start = ref_views(out@);
        let ghost all = self.pending();
        proof {
            assert(all.skip(all.len() as int) =~= Seq::<RefView>::empty());
            assert(Seq::<RefView>::empty().reverse() =~= Seq::<RefView>::empty());
            assert(start + Seq::<RefView>::empty() =~= start);
            assert(all.take(all.len() as int) =~= all);
        }
        while self.current.len() > 0
            invariant
                self.watched() == old(self).watched(),
                self.pending().len() <= all.len(),
                self.pending() == all.take(self.pending().len() as int),
                ref_views(out@) == start + all.skip(self.pending().len() as int).reverse(),
            decreases self.current.len(),
        {
            let ghost n = self.pending().len() as int;
            let ghost had = ref_views(out@);
            let ghost held = self.current@;
            let r = self.current.pop().unwrap();
            proof {
                assert(ref_views(held)[n - 1] == held[n - 1]@);
                assert(all.take(n)[n - 1] == all[n - 1]);
                assert(ref_views(self.current@) =~= all.take(n).drop_last());
                assert(all.take(n).drop_last() =~= all.take(n - 1));
                assert(r@ == all[n - 1]);
                assert(ref_views(out@.push(r)) =~= had.push(r@));
                assert(all.skip(n - 1).reverse() =~= all.skip(n).reverse().push(all[n - 1]));
                assert(had.push(r@) =~= start + all.skip(n - 1).reverse());
            }
            out.push(r);
        }
        proof {
            assert(all.skip(0) =~= all);
        }
    }
}

/// The trailers of the messages `messages`, message after message.
pub open spec fn all_trailers(messages: Seq<Commit>) -> Seq<TrailerView>
    decreases messages.len(),
{
    if messages.len() == 0 {
        Seq::empty()
    } else {
        all_trailers(messages.drop_last()) + trailers_of(
            blocks(body_of(text_lines(messages.last().text()))),
        )
    }
}

/// What can be done with a series of messages.
pub trait MessagesExt {
    /// The messages.
    spec fn messages(&self) -> Seq<Commit>;

    /// Gathers from the trailers of the messages what `specs` ask for.
    fn accumulate_trailers(self, specs: Vec<MetadataSpecification<'_>>) -> (map: AccumulatorMap)
        ensures
            map.entries() == after_all::<AccumulatorMap>(
                fresh_entries(specs@),
                all_trailers(self.messages()),
            ),
    ;
}

impl MessagesExt for Vec<Commit> {
    open spec fn messages(&self) -> Seq<Commit> {
        self@
    }

    fn accumulate_trailers(self, specs: Vec<MetadataSpecification<'_>>) -> (map: AccumulatorMap) {
        let ghost start = fresh_entries(specs@);
        let mut map = specs.into_map();
        let mut i: usize = 0;
        proof {
            assert(self@.take(0) =~= Seq::<Commit>::empty());
        }
        while i < self.len()
            invariant
                i <= self.len(),
                map.entries() == after_all::<AccumulatorMap>(
                    start,
                    all_trailers(self@.take(i as int)),
                ),
            decreases self.len() - i,
        {
            let ghost before = all_trailers(self@.take(i as int));
            proof {
                assert(self@.take(i + 1).drop_last() =~= self@.take(i as int));
                assert(self@.take(i + 1).last() == self@[i as int]);
                map.lemma_state();
            }
            let found = self[i].trailers().collect();
            proof {
                assert(Seq::<TrailerView>::empty() + trailers_of(
                    blocks(body_of(text_lines(self@[i as int].text()))),
                ) =~= trailers_of(blocks(body_of(text_lines(self@[i as int].text())))));
                lemma_after_all_add::<AccumulatorMap>(start, before, trailer_views(found@));
            }
            map.process_all(found);
            proof {
                map.lemma_state();
            }
            i += 1;
        }
        proof {
            assert(self@.take(i as int) =~= self@);
        }
        map
    }
}

} // verus!
