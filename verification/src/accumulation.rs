//! Gathering the values of trailers over the messages of an issue.
//!
//! Messages are looked at from the newest to the oldest. For a key of which
//! the latest value counts, the first value seen is kept and later ones are
//! dropped; for a key of which all values count, each value seen is kept, in
//! the order in which it was seen.

use vstd::prelude::*;

use crate::message::block::trailer_views;
use crate::text::same_text;
use crate::trailer::{Trailer, TrailerValue, TrailerView, ValueView};

verus! {

/// How the values of a key are gathered.
#[derive(Clone, Copy, Debug, PartialEq, Eq, Structural)]
pub enum AccumulationPolicy {
    /// The first value seen counts.
    Latest,
    /// All values count.
    List,
}

/// What an accumulator of values is to a contract.
pub enum AccView {
    Latest(Option<ValueView>),
    List(Seq<ValueView>),
}

/// The values gathered for one key.
#[derive(Debug, Clone)]
pub enum ValueAccumulator {
    Latest(Option<TrailerValue>),
    List(Vec<TrailerValue>),
}

/// The views of the values in `values`.
pub open spec fn value_views(values: Seq<TrailerValue>) -> Seq<ValueView> {
    values.map_values(|v: TrailerValue| v@)
}

impl View for ValueAccumulator {
    type V = AccView;

    open spec fn view(&self) -> AccView {
        match self {
            ValueAccumulator::Latest(None) => AccView::Latest(None),
            ValueAccumulator::Latest(Some(v)) => AccView::Latest(Some(v@)),
            ValueAccumulator::List(values) => AccView::List(value_views(values@)),
        }
    }
}

/// The accumulator that holds nothing yet, for a policy.
pub open spec fn fresh(policy: AccumulationPolicy) -> AccView {
    match policy {
        AccumulationPolicy::Latest => AccView::Latest(None),
        AccumulationPolicy::List => AccView::List(Seq::empty()),
    }
}

/// The accumulator after it was given one more value.
pub open spec fn with_value(acc: AccView, value: ValueView) -> AccView {
    match acc {
        AccView::Latest(None) => AccView::Latest(Some(value)),
        AccView::Latest(Some(first)) => AccView::Latest(Some(first)),
        AccView::List(values) => AccView::List(values.push(value)),
    }
}

/// The values that an accumulator holds, in the order in which they came.
pub open spec fn held_values(acc: AccView) -> Seq<ValueView> {
    match acc {
        AccView::Latest(None) => Seq::empty(),
        AccView::Latest(Some(value)) => seq![value],
        AccView::List(values) => values,
    }
}

impl ValueAccumulator {
    /// The accumulator that holds nothing yet, for a policy.
    pub fn from(policy: AccumulationPolicy) -> (acc: ValueAccumulator)
        ensures
            acc@ == fresh(policy),
    {
        match policy {
            AccumulationPolicy::Latest => ValueAccumulator::Latest(None),
            AccumulationPolicy::List => {
                let values: Vec<TrailerValue> = Vec::new();
                proof {
                    assert(value_views(values@) =~= Seq::<ValueView>::empty());
                }
                ValueAccumulator::List(values)
            },
        }
    }

    /// Takes one more value.
    pub fn process(&mut self, new_value: TrailerValue)
        ensures
            final(self)@ == with_value(old(self)@, new_value@),
    {
        match self {
            ValueAccumulator::Latest(value) => {
                if value.is_none() {
                    *value = Some(new_value);
                }
            },
            ValueAccumulator::List(values) => {
                proof {
                    assert(value_views(values@.push(new_value)) =~= value_views(values@).push(
                        new_value@,
                    ));
                }
                values.push(new_value);
            },
        }
    }

    /// The values that were gathered, in the order in which they came.
    pub fn into_values(self) -> (values: Vec<TrailerValue>)
        ensures
            value_views(values@) == held_values(self@),
    {
        match self {
            ValueAccumulator::Latest(None) => {
                let values: Vec<TrailerValue> = Vec::new();
                proof {
                    assert(value_views(values@) =~= Seq::<ValueView>::empty());
                }
                values
            },
            ValueAccumulator::Latest(Some(value)) => {
                let mut values: Vec<TrailerValue> = Vec::new();
                values.push(value);
                proof {
                    assert(value_views(values@) =~= seq![value@]);
                }
                values
            },
            ValueAccumulator::List(values) => values,
        }
    }

    /// A second accumulator that holds the same values.
    pub fn duplicate(&self) -> (acc: ValueAccumulator)
        ensures
            acc@ == self@,
    {
        match self {
            ValueAccumulator::Latest(None) => ValueAccumulator::Latest(None),
            ValueAccumulator::Latest(Some(value)) => ValueAccumulator::Latest(
                Some(value.duplicate()),
            ),
            ValueAccumulator::List(values) => {
                let mut copy: Vec<TrailerValue> = Vec::new();
                let mut i: usize = 0;
                while i < values.len()
                    invariant
                        i <= values.len(),
                        value_views(copy@) == value_views(values@).take(i as int),
                    decreases values.len() - i,
                {
                    let value = values[i].duplicate();
                    proof {
                        let all = value_views(values@);
                        assert(value_views(copy@.push(value)) =~= value_views(copy@).push(value@));
                        assert(all.take(i + 1) =~= all.take(i as int).push(all[i as int]));
                    }
                    copy.push(value);
                    i += 1;
                }
                proof {
                    assert(value_views(values@).take(i as int) =~= value_views(values@));
                }
                ValueAccumulator::List(copy)
            },
        }
    }
}

impl Default for ValueAccumulator {
    /// The accumulator for the latest value, holding nothing yet.
    fn default() -> (acc: ValueAccumulator)
        ensures
            acc@ == AccView::Latest(None),
    {
        ValueAccumulator::Latest(None)
    }
}

/// Something that gathers values from trailers.
pub trait Accumulator: Sized {
    /// What the accumulator holds.
    type State;

    /// What the accumulator holds.
    spec fn state(&self) -> Self::State;

    /// What an accumulator that held `state` holds after it was given
    /// `trailer`.
    spec fn step(state: Self::State, trailer: TrailerView) -> Self::State;

    /// Takes the value of `trailer` if the trailer is one that this
    /// accumulator gathers.
    fn process(&mut self, trailer: Trailer)
        ensures
            final(self).state() == Self::step(old(self).state(), trailer@),
    ;
}

/// What an accumulator that held `state` holds after it was given each of
/// `trailers` in turn.
pub open spec fn after_all<A: Accumulator>(state: A::State, trailers: Seq<TrailerView>) -> A::State
    decreases trailers.len(),
{
    if trailers.len() == 0 {
        state
    } else {
        A::step(after_all::<A>(state, trailers.drop_last()), trailers.last())
    }
}

/// Gives each of `trailers` to `acc` in turn.
pub fn process_all<A: Accumulator>(acc: &mut A, trailers: Vec<Trailer>)
    ensures
        final(acc).state() == after_all::<A>(old(acc).state(), trailer_views(trailers@)),
{
    let mut i: usize = 0;
    proof {
        assert(trailer_views(trailers@).take(0) =~= Seq::<TrailerView>::empty());
    }
    while i < trailers.len()
        invariant
            i <= trailers.len(),
            acc.state() == after_all::<A>(
                old(acc).state(),
                trailer_views(trailers@).take(i as int),
            ),
        decreases trailers.len() - i,
    {
        proof {
            let all = trailer_views(trailers@);
            assert(all.take(i + 1).drop_last() =~= all.take(i as int));
            assert(all.take(i + 1).last() == trailers@[i as int]@);
        }
        acc.process(trailers[i].duplicate());
        i += 1;
    }
    proof {
        assert(trailer_views(trailers@).take(i as int) =~= trailer_views(trailers@));
    }
}

/// Gathers the values of one key.
pub struct SingleAccumulator {
    key: String,
    acc: ValueAccumulator,
}

impl SingleAccumulator {
    /// The key whose values are gathered.
    pub closed spec fn key(&self) -> Seq<char> {
        self.key@
    }

    /// The values gathered so far.
    pub closed spec fn acc(&self) -> AccView {
        self.acc@
    }

    /// An accumulator for the values of `key` that holds nothing yet.
    pub fn new(key: String, policy: AccumulationPolicy) -> (r: SingleAccumulator)
        ensures
            r.key() == key@,
            r.acc() == fresh(policy),
    {
        SingleAccumulator { key, acc: ValueAccumulator::from(policy) }
    }

    /// The values that were gathered, in the order in which they came.
    pub fn into_values(self) -> (values: Vec<TrailerValue>)
        ensures
            value_views(values@) == held_values(self.acc()),
    {
        self.acc.into_values()
    }

    /// The values that were gathered, each with the key.
    pub fn into_iter(self) -> (pairs: SingleKeyTrailerAssemblyIterator)
        ensures
            pairs.key() == self.key(),
            pairs.output() == held_values(self.acc()),
    {
        SingleKeyTrailerAssemblyIterator::new(self.key, self.acc.into_values())
    }

    /// Takes each of `trailers` in turn.
    pub fn process_all(&mut self, trailers: Vec<Trailer>)
        ensures
            final(self).state() == after_all::<SingleAccumulator>(
                old(self).state(),
                trailer_views(trailers@),
            ),
    {
        process_all(self, trailers)
    }

    /// The key and what was gathered for it.
    pub fn into_pair(self) -> (pair: (String, ValueAccumulator))
        ensures
            pair.0@ == self.key(),
            pair.1@ == self.acc(),
    {
        (self.key, self.acc)
    }
}

impl Accumulator for SingleAccumulator {
    type State = (Seq<char>, AccView);

    closed spec fn state(&self) -> (Seq<char>, AccView) {
        (self.key@, self.acc@)
    }

    open spec fn step(state: (Seq<char>, AccView), trailer: TrailerView) -> (Seq<char>, AccView) {
        if trailer.key == state.0 {
            (state.0, with_value(state.1, trailer.value))
        } else {
            state
        }
    }

    fn process(&mut self, trailer: Trailer) {
        if same_text(trailer.key.as_ref().as_str(), self.key.as_str()) {
            self.acc.process(trailer.value);
        }
    }
}

impl SingleAccumulator {
    /// The state of this accumulator is its key and what it gathered.
    pub proof fn lemma_state(&self)
        ensures
            self.state() == (self.key(), self.acc()),
    {
    }
}

/// Hands out the values that were gathered for one key, each with the key.
pub struct SingleKeyTrailerAssemblyIterator {
    key: String,
    values: Vec<TrailerValue>,
    pos: usize,
}

impl SingleKeyTrailerAssemblyIterator {
    #[verifier::type_invariant]
    spec fn inv(&self) -> bool {
        self.pos <= self.values@.len()
    }

    /// The key that each value is handed out with.
    pub closed spec fn key(&self) -> Seq<char> {
        self.key@
    }

    /// The values that are still to be handed out.
    pub closed spec fn output(&self) -> Seq<ValueView> {
        value_views(self.values@).skip(self.pos as int)
    }

    fn new(key: String, values: Vec<TrailerValue>) -> (r: SingleKeyTrailerAssemblyIterator)
        ensures
            r.key() == key@,
            r.output() == value_views(values@),
    {
        proof {
            assert(value_views(values@).skip(0) =~= value_views(values@));
        }
        SingleKeyTrailerAssemblyIterator { key, values, pos: 0 }
    }

    /// Hands out the key with the next value, if one is left.
    pub fn next(&mut self) -> (r: Option<(String, TrailerValue)>)
        ensures
            final(self).key() == old(self).key(),
            match r {
                Some(pair) => old(self).output().len() > 0 && pair.0@ == old(self).key() && pair.1@
                    == old(self).output()[0] && final(self).output() == old(
                    self).output().drop_first(),
                None => old(self).output().len() == 0 && final(self).output().len() == 0,
            },
    {
        proof {
            use_type_invariant(&*self);
        }
        if self.pos < self.values.len() {
            let value = self.values[self.pos].duplicate();
            proof {
                assert(value_views(self.values@).skip(self.pos as int).drop_first()
                    =~= value_views(self.values@).skip(self.pos + 1));
            }
            self.pos = self.pos + 1;
            Some((self.key.clone(), value))
        } else {
            None
        }
    }
}

/// Where values are gathered for several keys.
pub trait MultiAccumulator {
    /// What is gathered for `key`, if the key is one of those for which
    /// values are gathered.
    spec fn entry(&self, key: Seq<char>) -> Option<AccView>;

    /// The accumulator for `key`, if the key is one of those for which
    /// values are gathered.
    fn get(&self, key: &str) -> (r: Option<&ValueAccumulator>)
        ensures
            match r {
                Some(acc) => self.entry(key@) == Some(acc@),
                None => self.entry(key@) is None,
            },
    ;
}

/// What is gathered for `key` in `entries`: what stands with the first
/// entry for the key.
pub open spec fn lookup(entries: Seq<(Seq<char>, AccView)>, key: Seq<char>) -> Option<AccView>
    decreases entries.len(),
{
    if entries.len() == 0 {
        None
    } else if entries[0].0 == key {
        Some(entries[0].1)
    } else {
        lookup(entries.drop_first(), key)
    }
}

/// The entries after each entry for the key of `trailer` was given its
/// value. A trailer for whose key there is no entry changes nothing.
pub open spec fn processed(
    entries: Seq<(Seq<char>, AccView)>,
    trailer: TrailerView,
) -> Seq<(Seq<char>, AccView)> {
    entries.map_values(
        |e: (Seq<char>, AccView)|
            if e.0 == trailer.key {
                (e.0, with_value(e.1, trailer.value))
            } else {
                e
            },
    )
}

/// The entries that are not for `key`.
pub open spec fn without_key(entries: Seq<(Seq<char>, AccView)>, key: Seq<char>) -> Seq<
    (Seq<char>, AccView),
>
    decreases entries.len(),
{
    if entries.len() == 0 {
        Seq::empty()
    } else if entries.last().0 == key {
        without_key(entries.drop_last(), key)
    } else {
        without_key(entries.drop_last(), key).push(entries.last())
    }
}

/// What `entries` are to a contract.
pub open spec fn entry_views(entries: Seq<(String, ValueAccumulator)>) -> Seq<
    (Seq<char>, AccView),
> {
    entries.map_values(|e: (String, ValueAccumulator)| (e.0@, e.1@))
}

/// The accumulators for several keys: a key, and with it what is gathered
/// for the key.
pub struct AccumulatorMap {
    entries: Vec<(String, ValueAccumulator)>,
}

impl AccumulatorMap {
    /// The keys, each with what is gathered for it, in the order in which
    /// the keys were put in.
    pub closed spec fn entries(&self) -> Seq<(Seq<char>, AccView)> {
        entry_views(self.entries@)
    }

    /// A map without keys.
    pub fn new() -> (r: AccumulatorMap)
        ensures
            r.entries() == Seq::<(Seq<char>, AccView)>::empty(),
    {
        let r = AccumulatorMap { entries: Vec::new() };
        proof {
            assert(r.entries() =~= Seq::<(Seq<char>, AccView)>::empty());
        }
        r
    }

    /// Puts `key` in with `acc`. An entry that the key had is dropped.
    pub fn insert(&mut self, key: String, acc: ValueAccumulator)
        ensures
            final(self).entries() == without_key(old(self).entries(), key@).push((key@, acc@)),
    {
        let dropped = self.remove(key.as_str());
        proof {
            assert(entry_views(self.entries@.push((key, acc))) =~= entry_views(self.entries@).push(
                (key@, acc@),
            ));
        }
        self.entries.push((key, acc));
    }

    /// Takes `key` out, and hands out what was gathered for it.
    pub fn remove(&mut self, key: &str) -> (r: Option<ValueAccumulator>)
        ensures
            final(self).entries() == without_key(old(self).entries(), key@),
            match r {
                Some(acc) => lookup(old(self).entries(), key@) == Some(acc@),
                None => lookup(old(self).entries(), key@) is None,
            },
    {
        let mut kept: Vec<(String, ValueAccumulator)> = Vec::new();
        let mut found: Option<ValueAccumulator> = None;
        let ghost all = entry_views(self.entries@);
        proof {
            assert(all.skip(all.len() as int) =~= Seq::<(Seq<char>, AccView)>::empty());
            assert(all.take(all.len() as int) =~= all);
            assert(entry_views(kept@) =~= Seq::<(Seq<char>, AccView)>::empty());
        }
        // The entries are taken from the end, so that the one found last is
        // the first in the map.
        loop
            invariant
                self.entries@.len() <= all.len(),
                entry_views(self.entries@) == all.take(self.entries@.len() as int),
                entry_views(kept@).reverse() == without_key_from(
                    all,
                    key@,
                    self.entries@.len() as int,
                ),
                match found {
                    Some(acc) => lookup(all.skip(self.entries@.len() as int), key@) == Some(acc@),
                    None => lookup(all.skip(self.entries@.len() as int), key@) is None,
                },
            ensures
                self.entries@.len() == 0,
                entry_views(kept@).reverse() == without_key_from(all, key@, 0),
                match found {
                    Some(acc) => lookup(all, key@) == Some(acc@),
                    None => lookup(all, key@) is None,
                },
            decreases self.entries@.len(),
        {
            let ghost n = self.entries@.len() as int;
            let ghost held = self.entries@;
            let ghost had = entry_views(kept@);
            match self.entries.pop() {
                Some(entry) => {
                    proof {
                        assert(entry_views(held)[n - 1] == (held[n - 1].0@, held[n - 1].1@));
                        assert(all.take(n)[n - 1] == all[n - 1]);
                        assert(entry_views(self.entries@) =~= all.take(n - 1));
                        assert(all.skip(n - 1).drop_first() =~= all.skip(n));
                        assert(all.skip(n - 1)[0] == all[n - 1]);
                    }
                    if same_text(entry.0.as_str(), key) {
                        found = Some(entry.1);
                    } else {
                        proof {
                            assert(entry_views(kept@.push(entry)) =~= had.push(all[n - 1]));
                            assert(had.push(all[n - 1]).reverse() =~= seq![all[n - 1]]
                                + had.reverse());
                        }
                        kept.push(entry);
                    }
                },
                None => {
                    proof {
                        assert(all.skip(0) =~= all);
                    }
                    break ;
                },
            }
        }
        proof {
            lemma_without_key_from(all, key@, 0);
            assert(all.skip(0) =~= all);
        }
        reverse_entries(&mut kept);
        self.entries = kept;
        found
    }

    /// Whether the map has no keys.
    pub fn is_empty(&self) -> (b: bool)
        ensures
            b == (self.entries().len() == 0),
    {
        self.entries.len() == 0
    }

    /// The number of keys.
    pub fn len(&self) -> (n: usize)
        ensures
            n == self.entries().len(),
    {
        self.entries.len()
    }

    /// Takes each of `trailers` in turn.
    pub fn process_all(&mut self, trailers: Vec<Trailer>)
        ensures
            final(self).state() == after_all::<AccumulatorMap>(
                old(self).state(),
                trailer_views(trailers@),
            ),
    {
        process_all(self, trailers)
    }

    /// The state of the map is its entries.
    pub proof fn lemma_state(&self)
        ensures
            self.state() == self.entries(),
    {
    }
}

/// The entries of `entries` from position `from` on that are not for `key`.
pub open spec fn without_key_from(
    entries: Seq<(Seq<char>, AccView)>,
    key: Seq<char>,
    from: int,
) -> Seq<(Seq<char>, AccView)>
    decreases entries.len() - from,
{
    if from < 0 || from >= entries.len() {
        Seq::empty()
    } else if entries[from].0 == key {
        without_key_from(entries, key, from + 1)
    } else {
        seq![entries[from]] + without_key_from(entries, key, from + 1)
    }
}

/// Leaving out the entries for a key from a position on is leaving them out
/// of what stands from that position on.
pub proof fn lemma_without_key_from(entries: Seq<(Seq<char>, AccView)>, key: Seq<char>, from: int)
    requires
        0 <= from <= entries.len(),
    ensures
        without_key_from(entries, key, from) == without_key(entries.skip(from), key),
    decreases entries.len() - from,
{
    let tail = entries.skip(from);
    if from < entries.len() {
        lemma_without_key_from(entries, key, from + 1);
        lemma_without_key_front(tail, key);
        assert(tail.drop_first() =~= entries.skip(from + 1));
    } else {
        assert(tail =~= Seq::<(Seq<char>, AccView)>::empty());
    }
}

/// Leaving out the entries for a key leaves the first entry in place
/// unless it is for the key.
pub proof fn lemma_without_key_front(entries: Seq<(Seq<char>, AccView)>, key: Seq<char>)
    requires
        entries.len() > 0,
    ensures
        without_key(entries, key) == if entries[0].0 == key {
            without_key(entries.drop_first(), key)
        } else {
            seq![entries[0]] + without_key(entries.drop_first(), key)
        },
    decreases entries.len(),
{
    let init = entries.drop_last();
    let tail = entries.drop_first();
    if init.len() > 0 {
        lemma_without_key_front(init, key);
        assert(init.drop_first() =~= tail.drop_last());
        assert(init[0] == entries[0]);
        assert(tail.last() == entries.last());
        if entries.last().0 != key {
            if entries[0].0 != key {
                assert((seq![entries[0]] + without_key(tail.drop_last(), key)).push(
                    entries.last(),
                ) =~= seq![entries[0]] + without_key(tail.drop_last(), key).push(entries.last()));
            }
        }
    } else {
        assert(tail =~= Seq::<(Seq<char>, AccView)>::empty());
        assert(without_key(init, key) =~= Seq::<(Seq<char>, AccView)>::empty());
        if entries[0].0 != key {
            assert(without_key(entries, key) =~= seq![entries[0]]);
            assert(seq![entries[0]] + without_key(tail, key) =~= seq![entries[0]]);
        }
    }
}

/// Turns the order of `entries` around.
fn reverse_entries(entries: &mut Vec<(String, ValueAccumulator)>)
    ensures
        entry_views(final(entries)@) == entry_views(old(entries)@).reverse(),
{
    let mut turned: Vec<(String, ValueAccumulator)> = Vec::new();
    let ghost all = entry_views(entries@);
    proof {
        assert(all.take(all.len() as int) =~= all);
        assert(all.skip(all.len() as int).reverse() =~= Seq::<(Seq<char>, AccView)>::empty());
        assert(entry_views(turned@) =~= Seq::<(Seq<char>, AccView)>::empty());
    }
    loop
        invariant
            entries@.len() <= all.len(),
            entry_views(entries@) == all.take(entries@.len() as int),
            entry_views(turned@) == all.skip(entries@.len() as int).reverse(),
        ensures
            entries@.len() == 0,
            entry_views(turned@) == all.reverse(),
        decreases entries@.len(),
    {
        let ghost n = entries@.len() as int;
        let ghost held = entries@;
        let ghost had = entry_views(turned@);
        match entries.pop() {
            Some(e) => {
                proof {
                    assert(entry_views(held)[n - 1] == (held[n - 1].0@, held[n - 1].1@));
                    assert(all.take(n)[n - 1] == all[n - 1]);
                    assert(entry_views(entries@) =~= all.take(n - 1));
                    assert(entry_views(turned@.push(e)) =~= had.push((e.0@, e.1@)));
                    assert(all.skip(n - 1).reverse() =~= all.skip(n).reverse().push(all[n - 1]));
                }
                turned.push(e);
            },
            None => {
                proof {
                    assert(all.skip(0) =~= all);
                }
                break ;
            },
        }
    }
    *entries = turned;
}

impl Accumulator for AccumulatorMap {
    type State = Seq<(Seq<char>, AccView)>;

    closed spec fn state(&self) -> Seq<(Seq<char>, AccView)> {
        entry_views(self.entries@)
    }

    open spec fn step(state: Seq<(Seq<char>, AccView)>, trailer: TrailerView) -> Seq<
        (Seq<char>, AccView),
    > {
        processed(state, trailer)
    }

    fn process(&mut self, trailer: Trailer) {
        let ghost all = entry_views(self.entries@);
        let mut i: usize = 0;
        while i < self.entries.len()
            invariant
                i <= self.entries@.len(),
                self.entries@.len() == all.len(),
                forall|j: int|
                    0 <= j < i ==> #[trigger] entry_views(self.entries@)[j] == processed(
                        all,
                        trailer@,
                    )[j],
                forall|j: int|
                    i <= j < all.len() ==> #[trigger] entry_views(self.entries@)[j] == all[j],
            decreases self.entries@.len() - i,
        {
            if same_text(self.entries[i].0.as_str(), trailer.key.as_ref().as_str()) {
                let ghost before = self.entries@;
                let mut entry = self.entries.remove(i);
                let ghost was = entry;
                proof {
                    assert(self.entries@ =~= before.remove(i as int));
                    assert(was == before[i as int]);
                    assert(entry_views(before)[i as int] == (was.0@, was.1@));
                    assert(all[i as int] == (was.0@, was.1@));
                }
                entry.1.process(trailer.value.duplicate());
                proof {
                    assert(entry.0@ == was.0@);
                    assert(entry.1@ == with_value(was.1@, trailer@.value));
                }
                self.entries.insert(i, entry);
                proof {
                    let after = self.entries@;
                    assert(after =~= before.remove(i as int).insert(i as int, entry));
                    assert(after.len() == before.len());
                    assert(after[i as int] == entry);
                    assert forall|j: int| 0 <= j < all.len() && j != i implies after[j]
                        == before[j] by {}
                    assert forall|j: int| 0 <= j < all.len() && j != i implies #[trigger] entry_views(
                        after,
                    )[j] == entry_views(before)[j] by {
                        assert(after[j] == before[j]);
                    }
                    assert(entry_views(after)[i as int] == processed(all, trailer@)[i as int]);
                }
            } else {
                proof {
                    assert(entry_views(self.entries@)[i as int] == processed(all, trailer@)[i as int]);
                }
            }
            i += 1;
        }
        proof {
            assert(entry_views(self.entries@) =~= processed(all, trailer@));
        }
    }
}

impl MultiAccumulator for AccumulatorMap {
    closed spec fn entry(&self, key: Seq<char>) -> Option<AccView> {
        lookup(entry_views(self.entries@), key)
    }

    fn get(&self, key: &str) -> (r: Option<&ValueAccumulator>) {
        let ghost all = entry_views(self.entries@);
        let mut i: usize = 0;
        proof {
            assert(all.skip(0) =~= all);
        }
        while i < self.entries.len()
            invariant
                i <= self.entries@.len(),
                all == entry_views(self.entries@),
                lookup(all, key@) == lookup(all.skip(i as int), key@),
            decreases self.entries@.len() - i,
        {
            proof {
                assert(all.skip(i as int)[0] == (self.entries@[i as int].0@, self.entries@[i as int].1@));
                assert(all.skip(i as int).drop_first() =~= all.skip(i + 1));
            }
            if same_text(self.entries[i].0.as_str(), key) {
                return Some(&self.entries[i].1);
            }
            i += 1;
        }
        proof {
            assert(all.skip(i as int) =~= Seq::<(Seq<char>, AccView)>::empty());
        }
        None
    }
}

impl AccumulatorMap {
    /// What is gathered for `key` is what stands with the first entry for
    /// the key.
    pub proof fn lemma_entry(&self, key: Seq<char>)
        ensures
            self.entry(key) == lookup(self.entries(), key),
    {
    }
}

/// Giving an accumulator one run of trailers and then another is giving it
/// the two runs as one.
pub proof fn lemma_after_all_add<A: Accumulator>(
    state: A::State,
    first: Seq<TrailerView>,
    second: Seq<TrailerView>,
)
    ensures
        after_all::<A>(state, first + second) == after_all::<A>(
            after_all::<A>(state, first),
            second,
        ),
    decreases second.len(),
{
    if second.len() == 0 {
        assert(first + second =~= first);
    } else {
        lemma_after_all_add::<A>(state, first, second.drop_last());
        assert((first + second).drop_last() =~= first + second.drop_last());
        assert((first + second).last() == second.last());
    }
}

} // verus!
