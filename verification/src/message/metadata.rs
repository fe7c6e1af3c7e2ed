//! Which pieces of metadata there are, and how each is gathered.

use vstd::prelude::*;
use vstd::string::StringExecFns;

use crate::accumulation::{
    fresh, without_key, AccView, AccumulationPolicy, AccumulatorMap, SingleAccumulator,
};

verus! {

/// A piece of metadata: the key of the trailers that carry it, and how
/// their values are gathered.
#[derive(Clone, Copy, Debug)]
pub struct MetadataSpecification<'k> {
    pub key: &'k str,
    pub accumulation: AccumulationPolicy,
}

/// The key of the trailers that carry the type of an issue.
pub const ISSUE_TYPE_KEY: &'static str = "Dit-type";

/// The key of the trailers that carry the status of an issue.
pub const ISSUE_STATUS_KEY: &'static str = "Dit-status";

/// The type of an issue: the trailer `Dit-type`, of which the latest value
/// counts.
pub fn issue_type_spec() -> (spec: MetadataSpecification<'static>)
    ensures
        spec.key@ == "Dit-type"@,
        spec.accumulation == AccumulationPolicy::Latest,
{
    MetadataSpecification { key: "Dit-type", accumulation: AccumulationPolicy::Latest }
}

/// The status of an issue: the trailer `Dit-status`, of which the latest
/// value counts.
pub fn issue_status_spec() -> (spec: MetadataSpecification<'static>)
    ensures
        spec.key@ == "Dit-status"@,
        spec.accumulation == AccumulationPolicy::Latest,
{
    MetadataSpecification { key: "Dit-status", accumulation: AccumulationPolicy::Latest }
}

impl<'k> MetadataSpecification<'k> {
    /// An accumulator for this piece of metadata that holds nothing yet.
    pub fn single_accumulator(&self) -> (acc: SingleAccumulator)
        ensures
            acc.key() == self.key@,
            acc.acc() == fresh(self.accumulation),
    {
        SingleAccumulator::new(String::from_str(self.key), self.accumulation)
    }
}

/// The entries of the map for `specs`, none of which holds a value yet. Of
/// two specifications with one key the later one counts.
pub open spec fn fresh_entries(specs: Seq<MetadataSpecification<'_>>) -> Seq<(Seq<char>, AccView)>
    decreases specs.len(),
{
    if specs.len() == 0 {
        Seq::empty()
    } else {
        without_key(fresh_entries(specs.drop_last()), specs.last().key@).push(
            (specs.last().key@, fresh(specs.last().accumulation)),
        )
    }
}

/// Making a map of accumulators from specifications.
pub trait ToMap {
    /// The specifications.
    spec fn specs(&self) -> Seq<MetadataSpecification<'_>>;

    /// A map with an accumulator for each specification; none holds a value
    /// yet.
    fn into_map(self) -> (map: AccumulatorMap)
        ensures
            map.entries() == fresh_entries(self.specs()),
    ;
}

impl<'k> ToMap for Vec<MetadataSpecification<'k>> {
    open spec fn specs(&self) -> Seq<MetadataSpecification<'_>> {
        self@
    }

    fn into_map(self) -> (map: AccumulatorMap) {
        let mut map = AccumulatorMap::new();
        let mut i: usize = 0;
        proof {
            assert(self@.take(0) =~= Seq::<MetadataSpecification<'_>>::empty());
        }
        while i < self.len()
            invariant
                i <= self.len(),
                map.entries() == fresh_entries(self@.take(i as int)),
            decreases self.len() - i,
        {
            proof {
                assert(self@.take(i + 1).drop_last() =~= self@.take(i as int));
                assert(self@.take(i + 1).last() == self@[i as int]);
            }
            map.insert(
                String::from_str(self[i].key),
                crate::accumulation::ValueAccumulator::from(self[i].accumulation),
            );
            i += 1;
        }
        proof {
            assert(self@.take(i as int) =~= self@);
        }
        map
    }
}

} // verus!
