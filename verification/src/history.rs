//! The history of commits, as contracts speak of it.
//!
//! The repository keeps the history and walks it. What is stated here is
//! what the library takes a history and a walk to be, so that what it
//! decides from a walk can be held against the history.

use vstd::prelude::*;

verus! {

/// The parents that the history `g` records for the commit `c`; none where
/// it records nothing.
pub open spec fn parents_in(g: Map<Seq<u8>, Seq<Seq<u8>>>, c: Seq<u8>) -> Seq<Seq<u8>> {
    if g.dom().contains(c) {
        g[c]
    } else {
        Seq::empty()
    }
}

/// Whether `path` leads through the history `g` from commit to parent.
pub open spec fn is_path(g: Map<Seq<u8>, Seq<Seq<u8>>>, path: Seq<Seq<u8>>) -> bool {
    path.len() >= 1 && forall|k: int|
        0 <= k < path.len() - 1 ==> parents_in(g, #[trigger] path[k]).contains(path[k + 1])
}

/// Whether `to` is `from` or one of its ancestors.
pub open spec fn reaches(g: Map<Seq<u8>, Seq<Seq<u8>>>, from: Seq<u8>, to: Seq<u8>) -> bool {
    exists|path: Seq<Seq<u8>>| is_path(g, path) && path[0] == from && path.last() == to
}

/// Whether `old` is an ancestor of `young` at least one step away.
pub open spec fn is_strict_ancestor(
    g: Map<Seq<u8>, Seq<Seq<u8>>>,
    old: Seq<u8>,
    young: Seq<u8>,
) -> bool {
    exists|path: Seq<Seq<u8>>|
        is_path(g, path) && path.len() >= 2 && path[0] == young && path.last() == old
}

/// Whether `walk` visits what a walk through the history `g` from `seeds`
/// visits: the seeds and all their ancestors, and nothing else.
pub open spec fn is_walk_from(
    g: Map<Seq<u8>, Seq<Seq<u8>>>,
    seeds: Seq<Seq<u8>>,
    walk: Seq<Seq<u8>>,
) -> bool {
    forall|c: Seq<u8>| #[trigger]
        walk.contains(c) <==> exists|k: int|
            0 <= k < seeds.len() && reaches(g, #[trigger] seeds[k], c)
}

/// Whether `walk` hands out no commit before one of its descendants: a
/// commit from which another can be reached comes before that other.
pub open spec fn is_topological(g: Map<Seq<u8>, Seq<Seq<u8>>>, walk: Seq<Seq<u8>>) -> bool {
    forall|j: int, k: int|
        0 <= j < walk.len() && 0 <= k < walk.len() && j != k && #[trigger] reaches(
            g,
            walk[j],
            walk[k],
        ) ==> j < k
}

/// A walk over the messages of an issue ends with the initial message: if
/// the walk hands out no commit before its descendants, visits the initial
/// message, and visits nothing but the initial message and what descends
/// from it, then the initial message is what it hands out last.
pub proof fn lemma_walk_ends_at_initial(
    g: Map<Seq<u8>, Seq<Seq<u8>>>,
    walk: Seq<Seq<u8>>,
    initial: Seq<u8>,
)
    requires
        is_topological(g, walk),
        walk.contains(initial),
        forall|k: int| 0 <= k < walk.len() ==> reaches(g, #[trigger] walk[k], initial),
    ensures
        walk.last() == initial,
{
    let m = choose|m: int| 0 <= m < walk.len() && walk[m] == initial;
    let last = walk.len() - 1;
    if m != last {
        assert(reaches(g, walk[last], walk[m]));
        assert(last < m);
    }
}

} // verus!
