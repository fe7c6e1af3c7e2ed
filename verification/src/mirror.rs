//! Taking over from remotes the leaves that are needed here.
//!
//! A leaf of a remote is needed where its message is not reachable already:
//! neither from a local reference of the issue nor from the parent of
//! another leaf that is taken over.

use vstd::prelude::*;

use crate::gc::Leaf;
use crate::oid::ObjectId;
use crate::reference::{id_views, is_among, ref_views, targets, Reference};

verus! {

/// Where the walk starts that finds what is reachable already: at the
/// targets of the local references, and at the parents of the messages that
/// the remote leaves point to.
pub open spec fn covering_seeds(local: Seq<Reference>, leaves: Seq<Leaf>) -> Seq<Seq<u8>> {
    targets(ref_views(local)) + crate::gc::leaf_parents(leaves)
}

/// Where the walk starts that finds what is reachable already.
pub fn seeds(local: &Vec<Reference>, leaves: &Vec<Leaf>) -> (seeds: Vec<ObjectId>)
    ensures
        id_views(seeds@) == covering_seeds(local@, leaves@),
{
    let mut seeds = crate::gc::targets_of(local);
    let ghost first = id_views(seeds@);
    let mut i: usize = 0;
    proof {
        assert(leaves@.take(0) =~= Seq::<Leaf>::empty());
        assert(first + Seq::<Seq<u8>>::empty() =~= first);
    }
    while i < leaves.len()
        invariant
            i <= leaves.len(),
            first == targets(ref_views(local@)),
            id_views(seeds@) == first + crate::gc::leaf_parents(leaves@.take(i as int)),
        decreases leaves.len() - i,
    {
        let ghost had = id_views(seeds@);
        proof {
            assert(leaves@.take(i + 1).drop_last() =~= leaves@.take(i as int));
            assert(leaves@.take(i + 1).last() == leaves@[i as int]);
        }
        let mut j: usize = 0;
        proof {
            assert(had + id_views(leaves@[i as int].parents@).take(0) =~= had);
        }
        while j < leaves[i].parents.len()
            invariant
                i < leaves.len(),
                j <= leaves@[i as int].parents@.len(),
                id_views(seeds@) == had + id_views(leaves@[i as int].parents@).take(j as int),
            decreases leaves@[i as int].parents@.len() - j,
        {
            proof {
                let all = id_views(leaves@[i as int].parents@);
                let parent = leaves@[i as int].parents@[j as int];
                assert(id_views(seeds@.push(parent)) =~= id_views(seeds@).push(parent@));
                assert(all.take(j + 1) =~= all.take(j as int).push(all[j as int]));
                assert((had + all.take(j as int)).push(all[j as int]) =~= had + all.take(j + 1));
            }
            seeds.push(leaves[i].parents[j]);
            j += 1;
        }
        proof {
            let all = id_views(leaves@[i as int].parents@);
            assert(all.take(j as int) =~= all);
            assert(had + all =~= first + (crate::gc::leaf_parents(leaves@.take(i as int)) + all));
        }
        i += 1;
    }
    proof {
        assert(leaves@.take(i as int) =~= leaves@);
    }
    seeds
}

/// The messages among `leaves` for which a leaf is to be made here, given
/// the commits that the walk from [`seeds`] reached: those that it did not
/// reach, each once.
pub fn missing_leaves(leaves: &Vec<ObjectId>, reached: &Vec<ObjectId>) -> (missing: Vec<ObjectId>)
    ensures
        id_views(missing@).no_duplicates(),
        forall|id: Seq<u8>|
            #[trigger] id_views(missing@).contains(id) <==> id_views(leaves@).contains(id)
                && !id_views(reached@).contains(id),
{
    let mut missing: Vec<ObjectId> = Vec::new();
    let mut i: usize = 0;
    while i < leaves.len()
        invariant
            i <= leaves.len(),
            id_views(missing@).no_duplicates(),
            forall|id: Seq<u8>|
                #[trigger] id_views(missing@).contains(id) <==> id_views(leaves@).take(
                    i as int,
                ).contains(id) && !id_views(reached@).contains(id),
        decreases leaves.len() - i,
    {
        let leaf = leaves[i];
        let ghost had = id_views(missing@);
        let ghost before = id_views(leaves@).take(i as int);
        let ghost now = id_views(leaves@).take(i + 1);
        proof {
            assert(now =~= before.push(leaf@));
            assert forall|id: Seq<u8>| now.contains(id) <==> before.contains(id) || id
                == leaf@ by {
                if before.contains(id) {
                    let j = choose|j: int| 0 <= j < before.len() && before[j] == id;
                    assert(now[j] == id);
                }
                if now.contains(id) {
                    let j = choose|j: int| 0 <= j < now.len() && now[j] == id;
                    if j < before.len() {
                        assert(before[j] == id);
                    }
                }
                assert(now[i as int] == leaf@);
            }
        }
        if !is_among(&leaf, reached) && !is_among(&leaf, &missing) {
            proof {
                let then = had.push(leaf@);
                assert(id_views(missing@.push(leaf)) =~= then);
                assert forall|id: Seq<u8>| then.contains(id) <==> had.contains(id) || id
                    == leaf@ by {
                    if had.contains(id) {
                        let j = choose|j: int| 0 <= j < had.len() && had[j] == id;
                        assert(then[j] == id);
                    }
                    if then.contains(id) {
                        let j = choose|j: int| 0 <= j < then.len() && then[j] == id;
                        if j < had.len() {
                            assert(had[j] == id);
                        }
                    }
                    assert(then[had.len() as int] == leaf@);
                }
                assert(then.no_duplicates()) by {
                    assert forall|a: int, b: int|
                        0 <= a < then.len() && 0 <= b < then.len() && a != b implies then[a]
                        != then[b] by {
                        if a < had.len() && b < had.len() {
                            assert(had[a] != had[b]);
                        } else if a < had.len() {
                            assert(had.contains(had[a]));
                        } else {
                            assert(had.contains(had[b]));
                        }
                    }
                }
            }
            missing.push(leaf);
        }
        i += 1;
    }
    proof {
        assert(id_views(leaves@).take(i as int) =~= id_views(leaves@));
    }
    missing
}

} // verus!
