//! Finding the references that are not needed any more.
//!
//! A leaf reference pins a message. It is not needed where the message is
//! reachable from another reference anyway: from the head of an issue, from
//! the parents of a leaf, or, if so chosen, from a remote reference. A local
//! head is not needed where a remote head leads to it, and only if heads are
//! collected at all.
//!
//! The repository does the walking. This module says where the walks start
//! and, from what they visit, which references can go. There are two kinds of
//! walk so that a reply to the head of an issue never makes the head itself
//! look superfluous: a head is held against remote heads alone.

use vstd::prelude::*;

use crate::history::{is_path, is_strict_ancestor, is_walk_from, parents_in, reaches};
use crate::issue::{head_name, leaf_name, lemma_head_is_no_leaf};
use crate::iter::{lemma_referred_contains, referred, RefsReferringTo};
use crate::oid::ObjectId;
use crate::reference::{id_views, ref_views, targets, RefView, Reference};

verus! {

/// When a local head may be collected.
#[derive(Clone, Copy, Debug, PartialEq, Eq, Structural)]
pub enum ReferenceCollectionSpec {
    /// Never.
    Never,
    /// When a remote head of the same issue leads to the commit it points
    /// to.
    BackedByRemoteHead,
}

/// A local leaf reference together with the parents of the message that it
/// points to.
#[derive(Debug, Clone)]
pub struct Leaf {
    pub reference: Reference,
    pub parents: Vec<ObjectId>,
}

/// The references that one issue has, as far as collecting looks at them.
#[derive(Debug, Clone)]
pub struct IssueRefs {
    /// The local head, if the issue has one.
    pub local_head: Option<Reference>,
    /// The heads of the issue that remotes have.
    pub remote_heads: Vec<Reference>,
    /// The local leaves.
    pub local_leaves: Vec<Leaf>,
    /// All references to the issue that remotes have, heads and leaves.
    pub remote_refs: Vec<Reference>,
}

/// The references of the leaves in `leaves`.
pub open spec fn leaf_refs(leaves: Seq<Leaf>) -> Seq<RefView> {
    leaves.map_values(|l: Leaf| l.reference@)
}

/// The parents of the messages that the leaves in `leaves` point to, leaf
/// after leaf.
pub open spec fn leaf_parents(leaves: Seq<Leaf>) -> Seq<Seq<u8>>
    decreases leaves.len(),
{
    if leaves.len() == 0 {
        Seq::empty()
    } else {
        leaf_parents(leaves.drop_last()) + id_views(leaves.last().parents@)
    }
}

impl IssueRefs {
    /// Where the walk for the leaves starts on behalf of this issue: at the
    /// target of the local head, at the parents of each local leaf and, if
    /// `remote`, at the target of each remote reference.
    pub open spec fn leaf_seeds(self, remote: bool) -> Seq<Seq<u8>> {
        let head = match self.local_head {
            Some(h) => seq![h@.target],
            None => Seq::empty(),
        };
        let far = if remote {
            targets(ref_views(self.remote_refs@))
        } else {
            Seq::empty()
        };
        head + leaf_parents(self.local_leaves@) + far
    }

    /// Where the walk for the head of this issue starts: at the target of
    /// each remote head, if heads are collected at all, and nowhere if not.
    pub open spec fn head_seeds(self, heads: ReferenceCollectionSpec) -> Seq<Seq<u8>> {
        match heads {
            ReferenceCollectionSpec::Never => Seq::empty(),
            ReferenceCollectionSpec::BackedByRemoteHead => targets(ref_views(self.remote_heads@)),
        }
    }

    /// The local head if `walk`, the walk for the head of this issue, lets
    /// it go. Nothing if the issue has no local head or heads are not
    /// collected.
    pub open spec fn collectable_head(
        self,
        heads: ReferenceCollectionSpec,
        walk: Seq<Seq<u8>>,
    ) -> Seq<RefView> {
        match (self.local_head, heads) {
            (Some(h), ReferenceCollectionSpec::BackedByRemoteHead) => referred(seq![h@], walk),
            _ => Seq::empty(),
        }
    }
}

/// Where the walk for the leaves starts: the seeds of each issue, issue
/// after issue.
pub open spec fn all_leaf_seeds(issues: Seq<IssueRefs>, remote: bool) -> Seq<Seq<u8>>
    decreases issues.len(),
{
    if issues.len() == 0 {
        Seq::empty()
    } else {
        all_leaf_seeds(issues.drop_last(), remote) + issues.last().leaf_seeds(remote)
    }
}

/// The local leaves of all issues, issue after issue.
pub open spec fn all_leaves(issues: Seq<IssueRefs>) -> Seq<RefView>
    decreases issues.len(),
{
    if issues.len() == 0 {
        Seq::empty()
    } else {
        all_leaves(issues.drop_last()) + leaf_refs(issues.last().local_leaves@)
    }
}

/// The walk for the head of issue `i`: the one given at `i`, and an empty
/// one where none is given.
pub open spec fn head_walk(walks: Seq<Vec<ObjectId>>, i: int) -> Seq<Seq<u8>> {
    if 0 <= i < walks.len() {
        id_views(walks[i]@)
    } else {
        Seq::empty()
    }
}

/// The local heads that their walks let go, issue after issue.
pub open spec fn all_collectable_heads(
    issues: Seq<IssueRefs>,
    heads: ReferenceCollectionSpec,
    walks: Seq<Vec<ObjectId>>,
) -> Seq<RefView>
    decreases issues.len(),
{
    if issues.len() == 0 {
        Seq::empty()
    } else {
        all_collectable_heads(issues.drop_last(), heads, walks) + issues.last().collectable_head(
            heads,
            head_walk(walks, issues.len() - 1),
        )
    }
}

/// The references that can go: the heads that their walks let go, then the
/// leaves that the walk for the leaves lets go.
pub open spec fn collectable(
    issues: Seq<IssueRefs>,
    heads: ReferenceCollectionSpec,
    head_walks: Seq<Vec<ObjectId>>,
    leaves_walk: Seq<Seq<u8>>,
) -> Seq<RefView> {
    all_collectable_heads(issues, heads, head_walks) + referred(all_leaves(issues), leaves_walk)
}

/// What is to be collected: the issues with their references, and the two
/// choices that govern collecting.
pub struct CollectableRefs {
    issues: Vec<IssueRefs>,
    /// Whether remote references pin messages too.
    consider_remote_refs: bool,
    /// When a local head may be collected.
    collect_heads: ReferenceCollectionSpec,
}

impl CollectableRefs {
    /// The issues whose references are looked at.
    pub closed spec fn issues(&self) -> Seq<IssueRefs> {
        self.issues@
    }

    /// Whether remote references pin messages too.
    pub closed spec fn considers_remote_refs(&self) -> bool {
        self.consider_remote_refs
    }

    /// When a local head may be collected.
    pub closed spec fn collects_heads(&self) -> ReferenceCollectionSpec {
        self.collect_heads
    }

    /// Collecting for `issues`, with local references alone taken to pin
    /// messages and heads never collected.
    pub fn new(issues: Vec<IssueRefs>) -> (r: CollectableRefs)
        ensures
            r.issues() == issues@,
            !r.considers_remote_refs(),
            r.collects_heads() == ReferenceCollectionSpec::Never,
    {
        CollectableRefs {
            issues,
            consider_remote_refs: false,
            collect_heads: ReferenceCollectionSpec::Never,
        }
    }

    /// The same, but with remote references pinning messages if `option`.
    pub fn consider_remote_refs(self, option: bool) -> (r: CollectableRefs)
        ensures
            r.issues() == self.issues(),
            r.considers_remote_refs() == option,
            r.collects_heads() == self.collects_heads(),
    {
        let mut r = self;
        r.consider_remote_refs = option;
        r
    }

    /// The same, but with local heads collected on `condition`.
    pub fn collect_heads(self, condition: ReferenceCollectionSpec) -> (r: CollectableRefs)
        ensures
            r.issues() == self.issues(),
            r.considers_remote_refs() == self.considers_remote_refs(),
            r.collects_heads() == condition,
    {
        let mut r = self;
        r.collect_heads = condition;
        r
    }

    /// The number of issues, which is the number of walks for heads.
    pub fn len(&self) -> (n: usize)
        ensures
            n == self.issues().len(),
    {
        self.issues.len()
    }

    /// Where the walk for the head of issue `i` is to start; nowhere if
    /// there is no issue `i`.
    pub fn head_seeds(&self, i: usize) -> (seeds: Vec<ObjectId>)
        ensures
            i < self.issues().len() ==> id_views(seeds@) == self.issues()[i as int].head_seeds(
                self.collects_heads(),
            ),
            i >= self.issues().len() ==> seeds@.len() == 0,
    {
        if i >= self.issues.len() {
            return Vec::new();
        }
        match self.collect_heads {
            ReferenceCollectionSpec::Never => {
                let seeds: Vec<ObjectId> = Vec::new();
                proof {
                    assert(id_views(seeds@) =~= Seq::<Seq<u8>>::empty());
                }
                seeds
            },
            ReferenceCollectionSpec::BackedByRemoteHead => targets_of(
                &self.issues[i].remote_heads,
            ),
        }
    }

    /// Where the walk for the leaves is to start.
    pub fn leaf_seeds(&self) -> (seeds: Vec<ObjectId>)
        ensures
            id_views(seeds@) == all_leaf_seeds(self.issues(), self.considers_remote_refs()),
    {
        let mut seeds: Vec<ObjectId> = Vec::new();
        let mut i: usize = 0;
        proof {
            assert(self.issues@.take(0) =~= Seq::<IssueRefs>::empty());
            assert(id_views(seeds@) =~= Seq::<Seq<u8>>::empty());
        }
        while i < self.issues.len()
            invariant
                i <= self.issues.len(),
                id_views(seeds@) == all_leaf_seeds(
                    self.issues@.take(i as int),
                    self.consider_remote_refs,
                ),
            decreases self.issues.len() - i,
        {
            let issue = &self.issues[i];
            let ghost start = id_views(seeds@);
            proof {
                assert(self.issues@.take(i + 1).drop_last() =~= self.issues@.take(i as int));
                assert(self.issues@.take(i + 1).last() == self.issues@[i as int]);
            }
            match &issue.local_head {
                Some(head) => {
                    proof {
                        assert(id_views(seeds@.push(head.target)) =~= start + seq![head@.target]);
                    }
                    seeds.push(head.target);
                },
                None => {
                    proof {
                        assert(start =~= start + Seq::<Seq<u8>>::empty());
                    }
                },
            }
            let ghost with_head = id_views(seeds@);
            let mut j: usize = 0;
            proof {
                assert(issue.local_leaves@.take(0) =~= Seq::<Leaf>::empty());
                assert(with_head + Seq::<Seq<u8>>::empty() =~= with_head);
            }
            while j < issue.local_leaves.len()
                invariant
                    j <= issue.local_leaves.len(),
                    id_views(seeds@) == with_head + leaf_parents(
                        issue.local_leaves@.take(j as int),
                    ),
                decreases issue.local_leaves.len() - j,
            {
                let leaf = &issue.local_leaves[j];
                let ghost had = id_views(seeds@);
                proof {
                    assert(issue.local_leaves@.take(j + 1).drop_last()
                        =~= issue.local_leaves@.take(j as int));
                    assert(issue.local_leaves@.take(j + 1).last() == issue.local_leaves@[j as int]);
                }
                extend_ids(&mut seeds, &leaf.parents);
                proof {
                    assert(had + id_views(leaf.parents@) =~= with_head + (leaf_parents(
                        issue.local_leaves@.take(j as int),
                    ) + id_views(leaf.parents@)));
                }
                j += 1;
            }
            proof {
                assert(issue.local_leaves@.take(j as int) =~= issue.local_leaves@);
            }
            let ghost with_leaves = id_views(seeds@);
            if self.consider_remote_refs {
                let far = targets_of(&issue.remote_refs);
                extend_ids(&mut seeds, &far);
            } else {
                proof {
                    assert(with_leaves =~= with_leaves + Seq::<Seq<u8>>::empty());
                }
            }
            proof {
                let before = all_leaf_seeds(
                    self.issues@.take(i as int),
                    self.consider_remote_refs,
                );
                let own = issue.leaf_seeds(self.consider_remote_refs);
                assert(id_views(seeds@) =~= before + own);
            }
            i += 1;
        }
        proof {
            assert(self.issues@.take(i as int) =~= self.issues@);
        }
        seeds
    }

    /// The references that can go, given what the walks visited:
    /// `head_walks` holds, for each issue in turn, the commits that a walk
    /// from [`head_seeds`](Self::head_seeds) visited, and `leaves_walk` those
    /// that the walk from [`leaf_seeds`](Self::leaf_seeds) visited. An issue
    /// for which `head_walks` holds no walk is taken to have an empty one.
    ///
    /// The heads come first, issue after issue, then the leaves in the order
    /// in which the walk reaches them.
    pub fn into_refs(self, head_walks: &Vec<Vec<ObjectId>>, leaves_walk: &Vec<ObjectId>) -> (out:
        Vec<Reference>)
        ensures
            ref_views(out@) == collectable(
                self.issues(),
                self.collects_heads(),
                head_walks@,
                id_views(leaves_walk@),
            ),
    {
        let mut out: Vec<Reference> = Vec::new();
        let mut watch = RefsReferringTo::new();
        let mut i: usize = 0;
        proof {
            assert(self.issues@.take(0) =~= Seq::<IssueRefs>::empty());
            assert(ref_views(out@) =~= Seq::<RefView>::empty());
        }
        while i < self.issues.len()
            invariant
                i <= self.issues.len(),
                watch.pending() == Seq::<RefView>::empty(),
                watch.watched() == all_leaves(self.issues@.take(i as int)),
                ref_views(out@) == all_collectable_heads(
                    self.issues@.take(i as int),
                    self.collect_heads,
                    head_walks@,
                ),
            decreases self.issues.len() - i,
        {
            let issue = &self.issues[i];
            let ghost had = ref_views(out@);
            proof {
                assert(self.issues@.take(i + 1).drop_last() =~= self.issues@.take(i as int));
                assert(self.issues@.take(i + 1).last() == self.issues@[i as int]);
                assert(self.issues@.take(i + 1).len() - 1 == i);
            }
            let mut released = head_if_covered(issue, self.collect_heads, head_walks, i);
            proof {
                assert(ref_views(out@ + released@) =~= had + ref_views(released@));
            }
            out.append(&mut released);
            let ghost watched = watch.watched();
            let mut j: usize = 0;
            proof {
                assert(issue.local_leaves@.take(0) =~= Seq::<Leaf>::empty());
                assert(leaf_refs(Seq::<Leaf>::empty()) =~= Seq::<RefView>::empty());
                assert(watched + Seq::<RefView>::empty() =~= watched);
            }
            while j < issue.local_leaves.len()
                invariant
                    j <= issue.local_leaves.len(),
                    watch.pending() == Seq::<RefView>::empty(),
                    watch.watched() == watched + leaf_refs(issue.local_leaves@.take(j as int)),
                decreases issue.local_leaves.len() - j,
            {
                let copy = issue.local_leaves[j].reference.duplicate();
                proof {
                    let leaves = issue.local_leaves@;
                    assert(leaf_refs(leaves.take(j + 1)) =~= leaf_refs(leaves.take(j as int)).push(
                        copy@,
                    ));
                    assert((watched + leaf_refs(leaves.take(j as int))).push(copy@) =~= watched
                        + leaf_refs(leaves.take(j + 1)));
                }
                watch.watch_ref(copy);
                j += 1;
            }
            proof {
                assert(issue.local_leaves@.take(j as int) =~= issue.local_leaves@);
            }
            i += 1;
        }
        proof {
            assert(self.issues@.take(i as int) =~= self.issues@);
        }
        let ghost heads = ref_views(out@);
        let mut leaves = watch.collect(leaves_walk);
        proof {
            assert(Seq::<RefView>::empty().reverse() =~= Seq::<RefView>::empty());
            assert(ref_views(leaves@) =~= referred(
                all_leaves(self.issues@),
                id_views(leaves_walk@),
            ));
            assert(ref_views(out@ + leaves@) =~= heads + ref_views(leaves@));
        }
        out.append(&mut leaves);
        out
    }
}

/// The local head of `issue` if the walk for it lets it go.
fn head_if_covered(
    issue: &IssueRefs,
    heads: ReferenceCollectionSpec,
    head_walks: &Vec<Vec<ObjectId>>,
    i: usize,
) -> (out: Vec<Reference>)
    ensures
        ref_views(out@) == issue.collectable_head(heads, head_walk(head_walks@, i as int)),
{
    match (&issue.local_head, heads) {
        (Some(head), ReferenceCollectionSpec::BackedByRemoteHead) => {
            let mut watch = RefsReferringTo::new();
            watch.watch_ref(head.duplicate());
            proof {
                assert(watch.watched() =~= seq![head@]);
                assert(Seq::<RefView>::empty().reverse() =~= Seq::<RefView>::empty());
            }
            if i < head_walks.len() {
                let out = watch.collect(&head_walks[i]);
                proof {
                    assert(ref_views(out@) =~= referred(seq![head@], id_views(head_walks@[i as int]@)));
                }
                out
            } else {
                let none: Vec<ObjectId> = Vec::new();
                proof {
                    assert(id_views(none@) =~= Seq::<Seq<u8>>::empty());
                }
                let out = watch.collect(&none);
                proof {
                    assert(ref_views(out@) =~= referred(seq![head@], Seq::<Seq<u8>>::empty()));
                }
                out
            }
        },
        _ => {
            let out: Vec<Reference> = Vec::new();
            proof {
                assert(ref_views(out@) =~= Seq::<RefView>::empty());
            }
            out
        },
    }
}

/// The targets of `refs`, in order.
pub fn targets_of(refs: &Vec<Reference>) -> (ids: Vec<ObjectId>)
    ensures
        id_views(ids@) == targets(ref_views(refs@)),
{
    let mut ids: Vec<ObjectId> = Vec::new();
    let mut i: usize = 0;
    while i < refs.len()
        invariant
            i <= refs.len(),
            id_views(ids@) == targets(ref_views(refs@)).take(i as int),
        decreases refs.len() - i,
    {
        proof {
            let all = targets(ref_views(refs@));
            assert(id_views(ids@.push(refs@[i as int].target)) =~= id_views(ids@).push(
                refs@[i as int].target@,
            ));
            assert(all.take(i + 1) =~= all.take(i as int).push(all[i as int]));
        }
        ids.push(refs[i].target);
        i += 1;
    }
    proof {
        assert(targets(ref_views(refs@)).take(i as int) =~= targets(ref_views(refs@)));
    }
    ids
}

/// Appends `more` to `ids`.
fn extend_ids(ids: &mut Vec<ObjectId>, more: &Vec<ObjectId>)
    ensures
        id_views(final(ids)@) == id_views(old(ids)@) + id_views(more@),
{
    let mut i: usize = 0;
    proof {
        assert(id_views(ids@) =~= id_views(old(ids)@) + id_views(more@).take(0));
    }
    while i < more.len()
        invariant
            i <= more.len(),
            id_views(ids@) == id_views(old(ids)@) + id_views(more@).take(i as int),
        decreases more.len() - i,
    {
        proof {
            let all = id_views(more@);
            assert(id_views(ids@.push(more@[i as int])) =~= id_views(ids@).push(more@[i as int]@));
            assert(all.take(i + 1) =~= all.take(i as int).push(all[i as int]));
            assert((id_views(old(ids)@) + all.take(i as int)).push(all[i as int]) =~= id_views(
                old(ids)@,
            ) + all.take(i + 1));
        }
        ids.push(more[i]);
        i += 1;
    }
    proof {
        assert(id_views(more@).take(i as int) =~= id_views(more@));
    }
}

/// The leaves of every issue are among all leaves.
pub proof fn lemma_all_leaves_contains(issues: Seq<IssueRefs>, i: int, l: int)
    requires
        0 <= i < issues.len(),
        0 <= l < issues[i].local_leaves@.len(),
    ensures
        all_leaves(issues).contains(issues[i].local_leaves@[l].reference@),
    decreases issues.len(),
{
    let before = all_leaves(issues.drop_last());
    let own = leaf_refs(issues.last().local_leaves@);
    let r = issues[i].local_leaves@[l].reference@;
    if i == issues.len() - 1 {
        assert(own[l] == r);
    } else {
        assert(issues.drop_last()[i] == issues[i]);
        lemma_all_leaves_contains(issues.drop_last(), i, l);
    }
    vstd::seq_lib::lemma_seq_concat_contains_all_elements(before, own, r);
}

/// All leaves are leaves of some issue.
pub proof fn lemma_all_leaves_origin(issues: Seq<IssueRefs>, r: RefView) -> (at: (int, int))
    requires
        all_leaves(issues).contains(r),
    ensures
        0 <= at.0 < issues.len(),
        0 <= at.1 < issues[at.0].local_leaves@.len(),
        issues[at.0].local_leaves@[at.1].reference@ == r,
    decreases issues.len(),
{
    if issues.len() == 0 {
        (0, 0)
    } else {
        let before = all_leaves(issues.drop_last());
        let own = leaf_refs(issues.last().local_leaves@);
        vstd::seq_lib::lemma_seq_concat_contains_all_elements(before, own, r);
        if own.contains(r) {
            let l = choose|l: int| 0 <= l < own.len() && own[l] == r;
            (issues.len() - 1, l)
        } else {
            let at = lemma_all_leaves_origin(issues.drop_last(), r);
            assert(issues.drop_last()[at.0] == issues[at.0]);
            at
        }
    }
}

/// The parents of every leaf are among the parents of all leaves.
pub proof fn lemma_leaf_parents_contains(leaves: Seq<Leaf>, l: int, p: int)
    requires
        0 <= l < leaves.len(),
        0 <= p < leaves[l].parents@.len(),
    ensures
        leaf_parents(leaves).contains(leaves[l].parents@[p]@),
    decreases leaves.len(),
{
    let before = leaf_parents(leaves.drop_last());
    let own = id_views(leaves.last().parents@);
    let id = leaves[l].parents@[p]@;
    if l == leaves.len() - 1 {
        assert(own[p] == id);
    } else {
        assert(leaves.drop_last()[l] == leaves[l]);
        lemma_leaf_parents_contains(leaves.drop_last(), l, p);
    }
    vstd::seq_lib::lemma_seq_concat_contains_all_elements(before, own, id);
}

/// What the walk for the leaves starts at on behalf of one issue, it starts
/// at.
pub proof fn lemma_all_leaf_seeds_contains(
    issues: Seq<IssueRefs>,
    remote: bool,
    i: int,
    id: Seq<u8>,
)
    requires
        0 <= i < issues.len(),
        issues[i].leaf_seeds(remote).contains(id),
    ensures
        all_leaf_seeds(issues, remote).contains(id),
    decreases issues.len(),
{
    let before = all_leaf_seeds(issues.drop_last(), remote);
    let own = issues.last().leaf_seeds(remote);
    if i < issues.len() - 1 {
        assert(issues.drop_last()[i] == issues[i]);
        lemma_all_leaf_seeds_contains(issues.drop_last(), remote, i, id);
    }
    vstd::seq_lib::lemma_seq_concat_contains_all_elements(before, own, id);
}

/// Where heads are never collected, no walk makes a head collectable.
pub proof fn lemma_no_heads_when_never(issues: Seq<IssueRefs>, head_walks: Seq<Vec<ObjectId>>)
    ensures
        all_collectable_heads(issues, ReferenceCollectionSpec::Never, head_walks)
            == Seq::<RefView>::empty(),
    decreases issues.len(),
{
    if issues.len() > 0 {
        lemma_no_heads_when_never(issues.drop_last(), head_walks);
        assert(Seq::<RefView>::empty() + Seq::<RefView>::empty() =~= Seq::<RefView>::empty());
    }
}

/// Where heads are never collected, every reference that is reported is a
/// local leaf of one of the issues, and one whose target the walk for the
/// leaves has visited. So no walk, whatever it visits, costs an issue its
/// local head. The result tells which leaf of which issue it is.
pub proof fn lemma_heads_are_kept(
    issues: Seq<IssueRefs>,
    head_walks: Seq<Vec<ObjectId>>,
    leaves_walk: Seq<Seq<u8>>,
    r: RefView,
) -> (at: (int, int))
    requires
        collectable(issues, ReferenceCollectionSpec::Never, head_walks, leaves_walk).contains(r),
    ensures
        0 <= at.0 < issues.len(),
        0 <= at.1 < issues[at.0].local_leaves@.len(),
        issues[at.0].local_leaves@[at.1].reference@ == r,
        leaves_walk.contains(r.target),
{
    lemma_no_heads_when_never(issues, head_walks);
    let leaves = referred(all_leaves(issues), leaves_walk);
    assert(Seq::<RefView>::empty() + leaves =~= leaves);
    lemma_referred_contains(all_leaves(issues), leaves_walk, r);
    lemma_all_leaves_origin(issues, r)
}

/// A local leaf whose message the local head of an issue has for an
/// ancestor or points to is reported, given that the walk for the leaves
/// visited what it should.
pub proof fn lemma_leaf_under_head_is_collected(
    issues: Seq<IssueRefs>,
    heads: ReferenceCollectionSpec,
    remote: bool,
    head_walks: Seq<Vec<ObjectId>>,
    leaves_walk: Seq<Seq<u8>>,
    g: Map<Seq<u8>, Seq<Seq<u8>>>,
    i: int,
    l: int,
    j: int,
)
    requires
        is_walk_from(g, all_leaf_seeds(issues, remote), leaves_walk),
        0 <= i < issues.len(),
        0 <= l < issues[i].local_leaves@.len(),
        0 <= j < issues.len(),
        issues[j].local_head is Some,
        reaches(
            g,
            issues[j].local_head->0@.target,
            issues[i].local_leaves@[l].reference@.target,
        ),
    ensures
        collectable(issues, heads, head_walks, leaves_walk).contains(
            issues[i].local_leaves@[l].reference@,
        ),
{
    let r = issues[i].local_leaves@[l].reference@;
    let seeds = all_leaf_seeds(issues, remote);
    let head = issues[j].local_head->0@.target;
    let own = issues[j].leaf_seeds(remote);
    assert(own[0] == head);
    lemma_all_leaf_seeds_contains(issues, remote, j, head);
    let k = choose|k: int| 0 <= k < seeds.len() && seeds[k] == head;
    assert(reaches(g, seeds[k], r.target));
    assert(leaves_walk.contains(r.target));
    lemma_all_leaves_contains(issues, i, l);
    lemma_referred_contains(all_leaves(issues), leaves_walk, r);
    vstd::seq_lib::lemma_seq_concat_contains_all_elements(
        all_collectable_heads(issues, heads, head_walks),
        referred(all_leaves(issues), leaves_walk),
        r,
    );
}

/// A local leaf whose message is an ancestor, at least one step away, of the
/// message of another local leaf is reported, given that the walk for the
/// leaves visited what it should and that the other leaf came with the
/// parents that the history records for its message.
pub proof fn lemma_leaf_under_leaf_is_collected(
    issues: Seq<IssueRefs>,
    heads: ReferenceCollectionSpec,
    remote: bool,
    head_walks: Seq<Vec<ObjectId>>,
    leaves_walk: Seq<Seq<u8>>,
    g: Map<Seq<u8>, Seq<Seq<u8>>>,
    i: int,
    l: int,
    j: int,
    m: int,
)
    requires
        is_walk_from(g, all_leaf_seeds(issues, remote), leaves_walk),
        0 <= i < issues.len(),
        0 <= l < issues[i].local_leaves@.len(),
        0 <= j < issues.len(),
        0 <= m < issues[j].local_leaves@.len(),
        parents_in(g, issues[j].local_leaves@[m].reference@.target) == id_views(
            issues[j].local_leaves@[m].parents@,
        ),
        is_strict_ancestor(
            g,
            issues[i].local_leaves@[l].reference@.target,
            issues[j].local_leaves@[m].reference@.target,
        ),
    ensures
        collectable(issues, heads, head_walks, leaves_walk).contains(
            issues[i].local_leaves@[l].reference@,
        ),
{
    let r = issues[i].local_leaves@[l].reference@;
    let other = issues[j].local_leaves@[m];
    let seeds = all_leaf_seeds(issues, remote);
    let path = choose|path: Seq<Seq<u8>>|
        is_path(g, path) && path.len() >= 2 && path[0] == other.reference@.target && path.last()
            == r.target;
    // The second commit of the path is a parent of the other leaf's message,
    // and so a seed; the rest of the path leads from it to the leaf.
    let parent = path[1];
    assert(parents_in(g, path[0]).contains(path[1]));
    let p = choose|p: int|
        0 <= p < id_views(other.parents@).len() && id_views(other.parents@)[p] == parent;
    lemma_leaf_parents_contains(issues[j].local_leaves@, m, p);
    let own = issues[j].leaf_seeds(remote);
    let head = match issues[j].local_head {
        Some(h) => seq![h@.target],
        None => Seq::<Seq<u8>>::empty(),
    };
    let far = if remote {
        targets(ref_views(issues[j].remote_refs@))
    } else {
        Seq::<Seq<u8>>::empty()
    };
    vstd::seq_lib::lemma_seq_concat_contains_all_elements(
        head,
        leaf_parents(issues[j].local_leaves@),
        parent,
    );
    vstd::seq_lib::lemma_seq_concat_contains_all_elements(
        head + leaf_parents(issues[j].local_leaves@),
        far,
        parent,
    );
    lemma_all_leaf_seeds_contains(issues, remote, j, parent);
    let k = choose|k: int| 0 <= k < seeds.len() && seeds[k] == parent;
    let rest = path.skip(1);
    assert(is_path(g, rest)) by {
        assert forall|n: int| 0 <= n < rest.len() - 1 implies parents_in(
            g,
            #[trigger] rest[n],
        ).contains(rest[n + 1]) by {
            assert(rest[n] == path[n + 1]);
            assert(rest[n + 1] == path[n + 2]);
        }
    }
    assert(rest[0] == parent && rest.last() == r.target);
    assert(reaches(g, seeds[k], r.target));
    assert(leaves_walk.contains(r.target));
    lemma_all_leaves_contains(issues, i, l);
    lemma_referred_contains(all_leaves(issues), leaves_walk, r);
    vstd::seq_lib::lemma_seq_concat_contains_all_elements(
        all_collectable_heads(issues, heads, head_walks),
        referred(all_leaves(issues), leaves_walk),
        r,
    );
}

/// Where heads are never collected, a reference is reported only if its
/// target is one of the commits that the walk for the leaves started at, or
/// an ancestor of one, given that the walk visited what it should.
pub proof fn lemma_collected_leaf_is_covered(
    issues: Seq<IssueRefs>,
    remote: bool,
    head_walks: Seq<Vec<ObjectId>>,
    leaves_walk: Seq<Seq<u8>>,
    g: Map<Seq<u8>, Seq<Seq<u8>>>,
    r: RefView,
)
    requires
        is_walk_from(g, all_leaf_seeds(issues, remote), leaves_walk),
        collectable(issues, ReferenceCollectionSpec::Never, head_walks, leaves_walk).contains(r),
    ensures
        exists|k: int|
            0 <= k < all_leaf_seeds(issues, remote).len() && reaches(
                g,
                #[trigger] all_leaf_seeds(issues, remote)[k],
                r.target,
            ),
{
    let at = lemma_heads_are_kept(issues, head_walks, leaves_walk, r);
}

/// Whether each local leaf of each issue has the name of a leaf.
pub open spec fn leaves_are_named(issues: Seq<IssueRefs>) -> bool {
    forall|i: int, l: int|
        0 <= i < issues.len() && 0 <= l < issues[i].local_leaves@.len() ==> exists|
            issue: Seq<u8>,
            message: Seq<u8>,
        |
            issue.len() == 20 && message.len() == 20 && (
            #[trigger] issues[i].local_leaves@[l]).reference@.name == #[trigger] leaf_name(
                issue,
                message,
            )
}

/// Where heads are never collected and the leaves have the names of
/// leaves, no reference with the name of a head is reported: collecting
/// leaves every head in place.
pub proof fn lemma_no_head_is_collected(
    issues: Seq<IssueRefs>,
    head_walks: Seq<Vec<ObjectId>>,
    leaves_walk: Seq<Seq<u8>>,
    r: RefView,
    head: Seq<u8>,
)
    requires
        leaves_are_named(issues),
        head.len() == 20,
        collectable(issues, ReferenceCollectionSpec::Never, head_walks, leaves_walk).contains(r),
    ensures
        r.name != head_name(head),
{
    let at = lemma_heads_are_kept(issues, head_walks, leaves_walk, r);
    let leaf = issues[at.0].local_leaves@[at.1];
    let (issue, message) = choose|issue: Seq<u8>, message: Seq<u8>|
        issue.len() == 20 && message.len() == 20 && leaf.reference@.name == #[trigger] leaf_name(
            issue,
            message,
        );
    lemma_head_is_no_leaf(head, issue, message);
}

/// Whether `r` is a local reference of one of the issues: the local head of
/// one, or a local leaf of one.
pub open spec fn is_local_ref(issues: Seq<IssueRefs>, r: RefView) -> bool {
    all_leaves(issues).contains(r) || exists|j: int|
        0 <= j < issues.len() && (#[trigger] issues[j]).local_head is Some && issues[j].local_head->0@
            == r
}

/// Whether each local leaf of each issue came with the parents that the
/// history `g` records for the message it points to.
pub open spec fn parents_fit(g: Map<Seq<u8>, Seq<Seq<u8>>>, issues: Seq<IssueRefs>) -> bool {
    forall|i: int, l: int|
        0 <= i < issues.len() && 0 <= l < issues[i].local_leaves@.len() ==> parents_in(
            g,
            (#[trigger] issues[i].local_leaves@[l]).reference@.target,
        ) == id_views(issues[i].local_leaves@[l].parents@)
}

/// Collecting leaves no local leaf behind whose message is an ancestor, at
/// least one step away, of what another local reference points to: every
/// such leaf is reported, whatever is chosen about remote references and
/// heads. This holds given that the walk for the leaves visited what it
/// should and that the leaves came with the parents of their messages.
pub proof fn lemma_no_covered_leaf_remains(
    issues: Seq<IssueRefs>,
    heads: ReferenceCollectionSpec,
    remote: bool,
    head_walks: Seq<Vec<ObjectId>>,
    leaves_walk: Seq<Seq<u8>>,
    g: Map<Seq<u8>, Seq<Seq<u8>>>,
    leaf: RefView,
    other: RefView,
)
    requires
        is_walk_from(g, all_leaf_seeds(issues, remote), leaves_walk),
        parents_fit(g, issues),
        all_leaves(issues).contains(leaf),
        is_local_ref(issues, other),
        is_strict_ancestor(g, leaf.target, other.target),
    ensures
        collectable(issues, heads, head_walks, leaves_walk).contains(leaf),
{
    let at = lemma_all_leaves_origin(issues, leaf);
    if all_leaves(issues).contains(other) {
        let by = lemma_all_leaves_origin(issues, other);
        assert(parents_in(g, issues[by.0].local_leaves@[by.1].reference@.target) == id_views(
            issues[by.0].local_leaves@[by.1].parents@,
        ));
        lemma_leaf_under_leaf_is_collected(
            issues,
            heads,
            remote,
            head_walks,
            leaves_walk,
            g,
            at.0,
            at.1,
            by.0,
            by.1,
        );
    } else {
        let j = choose|j: int|
            0 <= j < issues.len() && (#[trigger] issues[j]).local_head is Some
                && issues[j].local_head->0@ == other;
        // A way of two commits or more is a way.
        let path = choose|path: Seq<Seq<u8>>|
            is_path(g, path) && path.len() >= 2 && path[0] == other.target && path.last()
                == leaf.target;
        assert(reaches(g, other.target, leaf.target));
        lemma_leaf_under_head_is_collected(
            issues,
            heads,
            remote,
            head_walks,
            leaves_walk,
            g,
            at.0,
            at.1,
            j,
        );
    }
}

} // verus!
