//! Finding issues in what a repository reports.
//!
//! The repository lists references and walks commits. The functions here
//! say what to list and what to walk, and decide from what comes back.

use vstd::prelude::*;
use vstd::string::StringExecFns;

use crate::error::Kind;
use crate::issue::{classify, classify_ref, Issue, RefKind, RefKindView, WalkPlan};
use crate::oid::{is_full_hex_id, ObjectId};
use crate::reference::id_views;
use crate::text::{glue, same_text, split, split_on, views};

verus! {

/// The glob that selects the heads of all issues, local ones and those that
/// remotes have.
pub fn issues() -> (glob: String)
    ensures
        glob@ == "**/dit/**/head"@,
{
    String::from_str("**/dit/**/head")
}

/// The glob that selects the heads of all issues below `prefix`; `refs` is
/// the prefix of the local ones.
pub fn issues_with_prefix(prefix: &str) -> (glob: String)
    ensures
        glob@ == prefix@ + "/dit/**/head"@,
{
    glue(prefix, "/dit/**/head")
}

/// The issue with the id `id`, given the number of head references that the
/// repository has for it: only what has a head is an issue.
pub fn find_issue(id: ObjectId, heads: usize) -> (r: Result<Issue, Kind>)
    ensures
        match r {
            Ok(issue) => heads > 0 && issue@ == id@,
            Err(Kind::CannotFindIssueHead(missing)) => heads == 0 && missing@ == id@,
            Err(_) => false,
        },
{
    if heads > 0 {
        Ok(Issue::new(id))
    } else {
        Err(Kind::CannotFindIssueHead(id))
    }
}

/// What can be wrong with the name of a reference that is taken for the
/// head of an issue.
pub enum HeadRefFault {
    /// The name does not end in `/head`.
    NoHead,
    /// What stands before `/head` is not an id.
    NoId,
    /// No part `dit` stands before the id.
    NoDit,
}

/// What is wrong with `name` as the name of the head of an issue, if
/// anything.
pub open spec fn head_ref_fault(name: Seq<char>) -> Option<HeadRefFault> {
    let parts = split(name, '/');
    let n = parts.len() as int;
    if n < 2 || parts[n - 1] != "head"@ {
        Some(HeadRefFault::NoHead)
    } else if !is_full_hex_id(parts[n - 2]) {
        Some(HeadRefFault::NoId)
    } else if !parts.take(n - 2).contains("dit"@) {
        Some(HeadRefFault::NoDit)
    } else {
        None
    }
}

/// The issue whose head the reference named `name` is. A reference without
/// a name that can be read is none, nor is one whose name does not end in
/// `/head` or has no part `dit`; these are refused as malformed. One with
/// anything but an id before `/head` is refused for that, with what stands
/// there.
pub fn issue_by_head_ref(name: Option<&str>) -> (r: Result<Issue, Kind>)
    ensures
        match r {
            Ok(issue) => name matches Some(n) && head_ref_fault(n@) is None && classify(n@)
                == Some((issue@, RefKindView::Head)),
            Err(Kind::MalFormedHeadReference(given)) => match name {
                Some(n) => given@ == n@ && (head_ref_fault(n@) == Some(HeadRefFault::NoHead)
                    || head_ref_fault(n@) == Some(HeadRefFault::NoDit)),
                None => given@.len() == 0,
            },
            Err(Kind::OidFormatError(given)) => name matches Some(n) && head_ref_fault(n@)
                == Some(HeadRefFault::NoId) && given@ == split(n@, '/')[split(n@, '/').len() - 2],
            Err(_) => false,
        },
{
    let name = match name {
        Some(name) => name,
        None => {
            return Err(Kind::MalFormedHeadReference(String::new()));
        },
    };
    let parts = split_on(name, '/');
    let n = parts.len();
    proof {
        crate::text::lemma_split_shape(name@, '/');
        assert forall|i: int| 0 <= i < n implies views(parts@)[i] == parts@[i]@ by {}
    }
    if n < 2 || !same_text(parts[n - 1].as_str(), "head") {
        return Err(Kind::MalFormedHeadReference(String::from_str(name)));
    }
    match classify_ref(name) {
        Some((id, RefKind::Head)) => Ok(Issue::new(id)),
        _ => {
            match ObjectId::from_full_hex(parts[n - 2].as_str()) {
                Some(_) => Err(Kind::MalFormedHeadReference(String::from_str(name))),
                None => Err(Kind::OidFormatError(parts[n - 2].clone())),
            }
        },
    }
}

/// The walk along first parents from the commit `id`.
pub fn first_parent_messages(id: ObjectId) -> (plan: WalkPlan)
    ensures
        id_views(plan.push@) == seq![id@],
        plan.push_glob is None,
        plan.hide@.len() == 0,
        plan.first_parent,
        plan.topological,
{
    let mut push: Vec<ObjectId> = Vec::new();
    push.push(id);
    proof {
        assert(id_views(push@) =~= seq![id@]);
    }
    WalkPlan { push, push_glob: None, hide: Vec::new(), first_parent: true, topological: true }
}

/// A commit on the way along first parents, and whether the repository has
/// a head reference for it, which makes it the initial message of an issue.
#[derive(Clone, Copy, Debug)]
pub struct Step {
    pub id: ObjectId,
    pub is_initial: bool,
}

/// The ids of the commits of `chain`.
pub open spec fn step_ids(chain: Seq<Step>) -> Seq<Seq<u8>> {
    chain.map_values(|s: Step| s.id@)
}

/// The position of the first step in `chain` that is an initial message.
pub open spec fn first_initial(chain: Seq<Step>) -> Option<int>
    decreases chain.len(),
{
    if chain.len() == 0 {
        None
    } else if chain[0].is_initial {
        Some(0)
    } else {
        match first_initial(chain.drop_first()) {
            Some(i) => Some(i + 1),
            None => None,
        }
    }
}

/// The first initial message is one, stands in the chain, and none stands
/// before it.
pub proof fn lemma_first_initial(chain: Seq<Step>)
    ensures
        match first_initial(chain) {
            Some(i) => 0 <= i < chain.len() && chain[i].is_initial && forall|j: int|
                0 <= j < i ==> !(#[trigger] chain[j]).is_initial,
            None => forall|j: int| 0 <= j < chain.len() ==> !(#[trigger] chain[j]).is_initial,
        },
    decreases chain.len(),
{
    if chain.len() > 0 && !chain[0].is_initial {
        let tail = chain.drop_first();
        lemma_first_initial(tail);
        match first_initial(tail) {
            Some(i) => {
                assert forall|j: int| 0 <= j < i + 1 implies !(#[trigger] chain[j]).is_initial by {
                    if j > 0 {
                        assert(chain[j] == tail[j - 1]);
                    }
                }
            },
            None => {
                assert forall|j: int| 0 <= j < chain.len() implies !(
                #[trigger] chain[j]).is_initial by {
                    if j > 0 {
                        assert(chain[j] == tail[j - 1]);
                    }
                }
            },
        }
    }
}

/// The issue that the message `message` belongs to, given the commits on
/// the way along first parents from the message: the first of them that is
/// the initial message of an issue. Where none is, the message belongs to
/// no issue.
pub fn issue_with_message(message: ObjectId, chain: &Vec<Step>) -> (r: Result<Issue, Kind>)
    ensures
        match r {
            Ok(issue) => first_initial(chain@) matches Some(i) && issue@ == chain@[i].id@,
            Err(Kind::NoTreeInitFound(id)) => first_initial(chain@) is None && id@ == message@,
            Err(_) => false,
        },
{
    let mut i: usize = 0;
    proof {
        assert(chain@.skip(0) =~= chain@);
    }
    while i < chain.len()
        invariant
            i <= chain.len(),
            first_initial(chain@) == match first_initial(chain@.skip(i as int)) {
                Some(k) => Some(k + i),
                None => None,
            },
        decreases chain.len() - i,
    {
        proof {
            assert(chain@.skip(i as int)[0] == chain@[i as int]);
            assert(chain@.skip(i as int).drop_first() =~= chain@.skip(i + 1));
        }
        if chain[i].is_initial {
            return Ok(Issue::new(chain[i].id));
        }
        i += 1;
    }
    proof {
        assert(chain@.skip(i as int) =~= Seq::<Step>::empty());
    }
    Err(Kind::NoTreeInitFound(message))
}

/// The messages of an issue among the commits on a way along first
/// parents: the commits up to the first initial message, with it. Where
/// there is no initial message on the way, all commits.
pub fn until_any_initial(chain: &Vec<Step>) -> (ids: Vec<ObjectId>)
    ensures
        id_views(ids@) == match first_initial(chain@) {
            Some(i) => step_ids(chain@.take(i + 1)),
            None => step_ids(chain@),
        },
{
    let ghost all = step_ids(chain@);
    let mut ids: Vec<ObjectId> = Vec::new();
    let mut i: usize = 0;
    proof {
        assert(chain@.skip(0) =~= chain@);
        assert(id_views(ids@) =~= all.take(0));
    }
    while i < chain.len()
        invariant
            i <= chain.len(),
            all == step_ids(chain@),
            id_views(ids@) == all.take(i as int),
            first_initial(chain@) == match first_initial(chain@.skip(i as int)) {
                Some(k) => Some(k + i),
                None => None,
            },
        decreases chain.len() - i,
    {
        proof {
            assert(chain@.skip(i as int)[0] == chain@[i as int]);
            assert(chain@.skip(i as int).drop_first() =~= chain@.skip(i + 1));
            assert(id_views(ids@.push(chain@[i as int].id)) =~= id_views(ids@).push(
                chain@[i as int].id@,
            ));
            assert(all.take(i + 1) =~= all.take(i as int).push(all[i as int]));
        }
        ids.push(chain[i].id);
        if chain[i].is_initial {
            proof {
                assert(all.take(i + 1) =~= step_ids(chain@.take(i + 1)));
            }
            return ids;
        }
        i += 1;
    }
    proof {
        assert(chain@.skip(i as int) =~= Seq::<Step>::empty());
        assert(all.take(i as int) =~= all);
    }
    ids
}

/// Where the messages of an issue are read from the first commit of a way
/// along first parents and an initial message stands on the way, the last
/// message read is that initial message.
pub proof fn lemma_last_is_initial(chain: Seq<Step>)
    requires
        first_initial(chain) is Some,
    ensures
        chain.take(first_initial(chain)->0 + 1).last().is_initial,
        forall|j: int|
            0 <= j < first_initial(chain)->0 ==> !(#[trigger] chain.take(
                first_initial(chain)->0 + 1,
            )[j]).is_initial,
{
    lemma_first_initial(chain);
}

} // verus!
