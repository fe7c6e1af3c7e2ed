//! References as the library sees them: a name and the commit it points to.

use vstd::prelude::*;

use crate::oid::ObjectId;
use crate::text::{same_text, split, split_on, views};

verus! {

/// What a reference is to a contract: the characters of its name and the
/// bytes of its target.
pub struct RefView {
    pub name: Seq<char>,
    pub target: Seq<u8>,
}

/// A reference of the repository, with the id of the commit it leads to.
#[derive(Debug, Clone, PartialEq, Eq)]
pub struct Reference {
    pub name: String,
    pub target: ObjectId,
}

impl View for Reference {
    type V = RefView;

    open spec fn view(&self) -> RefView {
        RefView { name: self.name@, target: self.target@ }
    }
}

impl Reference {
    /// A reference with the given name and target.
    pub fn new(name: String, target: ObjectId) -> (r: Reference)
        ensures
            r@.name == name@,
            r@.target == target@,
    {
        Reference { name, target }
    }

    /// A second reference value with the same name and target.
    pub fn duplicate(&self) -> (r: Reference)
        ensures
            r@ == self@,
    {
        Reference { name: self.name.clone(), target: self.target }
    }
}

/// The views of the references in `refs`.
pub open spec fn ref_views(refs: Seq<Reference>) -> Seq<RefView> {
    refs.map_values(|r: Reference| r@)
}

/// The views of the ids in `ids`.
pub open spec fn id_views(ids: Seq<ObjectId>) -> Seq<Seq<u8>> {
    ids.map_values(|id: ObjectId| id@)
}

/// Whether `id` is one of `ids`.
pub fn is_among(id: &ObjectId, ids: &Vec<ObjectId>) -> (b: bool)
    ensures
        b == id_views(ids@).contains(id@),
{
    let mut i: usize = 0;
    while i < ids.len()
        invariant
            i <= ids.len(),
            forall|j: int| 0 <= j < i ==> id_views(ids@)[j] != id@,
        decreases ids.len() - i,
    {
        if ids[i] == *id {
            proof {
                assert(id_views(ids@)[i as int] == id@);
            }
            return true;
        }
        i += 1;
    }
    false
}

/// The targets of the references in `refs`.
pub open spec fn targets(refs: Seq<RefView>) -> Seq<Seq<u8>> {
    refs.map_values(|r: RefView| r.target)
}

/// The remote that a reference name belongs to: the third part of a name
/// that starts with `refs/remotes/`. Any other name belongs to no remote.
pub open spec fn remote_of(name: Seq<char>) -> Option<Seq<char>> {
    let parts = split(name, '/');
    if parts.len() >= 3 && parts[0] == seq!['r', 'e', 'f', 's'] && parts[1] == seq![
        'r',
        'e',
        'm',
        'o',
        't',
        'e',
        's',
    ] {
        Some(parts[2])
    } else {
        None
    }
}

/// What a reference can tell about itself beyond its name and target.
pub trait ReferrenceExt {
    /// The name of the reference.
    spec fn full_name(&self) -> Seq<char>;

    /// The remote that the reference belongs to, if it belongs to one.
    fn remote(&self) -> (r: Option<String>)
        ensures
            match r {
                Some(remote) => remote_of(self.full_name()) == Some(remote@),
                None => remote_of(self.full_name()) is None,
            },
    ;
}

impl ReferrenceExt for Reference {
    open spec fn full_name(&self) -> Seq<char> {
        self.name@
    }

    fn remote(&self) -> (r: Option<String>) {
        remote_in(self.name.as_str())
    }
}

/// The remote that the reference name `name` belongs to, if it belongs to
/// one.
pub fn remote_in(name: &str) -> (r: Option<String>)
    ensures
        match r {
            Some(remote) => remote_of(name@) == Some(remote@),
            None => remote_of(name@) is None,
        },
{
    proof {
        reveal_strlit("refs");
        reveal_strlit("remotes");
        assert("refs"@ =~= seq!['r', 'e', 'f', 's']);
        assert("remotes"@ =~= seq!['r', 'e', 'm', 'o', 't', 'e', 's']);
    }
    let parts = split_on(name, '/');
    proof {
        assert(parts@.len() == split(name@, '/').len());
        assert forall|i: int| 0 <= i < parts@.len() implies parts@[i]@ == split(name@, '/')[i] by {
            assert(views(parts@)[i] == parts@[i]@);
        }
    }
    if parts.len() >= 3 && same_text(parts[0].as_str(), "refs") && same_text(
        parts[1].as_str(),
        "remotes",
    ) {
        Some(parts[2].clone())
    } else {
        None
    }
}

/// The first position in `items` at which `remote` or the wildcard `*`
/// stands.
pub open spec fn position_of(items: Seq<Seq<char>>, remote: Seq<char>) -> Option<int>
    decreases items.len(),
{
    if items.len() == 0 {
        None
    } else if items[0] == remote || items[0] == seq!['*'] {
        Some(0)
    } else {
        match position_of(items.drop_first(), remote) {
            Some(i) => Some(i + 1),
            None => None,
        }
    }
}

/// The priority of a remote: one more than the first position at which it
/// or the wildcard stands. A smaller number is a higher priority.
pub open spec fn remote_priority(items: Seq<Seq<char>>, remote: Seq<char>) -> Option<int> {
    match position_of(items, remote) {
        Some(i) => Some(i + 1),
        None => None,
    }
}

/// The priority of a reference name: zero, the highest, for a local
/// reference, and that of its remote for any other.
pub open spec fn ref_priority(items: Seq<Seq<char>>, name: Seq<char>) -> Option<int> {
    match remote_of(name) {
        Some(remote) => remote_priority(items, remote),
        None => Some(0),
    }
}

/// Whether the reference at position `i` is the one to select from `refs`:
/// it has a priority, none has a higher one, and none before it has the
/// same.
pub open spec fn is_selected(items: Seq<Seq<char>>, refs: Seq<RefView>, i: int) -> bool {
    &&& 0 <= i < refs.len()
    &&& ref_priority(items, refs[i].name) is Some
    &&& forall|j: int|
        0 <= j < refs.len() && (#[trigger] ref_priority(items, refs[j].name)) is Some ==> {
            let p = ref_priority(items, refs[i].name)->0;
            let q = ref_priority(items, refs[j].name)->0;
            p <= q && (p == q ==> i <= j)
        }
}

/// An order of preference among remotes.
pub struct RemotePriorization(pub Vec<String>);

impl RemotePriorization {
    /// The names of the remotes, the preferred ones first. The name `*`
    /// stands for any remote.
    pub open spec fn items(&self) -> Seq<Seq<char>> {
        views(self.0@)
    }

    /// Reads an order of preference from a list of names with commas
    /// between them.
    pub fn from(list: &str) -> (r: RemotePriorization)
        ensures
            r.items() == split(list@, ','),
    {
        RemotePriorization(split_on(list, ','))
    }

    /// The priority of a remote, if it has one. A smaller number is a higher
    /// priority.
    pub fn priority_for_remote(&self, remote: &str) -> (r: Option<usize>)
        ensures
            match r {
                Some(p) => remote_priority(self.items(), remote@) == Some(p as int),
                None => remote_priority(self.items(), remote@) is None,
            },
    {
        proof {
            reveal_strlit("*");
            assert("*"@ =~= seq!['*']);
        }
        let ghost items = self.items();
        let mut i: usize = 0;
        proof {
            assert(items.skip(0) =~= items);
        }
        while i < self.0.len()
            invariant
                i <= self.0@.len(),
                items == views(self.0@),
                position_of(items, remote@) == match position_of(items.skip(i as int), remote@) {
                    Some(k) => Some(k + i),
                    None => None,
                },
            decreases self.0@.len() - i,
        {
            proof {
                reveal_strlit("*");
                assert("*"@ =~= seq!['*']);
                assert(items.skip(i as int)[0] == self.0@[i as int]@);
                assert(items.skip(i as int).drop_first() =~= items.skip(i + 1));
            }
            if same_text(self.0[i].as_str(), remote) || same_text(self.0[i].as_str(), "*") {
                return Some(i + 1);
            }
            i += 1;
        }
        proof {
            assert(items.skip(i as int) =~= Seq::<Seq<char>>::empty());
        }
        None
    }

    /// The priority of a reference, if it has one: the highest for a local
    /// reference, and that of its remote for any other.
    pub fn priority_for_ref(&self, reference: &Reference) -> (r: Option<usize>)
        ensures
            match r {
                Some(p) => ref_priority(self.items(), reference@.name) == Some(p as int),
                None => ref_priority(self.items(), reference@.name) is None,
            },
    {
        match reference.remote() {
            Some(remote) => self.priority_for_remote(remote.as_str()),
            None => Some(0),
        }
    }
}

/// Selecting one of several references.
pub trait ReferrencesExt {
    /// The references to select from.
    spec fn candidates(&self) -> Seq<RefView>;

    /// The reference with the highest priority, and the first of those
    /// where there are several. None where no reference has a priority.
    fn select_ref(self, prios: &RemotePriorization) -> (r: Option<Reference>)
        ensures
            match r {
                Some(selected) => exists|i: int|
                    is_selected(prios.items(), self.candidates(), i) && self.candidates()[i]
                        == selected@,
                None => forall|i: int|
                    0 <= i < self.candidates().len() ==> (#[trigger] ref_priority(
                        prios.items(),
                        self.candidates()[i].name,
                    )) is None,
            },
    ;
}

impl ReferrencesExt for Vec<Reference> {
    open spec fn candidates(&self) -> Seq<RefView> {
        ref_views(self@)
    }

    fn select_ref(self, prios: &RemotePriorization) -> (r: Option<Reference>) {
        let ghost refs = ref_views(self@);
        let ghost items = prios.items();
        let mut best: Option<(usize, usize)> = None;
        let mut i: usize = 0;
        while i < self.len()
            invariant
                i <= self.len(),
                refs == ref_views(self@),
                items == prios.items(),
                match best {
                    Some((at, p)) => at < i && is_selected(items, refs.take(i as int), at as int)
                        && ref_priority(items, refs[at as int].name) == Some(p as int),
                    None => forall|j: int|
                        0 <= j < i ==> (#[trigger] ref_priority(items, refs[j].name)) is None,
                },
            decreases self.len() - i,
        {
            let ghost before = refs.take(i as int);
            let ghost now = refs.take(i + 1);
            proof {
                assert(refs[i as int] == self@[i as int]@);
                assert forall|j: int| 0 <= j < i implies now[j] == before[j] by {}
                assert(now[i as int] == refs[i as int]);
            }
            match prios.priority_for_ref(&self[i]) {
                Some(p) => {
                    let better = match best {
                        Some((_, q)) => p < q,
                        None => true,
                    };
                    if better {
                        best = Some((i, p));
                    }
                    proof {
                        let found = best->0;
                        let at = found.0 as int;
                        assert forall|j: int|
                            0 <= j < now.len() && (#[trigger] ref_priority(
                                items,
                                now[j].name,
                            )) is Some implies {
                            let p = ref_priority(items, now[at].name)->0;
                            let q = ref_priority(items, now[j].name)->0;
                            p <= q && (p == q ==> at <= j)
                        } by {
                            if j < i {
                                assert(now[j] == before[j]);
                            }
                        }
                    }
                },
                None => {
                    proof {
                        if best is Some {
                            let found = best->0;
                        let at = found.0 as int;
                            assert forall|j: int|
                                0 <= j < now.len() && (#[trigger] ref_priority(
                                    items,
                                    now[j].name,
                                )) is Some implies {
                                let p = ref_priority(items, now[at].name)->0;
                                let q = ref_priority(items, now[j].name)->0;
                                p <= q && (p == q ==> at <= j)
                            } by {
                                if j < i {
                                    assert(now[j] == before[j]);
                                }
                            }
                        }
                    }
                },
            }
            i += 1;
        }
        proof {
            assert(refs.take(i as int) =~= refs);
        }
        match best {
            Some((at, _)) => Some(self[at].duplicate()),
            None => None,
        }
    }
}

} // verus!
