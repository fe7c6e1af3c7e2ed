//! Issues and the names of their references.
//!
//! An issue is known by the id of its initial message. Its references live
//! below `dit/<id>/`: the head at `head`, and a leaf for each message at
//! `leaves/<message id>`. Local references stand below `refs/`, those of a
//! remote below `refs/remotes/<remote>/`.

use vstd::prelude::*;
use vstd::string::StringExecFns;

use crate::oid::{
    hex_of_id, id_of_hex, is_full_hex_id, lemma_hex_of_id_is_hex, lemma_id_of_hex_of_id, ObjectId,
};
use crate::history::{is_walk_from, reaches};
use crate::reference::{id_views, is_among};
use crate::text::{free_of, join, lemma_split_join, same_text, split, split_on, views};

verus! {

/// The kinds of reference that one can ask for.
#[derive(Clone, Copy, Debug, PartialEq, Eq, Structural)]
pub enum IssueRefType {
    /// Heads and leaves.
    Any,
    /// Heads.
    Head,
    /// Leaves.
    Leaf,
}

/// What a reference of an issue is: its head, or the leaf for a message.
#[derive(Clone, Copy, Debug, PartialEq, Eq)]
pub enum RefKind {
    Head,
    Leaf(ObjectId),
}

/// What the kind of a reference is to a contract.
pub enum RefKindView {
    Head,
    Leaf(Seq<u8>),
}

impl View for RefKind {
    type V = RefKindView;

    open spec fn view(&self) -> RefKindView {
        match self {
            RefKind::Head => RefKindView::Head,
            RefKind::Leaf(id) => RefKindView::Leaf(id@),
        }
    }
}

/// The part of a glob that selects references of a kind.
pub open spec fn glob_part_of(kind: IssueRefType) -> Seq<char> {
    match kind {
        IssueRefType::Any => "**"@,
        IssueRefType::Head => "head"@,
        IssueRefType::Leaf => "leaves/*"@,
    }
}

/// The issue and the kind of the reference named `name`, if it is the name
/// of a reference of an issue: a name that ends in `<id>/head` or in
/// `<id>/leaves/<message id>`, with a part `dit` somewhere before. An id is
/// forty hexadecimal digits.
pub open spec fn classify(name: Seq<char>) -> Option<(Seq<u8>, RefKindView)> {
    let parts = split(name, '/');
    let n = parts.len() as int;
    if n >= 1 && parts[n - 1] == "head"@ {
        if n >= 2 && is_full_hex_id(parts[n - 2]) && parts.take(n - 2).contains("dit"@) {
            Some((id_of_hex(parts[n - 2]), RefKindView::Head))
        } else {
            None
        }
    } else if n >= 1 && is_full_hex_id(parts[n - 1]) {
        if n >= 3 && parts[n - 2] == "leaves"@ && is_full_hex_id(parts[n - 3]) && parts.take(
            n - 3,
        ).contains("dit"@) {
            Some((id_of_hex(parts[n - 3]), RefKindView::Leaf(id_of_hex(parts[n - 1]))))
        } else {
            None
        }
    } else {
        None
    }
}

/// The kind to ask for in order to get references of the kind `kind`.
pub open spec fn type_of(kind: RefKindView) -> IssueRefType {
    match kind {
        RefKindView::Head => IssueRefType::Head,
        RefKindView::Leaf(_) => IssueRefType::Leaf,
    }
}

/// The views of the texts in `parts`.
pub open spec fn str_views(parts: Seq<&str>) -> Seq<Seq<char>> {
    parts.map_values(|s: &str| s@)
}

/// The texts of `parts` with a slash between them.
fn join_with_slash(parts: &Vec<&str>) -> (r: String)
    ensures
        r@ == join(str_views(parts@), '/'),
{
    let mut r = String::new();
    let mut i: usize = 0;
    proof {
        assert(str_views(parts@).take(0) =~= Seq::<Seq<char>>::empty());
    }
    while i < parts.len()
        invariant
            i <= parts.len(),
            r@ == join(str_views(parts@).take(i as int), '/'),
        decreases parts.len() - i,
    {
        proof {
            reveal_strlit("/");
            let now = str_views(parts@).take(i + 1);
            assert(now.drop_last() =~= str_views(parts@).take(i as int));
            assert(now.last() == parts@[i as int]@);
            if i == 0 {
                assert(Seq::<char>::empty() + parts@[0]@ =~= parts@[0]@);
            } else {
                assert("/"@ =~= seq!['/']);
                assert(r@ + "/"@ =~= r@.push('/'));
            }
        }
        if i > 0 {
            r.append("/");
        }
        r.append(parts[i]);
        i += 1;
    }
    proof {
        assert(str_views(parts@).take(i as int) =~= str_views(parts@));
    }
    r
}

impl IssueRefType {
    /// The part of a glob that selects references of this kind.
    pub fn glob_part(&self) -> (r: &'static str)
        ensures
            r@ == glob_part_of(*self),
    {
        match *self {
            IssueRefType::Any => "**",
            IssueRefType::Head => "head",
            IssueRefType::Leaf => "leaves/*",
        }
    }

    /// The issue and the kind of the reference named `refname`, if it is the
    /// name of a reference of an issue.
    pub fn of_ref(refname: &str) -> (r: Option<(ObjectId, IssueRefType)>)
        ensures
            match r {
                Some((id, kind)) => classify(refname@) matches Some(found) && found.0 == id@
                    && kind == type_of(found.1),
                None => classify(refname@) is None,
            },
    {
        match classify_ref(refname) {
            Some((id, RefKind::Head)) => Some((id, IssueRefType::Head)),
            Some((id, RefKind::Leaf(_))) => Some((id, IssueRefType::Leaf)),
            None => None,
        }
    }
}

/// Whether one of the first `n` of `parts` is `dit`.
fn has_dit(parts: &Vec<String>, n: usize) -> (b: bool)
    requires
        n <= parts.len(),
    ensures
        b == views(parts@).take(n as int).contains("dit"@),
{
    let ghost head = views(parts@).take(n as int);
    let mut i: usize = 0;
    while i < n
        invariant
            i <= n <= parts.len(),
            head == views(parts@).take(n as int),
            forall|j: int| 0 <= j < i ==> head[j] != "dit"@,
        decreases n - i,
    {
        if same_text(parts[i].as_str(), "dit") {
            proof {
                assert(head[i as int] == "dit"@);
            }
            return true;
        }
        i += 1;
    }
    false
}

/// The issue and the kind of the reference named `refname`, if it is the
/// name of a reference of an issue. For a leaf the kind holds the id of the
/// message.
pub fn classify_ref(refname: &str) -> (r: Option<(ObjectId, RefKind)>)
    ensures
        match r {
            Some((id, kind)) => classify(refname@) == Some((id@, kind@)),
            None => classify(refname@) is None,
        },
{
    let parts = split_on(refname, '/');
    let n = parts.len();
    proof {
        crate::text::lemma_split_shape(refname@, '/');
        assert forall|i: int| 0 <= i < n implies views(parts@)[i] == parts@[i]@ by {}
    }
    if same_text(parts[n - 1].as_str(), "head") {
        if n < 2 {
            return None;
        }
        match ObjectId::from_full_hex(parts[n - 2].as_str()) {
            Some(id) => {
                if has_dit(&parts, n - 2) {
                    Some((id, RefKind::Head))
                } else {
                    None
                }
            },
            None => None,
        }
    } else {
        match ObjectId::from_full_hex(parts[n - 1].as_str()) {
            Some(message) => {
                if n < 3 || !same_text(parts[n - 2].as_str(), "leaves") {
                    return None;
                }
                match ObjectId::from_full_hex(parts[n - 3].as_str()) {
                    Some(id) => {
                        if has_dit(&parts, n - 3) {
                            Some((id, RefKind::Leaf(message)))
                        } else {
                            None
                        }
                    },
                    None => None,
                }
            },
            None => None,
        }
    }
}

/// The name of the local head of the issue `id`.
pub open spec fn head_name(id: Seq<u8>) -> Seq<char> {
    join(seq!["refs"@, "dit"@, hex_of_id(id), "head"@], '/')
}

/// The name of the local leaf of the issue `id` for the message `message`.
pub open spec fn leaf_name(id: Seq<u8>, message: Seq<u8>) -> Seq<char> {
    join(seq!["refs"@, "dit"@, hex_of_id(id), "leaves"@, hex_of_id(message)], '/')
}

/// The name of the local reference of the kind `kind` of the issue `id`.
pub open spec fn ref_name(id: Seq<u8>, kind: RefKindView) -> Seq<char> {
    match kind {
        RefKindView::Head => head_name(id),
        RefKindView::Leaf(message) => leaf_name(id, message),
    }
}

/// The glob that selects the local references of a kind of the issue
/// `id`.
pub open spec fn local_glob(id: Seq<u8>, kind: IssueRefType) -> Seq<char> {
    join(seq!["refs"@, "dit"@, hex_of_id(id), glob_part_of(kind)], '/')
}

/// The glob that selects the references of a kind of the issue `id` that
/// remotes have.
pub open spec fn remote_glob(id: Seq<u8>, kind: IssueRefType) -> Seq<char> {
    join(seq!["refs"@, "remotes"@, "*"@, "dit"@, hex_of_id(id), glob_part_of(kind)], '/')
}

/// The glob that selects the references of a kind of the issue `id`, local
/// ones and those that remotes have.
pub open spec fn any_glob(id: Seq<u8>, kind: IssueRefType) -> Seq<char> {
    join(seq!["**"@, "dit"@, hex_of_id(id), glob_part_of(kind)], '/')
}

/// Where a walk over messages is to start, what it is to leave out, and how
/// it is to go.
#[derive(Debug, Clone)]
pub struct WalkPlan {
    /// The commits to start at.
    pub push: Vec<ObjectId>,
    /// A glob; the walk starts at the target of each reference it selects.
    pub push_glob: Option<String>,
    /// The commits to leave out, together with their ancestors.
    pub hide: Vec<ObjectId>,
    /// Whether the walk follows first parents only.
    pub first_parent: bool,
    /// Whether the walk hands out no commit before all its descendants.
    pub topological: bool,
}

/// An issue.
#[derive(Clone, Copy, Debug, Eq, Hash)]
pub struct Issue {
    id: ObjectId,
}

impl View for Issue {
    type V = Seq<u8>;

    closed spec fn view(&self) -> Seq<u8> {
        self.id@
    }
}

impl PartialEq for Issue {
    fn eq(&self, other: &Issue) -> (r: bool) {
        self.id == other.id
    }
}

impl vstd::std_specs::cmp::PartialEqSpecImpl for Issue {
    open spec fn obeys_eq_spec() -> bool {
        true
    }

    open spec fn eq_spec(&self, other: &Issue) -> bool {
        self@ == other@
    }
}

impl Issue {
    /// The issue whose initial message is `id`.
    pub fn new(id: ObjectId) -> (issue: Issue)
        ensures
            issue@ == id@,
    {
        Issue { id }
    }

    /// The id of the issue: that of its initial message.
    pub fn id(&self) -> (id: ObjectId)
        ensures
            id@ == self@,
    {
        self.id
    }

    /// The part of the names of the issue's references that is particular
    /// to the issue: its id in hexadecimal digits.
    pub fn ref_part(&self) -> (r: String)
        ensures
            r@ == hex_of_id(self@),
    {
        self.id.to_string()
    }

    /// The id of the issue in hexadecimal digits.
    pub fn to_string(&self) -> (r: String)
        ensures
            r@ == hex_of_id(self@),
    {
        self.id.to_string()
    }

    /// The glob that selects the heads of the issue, the local one and
    /// those that remotes have.
    pub fn heads(&self) -> (glob: String)
        ensures
            glob@ == any_glob(self@, IssueRefType::Head),
    {
        self.all_refs(IssueRefType::Head)
    }

    /// The name of the local head of the issue.
    pub fn local_head(&self) -> (name: String)
        ensures
            name@ == head_name(self@),
    {
        let part = self.ref_part();
        let parts: Vec<&str> = vec!["refs", "dit", part.as_str(), "head"];
        proof {
            assert(str_views(parts@) =~= seq!["refs"@, "dit"@, part@, "head"@]);
        }
        join_with_slash(&parts)
    }

    /// The glob that selects the local references of the issue of a kind.
    pub fn local_refs(&self, ref_type: IssueRefType) -> (glob: String)
        ensures
            glob@ == local_glob(self@, ref_type),
    {
        let part = self.ref_part();
        let parts: Vec<&str> = vec!["refs", "dit", part.as_str(), ref_type.glob_part()];
        proof {
            assert(str_views(parts@) =~= seq!["refs"@, "dit"@, part@, glob_part_of(ref_type)]);
        }
        join_with_slash(&parts)
    }

    /// The glob that selects the references of the issue of a kind that
    /// remotes have.
    pub fn remote_refs(&self, ref_type: IssueRefType) -> (glob: String)
        ensures
            glob@ == remote_glob(self@, ref_type),
    {
        let part = self.ref_part();
        let parts: Vec<&str> = vec![
            "refs",
            "remotes",
            "*",
            "dit",
            part.as_str(),
            ref_type.glob_part(),
        ];
        proof {
            assert(str_views(parts@) =~= seq![
                "refs"@,
                "remotes"@,
                "*"@,
                "dit"@,
                part@,
                glob_part_of(ref_type),
            ]);
        }
        join_with_slash(&parts)
    }

    /// The glob that selects the references of the issue of a kind, local
    /// ones and those that remotes have.
    pub fn all_refs(&self, ref_type: IssueRefType) -> (glob: String)
        ensures
            glob@ == any_glob(self@, ref_type),
    {
        let part = self.ref_part();
        let parts: Vec<&str> = vec!["**", "dit", part.as_str(), ref_type.glob_part()];
        proof {
            assert(str_views(parts@) =~= seq!["**"@, "dit"@, part@, glob_part_of(ref_type)]);
        }
        join_with_slash(&parts)
    }

    /// The name of the leaf of the issue for the message `message`.
    pub fn add_leaf(&self, message: ObjectId) -> (name: String)
        ensures
            name@ == leaf_name(self@, message@),
    {
        let part = self.ref_part();
        let leaf = message.to_string();
        let parts: Vec<&str> = vec!["refs", "dit", part.as_str(), "leaves", leaf.as_str()];
        proof {
            assert(str_views(parts@) =~= seq!["refs"@, "dit"@, part@, "leaves"@, leaf@]);
        }
        join_with_slash(&parts)
    }

    /// The name of the local reference of the issue of the kind `kind`.
    pub fn ref_name(&self, kind: RefKind) -> (name: String)
        ensures
            name@ == ref_name(self@, kind@),
    {
        match kind {
            RefKind::Head => self.local_head(),
            RefKind::Leaf(message) => self.add_leaf(message),
        }
    }

    /// The note that goes with setting the head of the issue to `message`.
    /// Whether the head may be set there is for [`head_update_allowed`] to
    /// say.
    pub fn update_head(&self, message: ObjectId) -> (note: String)
        ensures
            note@ == "git-dit: set head reference of "@ + hex_of_id(self@) + " to "@ + hex_of_id(
                message@,
            ),
    {
        let mut note = String::from_str("git-dit: set head reference of ");
        note.append(self.ref_part().as_str());
        note.append(" to ");
        note.append(message.to_string().as_str());
        note
    }

    /// The note that goes with a new leaf of the issue for `message`.
    pub fn leaf_note(&self, message: ObjectId) -> (note: String)
        ensures
            note@ == "git-dit: new leaf for "@ + hex_of_id(self@) + ": "@ + hex_of_id(message@),
    {
        let mut note = String::from_str("git-dit: new leaf for ");
        note.append(self.ref_part().as_str());
        note.append(": ");
        note.append(message.to_string().as_str());
        note
    }

    /// A walk that stops at the initial message of the issue, which has the
    /// parents `initial_parents`, and starts nowhere yet: it leaves out the
    /// parents of the initial message, follows first parents only and hands
    /// out no message before the replies to it.
    pub fn terminated_messages(&self, initial_parents: &Vec<ObjectId>) -> (plan: WalkPlan)
        ensures
            plan.push@.len() == 0,
            plan.push_glob is None,
            id_views(plan.hide@) == id_views(initial_parents@),
            plan.first_parent,
            plan.topological,
    {
        WalkPlan {
            push: Vec::new(),
            push_glob: None,
            hide: copy_ids(initial_parents),
            first_parent: true,
            topological: true,
        }
    }

    /// The walk over all messages of the issue: it starts at every
    /// reference of the issue and stops at the initial message.
    pub fn messages(&self, initial_parents: &Vec<ObjectId>) -> (plan: WalkPlan)
        ensures
            plan.push@.len() == 0,
            plan.push_glob is Some,
            plan.push_glob->0@ == any_glob(self@, IssueRefType::Any),
            id_views(plan.hide@) == id_views(initial_parents@),
            plan.first_parent,
            plan.topological,
    {
        let mut plan = self.terminated_messages(initial_parents);
        plan.push_glob = Some(self.all_refs(IssueRefType::Any));
        plan
    }

    /// The walk over the messages of the issue from `message` back to the
    /// initial message.
    pub fn messages_from(&self, message: ObjectId, initial_parents: &Vec<ObjectId>) -> (plan:
        WalkPlan)
        ensures
            id_views(plan.push@) == seq![message@],
            plan.push_glob is None,
            id_views(plan.hide@) == id_views(initial_parents@),
            plan.first_parent,
            plan.topological,
    {
        let mut plan = self.terminated_messages(initial_parents);
        plan.push.push(message);
        proof {
            assert(id_views(plan.push@) =~= seq![message@]);
        }
        plan
    }
}

/// Whether the head of an issue may be set, where the head now points to
/// `current`, if there is a head, the commits `reached` are what a walk from
/// the new target visits, and `allow` says whether the head may move to
/// where it does not lead on from where it was. A head that does not exist
/// yet may always be set. One that exists may be moved forward: to a commit
/// from which the walk reaches the commit it points to now.
pub open spec fn update_allowed(current: Option<Seq<u8>>, reached: Seq<Seq<u8>>, allow: bool) -> bool {
    allow || current is None || reached.contains(current->0)
}

/// Whether the head of an issue may be set: see [`update_allowed`]. The
/// commits `reached_from_new` are those that a walk from the new target
/// visits.
pub fn head_update_allowed(
    current: Option<ObjectId>,
    reached_from_new: &Vec<ObjectId>,
    allow_non_fast_forward: bool,
) -> (ok: bool)
    ensures
        ok == update_allowed(
            view_of_id(current),
            id_views(reached_from_new@),
            allow_non_fast_forward,
        ),
{
    if allow_non_fast_forward {
        return true;
    }
    match current {
        None => true,
        Some(id) => is_among(&id, reached_from_new),
    }
}

/// What an id that may be absent is to a contract.
pub open spec fn view_of_id(id: Option<ObjectId>) -> Option<Seq<u8>> {
    match id {
        Some(id) => Some(id@),
        None => None,
    }
}

/// Where moving the head past where it does not lead on is not allowed, a
/// head that exists may be set exactly to its own target or to a descendant
/// of it, given that the walk from the new target visited what it should.
pub proof fn lemma_allowed_is_fast_forward(
    g: Map<Seq<u8>, Seq<Seq<u8>>>,
    current: Seq<u8>,
    new: Seq<u8>,
    reached: Seq<Seq<u8>>,
)
    requires
        is_walk_from(g, seq![new], reached),
    ensures
        update_allowed(Some(current), reached, false) <==> reaches(g, new, current),
{
    let seeds = seq![new];
    if reaches(g, new, current) {
        assert(reaches(g, seeds[0], current));
    }
}

/// A copy of `ids`.
pub fn copy_ids(ids: &Vec<ObjectId>) -> (copy: Vec<ObjectId>)
    ensures
        id_views(copy@) == id_views(ids@),
{
    let mut copy: Vec<ObjectId> = Vec::new();
    let mut i: usize = 0;
    while i < ids.len()
        invariant
            i <= ids.len(),
            id_views(copy@) == id_views(ids@).take(i as int),
        decreases ids.len() - i,
    {
        proof {
            let all = id_views(ids@);
            assert(id_views(copy@.push(ids@[i as int])) =~= id_views(copy@).push(ids@[i as int]@));
            assert(all.take(i + 1) =~= all.take(i as int).push(all[i as int]));
        }
        copy.push(ids[i]);
        i += 1;
    }
    proof {
        assert(id_views(ids@).take(i as int) =~= id_views(ids@));
    }
    copy
}

/// The parts of the names that this module writes hold no slash.
proof fn lemma_plain_parts()
    ensures
        !"refs"@.contains('/'),
        !"dit"@.contains('/'),
        !"head"@.contains('/'),
        !"leaves"@.contains('/'),
        "head"@.len() == 4,
        "leaves"@.len() == 6,
        "dit"@.len() == 3,
        "refs"@.len() == 4,
{
    reveal_strlit("refs");
    reveal_strlit("dit");
    reveal_strlit("head");
    reveal_strlit("leaves");
    assert(!"refs"@.contains('/')) by {
        if "refs"@.contains('/') {
            let j = choose|j: int| 0 <= j < "refs"@.len() && "refs"@[j] == '/';
        }
    }
    assert(!"dit"@.contains('/')) by {
        if "dit"@.contains('/') {
            let j = choose|j: int| 0 <= j < "dit"@.len() && "dit"@[j] == '/';
        }
    }
    assert(!"head"@.contains('/')) by {
        if "head"@.contains('/') {
            let j = choose|j: int| 0 <= j < "head"@.len() && "head"@[j] == '/';
        }
    }
    assert(!"leaves"@.contains('/')) by {
        if "leaves"@.contains('/') {
            let j = choose|j: int| 0 <= j < "leaves"@.len() && "leaves"@[j] == '/';
        }
    }
}

/// The digits of an id hold no slash.
proof fn lemma_hex_plain(id: Seq<u8>)
    ensures
        !hex_of_id(id).contains('/'),
{
    lemma_hex_of_id_is_hex(id);
    if hex_of_id(id).contains('/') {
        let j = choose|j: int| 0 <= j < hex_of_id(id).len() && hex_of_id(id)[j] == '/';
        assert(hex_of_id(id)[j] != '/');
    }
}

/// The parts of the name of a head.
proof fn lemma_head_parts(id: Seq<u8>)
    ensures
        split(head_name(id), '/') == seq!["refs"@, "dit"@, hex_of_id(id), "head"@],
{
    lemma_plain_parts();
    lemma_hex_plain(id);
    let parts = seq!["refs"@, "dit"@, hex_of_id(id), "head"@];
    assert(free_of(parts, '/')) by {
        assert forall|i: int| 0 <= i < parts.len() implies !(#[trigger] parts[i]).contains(
            '/',
        ) by {
            if i == 0 {
            } else if i == 1 {
            } else if i == 2 {
            } else {
            }
        }
    }
    lemma_split_join(parts, '/');
}

/// The parts of the name of a leaf.
proof fn lemma_leaf_parts(id: Seq<u8>, message: Seq<u8>)
    ensures
        split(leaf_name(id, message), '/') == seq![
            "refs"@,
            "dit"@,
            hex_of_id(id),
            "leaves"@,
            hex_of_id(message),
        ],
{
    lemma_plain_parts();
    lemma_hex_plain(id);
    lemma_hex_plain(message);
    let parts = seq!["refs"@, "dit"@, hex_of_id(id), "leaves"@, hex_of_id(message)];
    assert(free_of(parts, '/')) by {
        assert forall|i: int| 0 <= i < parts.len() implies !(#[trigger] parts[i]).contains(
            '/',
        ) by {
            if i == 0 {
            } else if i == 1 {
            } else if i == 2 {
            } else if i == 3 {
            } else {
            }
        }
    }
    lemma_split_join(parts, '/');
}

/// The name of the head of an issue is classified as the head of that
/// issue.
pub proof fn lemma_classify_head(id: Seq<u8>)
    requires
        id.len() == 20,
    ensures
        classify(head_name(id)) == Some((id, RefKindView::Head)),
{
    lemma_head_parts(id);
    lemma_hex_of_id_is_hex(id);
    lemma_id_of_hex_of_id(id);
    let parts = split(head_name(id), '/');
    assert(parts.len() == 4);
    assert(parts[3] == "head"@);
    assert(parts[2] == hex_of_id(id));
    assert(parts.take(2)[1] == "dit"@);
    assert(parts.take(2).contains("dit"@));
}

/// The name of the leaf of an issue for a message is classified as the leaf
/// of that issue for that message.
pub proof fn lemma_classify_leaf(id: Seq<u8>, message: Seq<u8>)
    requires
        id.len() == 20,
        message.len() == 20,
    ensures
        classify(leaf_name(id, message)) == Some((id, RefKindView::Leaf(message))),
{
    lemma_leaf_parts(id, message);
    lemma_plain_parts();
    lemma_hex_of_id_is_hex(id);
    lemma_id_of_hex_of_id(id);
    lemma_hex_of_id_is_hex(message);
    lemma_id_of_hex_of_id(message);
    let parts = split(leaf_name(id, message), '/');
    assert(parts.len() == 5);
    assert(parts[4] == hex_of_id(message));
    assert(parts[3] == "leaves"@);
    assert(parts[2] == hex_of_id(id));
    // Forty digits are not the four letters of `head`.
    assert(parts[4].len() == 40);
    assert(parts[4] != "head"@);
    assert(parts.take(2)[1] == "dit"@);
    assert(parts.take(2).contains("dit"@));
}

/// The name that is built for a reference of an issue is classified as
/// that reference of that issue. So classifying a name that was built and
/// building the name for what was found gives the same name.
pub proof fn lemma_classify_built(id: Seq<u8>, kind: RefKindView)
    requires
        id.len() == 20,
        kind matches RefKindView::Leaf(message) ==> message.len() == 20,
    ensures
        classify(ref_name(id, kind)) == Some((id, kind)),
        classify(ref_name(id, kind)) matches Some(found) && ref_name(found.0, found.1) == ref_name(
            id,
            kind,
        ),
{
    match kind {
        RefKindView::Head => {
            lemma_classify_head(id);
        },
        RefKindView::Leaf(message) => {
            lemma_classify_leaf(id, message);
        },
    }
}

/// The name of a leaf is the glob for the local leaves of its issue with
/// the digits of the message in the place of the `*`, and those digits hold
/// no slash: the glob selects the leaf.
pub proof fn lemma_leaf_name_fits_glob(id: Seq<u8>, message: Seq<u8>)
    ensures
        leaf_name(id, message) == join(seq!["refs"@, "dit"@, hex_of_id(id)], '/') + "/leaves/"@
            + hex_of_id(message),
        local_glob(id, IssueRefType::Leaf) == join(seq!["refs"@, "dit"@, hex_of_id(id)], '/')
            + "/leaves/"@ + "*"@,
        !hex_of_id(message).contains('/'),
{
    lemma_hex_plain(message);
    reveal_strlit("leaves");
    reveal_strlit("/leaves/");
    reveal_strlit("leaves/*");
    reveal_strlit("*");
    let base = seq!["refs"@, "dit"@, hex_of_id(id)];
    let name = seq!["refs"@, "dit"@, hex_of_id(id), "leaves"@, hex_of_id(message)];
    let glob = seq!["refs"@, "dit"@, hex_of_id(id), "leaves/*"@];
    assert(name.drop_last().drop_last() =~= base);
    assert(glob.drop_last() =~= base);
    assert(join(name.drop_last(), '/') == join(base, '/').push('/') + "leaves"@);
    assert(join(name, '/') =~= join(base, '/') + "/leaves/"@ + hex_of_id(message));
    assert(join(glob, '/') =~= join(base, '/') + "/leaves/"@ + "*"@);
}

/// No head has the name of a leaf.
pub proof fn lemma_head_is_no_leaf(head: Seq<u8>, issue: Seq<u8>, message: Seq<u8>)
    requires
        head.len() == 20,
        issue.len() == 20,
        message.len() == 20,
    ensures
        head_name(head) != leaf_name(issue, message),
{
    lemma_classify_head(head);
    lemma_classify_leaf(issue, message);
}

} // verus!
