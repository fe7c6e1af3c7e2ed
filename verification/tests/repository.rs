//! The library at work on repositories that `git2` keeps.

use git2::{Commit, ObjectType, Oid, Repository, RepositoryInitOptions, Signature, Sort, Tree};
use libgitdit::gc::{CollectableRefs, IssueRefs, Leaf, ReferenceCollectionSpec};
use libgitdit::issue::{head_update_allowed, Issue, IssueRefType, WalkPlan};
use libgitdit::iter::RefsReferringTo;
use libgitdit::oid::ObjectId;
use libgitdit::reference::Reference;
use libgitdit::repository;
use libgitdit::repository::Step;

/// A bare repository without references.
fn testing_repo(name: &str) -> Repository {
    let path = format!("/tmp/libgitdit-tests/{}", name);
    let repo = Repository::init_opts(
        path,
        RepositoryInitOptions::new().bare(true).mkdir(true).mkpath(true),
    )
    .expect("Could not open/init repository");
    let names: Vec<String> = repo
        .references()
        .expect("Could not list references")
        .map(|r| r.expect("Could not read reference").name().expect("a name").to_string())
        .collect();
    for name in names {
        repo.find_reference(&name)
            .and_then(|mut r| r.delete())
            .expect("Could not delete reference");
    }
    repo
}

fn to_id(oid: Oid) -> ObjectId {
    ObjectId::from_hex(&oid.to_string()).expect("an id")
}

fn to_oid(id: ObjectId) -> Oid {
    Oid::from_bytes(&id.as_bytes()).expect("an id")
}

fn empty_tree(repo: &Repository) -> Tree<'_> {
    repo.treebuilder(None)
        .and_then(|treebuilder| treebuilder.write())
        .and_then(|oid| repo.find_tree(oid))
        .expect("Could not create empty tree")
}

fn create_issue(
    repo: &Repository,
    sig: &Signature,
    message: &str,
    tree: &Tree,
    parents: Vec<&Commit>,
) -> Issue {
    let id = repo
        .commit(None, sig, sig, message, tree, &parents)
        .expect("Could not create issue");
    let issue = Issue::new(to_id(id));
    repo.reference(&issue.local_head(), id, true, &issue.update_head(issue.id()))
        .expect("Could not create issue");
    issue
}

fn initial_message<'r>(repo: &'r Repository, issue: &Issue) -> Commit<'r> {
    repo.find_commit(to_oid(issue.id()))
        .expect("Could not retrieve initial message")
}

fn add_message<'r>(
    repo: &'r Repository,
    issue: &Issue,
    sig: &Signature,
    message: &str,
    tree: &Tree,
    parents: Vec<&Commit>,
) -> Commit<'r> {
    let id = repo
        .commit(None, sig, sig, message, tree, &parents)
        .expect("Could not add message");
    repo.reference(&issue.add_leaf(to_id(id)), id, false, &issue.leaf_note(to_id(id)))
        .expect("Could not add message");
    repo.find_commit(id).expect("Could not add message")
}

fn try_update_head(repo: &Repository, issue: &Issue, message: Oid, replace: bool) -> bool {
    let current = repo
        .find_reference(&issue.local_head())
        .ok()
        .and_then(|head| head.target())
        .map(to_id);
    let reached: Vec<ObjectId> = {
        let mut revwalk = repo.revwalk().expect("Could not create revwalk");
        revwalk.push(message).expect("Could not push commit onto revwalk");
        revwalk.map(|id| to_id(id.expect("Could not walk"))).collect()
    };
    if !head_update_allowed(current, &reached, replace) {
        return false;
    }
    repo.reference(&issue.local_head(), message, true, &issue.update_head(to_id(message)))
        .expect("Could not update head");
    true
}

fn update_head_to(repo: &Repository, issue: &Issue, message: Oid, replace: bool) {
    assert!(try_update_head(repo, issue, message, replace), "Could not update head");
}

fn references(repo: &Repository, glob: &str) -> Vec<Reference> {
    repo.references_glob(glob)
        .expect("Could not retrieve references")
        .map(|r| {
            let r = r.expect("Could not retrieve reference");
            let target = r.peel(ObjectType::Commit).expect("Could not peel ref").id();
            Reference::new(r.name().expect("a name").to_string(), to_id(target))
        })
        .collect()
}

fn walk(repo: &Repository, plan: &WalkPlan) -> Vec<ObjectId> {
    let mut revwalk = repo.revwalk().expect("Could not create revwalk");
    for id in plan.hide.iter() {
        revwalk.hide(to_oid(*id)).expect("Could not hide commit");
    }
    if plan.first_parent {
        revwalk.simplify_first_parent().expect("Could not simplify");
    }
    if plan.topological {
        revwalk.set_sorting(Sort::TOPOLOGICAL).expect("Could not sort");
    }
    for id in plan.push.iter() {
        revwalk.push(to_oid(*id)).expect("Could not push commit onto revwalk");
    }
    if let Some(glob) = &plan.push_glob {
        for reference in references(repo, glob) {
            revwalk
                .push(to_oid(reference.target))
                .expect("Could not push commit onto revwalk");
        }
    }
    revwalk.map(|id| to_id(id.expect("Could not walk"))).collect()
}

fn plain_walk(repo: &Repository, seeds: &[ObjectId]) -> Vec<ObjectId> {
    let mut revwalk = repo.revwalk().expect("Could not create revwalk");
    for id in seeds {
        revwalk.push(to_oid(*id)).expect("Could not push commit onto revwalk");
    }
    revwalk.map(|id| to_id(id.expect("Could not walk"))).collect()
}

fn initial_parents(repo: &Repository, issue: &Issue) -> Vec<ObjectId> {
    initial_message(repo, issue).parent_ids().map(to_id).collect()
}

fn messages(repo: &Repository, issue: &Issue) -> Vec<ObjectId> {
    walk(repo, &issue.messages(&initial_parents(repo, issue)))
}

fn lookup_issue(repo: &Repository, id: ObjectId) -> Result<Issue, libgitdit::error::Kind> {
    repository::find_issue(id, references(repo, &Issue::new(id).heads()).len())
}

fn first_parent_chain(repo: &Repository, message: ObjectId) -> Vec<Step> {
    walk(repo, &repository::first_parent_messages(message))
        .into_iter()
        .map(|id| Step { id, is_initial: lookup_issue(repo, id).is_ok() })
        .collect()
}

fn issue_refs(repo: &Repository, issue: &Issue) -> IssueRefs {
    IssueRefs {
        local_head: references(repo, &issue.local_refs(IssueRefType::Head)).pop(),
        remote_heads: references(repo, &issue.remote_refs(IssueRefType::Head)),
        local_leaves: references(repo, &issue.local_refs(IssueRefType::Leaf))
            .into_iter()
            .map(|reference| {
                let parents = repo
                    .find_commit(to_oid(reference.target))
                    .expect("Could not find commit")
                    .parent_ids()
                    .map(to_id)
                    .collect();
                Leaf { reference, parents }
            })
            .collect(),
        remote_refs: references(repo, &issue.remote_refs(IssueRefType::Any)),
    }
}

fn collect(repo: &Repository, gc: CollectableRefs) -> Vec<Reference> {
    let head_walks: Vec<Vec<ObjectId>> =
        (0..gc.len()).map(|i| plain_walk(repo, &gc.head_seeds(i))).collect();
    let leaves_walk = plain_walk(repo, &gc.leaf_seeds());
    gc.into_refs(&head_walks, &leaves_walk)
}

fn signature() -> Signature<'static> {
    Signature::now("Foo Bar", "foo.bar@example.com").expect("Could not create signature")
}

// Collecting references

#[test]
fn collectable_leaves() {
    let repo = testing_repo("collectable_leaves");
    let sig = signature();
    let empty_tree = empty_tree(&repo);

    let mut refs_to_collect = Vec::new();
    let mut issues = Vec::new();

    {
        // issue not supposed to be affected
        let issue = create_issue(&repo, &sig, "Test message 1", &empty_tree, vec![]);
        let initial_message = initial_message(&repo, &issue);
        add_message(&repo, &issue, &sig, "Test message 2", &empty_tree, vec![&initial_message]);
    }

    {
        let issue = create_issue(&repo, &sig, "Test message 3", &empty_tree, vec![]);
        let initial_message = initial_message(&repo, &issue);
        let message =
            add_message(&repo, &issue, &sig, "Test message 4", &empty_tree, vec![&initial_message]);
        update_head_to(&repo, &issue, message.id(), true);
        issues.push(issue);
        refs_to_collect.push(to_id(message.id()));
    }

    {
        let issue = create_issue(&repo, &sig, "Test message 5", &empty_tree, vec![]);
        let initial_message = initial_message(&repo, &issue);
        let message1 =
            add_message(&repo, &issue, &sig, "Test message 6", &empty_tree, vec![&initial_message]);
        add_message(&repo, &issue, &sig, "Test message 7", &empty_tree, vec![&message1]);
        issues.push(issue);
        refs_to_collect.push(to_id(message1.id()));
    }

    refs_to_collect.sort();

    let gathered = issues.iter().map(|issue| issue_refs(&repo, issue)).collect();
    let gc = CollectableRefs::new(gathered)
        .collect_heads(ReferenceCollectionSpec::BackedByRemoteHead);
    let mut collected: Vec<_> = collect(&repo, gc).into_iter().map(|r| r.target).collect();
    collected.sort();
    assert_eq!(refs_to_collect, collected);
}

#[test]
fn collecting_with_defaults() {
    // An issue with the initial message `i`, the reply `r1` to it and the
    // reply `r2` to `r1`, both with leaves, and the head at `r2`.
    let repo = testing_repo("collecting_with_defaults");
    let sig = signature();
    let empty_tree = empty_tree(&repo);
    let issue = create_issue(&repo, &sig, "Test message 1", &empty_tree, vec![]);
    let i = initial_message(&repo, &issue);
    let r1 = add_message(&repo, &issue, &sig, "Test message 2", &empty_tree, vec![&i]);
    let r2 = add_message(&repo, &issue, &sig, "Test message 3", &empty_tree, vec![&r1]);
    update_head_to(&repo, &issue, r2.id(), true);

    let collected = collect(&repo, CollectableRefs::new(vec![issue_refs(&repo, &issue)]));
    let names: Vec<String> = collected.into_iter().map(|r| r.name).collect();
    // The leaf at `r1` is covered by the parent of the leaf at `r2`, and the
    // leaf at `r2` by the head. The head stays.
    let mut expected = vec![issue.add_leaf(to_id(r1.id())), issue.add_leaf(to_id(r2.id()))];
    expected.sort();
    let mut names = names;
    names.sort();
    assert_eq!(names, expected);
    assert!(!names.contains(&issue.local_head()));
}

#[test]
fn a_leaf_ahead_of_the_head_stays() {
    let repo = testing_repo("a_leaf_ahead_of_the_head_stays");
    let sig = signature();
    let empty_tree = empty_tree(&repo);
    let issue = create_issue(&repo, &sig, "Test message 1", &empty_tree, vec![]);
    let i = initial_message(&repo, &issue);
    let r1 = add_message(&repo, &issue, &sig, "Test message 2", &empty_tree, vec![&i]);
    let r2 = add_message(&repo, &issue, &sig, "Test message 3", &empty_tree, vec![&r1]);

    let collected = collect(&repo, CollectableRefs::new(vec![issue_refs(&repo, &issue)]));
    let names: Vec<String> = collected.into_iter().map(|r| r.name).collect();
    assert_eq!(names, vec![issue.add_leaf(to_id(r1.id()))]);
    assert!(!names.contains(&issue.add_leaf(to_id(r2.id()))));
}

// Issues

#[test]
fn issue_leaves() {
    let repo = testing_repo("issue_leaves");
    let sig = signature();
    let empty_tree = empty_tree(&repo);

    {
        // messages we're not supposed to see
        let issue = create_issue(&repo, &sig, "Test message 1", &empty_tree, vec![]);
        let initial_message = initial_message(&repo, &issue);
        add_message(&repo, &issue, &sig, "Test message 2", &empty_tree, vec![&initial_message]);
    }

    let issue = create_issue(&repo, &sig, "Test message 3", &empty_tree, vec![]);
    let initial_message = initial_message(&repo, &issue);
    let message =
        add_message(&repo, &issue, &sig, "Test message 4", &empty_tree, vec![&initial_message]);

    let mut leaves = references(&repo, &issue.local_refs(IssueRefType::Leaf)).into_iter();
    let leaf = leaves.next().expect("Could not find leaf reference").target;
    assert_eq!(leaf, to_id(message.id()));
    assert!(leaves.next().is_none());
}

#[test]
fn local_refs() {
    let repo = testing_repo("local_refs");
    let sig = signature();
    let empty_tree = empty_tree(&repo);

    {
        // messages we're not supposed to see
        let issue = create_issue(&repo, &sig, "Test message 1", &empty_tree, vec![]);
        let initial_message = initial_message(&repo, &issue);
        add_message(&repo, &issue, &sig, "Test message 3", &empty_tree, vec![&initial_message]);
    }

    let issue = create_issue(&repo, &sig, "Test message 2", &empty_tree, vec![]);
    let initial_message = initial_message(&repo, &issue);
    let message =
        add_message(&repo, &issue, &sig, "Test message 3", &empty_tree, vec![&initial_message]);

    let mut ids = vec![issue.id(), to_id(message.id())];
    ids.sort();
    let mut ref_ids: Vec<ObjectId> = references(&repo, &issue.local_refs(IssueRefType::Any))
        .into_iter()
        .map(|reference| reference.target)
        .collect();
    ref_ids.sort();
    assert_eq!(ref_ids, ids);
}

#[test]
fn message_revwalk() {
    let repo = testing_repo("message_revwalk");
    let sig = signature();
    let empty_tree = empty_tree(&repo);

    let issue1 = create_issue(&repo, &sig, "Test message 1", &empty_tree, vec![]);
    let initial_message1 = initial_message(&repo, &issue1);

    let issue2 = create_issue(&repo, &sig, "Test message 2", &empty_tree, vec![&initial_message1]);
    let initial_message2 = initial_message(&repo, &issue2);
    let message =
        add_message(&repo, &issue2, &sig, "Test message 3", &empty_tree, vec![&initial_message2]);
    let message_id = to_id(message.id());

    let mut iter1 = messages(&repo, &issue1).into_iter();
    assert_eq!(iter1.next().unwrap(), issue1.id());
    assert!(iter1.next().is_none());

    let mut iter2 = messages(&repo, &issue2).into_iter();
    assert_eq!(iter2.next().unwrap(), message_id);
    assert_eq!(iter2.next().unwrap(), issue2.id());
    assert!(iter2.next().is_none());
}

#[test]
fn create_and_reply() {
    let repo = testing_repo("create_and_reply");
    let sig = signature();
    let empty_tree = empty_tree(&repo);
    let issue = create_issue(&repo, &sig, "Test message 1", &empty_tree, vec![]);
    let initial = initial_message(&repo, &issue);
    let reply = add_message(&repo, &issue, &sig, "Test message 2", &empty_tree, vec![&initial]);

    let mut found = references(&repo, &issue.local_refs(IssueRefType::Any));
    found.sort_by(|a, b| a.name.cmp(&b.name));
    assert_eq!(
        found,
        vec![
            Reference::new(issue.local_head(), issue.id()),
            Reference::new(issue.add_leaf(to_id(reply.id())), to_id(reply.id())),
        ]
    );
    assert_eq!(messages(&repo, &issue), vec![to_id(reply.id()), issue.id()]);
    assert_eq!(
        walk(&repo, &issue.messages_from(to_id(reply.id()), &initial_parents(&repo, &issue))),
        vec![to_id(reply.id()), issue.id()]
    );
}

#[test]
fn update_head() {
    let repo = testing_repo("update_head");
    let sig = signature();
    let empty_tree = empty_tree(&repo);

    let issue = create_issue(&repo, &sig, "Test message 2", &empty_tree, vec![]);
    let initial_message = initial_message(&repo, &issue);
    let message =
        add_message(&repo, &issue, &sig, "Test message 3", &empty_tree, vec![&initial_message]);

    let local_head = |repo: &Repository| {
        repo.find_reference(&issue.local_head()).unwrap().target().unwrap()
    };
    assert_eq!(to_id(local_head(&repo)), issue.id());

    update_head_to(&repo, &issue, message.id(), true);
    assert_eq!(local_head(&repo), message.id());
}

#[test]
fn a_head_moves_forward_only_unless_allowed() {
    let repo = testing_repo("a_head_moves_forward_only_unless_allowed");
    let sig = signature();
    let empty_tree = empty_tree(&repo);
    let issue = create_issue(&repo, &sig, "Test message 1", &empty_tree, vec![]);
    let initial = initial_message(&repo, &issue);
    let reply = add_message(&repo, &issue, &sig, "Test message 2", &empty_tree, vec![&initial]);
    let other = add_message(&repo, &issue, &sig, "Test message 3", &empty_tree, vec![&initial]);
    let head = |repo: &Repository| {
        repo.find_reference(&issue.local_head()).unwrap().target().unwrap()
    };

    // From the initial message to a reply is forward.
    assert!(try_update_head(&repo, &issue, reply.id(), false));
    assert_eq!(head(&repo), reply.id());
    // From one reply to another is not, nor is the way back.
    assert!(!try_update_head(&repo, &issue, other.id(), false));
    assert!(!try_update_head(&repo, &issue, initial.id(), false));
    assert_eq!(head(&repo), reply.id());
    assert!(try_update_head(&repo, &issue, other.id(), true));
    assert_eq!(head(&repo), other.id());
    // To where the head is already is no move.
    assert!(try_update_head(&repo, &issue, other.id(), false));
    assert_eq!(head(&repo), other.id());
}

// Finding issues

#[test]
fn find_issue() {
    let repo = testing_repo("find_issue");
    let sig = signature();
    let empty_tree = empty_tree(&repo);
    let issue = create_issue(&repo, &sig, "Test message 1", &empty_tree, vec![]);

    lookup_issue(&repo, issue.id()).expect("Could not tretrieve issue by id");
    let reply = add_message(
        &repo,
        &issue,
        &sig,
        "Test message 2",
        &empty_tree,
        vec![&initial_message(&repo, &issue)],
    );
    assert!(lookup_issue(&repo, to_id(reply.id())).is_err());
}

#[test]
fn issue_by_head_ref() {
    let repo = testing_repo("issue_by_head_ref");
    let sig = signature();
    let empty_tree = empty_tree(&repo);
    let issue = create_issue(&repo, &sig, "Test message 1", &empty_tree, vec![]);

    let local_head = repo
        .find_reference(&issue.local_head())
        .expect("Could not retrieve local head reference");
    let retrieved_issue = repository::issue_by_head_ref(local_head.name().ok())
        .expect("Could not retrieve issue");
    assert_eq!(issue.id(), retrieved_issue.id());
}

#[test]
fn issue_with_message() {
    let repo = testing_repo("issue_with_message");
    let sig = signature();
    let empty_tree = empty_tree(&repo);
    let issue = create_issue(&repo, &sig, "Test message 1", &empty_tree, vec![]);
    let initial_message = initial_message(&repo, &issue);
    let message =
        add_message(&repo, &issue, &sig, "Test message 2", &empty_tree, vec![&initial_message]);

    let chain = first_parent_chain(&repo, to_id(message.id()));
    let retrieved_issue = repository::issue_with_message(to_id(message.id()), &chain)
        .expect("Could not retrieve issue");
    assert_eq!(retrieved_issue.id(), issue.id());
}

#[test]
fn issues() {
    let repo = testing_repo("issues");
    let sig = signature();
    let empty_tree = empty_tree(&repo);
    let issue = create_issue(&repo, &sig, "Test message 1", &empty_tree, vec![]);

    let mut issues = references(&repo, &repository::issues())
        .into_iter()
        .map(|head| repository::issue_by_head_ref(Some(&head.name)));
    let retrieved_issue = issues
        .next()
        .expect("Could not find issue")
        .expect("Could not retrieve issue");
    assert_eq!(retrieved_issue.id(), issue.id());
    assert!(issues.next().is_none());
    assert_eq!(references(&repo, &repository::issues_with_prefix("refs")).len(), 1);
    assert!(references(&repo, &repository::issues_with_prefix("refs/remotes/origin")).is_empty());
}

#[test]
fn first_parent_messages() {
    let repo = testing_repo("first_parent_revwalk");
    let sig = signature();
    let empty_tree = empty_tree(&repo);
    let issue = create_issue(&repo, &sig, "Test message 1", &empty_tree, vec![]);
    let initial_message = initial_message(&repo, &issue);
    let message =
        add_message(&repo, &issue, &sig, "Test message 2", &empty_tree, vec![&initial_message]);

    let mut iter = walk(&repo, &repository::first_parent_messages(to_id(message.id()))).into_iter();
    assert_eq!(iter.next().unwrap(), to_id(message.id()));
    assert_eq!(iter.next().unwrap(), issue.id());
    assert!(iter.next().is_none());
}

#[test]
fn issue_messages_iter() {
    let repo = testing_repo("issue_messages_iter");
    let sig = signature();
    let empty_tree = empty_tree(&repo);

    let issue1 = create_issue(&repo, &sig, "Test message 1", &empty_tree, vec![]);
    let initial_message1 = initial_message(&repo, &issue1);
    let initial_id1 = initial_message1.id();

    let issue2 = create_issue(&repo, &sig, "Test message 2", &empty_tree, vec![&initial_message1]);
    let initial_message2 = initial_message(&repo, &issue2);
    let message =
        add_message(&repo, &issue2, &sig, "Test message 3", &empty_tree, vec![&initial_message2]);
    let message_id = to_id(message.id());

    let mut iter1 =
        repository::until_any_initial(&first_parent_chain(&repo, to_id(initial_id1))).into_iter();
    assert_eq!(iter1.next().unwrap(), issue1.id());
    assert!(iter1.next().is_none());

    let mut iter2 = repository::until_any_initial(&first_parent_chain(&repo, message_id)).into_iter();
    assert_eq!(iter2.next().unwrap(), message_id);
    assert_eq!(iter2.next().unwrap(), issue2.id());
    assert!(iter2.next().is_none());
}

// References that a walk reaches

#[test]
fn referred_refs() {
    let repo = testing_repo("referred_refs");
    let sig = signature();
    let empty_tree = empty_tree(&repo);
    let empty_parents: Vec<&Commit> = vec![];

    let mut commits = Vec::new();
    let mut refs_to_watch = Vec::new();
    let mut refs_to_report = Vec::new();
    let reference = |name: &str, commit: Oid, note: &str| {
        repo.reference(name, commit, false, note).expect("Could not create reference");
        Reference::new(name.to_string(), to_id(commit))
    };

    {
        let commit = repo
            .commit(None, &sig, &sig, "Test message 1", &empty_tree, &empty_parents)
            .expect("Could not create commit");
        let refa = reference("refs/test/1a", commit, "create test ref 1a");
        let refb = reference("refs/test/1b", commit, "create test ref 1b");
        commits.push(to_id(commit));
        refs_to_report.push(refa.name.clone());
        refs_to_report.push(refb.name.clone());
        refs_to_watch.push(refa);
        refs_to_watch.push(refb);
    }

    {
        let commit = repo
            .commit(None, &sig, &sig, "Test message 2", &empty_tree, &empty_parents)
            .expect("Could not create commit");
        let refa = reference("refs/test/2a", commit, "create test ref 2a");
        reference("refs/test/2b", commit, "create test ref 2b");
        commits.push(to_id(commit));
        refs_to_report.push(refa.name.clone());
        refs_to_watch.push(refa);
    }

    {
        let commit = repo
            .commit(None, &sig, &sig, "Test message 3", &empty_tree, &empty_parents)
            .expect("Could not create commit");
        reference("refs/test/3a", commit, "create test ref 3a");
        reference("refs/test/3b", commit, "create test ref 3b");
        commits.push(to_id(commit));
    }

    {
        let commit = repo
            .commit(None, &sig, &sig, "Test message 4", &empty_tree, &empty_parents)
            .expect("Could not create commit");
        let refa = reference("refs/test/4a", commit, "create test ref 4a");
        let refb = reference("refs/test/4b", commit, "create test ref 4b");
        refs_to_watch.push(refa);
        refs_to_watch.push(refb);
    }

    let mut referred = RefsReferringTo::new();
    referred.watch_refs(refs_to_watch);

    let mut reported: Vec<_> = referred
        .collect(&plain_walk(&repo, &commits))
        .into_iter()
        .map(|item| item.name)
        .collect();
    reported.sort();
    refs_to_report.sort();
    assert_eq!(reported, refs_to_report);
}

#[test]
fn ids_as_the_repository_writes_them() {
    let repo = testing_repo("ids_as_the_repository_writes_them");
    let sig = signature();
    let empty_tree = empty_tree(&repo);
    let commit = repo
        .commit(None, &sig, &sig, "Test message 1", &empty_tree, &[])
        .expect("Could not create commit");
    let id = to_id(commit);
    assert_eq!(id.to_string(), commit.to_string());
    assert_eq!(id.as_bytes(), commit.as_bytes());
    assert_eq!(to_oid(id), commit);
    assert_eq!(ObjectId::from_full_hex(&commit.to_string()), Some(id));
}
