use libgitdit::commit::Commit;
use libgitdit::error::Kind;
use libgitdit::msgtree::{
    draw, IntoTreeGraph, MarkType, TreeGraphElem, TreeGraphElemLine,
};
use libgitdit::oid::ObjectId;

fn id(n: u8) -> ObjectId {
    ObjectId::from_bytes([n; 20])
}

fn commit(n: u8, parents: Vec<u8>) -> Commit {
    Commit {
        id: id(n),
        parents: parents.into_iter().map(id).collect(),
        author_name: None,
        author_email: None,
        summary: None,
        message: None,
    }
}

fn drawn(commits: Vec<Commit>) -> Vec<String> {
    let mut graph = commits.into_tree_graph();
    let mut lines = Vec::new();
    while let Some((line, _)) = graph.next() {
        lines.push(line.to_string());
    }
    lines
}

#[test]
fn elements_and_marks() {
    assert_eq!(TreeGraphElem::Empty.to_char(), ' ');
    assert_eq!(TreeGraphElem::Following.to_char(), '|');
    assert_eq!(TreeGraphElem::Mark(MarkType::Start).to_char(), '+');
    assert_eq!(TreeGraphElem::Mark(MarkType::Mid).to_char(), '+');
    assert_eq!(TreeGraphElem::Mark(MarkType::End).to_char(), '+');
    let mut mark = MarkType::Start;
    mark.reverse();
    assert_eq!(mark, MarkType::End);
    mark.reverse();
    assert_eq!(mark, MarkType::Start);
    let mut mark = MarkType::Mid;
    mark.reverse();
    assert_eq!(mark, MarkType::Mid);
}

#[test]
fn a_line_as_text() {
    let mut line = TreeGraphElemLine::empty();
    assert_eq!(line.to_string(), "");
    line.append(TreeGraphElem::Following);
    line.append(TreeGraphElem::Empty);
    line.append(TreeGraphElem::Mark(MarkType::Mid));
    line.append(TreeGraphElem::Following);
    line.append(TreeGraphElem::Mark(MarkType::End));
    line.append(TreeGraphElem::Empty);
    assert_eq!(line.to_string(), "| +-+-");

    line.reverse_marks();
    assert_eq!(
        line.0,
        vec![
            TreeGraphElem::Following,
            TreeGraphElem::Empty,
            TreeGraphElem::Mark(MarkType::Mid),
            TreeGraphElem::Following,
            TreeGraphElem::Mark(MarkType::Start),
            TreeGraphElem::Empty,
        ]
    );

    let mut lines = line.commit_iterator();
    assert_eq!(lines.next().unwrap().to_string(), "| +-+-");
    assert_eq!(lines.next().unwrap().to_string(), "| ||| ");
    assert_eq!(lines.next().unwrap().to_string(), "| ||| ");

    let mut ending = TreeGraphElemLine::empty();
    ending.append(TreeGraphElem::Mark(MarkType::End));
    ending.append(TreeGraphElem::Mark(MarkType::Start));
    let mut lines = ending.commit_iterator();
    assert_eq!(lines.next().unwrap().to_string(), "++");
    assert_eq!(lines.next().unwrap().to_string(), " |");
}

#[test]
fn a_thread() {
    assert_eq!(
        drawn(vec![commit(3, vec![2]), commit(2, vec![1]), commit(1, vec![])]),
        vec!["+", "+", "+"]
    );
}

#[test]
fn two_replies_to_one_message() {
    // 4 and 3 both reply to 2, which replies to 1.
    assert_eq!(
        drawn(vec![
            commit(4, vec![2]),
            commit(3, vec![2]),
            commit(2, vec![1]),
            commit(1, vec![]),
        ]),
        vec!["+", "|+", "++", "+"]
    );
}

#[test]
fn marks_tell_where_threads_start_and_end() {
    let mut parents = Vec::new();
    let line = draw(&mut parents, id(4), Some(id(2)));
    assert_eq!(line.0, vec![TreeGraphElem::Mark(MarkType::Start)]);
    assert_eq!(parents, vec![Some(id(2))]);

    let line = draw(&mut parents, id(3), Some(id(2)));
    assert_eq!(
        line.0,
        vec![TreeGraphElem::Following, TreeGraphElem::Mark(MarkType::Start)]
    );
    assert_eq!(parents, vec![Some(id(2)), Some(id(2))]);

    // Both columns awaited 2. The first goes on to its parent, the second
    // ends.
    let line = draw(&mut parents, id(2), Some(id(1)));
    assert_eq!(
        line.0,
        vec![TreeGraphElem::Mark(MarkType::Mid), TreeGraphElem::Mark(MarkType::End)]
    );
    assert_eq!(parents, vec![Some(id(1))]);

    let line = draw(&mut parents, id(1), None);
    assert_eq!(line.0, vec![TreeGraphElem::Mark(MarkType::End)]);
    assert!(parents.is_empty());

    // A commit without parents that nothing awaited leaves no mark.
    let line = draw(&mut parents, id(9), None);
    assert!(line.0.is_empty());
    assert!(parents.is_empty());
}

#[test]
fn a_column_in_the_middle_stays() {
    let mut parents = vec![Some(id(1)), Some(id(2)), Some(id(3))];
    let line = draw(&mut parents, id(2), None);
    assert_eq!(
        line.0,
        vec![
            TreeGraphElem::Following,
            TreeGraphElem::Mark(MarkType::End),
            TreeGraphElem::Following,
        ]
    );
    assert_eq!(parents, vec![Some(id(1)), None, Some(id(3))]);
    let line = draw(&mut parents, id(3), None);
    assert_eq!(
        line.0,
        vec![
            TreeGraphElem::Following,
            TreeGraphElem::Empty,
            TreeGraphElem::Mark(MarkType::End),
        ]
    );
    assert_eq!(parents, vec![Some(id(1))]);
}

#[test]
fn commits_come_with_their_lines() {
    let mut graph = vec![commit(2, vec![1, 7]), commit(1, vec![])].into_tree_graph();
    let (line, first) = graph.next().unwrap();
    assert_eq!(first.id, id(2));
    assert_eq!(first.parents, vec![id(1), id(7)]);
    assert_eq!(line.to_string(), "+");
    let (_, second) = graph.next().unwrap();
    assert_eq!(second.id, id(1));
    assert!(graph.next().is_none());
    assert!(graph.next().is_none());
    assert_eq!(commit(2, vec![1, 7]).first_parent(), Some(id(1)));
    assert_eq!(commit(1, vec![]).first_parent(), None);
}

#[test]
fn failures_described() {
    assert_eq!(Kind::CannotCreateMessage.to_string(), "cannot create a message");
    assert_eq!(
        Kind::CannotConstructRevwalk.to_string(),
        "cannot construct a revision walk"
    );
    assert_eq!(
        Kind::CannotGetCommit.to_string(),
        "cannot get a specific commit from repository"
    );
    assert_eq!(
        Kind::CannotGetCommitForRev("HEAD~1".to_string()).to_string(),
        "cannot get commit from rev 'HEAD~1'"
    );
    assert_eq!(Kind::ReferenceNameError.to_string(), "error getting reference name");
    assert_eq!(
        Kind::CannotGetReferences("**/dit/**".to_string()).to_string(),
        "cannot get references '**/dit/**' from repository"
    );
    assert_eq!(
        Kind::CannotGetReference.to_string(),
        "cannot get a specific reference from repository"
    );
    assert_eq!(
        Kind::CannotDeleteReference("refs/x".to_string()).to_string(),
        "cannot delete the reference 'refs/x'"
    );
    assert_eq!(Kind::CannotBuildTree.to_string(), "cannot build Tree");
    assert_eq!(
        Kind::CannotFindIssueHead(id(0xab)).to_string(),
        "cannot find issue HEAD for abababababababababababababababababababab"
    );
    assert_eq!(
        Kind::CannotSetReference("refs/x".to_string()).to_string(),
        "cannot update or create reference 'refs/x'"
    );
    assert_eq!(
        Kind::NoTreeInitFound(id(1)).to_string(),
        "cannot find any tree init for 0101010101010101010101010101010101010101"
    );
    assert_eq!(
        Kind::OidFormatError("foo".to_string()).to_string(),
        "malformed OID: foo"
    );
    assert_eq!(
        Kind::MalFormedHeadReference("refs/x".to_string()).to_string(),
        "malformed head refernece: refs/x"
    );
    assert_eq!(
        Kind::TrailerFormatError("no trailer".to_string()).to_string(),
        "malformed trailer: no trailer"
    );
    assert_eq!(Kind::EmptyMessage.to_string(), "the message is empty");
    assert_eq!(Kind::EmptySubject.to_string(), "empty subject line");
    assert_eq!(Kind::MalformedMessage.to_string(), "malformed message");
    assert_eq!(
        Kind::MalformedFilterSpec("a b".to_string()).to_string(),
        "malformed filter spec: a b"
    );
    assert_eq!(
        Kind::UnknownMetadataKey("colour".to_string()).to_string(),
        "unknown metadata key: colour"
    );
    assert_eq!(Kind::Other.to_string(), "other");
}
