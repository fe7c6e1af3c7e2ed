//! Drawing the tree of the messages of an issue.
//!
//! The messages come with every reply before the message it replies to.
//! Each message gets a line of graph elements, one column for each message
//! that is still awaited as the parent of one that was drawn. A mark stands
//! in the columns that awaited the message.

use vstd::prelude::*;
use vstd::string::StringExecFns;

use crate::commit::Commit;
use crate::oid::ObjectId;

verus! {

/// Where a mark stands in its thread.
#[derive(Clone, Copy, Debug, PartialEq, Eq, Structural)]
pub enum MarkType {
    /// At the message that the thread was first seen at.
    Start,
    /// At a message within the thread.
    Mid,
    /// At the message behind which the thread is not followed.
    End,
}

impl MarkType {
    /// The mark for the same place when the lines are read in the other
    /// direction.
    pub open spec fn reversed(self) -> MarkType {
        match self {
            MarkType::Start => MarkType::End,
            MarkType::Mid => MarkType::Mid,
            MarkType::End => MarkType::Start,
        }
    }

    /// Makes a start an end and an end a start.
    pub fn reverse(&mut self)
        ensures
            *final(self) == old(self).reversed(),
    {
        match *self {
            MarkType::Start => {
                *self = MarkType::End;
            },
            MarkType::End => {
                *self = MarkType::Start;
            },
            MarkType::Mid => {},
        }
    }
}

/// An element of the graph.
#[derive(Clone, Copy, Debug, PartialEq, Eq, Structural)]
pub enum TreeGraphElem {
    /// No thread in this column.
    Empty,
    /// A thread passes through this column.
    Following,
    /// The message of the line belongs to the thread in this column.
    Mark(MarkType),
}

impl TreeGraphElem {
    /// The character that the element is drawn as.
    pub open spec fn char_of(self) -> char {
        match self {
            TreeGraphElem::Empty => ' ',
            TreeGraphElem::Following => '|',
            TreeGraphElem::Mark(_) => '+',
        }
    }

    /// The character that the element is drawn as.
    pub fn to_char(&self) -> (c: char)
        ensures
            c == self.char_of(),
    {
        match self {
            TreeGraphElem::Empty => ' ',
            TreeGraphElem::Following => '|',
            TreeGraphElem::Mark(_) => '+',
        }
    }

    /// The element with a start made an end and an end a start.
    pub open spec fn reversed(self) -> TreeGraphElem {
        match self {
            TreeGraphElem::Mark(mark) => TreeGraphElem::Mark(mark.reversed()),
            other => other,
        }
    }

    /// The element in the lines behind the first line of a message: where
    /// a thread ends nothing is drawn, and where a mark stood otherwise the
    /// thread is followed.
    pub open spec fn continued(self) -> TreeGraphElem {
        match self {
            TreeGraphElem::Mark(MarkType::End) => TreeGraphElem::Empty,
            TreeGraphElem::Mark(_) => TreeGraphElem::Following,
            other => other,
        }
    }
}

/// Whether one of `elems` is a mark.
pub open spec fn has_mark(elems: Seq<TreeGraphElem>) -> bool {
    exists|i: int| 0 <= i < elems.len() && (#[trigger] elems[i]) is Mark
}

/// The text that a line of elements is drawn as: each element as its
/// character, but with a dash in the place of what is no mark and stands
/// behind a mark.
pub open spec fn line_text(elems: Seq<TreeGraphElem>) -> Seq<char>
    decreases elems.len(),
{
    if elems.len() == 0 {
        Seq::empty()
    } else {
        let c = if elems.last() is Mark {
            '+'
        } else if has_mark(elems.drop_last()) {
            '-'
        } else {
            elems.last().char_of()
        };
        line_text(elems.drop_last()).push(c)
    }
}

/// A line of graph elements.
#[derive(Clone, Debug)]
pub struct TreeGraphElemLine(pub Vec<TreeGraphElem>);

impl View for TreeGraphElemLine {
    type V = Seq<TreeGraphElem>;

    open spec fn view(&self) -> Seq<TreeGraphElem> {
        self.0@
    }
}

impl TreeGraphElemLine {
    /// The line without elements.
    pub fn empty() -> (line: TreeGraphElemLine)
        ensures
            line@ == Seq::<TreeGraphElem>::empty(),
    {
        TreeGraphElemLine(Vec::new())
    }

    /// Puts an element at the end of the line.
    pub fn append(&mut self, e: TreeGraphElem)
        ensures
            final(self)@ == old(self)@.push(e),
    {
        self.0.push(e);
    }

    /// Makes each start an end and each end a start.
    pub fn reverse_marks(&mut self)
        ensures
            final(self)@ == old(self)@.map_values(|e: TreeGraphElem| e.reversed()),
    {
        let ghost all = self.0@;
        let mut i: usize = 0;
        while i < self.0.len()
            invariant
                i <= self.0@.len(),
                self.0@.len() == all.len(),
                forall|j: int| 0 <= j < i ==> self.0@[j] == all[j].reversed(),
                forall|j: int| i <= j < all.len() ==> self.0@[j] == all[j],
            decreases self.0@.len() - i,
        {
            let turned = match self.0[i] {
                TreeGraphElem::Mark(MarkType::Start) => TreeGraphElem::Mark(MarkType::End),
                TreeGraphElem::Mark(MarkType::End) => TreeGraphElem::Mark(MarkType::Start),
                other => other,
            };
            self.0.set(i, turned);
            i += 1;
        }
        proof {
            assert(self.0@ =~= all.map_values(|e: TreeGraphElem| e.reversed()));
        }
    }

    /// The lines for one message: this line, and lines to draw beside what
    /// else is written about the message.
    pub fn commit_iterator(self) -> (lines: CommitTreeGraphLines)
        ensures
            lines@ == self@,
    {
        CommitTreeGraphLines(self.0)
    }

    /// The text that the line is drawn as.
    pub fn to_string(&self) -> (text: String)
        ensures
            text@ == line_text(self@),
    {
        let mut text = String::new();
        let mut marked = false;
        let mut i: usize = 0;
        proof {
            assert(self.0@.take(0) =~= Seq::<TreeGraphElem>::empty());
        }
        while i < self.0.len()
            invariant
                i <= self.0@.len(),
                text@ == line_text(self.0@.take(i as int)),
                marked == has_mark(self.0@.take(i as int)),
            decreases self.0@.len() - i,
        {
            let ghost before = self.0@.take(i as int);
            let ghost now = self.0@.take(i + 1);
            proof {
                reveal_strlit("+");
                reveal_strlit("-");
                reveal_strlit(" ");
                reveal_strlit("|");
                assert(now.drop_last() =~= before);
                assert(now.last() == self.0@[i as int]);
                assert(text@ + "+"@ =~= text@.push('+'));
                assert(text@ + "-"@ =~= text@.push('-'));
                assert(text@ + " "@ =~= text@.push(' '));
                assert(text@ + "|"@ =~= text@.push('|'));
                if has_mark(before) {
                    let j = choose|j: int| 0 <= j < before.len() && (#[trigger] before[j]) is Mark;
                    assert(now[j] is Mark);
                }
                if has_mark(now) && !(now.last() is Mark) {
                    let j = choose|j: int| 0 <= j < now.len() && (#[trigger] now[j]) is Mark;
                    assert(before[j] is Mark);
                }
                if now.last() is Mark {
                    assert(now[i as int] is Mark);
                }
            }
            match self.0[i] {
                TreeGraphElem::Mark(_) => {
                    marked = true;
                    text.append("+");
                },
                TreeGraphElem::Empty => {
                    if marked {
                        text.append("-");
                    } else {
                        text.append(" ");
                    }
                },
                TreeGraphElem::Following => {
                    if marked {
                        text.append("-");
                    } else {
                        text.append("|");
                    }
                },
            }
            i += 1;
        }
        proof {
            assert(self.0@.take(i as int) =~= self.0@);
        }
        text
    }
}

/// Hands out the lines of graph elements for one message: first the line
/// with the marks, then, as often as asked, a line that follows the threads.
#[derive(Clone, Debug)]
pub struct CommitTreeGraphLines(pub Vec<TreeGraphElem>);

impl View for CommitTreeGraphLines {
    type V = Seq<TreeGraphElem>;

    open spec fn view(&self) -> Seq<TreeGraphElem> {
        self.0@
    }
}

impl CommitTreeGraphLines {
    /// Hands out the next line. There always is one.
    pub fn next(&mut self) -> (r: Option<TreeGraphElemLine>)
        ensures
            r is Some,
            r->0@ == old(self)@,
            final(self)@ == old(self)@.map_values(|e: TreeGraphElem| e.continued()),
    {
        let ghost all = self.0@;
        let mut line: Vec<TreeGraphElem> = Vec::new();
        let mut i: usize = 0;
        while i < self.0.len()
            invariant
                i <= self.0@.len(),
                self.0@.len() == all.len(),
                line@ == all.take(i as int),
                forall|j: int| 0 <= j < i ==> self.0@[j] == all[j].continued(),
                forall|j: int| i <= j < all.len() ==> self.0@[j] == all[j],
            decreases self.0@.len() - i,
        {
            let e = self.0[i];
            proof {
                assert(all.take(i + 1) =~= all.take(i as int).push(all[i as int]));
            }
            line.push(e);
            let next = match e {
                TreeGraphElem::Mark(MarkType::End) => TreeGraphElem::Empty,
                TreeGraphElem::Mark(_) => TreeGraphElem::Following,
                other => other,
            };
            self.0.set(i, next);
            i += 1;
        }
        proof {
            assert(all.take(i as int) =~= all);
            assert(self.0@ =~= all.map_values(|e: TreeGraphElem| e.continued()));
        }
        Some(TreeGraphElemLine(line))
    }
}

/// The parents that are awaited, as ids.
pub open spec fn awaited_views(parents: Seq<Option<ObjectId>>) -> Seq<Option<Seq<u8>>> {
    parents.map_values(
        |p: Option<ObjectId>|
            match p {
                Some(id) => Some(id@),
                None => None,
            },
    )
}

/// Whether one of the first `i` columns awaits the commit `id`.
pub open spec fn awaited_before(parents: Seq<Option<Seq<u8>>>, id: Seq<u8>, i: int) -> bool {
    exists|j: int| 0 <= j < i && j < parents.len() && #[trigger] parents[j] == Some(id)
}

/// The element in column `i` of the line for the commit `id` with the
/// first parent `first_parent`: a mark where the column awaited the commit,
/// which is where the thread ends unless the column goes on to await the
/// first parent, as only the first of several columns does.
pub open spec fn elem_at(
    parents: Seq<Option<Seq<u8>>>,
    id: Seq<u8>,
    first_parent: Option<Seq<u8>>,
    i: int,
) -> TreeGraphElem {
    match parents[i] {
        None => TreeGraphElem::Empty,
        Some(p) => if p == id {
            if !awaited_before(parents, id, i) && first_parent is Some {
                TreeGraphElem::Mark(MarkType::Mid)
            } else {
                TreeGraphElem::Mark(MarkType::End)
            }
        } else {
            TreeGraphElem::Following
        },
    }
}

/// What column `i` awaits behind the line for the commit `id`.
pub open spec fn awaited_at(
    parents: Seq<Option<Seq<u8>>>,
    id: Seq<u8>,
    first_parent: Option<Seq<u8>>,
    i: int,
) -> Option<Seq<u8>> {
    if parents[i] == Some(id) {
        if awaited_before(parents, id, i) {
            None
        } else {
            first_parent
        }
    } else {
        parents[i]
    }
}

/// The line for the commit `id`: an element for each column and, where no
/// column awaited the commit and it has a first parent, the start of a new
/// thread.
pub open spec fn graph_line(
    parents: Seq<Option<Seq<u8>>>,
    id: Seq<u8>,
    first_parent: Option<Seq<u8>>,
) -> Seq<TreeGraphElem> {
    let columns = Seq::new(parents.len(), |i: int| elem_at(parents, id, first_parent, i));
    if !awaited_before(parents, id, parents.len() as int) && first_parent is Some {
        columns.push(TreeGraphElem::Mark(MarkType::Start))
    } else {
        columns
    }
}

/// The columns without those at the end that await nothing.
pub open spec fn without_idle(parents: Seq<Option<Seq<u8>>>) -> Seq<Option<Seq<u8>>>
    decreases parents.len(),
{
    if parents.len() > 0 && parents.last() is None {
        without_idle(parents.drop_last())
    } else {
        parents
    }
}

/// What the columns await behind the line for the commit `id`.
pub open spec fn graph_parents(
    parents: Seq<Option<Seq<u8>>>,
    id: Seq<u8>,
    first_parent: Option<Seq<u8>>,
) -> Seq<Option<Seq<u8>>> {
    let columns = Seq::new(parents.len(), |i: int| awaited_at(parents, id, first_parent, i));
    if !awaited_before(parents, id, parents.len() as int) && first_parent is Some {
        without_idle(columns.push(first_parent))
    } else {
        without_idle(columns)
    }
}

/// Hands out, for each of a series of commits, the line of graph elements
/// that goes with it.
pub struct TreeGraphElemLineIterator {
    /// The commits that are still to be drawn, the next one last.
    inner: Vec<Commit>,
    parents: Vec<Option<ObjectId>>,
}

impl TreeGraphElemLineIterator {
    /// The commits that are still to be drawn.
    pub closed spec fn rest(&self) -> Seq<Commit> {
        self.inner@.reverse()
    }

    /// What the columns await.
    pub closed spec fn awaited(&self) -> Seq<Option<Seq<u8>>> {
        awaited_views(self.parents@)
    }

    /// Hands out the next commit with its line, if a commit is left.
    pub fn next(&mut self) -> (r: Option<(TreeGraphElemLine, Commit)>)
        ensures
            match r {
                Some((line, commit)) => {
                    let parent = if commit.parents@.len() > 0 {
                        Some(commit.parents@[0]@)
                    } else {
                        None
                    };
                    &&& old(self).rest().len() > 0
                    &&& commit == old(self).rest()[0]
                    &&& final(self).rest() == old(self).rest().drop_first()
                    &&& line@ == graph_line(old(self).awaited(), commit.id@, parent)
                    &&& final(self).awaited() == graph_parents(
                        old(self).awaited(),
                        commit.id@,
                        parent,
                    )
                },
                None => old(self).rest().len() == 0 && final(self).rest().len() == 0 && final(
                    self).awaited() == old(self).awaited(),
            },
    {
        let ghost held = self.inner@;
        match self.inner.pop() {
            Some(commit) => {
                proof {
                    assert(held.reverse()[0] == held.last());
                    assert(self.inner@.reverse() =~= held.reverse().drop_first());
                }
                let first_parent = commit.first_parent();
                let mut parents = copy_awaited(&self.parents);
                let line = draw(&mut parents, commit.id, first_parent);
                self.parents = parents;
                Some((line, commit))
            },
            None => None,
        }
    }
}

/// A copy of what the columns await.
fn copy_awaited(parents: &Vec<Option<ObjectId>>) -> (copy: Vec<Option<ObjectId>>)
    ensures
        copy@ == parents@,
{
    let mut copy: Vec<Option<ObjectId>> = Vec::new();
    let mut i: usize = 0;
    while i < parents.len()
        invariant
            i <= parents.len(),
            copy@ == parents@.take(i as int),
        decreases parents.len() - i,
    {
        proof {
            assert(parents@.take(i + 1) =~= parents@.take(i as int).push(parents@[i as int]));
        }
        copy.push(parents[i]);
        i += 1;
    }
    proof {
        assert(parents@.take(i as int) =~= parents@);
    }
    copy
}

/// Draws the line for the commit `id` with the first parent `first_parent`
/// and notes what the columns await behind it.
pub fn draw(parents: &mut Vec<Option<ObjectId>>, id: ObjectId, first_parent: Option<ObjectId>) -> (line:
    TreeGraphElemLine)
    ensures
        line@ == graph_line(awaited_views(old(parents)@), id@, view_of(first_parent)),
        awaited_views(final(parents)@) == graph_parents(
            awaited_views(old(parents)@),
            id@,
            view_of(first_parent),
        ),
{
    let ghost was = awaited_views(parents@);
    let ghost parent = view_of(first_parent);
    let mut elems: Vec<TreeGraphElem> = Vec::new();
    let mut taken = false;
    let mut i: usize = 0;
    while i < parents.len()
        invariant
            i <= parents@.len(),
            parents@.len() == was.len(),
            was == awaited_views(old(parents)@),
            parent == view_of(first_parent),
            taken == awaited_before(was, id@, i as int),
            elems@.len() == i,
            forall|j: int| 0 <= j < i ==> elems@[j] == elem_at(was, id@, parent, j),
            forall|j: int|
                0 <= j < i ==> #[trigger] awaited_views(parents@)[j] == awaited_at(
                    was,
                    id@,
                    parent,
                    j,
                ),
            forall|j: int| i <= j < was.len() ==> #[trigger] awaited_views(parents@)[j] == was[j],
        decreases parents@.len() - i,
    {
        let ghost held = parents@;
        proof {
            assert(awaited_views(held)[i as int] == was[i as int]);
            if awaited_before(was, id@, i as int) {
                let j = choose|j: int| 0 <= j < i && j < was.len() && #[trigger] was[j] == Some(id@);
                assert(awaited_before(was, id@, i + 1));
            }
            if awaited_before(was, id@, i + 1) && !awaited_before(was, id@, i as int) {
                let j = choose|j: int|
                    0 <= j < i + 1 && j < was.len() && #[trigger] was[j] == Some(id@);
                assert(j == i);
            }
        }
        let elem = match parents[i] {
            Some(awaited) => {
                if awaited == id {
                    proof {
                        assert(was[i as int] == Some(id@));
                        assert(awaited_before(was, id@, i + 1));
                    }
                    let next = if taken {
                        None
                    } else {
                        first_parent
                    };
                    parents.set(i, next);
                    taken = true;
                    if next.is_some() {
                        TreeGraphElem::Mark(MarkType::Mid)
                    } else {
                        TreeGraphElem::Mark(MarkType::End)
                    }
                } else {
                    TreeGraphElem::Following
                }
            },
            None => TreeGraphElem::Empty,
        };
        proof {
            assert forall|j: int| 0 <= j < was.len() && j != i implies #[trigger] awaited_views(
                parents@,
            )[j] == awaited_views(held)[j] by {
                assert(parents@[j] == held[j]);
            }
        }
        elems.push(elem);
        i += 1;
    }
    let ghost columns = Seq::new(was.len(), |k: int| awaited_at(was, id@, parent, k));
    proof {
        assert(elems@ =~= Seq::new(was.len(), |k: int| elem_at(was, id@, parent, k)));
        assert(awaited_views(parents@) =~= columns);
    }
    if !taken && first_parent.is_some() {
        elems.push(TreeGraphElem::Mark(MarkType::Start));
        proof {
            assert(awaited_views(parents@.push(first_parent)) =~= columns.push(parent));
        }
        parents.push(first_parent);
    }
    let ghost full = awaited_views(parents@);
    proof {
        assert(full.take(full.len() as int) =~= full);
    }
    loop
        invariant
            parents@.len() <= full.len(),
            awaited_views(parents@) == full.take(parents@.len() as int),
            without_idle(full) == without_idle(awaited_views(parents@)),
        ensures
            awaited_views(parents@) == without_idle(full),
        decreases parents@.len(),
    {
        let ghost n = parents@.len() as int;
        let idle = parents.len() > 0 && parents[parents.len() - 1].is_none();
        proof {
            if n > 0 {
                assert(awaited_views(parents@).last() == awaited_views(parents@)[n - 1]);
            }
        }
        if !idle {
            break ;
        }
        let ghost held = parents@;
        parents.pop();
        proof {
            assert(awaited_views(parents@) =~= awaited_views(held).drop_last());
            assert(full.take(n).drop_last() =~= full.take(n - 1));
        }
    }
    TreeGraphElemLine(elems)
}

/// What a parent that may be absent is to a contract.
pub open spec fn view_of(parent: Option<ObjectId>) -> Option<Seq<u8>> {
    match parent {
        Some(id) => Some(id@),
        None => None,
    }
}

/// Making a graph of a series of commits.
pub trait IntoTreeGraph {
    /// The commits.
    spec fn commits(&self) -> Seq<Commit>;

    /// A processor that hands out each commit with its line of the graph.
    /// The commits must come with each reply before what it replies to.
    fn into_tree_graph(self) -> (r: TreeGraphElemLineIterator)
        ensures
            r.rest() == self.commits(),
            r.awaited().len() == 0,
    ;
}

impl IntoTreeGraph for Vec<Commit> {
    open spec fn commits(&self) -> Seq<Commit> {
        self@
    }

    fn into_tree_graph(self) -> (r: TreeGraphElemLineIterator) {
        let r = TreeGraphElemLineIterator {
            inner: crate::utils::reversed(self),
            parents: Vec::new(),
        };
        proof {
            assert(r.rest() =~= self@);
            assert(r.awaited() =~= Seq::<Option<Seq<u8>>>::empty());
        }
        r
    }
}

} // verus!
