//! Commits as the library sees them.

use vstd::prelude::*;

use crate::oid::ObjectId;

verus! {

/// What the library reads of a commit. Text that the commit holds in a form
/// that cannot be read is absent.
#[derive(Debug, Clone)]
pub struct Commit {
    /// The id of the commit.
    pub id: ObjectId,
    /// The ids of its parents, the first parent first.
    pub parents: Vec<ObjectId>,
    /// The name of its author.
    pub author_name: Option<String>,
    /// The e-mail address of its author.
    pub author_email: Option<String>,
    /// Its summary: the first paragraph of its message in one line.
    pub summary: Option<String>,
    /// Its message.
    pub message: Option<String>,
}

impl Commit {
    /// The id of the first parent, if the commit has parents.
    pub fn first_parent(&self) -> (r: Option<ObjectId>)
        ensures
            match r {
                Some(id) => self.parents@.len() > 0 && id@ == self.parents@[0]@,
                None => self.parents@.len() == 0,
            },
    {
        if self.parents.len() > 0 {
            Some(self.parents[0])
        } else {
            None
        }
    }
}

} // verus!
