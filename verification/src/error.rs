//! The kinds of failure that the library reports.

use vstd::prelude::*;
use vstd::string::StringExecFns;

use crate::oid::{hex_of_id, ObjectId};

verus! {

/// What went wrong. A variant that names a reference, a glob, a revision or
/// a piece of text carries it.
#[derive(Debug, Clone, PartialEq, Eq)]
pub enum Kind {
    /// A commit for a message could not be written.
    CannotCreateMessage,
    /// A walk over commits could not be set up.
    CannotConstructRevwalk,
    /// A commit could not be looked up.
    CannotGetCommit,
    /// The commit for a revision could not be looked up.
    CannotGetCommitForRev(String),
    /// A reference has no name that can be read.
    ReferenceNameError,
    /// The references that a glob selects could not be listed.
    CannotGetReferences(String),
    /// A reference could not be read.
    CannotGetReference,
    /// A reference could not be deleted.
    CannotDeleteReference(String),
    /// The empty tree could not be built.
    CannotBuildTree,
    /// No head reference exists for the issue.
    CannotFindIssueHead(ObjectId),
    /// A reference could not be created or updated.
    CannotSetReference(String),
    /// No first parent of the commit is the initial message of an issue.
    NoTreeInitFound(ObjectId),
    /// The text is no object id.
    OidFormatError(String),
    /// The reference is no head reference of an issue.
    MalFormedHeadReference(String),
    /// The line is no trailer.
    TrailerFormatError(String),
    /// The message has no line.
    EmptyMessage,
    /// The first line of the message is empty.
    EmptySubject,
    /// The second line of the message is not empty.
    MalformedMessage,
    /// The text is no filter.
    MalformedFilterSpec(String),
    /// No metadata of that name can be filtered by.
    UnknownMetadataKey(String),
    /// Anything else.
    Other,
}

impl Kind {
    /// A description of the failure, for people.
    pub open spec fn text(self) -> Seq<char> {
        match self {
            Kind::CannotCreateMessage => "cannot create a message"@,
            Kind::CannotConstructRevwalk => "cannot construct a revision walk"@,
            Kind::CannotGetCommit => "cannot get a specific commit from repository"@,
            Kind::CannotGetCommitForRev(r) => "cannot get commit from rev '"@ + r@ + "'"@,
            Kind::ReferenceNameError => "error getting reference name"@,
            Kind::CannotGetReferences(g) => "cannot get references '"@ + g@ + "' from repository"@,
            Kind::CannotGetReference => "cannot get a specific reference from repository"@,
            Kind::CannotDeleteReference(r) => "cannot delete the reference '"@ + r@ + "'"@,
            Kind::CannotBuildTree => "cannot build Tree"@,
            Kind::CannotFindIssueHead(i) => "cannot find issue HEAD for "@ + hex_of_id(i@),
            Kind::CannotSetReference(r) => "cannot update or create reference '"@ + r@ + "'"@,
            Kind::NoTreeInitFound(i) => "cannot find any tree init for "@ + hex_of_id(i@),
            Kind::OidFormatError(n) => "malformed OID: "@ + n@,
            Kind::MalFormedHeadReference(n) => "malformed head refernece: "@ + n@,
            Kind::TrailerFormatError(t) => "malformed trailer: "@ + t@,
            Kind::EmptyMessage => "the message is empty"@,
            Kind::EmptySubject => "empty subject line"@,
            Kind::MalformedMessage => "malformed message"@,
            Kind::MalformedFilterSpec(s) => "malformed filter spec: "@ + s@,
            Kind::UnknownMetadataKey(k) => "unknown metadata key: "@ + k@,
            Kind::Other => "other"@,
        }
    }

    /// A description of the failure, for people.
    pub fn to_string(&self) -> (r: String)
        ensures
            r@ == self.text(),
    {
        match self {
            Kind::CannotCreateMessage => String::from_str("cannot create a message"),
            Kind::CannotConstructRevwalk => String::from_str("cannot construct a revision walk"),
            Kind::CannotGetCommit => String::from_str(
                "cannot get a specific commit from repository",
            ),
            Kind::CannotGetCommitForRev(r) => framed("cannot get commit from rev '", r, "'"),
            Kind::ReferenceNameError => String::from_str("error getting reference name"),
            Kind::CannotGetReferences(g) => framed(
                "cannot get references '",
                g,
                "' from repository",
            ),
            Kind::CannotGetReference => String::from_str(
                "cannot get a specific reference from repository",
            ),
            Kind::CannotDeleteReference(r) => framed("cannot delete the reference '", r, "'"),
            Kind::CannotBuildTree => String::from_str("cannot build Tree"),
            Kind::CannotFindIssueHead(i) => {
                let id = i.to_string();
                crate::text::glue("cannot find issue HEAD for ", id.as_str())
            },
            Kind::CannotSetReference(r) => framed("cannot update or create reference '", r, "'"),
            Kind::NoTreeInitFound(i) => {
                let id = i.to_string();
                crate::text::glue("cannot find any tree init for ", id.as_str())
            },
            Kind::OidFormatError(n) => crate::text::glue("malformed OID: ", n.as_str()),
            Kind::MalFormedHeadReference(n) => crate::text::glue(
                "malformed head refernece: ",
                n.as_str(),
            ),
            Kind::TrailerFormatError(t) => crate::text::glue("malformed trailer: ", t.as_str()),
            Kind::EmptyMessage => String::from_str("the message is empty"),
            Kind::EmptySubject => String::from_str("empty subject line"),
            Kind::MalformedMessage => String::from_str("malformed message"),
            Kind::MalformedFilterSpec(s) => crate::text::glue(
                "malformed filter spec: ",
                s.as_str(),
            ),
            Kind::UnknownMetadataKey(k) => crate::text::glue(
                "unknown metadata key: ",
                k.as_str(),
            ),
            Kind::Other => String::from_str("other"),
        }
    }
}

/// `before`, then `middle`, then `after`.
fn framed(before: &str, middle: &String, after: &str) -> (r: String)
    ensures
        r@ == before@ + middle@ + after@,
{
    let mut r = String::from_str(before);
    r.append(middle.as_str());
    r.append(after);
    r
}

} // verus!
