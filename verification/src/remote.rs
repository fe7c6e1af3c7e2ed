//! What to ask of a remote in order to mirror issues.

use vstd::prelude::*;
use vstd::string::StringExecFns;

use crate::issue::Issue;
use crate::oid::hex_of_id;

verus! {

/// The refspec that mirrors the references of the issue `id` below the
/// remote `remote`. The `+` lets a mirrored reference move to where it is
/// no descendant of what it was.
pub open spec fn issue_refspec_of(remote: Seq<char>, id: Seq<u8>) -> Seq<char> {
    "+refs/dit/"@ + hex_of_id(id) + "/*:refs/remotes/"@ + remote + "/dit/"@ + hex_of_id(id)
        + "/*"@
}

/// The refspec that mirrors the references of all issues below the remote
/// `remote`.
pub open spec fn all_issues_refspec_of(remote: Seq<char>) -> Seq<char> {
    "+refs/dit/*:refs/remotes/"@ + remote + "/dit/*"@
}

/// A remote, as far as mirroring looks at it.
#[derive(Debug, Clone)]
pub struct Remote {
    /// The name of the remote, if it has one that can be read.
    pub name: Option<String>,
}

/// What a remote can tell about mirroring issues.
pub trait RemoteExt {
    /// The name of the remote, if it has one.
    spec fn remote_name(&self) -> Option<Seq<char>>;

    /// The refspec for one issue; none for a remote without a name.
    fn issue_refspec(&self, issue: Issue) -> (r: Option<String>)
        ensures
            match r {
                Some(refspec) => self.remote_name() matches Some(name) && refspec@
                    == issue_refspec_of(name, issue@),
                None => self.remote_name() is None,
            },
    ;

    /// The refspec for all issues; none for a remote without a name.
    fn all_issues_refspec(&self) -> (r: Option<String>)
        ensures
            match r {
                Some(refspec) => self.remote_name() matches Some(name) && refspec@
                    == all_issues_refspec_of(name),
                None => self.remote_name() is None,
            },
    ;
}

impl RemoteExt for Remote {
    open spec fn remote_name(&self) -> Option<Seq<char>> {
        match self.name {
            Some(name) => Some(name@),
            None => None,
        }
    }

    fn issue_refspec(&self, issue: Issue) -> (r: Option<String>) {
        match &self.name {
            Some(name) => {
                let part = issue.ref_part();
                let mut refspec = String::from_str("+refs/dit/");
                refspec.append(part.as_str());
                refspec.append("/*:refs/remotes/");
                refspec.append(name.as_str());
                refspec.append("/dit/");
                refspec.append(part.as_str());
                refspec.append("/*");
                Some(refspec)
            },
            None => None,
        }
    }

    fn all_issues_refspec(&self) -> (r: Option<String>) {
        match &self.name {
            Some(name) => {
                let mut refspec = String::from_str("+refs/dit/*:refs/remotes/");
                refspec.append(name.as_str());
                refspec.append("/dit/*");
                Some(refspec)
            },
            None => None,
        }
    }
}

} // verus!
