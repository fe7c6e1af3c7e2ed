//! The core of a distributed issue tracker that keeps its issues in a git
//! repository.
//!
//! An issue is a tree of messages, and a message is a commit. The issue is
//! known by the id of its initial message. References below `dit/<id>/` make
//! the messages discoverable: `head` marks the state of the issue that its
//! maintainer stands by, and a leaf `leaves/<message id>` pins a message.
//! Metadata travels in the messages as trailers, `Key: value` lines at the
//! end of a message.
//!
//! The library decides; it does not read or write a repository. It says
//! how references are named and which names belong to which issue
//! ([`issue`], [`reference`], [`remote`]), where a walk over commits is to
//! start and stop ([`issue`], [`repository`]), and, from what a walk visited,
//! which references are not needed any more ([`gc`], [`iter`], [`mirror`]).
//! It reads messages: their lines, blocks and trailers ([`message`],
//! [`trailer`]), gathers metadata from the trailers ([`accumulation`]) and
//! filters issues by it ([`filter`]). It draws the tree of the messages of an
//! issue ([`msgtree`]) and puts pieces of text together into lines
//! ([`display`]).
//!
//! What each function returns is stated in its contract and proved. The
//! contracts speak of texts as sequences of characters and of ids as
//! sequences of bytes; [`history`] holds what they take the history of
//! commits to be. Two things are taken from `git2` unproved, the reading and
//! the writing of the hexadecimal digits of an id; they are stated in
//! [`oid`].

pub mod accumulation;
pub mod commit;
pub mod display;
pub mod error;
pub mod filter;
pub mod gc;
pub mod history;
pub mod issue;
pub mod iter;
pub mod message;
pub mod mirror;
pub mod msgtree;
pub mod oid;
pub mod reference;
pub mod remote;
pub mod repository;
pub mod text;
pub mod trailer;
pub mod utils;
