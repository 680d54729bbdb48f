//! Workspace engine: the verified rules behind a multi-branch git workspace.
//!
//! The engine manages many concurrent branches, organized into ordered
//! stacks, on top of one working tree. This library holds its decisions and
//! data transformations, each with a contract that is proved:
//!
//! - [`snapshot`], [`rows`], [`legacy`], [`sync`], [`oplog`]: the rows of
//!   the metadata store and their order, the shape of the on-disk mirror
//!   file, the rules that reconcile the two, and the log of snapshots that
//!   protects every mutation.
//! - [`graph`], [`executor`], [`commit`]: the editable graph of rebase
//!   steps, the walk that carries it out, and amending and creating commits
//!   in it.
//! - [`stack`], [`squash`]: the heads of a stack and the plan of a squash.
//! - [`hooks`]: the uniform result of user-defined hooks.
//! - [`forge`], [`github`], [`gitlab`], [`review`], [`list`]: recognizing
//!   forges, the values exchanged with them, and review messages.
//! - [`commands`]: what is reported about a file's content.
//! - [`text`], [`table`], [`chars`], [`numbers`]: text layout for the
//!   terminal and the text primitives the rest is specified with.
//!
//! Reading files, talking to the database, running scripts and creating git
//! objects is left to the caller, who hands plain values in and carries out
//! what comes back.

pub mod chars;
pub mod commands;
pub mod commit;
pub mod executor;
pub mod forge;
pub mod github;
pub mod gitlab;
pub mod graph;
pub mod hooks;
pub mod legacy;
pub mod list;
pub mod numbers;
pub mod oplog;
pub mod review;
pub mod rows;
pub mod snapshot;
pub mod squash;
pub mod stack;
pub mod sync;
pub mod table;
pub mod text;
