//! Release selection for a workspace of interdependent packages.
//!
//! Given the packages of a workspace, the paths that changed between two
//! revisions and a selection policy, the library decides which packages are
//! release candidates, which of them are blocked and why, and in which order
//! the candidates have to be released.
//!
//! - [`package`] holds the plain data of a workspace member, and
//!   [`topology`] the dependency relation and the release order as
//!   mathematics, with the lemmas about them.
//! - [`graph`] builds the package graph and answers queries on it.
//! - [`changes`] computes what differs between two revisions.
//! - [`criteria`] is the selection policy, [`flags`] the vocabulary of
//!   diagnostic flags, [`diagnostics`] their evaluation and [`state`] the
//!   verdict on one package.
//! - [`selection`] is the selection engine, and [`workspace`] ties the parts
//!   together for one run.
//! - [`outside`] holds the calls into other crates.

pub mod changes;
pub mod criteria;
pub mod diagnostics;
pub mod flags;
pub mod graph;
pub mod outside;
pub mod package;
pub mod selection;
pub mod state;
pub mod topology;
pub mod workspace;
