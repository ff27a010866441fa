//! Rewrites the authorship of a linear commit history.
//!
//! The crate plans an interactive rebase that keeps every commit in place and
//! amends its author, committer and dates: one `pick` line and one `exec` line
//! per commit. It also holds the decisions of the program that drives the
//! rebase and answers when the version-control tool asks for the instruction
//! list. Reading repositories, files and processes is left to the caller.

pub mod text;
pub mod timestamp;
pub mod extractor;
pub mod sequencer;
pub mod ammender;
pub mod driver;
