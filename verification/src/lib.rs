//! Planning of table snapshots that add and remove files.
//!
//! A table is a list of manifests, and a manifest is a list of files. An operation that adds and
//! removes files makes a new snapshot: the manifests that list a removed file are rewritten, and
//! manifests for the added files are written. If another writer was first, the operation is tried
//! again on the table as that writer has left it.
//!
//! - [`overwrite`] and [`row_delta`] are the operations. [`merging`] and [`commit`] are what they
//!   share, [`filter`] is the removal of files from manifests, and [`matching`] is the search for
//!   the files to remove.
//! - [`conflicts`], with [`ancestry`], and [`existence`] are checks for what other writers have
//!   done.
//! - [`laws`] states what holds across steps and operations.
//!
//! Nothing here reads or writes. An operation is a sequence of steps: a step names what the caller
//! is to read, write or evaluate, and is resumed with the result.

pub mod ancestry;
pub mod commit;
pub mod conflicts;
pub mod error;
pub mod existence;
pub mod filter;
pub mod ids;
pub mod laws;
pub mod matching;
pub mod merging;
pub mod overwrite;
pub mod path_set;
pub mod row_delta;
pub mod seqs;
pub mod summary;
pub mod text;
pub mod types;
pub mod writer;
