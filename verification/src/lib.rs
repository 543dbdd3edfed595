//! Full one-shot compaction of a paged store, as a verified state machine.
//!
//! Compaction alternates decisions with work on the store: locks to take, a
//! reader scan, a dense repack of the main file, segment files to measure and
//! copy. The decisions are here. A pass started by [`full::compact_now`] always
//! names the one piece of work it waits for, and takes that work's answer to
//! move on; the caller does the work.

pub mod catalog;
pub mod catalog_laws;
pub mod count_laws;
pub mod errors;
pub mod full;
pub mod full_laws;
pub mod options;
pub mod pass_work_laws;
pub mod path_laws;
pub mod paths;
pub mod segment;
pub mod segment_laws;
pub mod segment_work_laws;
pub mod stream_laws;
pub mod text;
pub mod types;
pub mod visit_laws;
