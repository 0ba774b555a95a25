//! Core of a parallel video re-encoding orchestrator.
//!
//! Given one input clip, the engine discovers scene cuts, partitions the clip
//! into independently encodable chunks aligned to those cuts, tracks which
//! chunks have finished across crashes, and schedules a bounded pool of
//! encoder pipelines with bounded retries.  Everything here is the decision
//! logic of that lifecycle: the subprocess and file plumbing around it lives
//! outside the verified library.

pub mod detect;
pub mod done;
pub mod num;
pub mod orchestrator;
pub mod planner;
pub mod runner;
pub mod ser;
pub mod types;
pub mod worker;
