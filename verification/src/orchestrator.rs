//! The run-level decisions the orchestrator takes before and after the
//! worker pool: whether a run resumes, whether stored scenes are reused,
//! and what a fatal chunk means for the process.

use vstd::prelude::*;

verus! {

/// A run resumes only when it was asked to and both persisted records are
/// present; a missing record demotes it to a fresh run.
pub fn resume_decision(resume_flag: bool, done_exists: bool, chunks_exists: bool) -> (r: bool)
    ensures
        r == (resume_flag && done_exists && chunks_exists),
{
    resume_flag && done_exists && chunks_exists
}

/// Whether stored scenes are reloaded instead of re-detected: only when the
/// scene file exists and either the caller supplied one or the run resumes.
pub fn use_scenes_file(scene_file_exists: bool, scenes_path_given: bool, resume: bool) -> (r:
    bool)
    ensures
        r == (scene_file_exists && (scenes_path_given || resume)),
{
    scene_file_exists && (scenes_path_given || resume)
}

/// The clip total a resumed run trusts: the stored counter, recomputed from
/// the freshly probed clip when the stored record carried zero.
pub fn resume_total_frames(stored: usize, probed: usize) -> (r: usize)
    ensures
        r == if stored == 0 {
            probed as int
        } else {
            stored as int
        },
{
    if stored == 0 {
        probed
    } else {
        stored
    }
}

/// The process exit code: a fatal chunk ends the whole run with code one,
/// anything else exits cleanly.
pub fn exit_code(fatal_chunk_seen: bool) -> (r: i32)
    ensures
        r == if fatal_chunk_seen {
            1int
        } else {
            0int
        },
{
    if fatal_chunk_seen {
        1
    } else {
        0
    }
}

} // verus!
