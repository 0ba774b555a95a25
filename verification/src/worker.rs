//! Worker-pool decision logic: the per-chunk retry state machine, the
//! effective worker count, and the resume-time filtering of the queue
//! against the done set.
//!
//! The pool itself spawns OS threads and subprocesses outside the library;
//! every decision it takes — which pass to run next, when to give up on a
//! chunk, how many workers to start, which chunks are still owed — is taken
//! here, so the unverified shell only moves data.

use vstd::prelude::*;

use crate::done::DoneSet;
use crate::types::Chunk;

verus! {

/// Most attempts any one chunk is given before its failure is fatal.
pub const MAX_TRIES: u32 = 3;

/// Lifecycle of one chunk inside the pool.  `tries` counts attempts that
/// have started, the running one included.
#[derive(Debug, Clone, Copy, PartialEq, Eq, Structural)]
pub enum ChunkState {
    Planned,
    Running { pass: u8, tries: u32 },
    Done,
    Fatal,
}

impl ChunkState {
    /// States the pool can actually put a chunk of `passes` passes into.
    pub open spec fn wf(self, passes: u8) -> bool {
        match self {
            ChunkState::Planned => true,
            ChunkState::Running { pass, tries } => {
                &&& 1 <= pass <= passes
                &&& 1 <= tries <= MAX_TRIES
            },
            ChunkState::Done => true,
            ChunkState::Fatal => true,
        }
    }

    pub open spec fn tries_of(self) -> int {
        match self {
            ChunkState::Running { tries, .. } => tries as int,
            _ => 0,
        }
    }
}

/// A worker pulls a planned chunk and starts its first attempt at pass 1.
pub fn start_chunk(passes: u8) -> (s: ChunkState)
    requires
        passes == 1 || passes == 2,
    ensures
        s == (ChunkState::Running { pass: 1u8, tries: 1u32 }),
        s.wf(passes),
{
    ChunkState::Running { pass: 1, tries: 1 }
}

/// Advance a running chunk after one pass finished.
///
/// On success the same attempt moves to the next pass, or the chunk is done
/// after its final pass.  On failure the attempt is abandoned: a fresh
/// attempt restarts at pass 1 (first-pass stats of a failed two-pass attempt
/// are overwritten), unless `MAX_TRIES` attempts are already spent, in which
/// case the chunk is fatal.
pub fn on_pass_result(state: ChunkState, passes: u8, success: bool) -> (next: ChunkState)
    requires
        passes == 1 || passes == 2,
        state is Running,
        state.wf(passes),
    ensures
        next.wf(passes),
        // success on a non-final pass: same attempt, next pass
        (match state {
            ChunkState::Running { pass, tries } => {
                &&& (success && pass < passes ==> next == (ChunkState::Running {
                    pass: (pass + 1) as u8,
                    tries,
                }))
                // success on the final pass completes the chunk
                &&& (success && pass == passes ==> next == ChunkState::Done)
                // failure with attempts left: restart at pass 1
                &&& (!success && tries < MAX_TRIES ==> next == (ChunkState::Running {
                    pass: 1u8,
                    tries: (tries + 1) as u32,
                }))
                // failure on the last allowed attempt is fatal
                &&& (!success && tries == MAX_TRIES ==> next == ChunkState::Fatal)
            },
            _ => false,
        }),
        // attempts never exceed the bound and never decrease
        next.tries_of() <= MAX_TRIES,
        state.tries_of() <= next.tries_of() || next is Done || next is Fatal,
{
    match state {
        ChunkState::Running { pass, tries } => {
            if success {
                if pass < passes {
                    ChunkState::Running { pass: pass + 1, tries }
                } else {
                    ChunkState::Done
                }
            } else {
                if tries < MAX_TRIES {
                    ChunkState::Running { pass: 1, tries: tries + 1 }
                } else {
                    ChunkState::Fatal
                }
            }
        },
        _ => state,
    }
}

/// No reachable chunk state carries more than `MAX_TRIES` attempts, so no
/// chunk is ever attempted more than `MAX_TRIES` times: `start_chunk` begins
/// at one attempt, and every transition keeps the count within the bound.
pub proof fn lemma_retry_bound(state: ChunkState, passes: u8)
    requires
        state.wf(passes),
    ensures
        state.tries_of() <= MAX_TRIES,
{
}

/// How many workers the pool actually starts: the configured count, or the
/// externally derived budget when the configuration leaves it at zero, but
/// never more workers than there are chunks to encode.
pub fn effective_workers(configured: usize, derived: usize, queue_len: usize) -> (n: usize)
    ensures
        configured > 0 ==> n == if configured <= queue_len {
            configured as int
        } else {
            queue_len as int
        },
        configured == 0 ==> n == if derived <= queue_len {
            derived as int
        } else {
            queue_len as int
        },
        n <= queue_len,
{
    let base: usize = if configured == 0 {
        derived
    } else {
        configured
    };
    if base <= queue_len {
        base
    } else {
        queue_len
    }
}

/// A chunk the resumed run still owes: its derived name is not recorded in
/// the done set.
pub open spec fn still_owed(c: Chunk, done: DoneSet) -> bool {
    !done.names().contains(crate::num::pad5_spec(c.index as nat))
}

/// The chunks a resumed run still owes: exactly those of the stored queue
/// whose derived name is not in the done set, in their stored order.
pub open spec fn unfinished_of(chunks: Seq<Chunk>, done: DoneSet) -> Seq<Chunk> {
    chunks.filter(|c: Chunk| still_owed(c, done))
}

/// The chunks of the stored queue that the done set already records.
pub open spec fn finished_of(chunks: Seq<Chunk>, done: DoneSet) -> Seq<Chunk> {
    chunks.filter(|c: Chunk| !still_owed(c, done))
}

/// Resuming partitions the stored queue: every chunk is either still owed
/// or already recorded done, and the two parts' frame counts sum to the
/// whole queue's.  Encoding only the still-owed chunks therefore completes
/// exactly the frames an uninterrupted run would have encoded.
pub proof fn lemma_resume_partition(chunks: Seq<Chunk>, done: DoneSet)
    ensures
        unfinished_of(chunks, done).len() + finished_of(chunks, done).len() == chunks.len(),
        crate::planner::sum_chunk_frames(unfinished_of(chunks, done))
            + crate::planner::sum_chunk_frames(finished_of(chunks, done))
            == crate::planner::sum_chunk_frames(chunks),
        forall|i: int|
            0 <= i < unfinished_of(chunks, done).len() ==> still_owed(
                #[trigger] unfinished_of(chunks, done)[i],
                done,
            ),
        forall|i: int|
            0 <= i < finished_of(chunks, done).len() ==> !still_owed(
                #[trigger] finished_of(chunks, done)[i],
                done,
            ),
    decreases chunks.len(),
{
    reveal(Seq::filter);
    if chunks.len() > 0 {
        lemma_resume_partition(chunks.drop_last(), done);
        let u = unfinished_of(chunks, done);
        let f = finished_of(chunks, done);
        let up = unfinished_of(chunks.drop_last(), done);
        let fp = finished_of(chunks.drop_last(), done);
        let last = chunks.last();
        if still_owed(last, done) {
            assert(u == up.push(last));
            assert(f == fp);
            assert(u.drop_last() == up);
            assert(crate::planner::sum_chunk_frames(u) == crate::planner::sum_chunk_frames(up)
                + last.frames_spec());
        } else {
            assert(f == fp.push(last));
            assert(u == up);
            assert(f.drop_last() == fp);
            assert(crate::planner::sum_chunk_frames(f) == crate::planner::sum_chunk_frames(fp)
                + last.frames_spec());
        }
        assert(crate::planner::sum_chunk_frames(chunks) == crate::planner::sum_chunk_frames(
            chunks.drop_last(),
        ) + last.frames_spec());
    } else {
        assert(unfinished_of(chunks, done) =~= Seq::<Chunk>::empty());
        assert(finished_of(chunks, done) =~= Seq::<Chunk>::empty());
    }
}

/// Filter the loaded queue against the done set on resume.
pub fn filter_unfinished(chunks: Vec<Chunk>, done: &DoneSet) -> (remaining: Vec<Chunk>)
    ensures
        remaining@ == unfinished_of(chunks@, *done),
{
    let ghost orig = chunks@;
    let mut rest = chunks;
    let mut remaining: Vec<Chunk> = Vec::new();
    let ghost mut k: int = 0;
    proof {
        reveal(Seq::filter);
        assert(unfinished_of(orig.take(0int), *done) =~= Seq::<Chunk>::empty());
        assert(orig.skip(0int) =~= orig);
    }
    while rest.len() > 0
        invariant
            0 <= k <= orig.len(),
            rest@ == orig.skip(k),
            remaining@ == unfinished_of(orig.take(k), *done),
        decreases rest@.len(),
    {
        let c = rest.remove(0);
        proof {
            assert(c == orig[k]);
            assert(rest@ =~= orig.skip(k + 1));
        }
        let name = crate::num::pad5(c.index);
        let is_done = done.contains(name.as_str());
        proof {
            assert(orig.take(k + 1).drop_last() =~= orig.take(k));
            assert(orig.take(k + 1).last() == orig[k]);
            reveal(Seq::filter);
            assert(unfinished_of(orig.take(k + 1), *done) == if still_owed(orig[k], *done) {
                unfinished_of(orig.take(k), *done).push(orig[k])
            } else {
                unfinished_of(orig.take(k), *done)
            });
            assert(still_owed(orig[k], *done) == !is_done);
        }
        if !is_done {
            remaining.push(c);
        }
        proof {
            assert(remaining@ =~= unfinished_of(orig.take(k + 1), *done));
            k = k + 1;
        }
    }
    proof {
        assert(orig.take(orig.len() as int) =~= orig);
        assert(orig.skip(k).len() == 0);
        assert(k == orig.len());
    }
    remaining
}

} // verus!
