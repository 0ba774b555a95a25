//! The persistent record of completed chunks: which chunk names have
//! finished, how many frames each contributed, and whether the audio track
//! is done.  Resume trusts this record, so its operations only ever grow it:
//! an inserted name never disappears and the frame total never decreases.

use vstd::prelude::*;

use crate::num::str_eq;

verus! {

/// One completed chunk: its name and what it produced.
#[derive(Debug, Clone, PartialEq)]
pub struct DoneEntry {
    pub name: String,
    pub frames: usize,
    pub size_bytes: usize,
}

/// Sum of the frame counts of a run of entries.
pub open spec fn sum_frames_spec(s: Seq<DoneEntry>) -> int
    decreases s.len(),
{
    if s.len() == 0 {
        0
    } else {
        sum_frames_spec(s.drop_last()) + s.last().frames
    }
}

proof fn lemma_sum_take_le(s: Seq<DoneEntry>, i: int)
    requires
        0 <= i <= s.len(),
    ensures
        0 <= sum_frames_spec(s.take(i)) <= sum_frames_spec(s),
    decreases s.len(),
{
    if i == s.len() {
        assert(s.take(i) =~= s);
        lemma_sum_nonneg(s);
    } else {
        assert(s.take(i) =~= s.drop_last().take(i));
        lemma_sum_take_le(s.drop_last(), i);
    }
}

proof fn lemma_sum_nonneg(s: Seq<DoneEntry>)
    ensures
        sum_frames_spec(s) >= 0,
    decreases s.len(),
{
    if s.len() > 0 {
        lemma_sum_nonneg(s.drop_last());
    }
}

/// The authoritative record of which chunks have completed encoding.
#[derive(Debug, Clone, PartialEq)]
pub struct DoneSet {
    pub entries: Vec<DoneEntry>,
    pub total_frames: usize,
    pub audio_done: bool,
}

impl DoneSet {
    /// Names are unique, and the recorded frames always sum to a
    /// representable total.
    pub open spec fn wf(self) -> bool {
        &&& (forall|i: int, j: int|
            0 <= i < j < self.entries@.len() ==> (#[trigger] self.entries@[i]).name@ != (
            #[trigger] self.entries@[j]).name@)
        &&& sum_frames_spec(self.entries@) <= usize::MAX
    }

    /// The set of chunk names recorded as done.
    pub open spec fn names(self) -> Set<Seq<char>> {
        Set::new(|n: Seq<char>| exists|i: int|
            0 <= i < self.entries@.len() && (#[trigger] self.entries@[i]).name@ == n)
    }

    pub open spec fn sum_spec(self) -> int {
        sum_frames_spec(self.entries@)
    }

    pub open spec fn audio_done_spec(self) -> bool {
        self.audio_done
    }

    pub open spec fn total_frames_spec(self) -> int {
        self.total_frames as int
    }

    /// A fresh record: nothing done yet.
    pub fn new() -> (d: DoneSet)
        ensures
            d.wf(),
            d.names() =~= Set::<Seq<char>>::empty(),
            d.sum_spec() == 0,
            !d.audio_done_spec(),
            d.total_frames_spec() == 0,
            d.entries@.len() == 0,
    {
        DoneSet { entries: Vec::new(), total_frames: 0, audio_done: false }
    }

    /// Record one more completed chunk.
    ///
    /// The record only grows: every name recorded before stays recorded, and
    /// the frame total increases by exactly the new chunk's frames, so it
    /// never decreases.
    pub fn insert(&mut self, name: String, frames: usize, size_bytes: usize)
        requires
            old(self).wf(),
            !old(self).names().contains(name@),
            old(self).sum_spec() + frames <= usize::MAX,
        ensures
            final(self).wf(),
            final(self).names() =~= old(self).names().insert(name@),
            final(self).sum_spec() == old(self).sum_spec() + frames,
            final(self).audio_done_spec() == old(self).audio_done_spec(),
            final(self).total_frames_spec() == old(self).total_frames_spec(),
            final(self).entries@ == old(self).entries@.push(
                DoneEntry { name, frames, size_bytes },
            ),
    {
        let entry = DoneEntry { name, frames, size_bytes };
        proof {
            let es_old = self.entries@;
            let es = es_old.push(entry);
            assert(es.drop_last() =~= es_old);
            assert forall|i: int, j: int| 0 <= i < j < es.len() implies (#[trigger] es[i]).name@
                != (#[trigger] es[j]).name@ by {
                if j == es.len() - 1 {
                    assert(es_old[i].name@ != entry.name@);
                }
            }
        }
        self.entries.push(entry);
        proof {
            let es_old = old(self).entries@;
            let es = self.entries@;
            let post_names = old(self).names().insert(name@);
            assert forall|n: Seq<char>| #[trigger] self.names().contains(n) implies
                post_names.contains(n) by {
                let i = choose|i: int| 0 <= i < es.len() && (#[trigger] es[i]).name@ == n;
                if i < es_old.len() {
                    assert(es_old[i].name@ == n);
                } else {
                    assert(n == name@);
                }
            }
            assert forall|n: Seq<char>| #[trigger] post_names.contains(n) implies
                self.names().contains(n) by {
                if n == name@ {
                    assert(es[es.len() - 1].name@ == n);
                } else {
                    let i = choose|i: int|
                        0 <= i < es_old.len() && (#[trigger] es_old[i]).name@ == n;
                    assert(es[i].name@ == n);
                }
            }
        }
    }

    /// Whether a chunk of this name has completed.
    pub fn contains(&self, name: &str) -> (r: bool)
        ensures
            r == self.names().contains(name@),
    {
        let mut i: usize = 0;
        while i < self.entries.len()
            invariant
                i <= self.entries@.len(),
                forall|j: int| 0 <= j < i ==> (#[trigger] self.entries@[j]).name@ != name@,
            decreases self.entries@.len() - i,
        {
            if str_eq(self.entries[i].name.as_str(), name) {
                return true;
            }
            i += 1;
        }
        false
    }

    /// How many chunks have completed.
    pub fn len(&self) -> (n: usize)
        ensures
            n == self.entries@.len(),
    {
        self.entries.len()
    }

    /// Total frames encoded so far, the authoritative resume progress.
    pub fn sum_frames(&self) -> (n: usize)
        requires
            self.wf(),
        ensures
            n == self.sum_spec(),
    {
        let mut acc: usize = 0;
        let mut i: usize = 0;
        proof {
            assert(self.entries@.take(0int) =~= Seq::<DoneEntry>::empty());
        }
        while i < self.entries.len()
            invariant
                self.wf(),
                i <= self.entries@.len(),
                acc == sum_frames_spec(self.entries@.take(i as int)),
            decreases self.entries@.len() - i,
        {
            proof {
                assert(self.entries@.take(i + 1int).drop_last() =~= self.entries@.take(i as int));
                assert(self.entries@.take(i + 1int).last() == self.entries@[i as int]);
                lemma_sum_take_le(self.entries@, i + 1int);
            }
            acc = acc + self.entries[i].frames;
            i += 1;
        }
        proof {
            assert(self.entries@.take(self.entries@.len() as int) =~= self.entries@);
        }
        acc
    }

    /// Record that the audio track has been extracted and muxed.
    pub fn mark_audio_done(&mut self)
        requires
            old(self).wf(),
        ensures
            final(self).wf(),
            final(self).audio_done_spec(),
            final(self).names() == old(self).names(),
            final(self).sum_spec() == old(self).sum_spec(),
            final(self).total_frames_spec() == old(self).total_frames_spec(),
            final(self).entries@ == old(self).entries@,
    {
        self.audio_done = true;
    }

    pub fn audio_done(&self) -> (r: bool)
        ensures
            r == self.audio_done_spec(),
    {
        self.audio_done
    }

    /// Remember the clip's total frame count, recalculated on resume when a
    /// stale record carried zero.
    pub fn set_total_frames(&mut self, n: usize)
        requires
            old(self).wf(),
        ensures
            final(self).wf(),
            final(self).total_frames_spec() == n,
            final(self).names() == old(self).names(),
            final(self).sum_spec() == old(self).sum_spec(),
            final(self).audio_done_spec() == old(self).audio_done_spec(),
            final(self).entries@ == old(self).entries@,
    {
        self.total_frames = n;
    }

    pub fn total_frames(&self) -> (n: usize)
        ensures
            n == self.total_frames_spec(),
    {
        self.total_frames
    }
}

} // verus!
