//! The scene-detection driver: a single pass over the clip, segmented at
//! zone boundaries, that turns the analyzer's cut lists into a scene list
//! tiling the whole clip.
//!
//! The analyzer itself decodes frames and is driven outside the library; the
//! driver here decides, per segment, which minimum scene length and frame
//! limit to hand it, and folds each returned cut list into the scene list.

use vstd::prelude::*;

use crate::types::{scenes_tile, JobError, Scene};

verus! {

/// The filter arguments of the analysis decoder: convert to the configured
/// analysis pixel format and cap the height at the configured downscale,
/// whichever of the two are set.
pub open spec fn sc_filter_spec(
    downscale_height: Option<u32>,
    pix_format: Option<Seq<char>>,
    scaler: Seq<char>,
) -> Seq<Seq<char>> {
    match (downscale_height, pix_format) {
        (Some(h), Some(pf)) => seq![
            "-vf"@,
            "format="@ + pf + ",scale=-2:'min("@ + crate::num::dec_rep(h as nat) + ",ih)':flags="@
                + scaler,
        ],
        (Some(h), None) => seq![
            "-vf"@,
            "scale=-2:'min("@ + crate::num::dec_rep(h as nat) + ",ih)':flags="@ + scaler,
        ],
        (None, Some(pf)) => seq!["-pix_fmt"@, pf],
        (None, None) => Seq::<Seq<char>>::empty(),
    }
}

/// Compose the analysis decoder's filter arguments, exactly as
/// `sc_filter_spec` describes them.
pub fn sc_decoder_filter_args(
    downscale_height: Option<u32>,
    pix_format: Option<&str>,
    scaler: &str,
) -> (r: Vec<String>)
    ensures
        r@.map_values(|t: String| t@) == sc_filter_spec(
            downscale_height,
            match pix_format {
                Some(p) => Some(p@),
                None => None,
            },
            scaler@,
        ),
{
    let mut r: Vec<String> = Vec::new();
    match (downscale_height, pix_format) {
        (Some(h), Some(pf)) => {
            r.push(String::from_str("-vf"));
            let mut f = String::from_str("format=");
            f.append(pf);
            f.append(",scale=-2:'min(");
            let d = crate::num::u64_dec(h as u64);
            f.append(d.as_str());
            f.append(",ih)':flags=");
            f.append(scaler);
            r.push(f);
        },
        (Some(h), None) => {
            r.push(String::from_str("-vf"));
            let mut f = String::from_str("scale=-2:'min(");
            let d = crate::num::u64_dec(h as u64);
            f.append(d.as_str());
            f.append(",ih)':flags=");
            f.append(scaler);
            r.push(f);
        },
        (None, Some(pf)) => {
            r.push(String::from_str("-pix_fmt"));
            r.push(String::from_str(pf));
        },
        (None, None) => {},
    }
    proof {
        assert(r@.map_values(|t: String| t@) =~~= sc_filter_spec(
            downscale_height,
            match pix_format {
                Some(p) => Some(p@),
                None => None,
            },
            scaler@,
        ));
    }
    r
}

/// Which sample width the analyzer reads frames with: wide samples for
/// sources deeper than eight bits, narrow otherwise.
pub fn analyzer_uses_wide_samples(bit_depth: u8) -> (r: bool)
    ensures
        r == (bit_depth > 8),
{
    bit_depth > 8
}

/// Zones are sorted, pairwise disjoint, nonempty ranges inside the clip,
/// and any override they carry names a legal pass count.
pub open spec fn zones_valid(zones: Seq<Scene>, total: int) -> bool {
    &&& (forall|i: int|
        0 <= i < zones.len() ==> (#[trigger] zones[i]).wf() && zones[i].end_frame <= total)
    &&& (forall|i: int|
        0 <= i < zones.len() - 1 ==> (#[trigger] zones[i]).end_frame <= zones[
            i + 1
        ].start_frame)
    &&& (forall|i: int|
        0 <= i < zones.len() ==> crate::planner::overrides_wf(
            (#[trigger] zones[i]).zone_overrides,
        ))
}

/// Check that a zone list is sorted, disjoint, and inside the clip.
pub fn check_zones(zones: &Vec<Scene>, total_frames: usize) -> (r: bool)
    ensures
        r == zones_valid(zones@, total_frames as int),
{
    let mut i: usize = 0;
    while i < zones.len()
        invariant
            i <= zones@.len(),
            forall|k: int|
                0 <= k < i ==> (#[trigger] zones@[k]).wf() && zones@[k].end_frame
                    <= total_frames,
            forall|k: int|
                0 <= k < i && k < zones@.len() - 1 ==> (#[trigger] zones@[k]).end_frame
                    <= zones@[k + 1].start_frame,
            forall|k: int|
                0 <= k < i ==> crate::planner::overrides_wf(
                    (#[trigger] zones@[k]).zone_overrides,
                ),
        decreases zones@.len() - i,
    {
        let z = &zones[i];
        if !(z.start_frame < z.end_frame && z.end_frame <= total_frames) {
            return false;
        }
        if i + 1 < zones.len() {
            if !(z.end_frame <= zones[i + 1].start_frame) {
                return false;
            }
        }
        match &z.zone_overrides {
            Some(o) => {
                if !(o.passes == 1 || o.passes == 2) {
                    return false;
                }
            },
            None => {},
        }
        i += 1;
    }
    true
}

/// The driver's whole state between two analyzer invocations.
#[derive(Debug)]
pub struct SceneDetectionState {
    pub total_frames: usize,
    pub zones: Vec<Scene>,
    pub frames_read: usize,
    pub zone_idx: usize,
    pub scenes: Vec<Scene>,
}

impl SceneDetectionState {
    /// Everything the driver maintains across segments: the zones are valid,
    /// progress stays inside the clip, `zone_idx` is the first zone not yet
    /// passed, and the scenes so far tile exactly the frames read so far.
    pub open spec fn wf(self) -> bool {
        &&& zones_valid(self.zones@, self.total_frames as int)
        &&& self.frames_read <= self.total_frames
        &&& self.zone_idx <= self.zones@.len()
        &&& (forall|i: int|
            0 <= i < self.zone_idx ==> (#[trigger] self.zones@[i]).end_frame
                <= self.frames_read)
        &&& (self.zone_idx < self.zones@.len() ==> self.frames_read <= self.zones@[
            self.zone_idx as int
        ].start_frame)
        &&& scenes_tile(self.scenes@, 0, self.frames_read as int)
    }

    /// The current segment lies inside a zone: it starts exactly at the next
    /// zone's start.
    pub open spec fn in_zone(self) -> bool {
        self.zone_idx < self.zones@.len() && self.frames_read == self.zones@[
            self.zone_idx as int
        ].start_frame
    }

    /// The overrides every scene of the current segment inherits: the
    /// active zone's, or none outside a zone.
    pub open spec fn active_overrides(self) -> Option<crate::types::ZoneOptionsModel> {
        if self.in_zone() {
            self.zones@[self.zone_idx as int].model().zone_overrides
        } else {
            Option::<crate::types::ZoneOptionsModel>::None
        }
    }

    /// Where the current segment ends: at the active zone's end, at the next
    /// zone's start, or at the end of the clip.
    pub open spec fn seg_end(self) -> int {
        if self.in_zone() {
            self.zones@[self.zone_idx as int].end_frame as int
        } else if self.zone_idx < self.zones@.len() {
            self.zones@[self.zone_idx as int].start_frame as int
        } else {
            self.total_frames as int
        }
    }

    /// Start the pass.  Fails exactly when the zone list is not sorted,
    /// disjoint, nonempty ranges inside the clip.
    pub fn new_detection(total_frames: usize, zones: Vec<Scene>) -> (r: Result<
        SceneDetectionState,
        JobError,
    >)
        ensures
            match r {
                Ok(st) => {
                    &&& zones_valid(zones@, total_frames as int)
                    &&& st.wf()
                    &&& st.total_frames == total_frames
                    &&& st.zones@ == zones@
                    &&& st.frames_read == 0
                    &&& st.scenes@.len() == 0
                },
                Err(e) => e == JobError::ConfigInvalid && !zones_valid(
                    zones@,
                    total_frames as int,
                ),
            },
    {
        if !check_zones(&zones, total_frames) {
            return Err(JobError::ConfigInvalid);
        }
        Ok(
            SceneDetectionState {
                total_frames,
                zones,
                frames_read: 0,
                zone_idx: 0,
                scenes: Vec::new(),
            },
        )
    }

    /// The pass is over when every frame has been read.
    pub fn is_done(&self) -> (r: bool)
        ensures
            r == (self.frames_read == self.total_frames),
    {
        self.frames_read == self.total_frames
    }

    /// When the pass is over, the scenes tile the whole clip: contiguous,
    /// sorted, nonempty, starting at frame zero and ending at the last.
    pub proof fn lemma_done_tiles(self)
        requires
            self.wf(),
            self.frames_read == self.total_frames,
        ensures
            scenes_tile(self.scenes@, 0, self.total_frames as int),
    {
    }

    /// The minimum scene length for the coming segment: the active zone's
    /// override when it has one, the global setting otherwise.
    pub fn min_scene_len_for_segment(&self, global_min: usize) -> (r: usize)
        requires
            self.wf(),
        ensures
            r == if self.in_zone() {
                match self.zones@[self.zone_idx as int].zone_overrides {
                    Some(z) => z.min_scene_len as int,
                    None => global_min as int,
                }
            } else {
                global_min as int
            },
    {
        if self.zone_idx < self.zones.len() && self.frames_read
            == self.zones[self.zone_idx].start_frame {
            match &self.zones[self.zone_idx].zone_overrides {
                Some(z) => z.min_scene_len,
                None => global_min,
            }
        } else {
            global_min
        }
    }

    /// The frame limit handed to the analyzer: the segment length while any
    /// zone boundary is still ahead, and none on the final run to the end of
    /// the clip.
    pub fn frame_limit(&self) -> (r: Option<usize>)
        requires
            self.wf(),
        ensures
            r == if self.zone_idx < self.zones@.len() {
                Some((self.seg_end() - self.frames_read) as usize)
            } else {
                Option::<usize>::None
            },
    {
        if self.zone_idx < self.zones.len() {
            if self.frames_read == self.zones[self.zone_idx].start_frame {
                Some(self.zones[self.zone_idx].end_frame - self.frames_read)
            } else {
                Some(self.zones[self.zone_idx].start_frame - self.frames_read)
            }
        } else {
            None
        }
    }

    /// How many frames the coming segment covers.
    pub fn segment_length(&self) -> (r: usize)
        requires
            self.wf(),
            self.frames_read < self.total_frames,
        ensures
            r == self.seg_end() - self.frames_read,
            r >= 1,
    {
        if self.zone_idx < self.zones.len() {
            if self.frames_read == self.zones[self.zone_idx].start_frame {
                self.zones[self.zone_idx].end_frame - self.frames_read
            } else {
                self.zones[self.zone_idx].start_frame - self.frames_read
            }
        } else {
            self.total_frames - self.frames_read
        }
    }
}

/// The scenes one segment's cut list yields: one scene per window between
/// adjacent cuts, each starting and ending exactly at the cut positions
/// shifted by the segment's base, plus a trailing scene closing the segment
/// when the last cut leaves room.
pub open spec fn scenes_of_cuts(
    cuts: Seq<usize>,
    base: int,
    seg_end: int,
    om: Option<crate::types::ZoneOptionsModel>,
) -> Seq<crate::types::SceneModel> {
    let nwin: int = if cuts.len() == 0 {
        0
    } else {
        cuts.len() - 1
    };
    let windows = Seq::new(
        nwin as nat,
        |k: int| crate::types::SceneModel {
            start_frame: base + cuts[k],
            end_frame: base + cuts[k + 1],
            zone_overrides: om,
        },
    );
    let last_end: int = if cuts.len() == 0 {
        base
    } else {
        base + cuts[cuts.len() - 1]
    };
    if last_end < seg_end {
        windows.push(
            crate::types::SceneModel { start_frame: last_end, end_frame: seg_end, zone_overrides: om },
        )
    } else {
        windows
    }
}

/// What the driver accepts as a cut list for a segment of `seg_len` frames:
/// strictly increasing indices inside the segment, beginning with the
/// segment's first frame when any cut is reported at all.
pub open spec fn cuts_valid(cuts: Seq<usize>, seg_len: int) -> bool {
    &&& (forall|i: int| 0 <= i < cuts.len() ==> (#[trigger] cuts[i]) < seg_len)
    &&& (forall|i: int| 0 <= i < cuts.len() - 1 ==> (#[trigger] cuts[i]) < cuts[i + 1])
    &&& (cuts.len() > 0 ==> cuts[0] == 0)
}

/// Check a returned cut list before folding it in.
pub fn check_cuts(cuts: &Vec<usize>, seg_len: usize) -> (r: bool)
    ensures
        r == cuts_valid(cuts@, seg_len as int),
{
    let mut i: usize = 0;
    if cuts.len() > 0 && cuts[0] != 0 {
        return false;
    }
    while i < cuts.len()
        invariant
            i <= cuts@.len(),
            cuts@.len() > 0 ==> cuts@[0] == 0,
            forall|k: int| 0 <= k < i ==> (#[trigger] cuts@[k]) < seg_len,
            forall|k: int| 0 <= k < i && k < cuts@.len() - 1 ==> (#[trigger] cuts@[k]) < cuts@[
                k + 1
            ],
        decreases cuts@.len() - i,
    {
        if cuts[i] >= seg_len {
            return false;
        }
        if i + 1 < cuts.len() {
            if cuts[i] >= cuts[i + 1] {
                return false;
            }
        }
        i += 1;
    }
    true
}

impl SceneDetectionState {
    /// Fold one analyzer result into the pass.
    ///
    /// When a frame limit was handed to the analyzer and the returned frame
    /// count differs, the pass fails with the mismatch and the state is
    /// unchanged.  Otherwise the segment's cuts become scenes (each window
    /// between adjacent cuts, plus a trailing scene closing the segment),
    /// every new scene carries the active zone's overrides, and progress
    /// moves to the segment's end.
    #[verifier::rlimit(100)]
    #[verifier::spinoff_prover]
    pub fn apply_segment(&mut self, cuts: &Vec<usize>, frame_count: usize) -> (r: Result<
        (),
        JobError,
    >)
        requires
            old(self).wf(),
            old(self).frames_read < old(self).total_frames,
            cuts_valid(cuts@, old(self).seg_end() - old(self).frames_read),
        ensures
            final(self).wf(),
            final(self).total_frames == old(self).total_frames,
            final(self).zones@ == old(self).zones@,
            match r {
                Ok(()) => {
                    // the analyzer saw exactly the frames it was limited to
                    &&& (old(self).zone_idx < old(self).zones@.len() ==> frame_count == old(
                        self,
                    ).seg_end() - old(self).frames_read)
                    // the cuts become the scene boundaries: the segment's
                    // scenes are exactly those of its cut list
                    &&& crate::types::scene_models(final(self).scenes@)
                        == crate::types::scene_models(old(self).scenes@) + scenes_of_cuts(
                        cuts@,
                        old(self).frames_read as int,
                        old(self).seg_end(),
                        old(self).active_overrides(),
                    )
                    // progress moved to the segment's end
                    &&& final(self).frames_read == old(self).seg_end()
                    // the scene list only grew
                    &&& final(self).scenes@.len() > old(self).scenes@.len()
                    &&& (forall|i: int|
                        0 <= i < old(self).scenes@.len() ==> #[trigger] final(self).scenes@[i]
                            == old(self).scenes@[i])
                    // the new scenes stay inside the segment and inherit the
                    // active zone's overrides
                    &&& (forall|i: int|
                        old(self).scenes@.len() <= i < final(self).scenes@.len() ==> {
                            &&& old(self).frames_read <= (
                            #[trigger] final(self).scenes@[i]).start_frame
                            &&& final(self).scenes@[i].end_frame <= old(self).seg_end()
                            &&& final(self).scenes@[i].model().zone_overrides == (if old(
                                self,
                            ).in_zone() {
                                old(self).zones@[
                                    old(self).zone_idx as int
                                ].model().zone_overrides
                            } else {
                                Option::<crate::types::ZoneOptionsModel>::None
                            })
                        })
                },
                Err(e) => {
                    &&& e == (JobError::DetectorFrameCountMismatch {
                        expected: (old(self).seg_end() - old(self).frames_read) as usize,
                        actual: frame_count,
                    })
                    &&& old(self).zone_idx < old(self).zones@.len()
                    &&& frame_count != old(self).seg_end() - old(self).frames_read
                    &&& final(self).frames_read == old(self).frames_read
                    &&& final(self).scenes@ == old(self).scenes@
                    &&& final(self).zone_idx == old(self).zone_idx
                },
            },
    {
        let in_zone = self.zone_idx < self.zones.len() && self.frames_read
            == self.zones[self.zone_idx].start_frame;
        let seg_len: usize = if self.zone_idx < self.zones.len() {
            if in_zone {
                self.zones[self.zone_idx].end_frame - self.frames_read
            } else {
                self.zones[self.zone_idx].start_frame - self.frames_read
            }
        } else {
            self.total_frames - self.frames_read
        };
        if self.zone_idx < self.zones.len() && frame_count != seg_len {
            return Err(
                JobError::DetectorFrameCountMismatch { expected: seg_len, actual: frame_count },
            );
        }
        let base = self.frames_read;
        let seg_end = base + seg_len;
        proof {
            assert(seg_len == old(self).seg_end() - old(self).frames_read);
            assert(in_zone == old(self).in_zone());
            assert(seg_len >= 1) by {
                if old(self).in_zone() {
                    assert(old(self).zones@[old(self).zone_idx as int].wf());
                } else if old(self).zone_idx < old(self).zones@.len() {
                    assert(old(self).frames_read <= old(self).zones@[
                        old(self).zone_idx as int
                    ].start_frame);
                }
            }
        }
        let ghost overrides_model = if in_zone {
            self.zones@[self.zone_idx as int].model().zone_overrides
        } else {
            Option::<crate::types::ZoneOptionsModel>::None
        };

        // one scene per window between adjacent cuts, built apart first
        let mut fresh: Vec<Scene> = Vec::new();
        let nwin: usize = if cuts.len() == 0 {
            0
        } else {
            cuts.len() - 1
        };
        let mut i: usize = 0;
        while i < nwin
            invariant
                base + seg_len == seg_end,
                cuts_valid(cuts@, seg_len as int),
                nwin == if cuts@.len() == 0 {
                    0int
                } else {
                    cuts@.len() - 1
                },
                i <= nwin,
                fresh@.len() == i,
                in_zone ==> self.zone_idx < self.zones@.len(),
                overrides_model == (if in_zone {
                    self.zones@[self.zone_idx as int].model().zone_overrides
                } else {
                    Option::<crate::types::ZoneOptionsModel>::None
                }),
                forall|k: int|
                    0 <= k < i ==> {
                        &&& (#[trigger] fresh@[k]).start_frame == base + cuts@[k]
                        &&& fresh@[k].end_frame == base + cuts@[k + 1]
                        &&& fresh@[k].model().zone_overrides == overrides_model
                    },
            decreases nwin - i,
        {
            let overrides = if in_zone {
                match &self.zones[self.zone_idx].zone_overrides {
                    Some(z) => Some(z.clone()),
                    None => None,
                }
            } else {
                None
            };
            let scene = Scene {
                start_frame: base + cuts[i],
                end_frame: base + cuts[i + 1],
                zone_overrides: overrides,
            };
            fresh.push(scene);
            i += 1;
        }

        // trailing scene closing the segment
        let last_end: usize = if cuts.len() == 0 {
            base
        } else {
            base + cuts[cuts.len() - 1]
        };
        if last_end < seg_end {
            let overrides = if in_zone {
                match &self.zones[self.zone_idx].zone_overrides {
                    Some(z) => Some(z.clone()),
                    None => None,
                }
            } else {
                None
            };
            fresh.push(
                Scene { start_frame: last_end, end_frame: seg_end, zone_overrides: overrides },
            );
        }
        proof {
            Self::lemma_fresh_segment(
                fresh@,
                cuts@,
                base,
                seg_len,
                seg_end,
                overrides_model,
                last_end < seg_end,
            );
        }
        let ghost f = fresh@;
        proof {
            assert(overrides_model == old(self).active_overrides());
        }
        let ghost old_scenes = self.scenes@;
        self.scenes.append(&mut fresh);
        self.frames_read = seg_end;
        if in_zone {
            self.zone_idx = self.zone_idx + 1;
        }
        proof {
            Self::lemma_advance(*old(self), *self, f, base, seg_end, overrides_model);
            assert(crate::types::scene_models(self.scenes@) =~= crate::types::scene_models(
                old_scenes,
            ) + crate::types::scene_models(f));
        }
        Ok(())
    }

    /// The scenes built from one segment's cut list tile the segment and
    /// stay inside it, each carrying the active zone's overrides.
    #[verifier::rlimit(100)]
    #[verifier::spinoff_prover]
    proof fn lemma_fresh_segment(
        f: Seq<Scene>,
        cuts: Seq<usize>,
        base: usize,
        seg_len: usize,
        seg_end: usize,
        om: Option<crate::types::ZoneOptionsModel>,
        trailing: bool,
    )
        requires
            base + seg_len == seg_end,
            seg_len >= 1,
            cuts_valid(cuts, seg_len as int),
            trailing == ((if cuts.len() == 0 {
                base as int
            } else {
                base + cuts[cuts.len() - 1]
            }) < seg_end),
            f.len() == (if cuts.len() == 0 {
                0int
            } else {
                cuts.len() - 1
            }) + if trailing {
                1int
            } else {
                0int
            },
            forall|k: int|
                0 <= k < cuts.len() - 1 ==> {
                    &&& (#[trigger] f[k]).start_frame == base + cuts[k]
                    &&& f[k].end_frame == base + cuts[k + 1]
                    &&& f[k].model().zone_overrides == om
                },
            trailing ==> {
                &&& f[f.len() - 1].start_frame as int == (if cuts.len() == 0 {
                    base as int
                } else {
                    base + cuts[cuts.len() - 1]
                })
                &&& f[f.len() - 1].end_frame == seg_end
                &&& f[f.len() - 1].model().zone_overrides == om
            },
        ensures
            f.len() > 0,
            scenes_tile(f, base as int, seg_end as int),
            forall|k: int|
                0 <= k < f.len() ==> {
                    &&& base <= (#[trigger] f[k]).start_frame
                    &&& f[k].end_frame <= seg_end
                    &&& f[k].model().zone_overrides == om
                },
            crate::types::scene_models(f) == scenes_of_cuts(cuts, base as int, seg_end as int, om),
    {
        let n = cuts.len() as int;
        assert(f.len() > 0);
        assert(f[0].start_frame == base) by {
            if n >= 1 {
                assert(cuts[0] == 0);
            }
        }
        assert(f[f.len() - 1].end_frame == seg_end) by {
            if !trailing {
                assert(n >= 2);
                assert(f[f.len() - 1].end_frame == base + cuts[n - 1]);
            }
        }
        assert(scenes_tile(f, base as int, seg_end as int)) by {
            assert forall|k: int| 0 <= k < f.len() implies (#[trigger] f[k]).wf() by {
                if k < n - 1 {
                    assert(cuts[k] < cuts[k + 1]);
                    assert(f[k].start_frame == base + cuts[k]);
                    assert(f[k].end_frame == base + cuts[k + 1]);
                } else {
                    assert(trailing);
                    assert(k == f.len() - 1);
                }
            }
            assert forall|k: int| 0 < k < f.len() implies (#[trigger] f[k]).start_frame == f[
                k - 1
            ].end_frame by {
                assert(f[k - 1].end_frame == base + cuts[k]);
                if k < n - 1 {
                    assert(f[k].start_frame == base + cuts[k]);
                } else {
                    assert(trailing);
                    assert(k == f.len() - 1);
                    assert(f[k].start_frame as int == base + cuts[n - 1]);
                    assert(k == n - 1);
                }
            }
        }
        assert forall|k: int| 0 <= k < f.len() implies {
            &&& base <= (#[trigger] f[k]).start_frame
            &&& f[k].end_frame <= seg_end
            &&& f[k].model().zone_overrides == om
        } by {
            if k < n - 1 {
                assert(cuts[k + 1] < seg_len);
            }
        }
        let f_models = crate::types::scene_models(f);
        let soc = scenes_of_cuts(cuts, base as int, seg_end as int, om);
        assert(f.len() == soc.len());
        assert forall|k: int| 0 <= k < f.len() implies #[trigger] f_models[k] =~~= soc[k] by {
            assert(f_models[k] == f[k].model());
            if k < n - 1 {
                assert(f[k].start_frame == base + cuts[k]);
                assert(f[k].end_frame == base + cuts[k + 1]);
            } else {
                assert(trailing);
                assert(f[k].end_frame == seg_end);
            }
        }
        assert(f_models =~~= soc);
    }

    /// Folding one segment's scenes into a well-formed state yields a
    /// well-formed state whose scene list grew by exactly that segment.
    #[verifier::rlimit(100)]
    #[verifier::spinoff_prover]
    proof fn lemma_advance(
        prev: Self,
        post: Self,
        f: Seq<Scene>,
        base: usize,
        seg_end: usize,
        overrides_model: Option<crate::types::ZoneOptionsModel>,
    )
        requires
            prev.wf(),
            prev.frames_read < prev.total_frames,
            base == prev.frames_read,
            seg_end == prev.seg_end(),
            f.len() > 0,
            scenes_tile(f, base as int, seg_end as int),
            forall|k: int|
                0 <= k < f.len() ==> {
                    &&& base <= (#[trigger] f[k]).start_frame
                    &&& f[k].end_frame <= seg_end
                    &&& f[k].model().zone_overrides == overrides_model
                },
            post.total_frames == prev.total_frames,
            post.zones@ == prev.zones@,
            post.scenes@ == prev.scenes@ + f,
            post.frames_read == seg_end,
            post.zone_idx as int == if prev.in_zone() {
                prev.zone_idx + 1int
            } else {
                prev.zone_idx as int
            },
        ensures
            post.wf(),
            post.scenes@.len() > prev.scenes@.len(),
            forall|i: int|
                0 <= i < prev.scenes@.len() ==> #[trigger] post.scenes@[i] == prev.scenes@[i],
            forall|i: int|
                prev.scenes@.len() <= i < post.scenes@.len() ==> {
                    &&& prev.frames_read <= (#[trigger] post.scenes@[i]).start_frame
                    &&& post.scenes@[i].end_frame <= prev.seg_end()
                    &&& post.scenes@[i].model().zone_overrides == overrides_model
                },
    {
        crate::types::lemma_tile_concat(prev.scenes@, f, 0, base as int, seg_end as int);
        assert(scenes_tile(post.scenes@, 0, seg_end as int));
        assert(post.frames_read <= post.total_frames) by {
            if prev.in_zone() {
                assert(prev.zones@[prev.zone_idx as int].end_frame <= prev.total_frames);
            } else if prev.zone_idx < prev.zones@.len() {
                assert(prev.zones@[prev.zone_idx as int].end_frame <= prev.total_frames);
            }
        }
        assert forall|i: int| 0 <= i < post.zone_idx implies (
        #[trigger] post.zones@[i]).end_frame <= post.frames_read by {
            if i < prev.zone_idx {
                assert(prev.zones@[i].end_frame <= prev.frames_read);
            }
        }
        assert(post.zone_idx < post.zones@.len() ==> post.frames_read <= post.zones@[
            post.zone_idx as int
        ].start_frame) by {
            if prev.in_zone() && prev.zone_idx + 1 < prev.zones@.len() {
                assert(prev.zones@[prev.zone_idx as int].end_frame <= prev.zones@[
                    prev.zone_idx + 1
                ].start_frame);
            }
        }
        assert forall|k: int|
            prev.scenes@.len() <= k < post.scenes@.len() implies {
                &&& base <= (#[trigger] post.scenes@[k]).start_frame
                &&& post.scenes@[k].end_frame <= seg_end
                &&& post.scenes@[k].model().zone_overrides == overrides_model
            } by {
            assert(post.scenes@[k] == f[k - prev.scenes@.len()]);
        }
    }
}

} // verus!
