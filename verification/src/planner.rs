//! Chunk planning: turning a tiled scene list into the concrete chunks the
//! worker pool encodes, one per scene, with the zone's overrides applied and
//! the exact source argv each chunk will stream its frames from.

use vstd::prelude::*;

use rand::seq::SliceRandom;

use vstd::multiset::Multiset;

use crate::num::{dec_rep, u64_dec};
use crate::types::{clone_strings, Chunk, Input, JobError, Ratio, Scene, ZoneOptions};

verus! {

/// The global settings chunk planning draws on; a zone override replaces the
/// encoder-related ones for the scenes it covers.
#[derive(Debug)]
pub struct PlanSettings {
    pub temp: String,
    pub video_params: Vec<String>,
    pub passes: u8,
    pub encoder: String,
    pub output_ext: String,
    pub pix_format: String,
    pub photon_noise: Option<u8>,
    pub photon_noise_width: Option<u32>,
    pub photon_noise_height: Option<u32>,
    pub chroma_noise: bool,
    pub ignore_frame_mismatch: bool,
    pub frame_rate: Ratio,
}

impl PlanSettings {
    pub open spec fn wf(self) -> bool {
        &&& (self.passes == 1 || self.passes == 2)
        &&& self.frame_rate.wf()
    }
}

/// A zone override may change the pass count, so it must stay in range.
pub open spec fn zone_wf(z: ZoneOptions) -> bool {
    z.passes == 1 || z.passes == 2
}

pub open spec fn overrides_wf(o: Option<ZoneOptions>) -> bool {
    match o {
        Some(z) => zone_wf(z),
        None => true,
    }
}

/// The encoder parameters a chunk inherits: the zone's when it lies in a
/// zone, the global ones otherwise.
pub open spec fn eff_video_params(s: &PlanSettings, o: Option<ZoneOptions>) -> Seq<Seq<char>> {
    match o {
        Some(z) => z.video_params@.map_values(|t: String| t@),
        None => s.video_params@.map_values(|t: String| t@),
    }
}

pub open spec fn eff_passes(s: &PlanSettings, o: Option<ZoneOptions>) -> int {
    match o {
        Some(z) => z.passes as int,
        None => s.passes as int,
    }
}

pub open spec fn eff_encoder(s: &PlanSettings, o: Option<ZoneOptions>) -> Seq<char> {
    match o {
        Some(z) => z.encoder@,
        None => s.encoder@,
    }
}

/// The frame-exact selection filter handed to the converter: frames `start`
/// through `endm1` inclusive.
pub open spec fn select_filter_spec(start: int, endm1: int) -> Seq<char>
    recommends
        0 <= start,
        0 <= endm1,
{
    "select=between(n\\,"@ + dec_rep(start as nat) + "\\,"@ + dec_rep(endm1 as nat) + ")"@
}

/// The argv of the frame-exact source pipeline for one chunk: decode the
/// whole file, keep only the chunk's frames, emit raw frames on stdout.
pub open spec fn select_cmd_spec(src: Seq<char>, start: int, endm1: int, pix: Seq<char>) -> Seq<
    Seq<char>,
> {
    seq![
        "ffmpeg"@,
        "-y"@,
        "-hide_banner"@,
        "-loglevel"@,
        "error"@,
        "-i"@,
        src,
        "-vf"@,
        select_filter_spec(start, endm1),
        "-pix_fmt"@,
        pix,
        "-strict"@,
        "-1"@,
        "-f"@,
        "yuv4mpegpipe"@,
        "-"@,
    ]
}

/// The argv of the script-runtime source for one chunk: render frames
/// `start` through `endm1` inclusive.
pub open spec fn script_cmd_spec(script: Seq<char>, start: int, endm1: int) -> Seq<Seq<char>>
{
    seq![
        "vspipe"@,
        script,
        "-c"@,
        "y4m"@,
        "-"@,
        "-s"@,
        dec_rep(start as nat),
        "-e"@,
        dec_rep(endm1 as nat),
    ]
}

/// The argv of the pass-through source for one pre-split segment file.
pub open spec fn segment_cmd_spec(file: Seq<char>, pix: Seq<char>) -> Seq<Seq<char>> {
    seq![
        "ffmpeg"@,
        "-y"@,
        "-hide_banner"@,
        "-loglevel"@,
        "error"@,
        "-i"@,
        file,
        "-strict"@,
        "-1"@,
        "-pix_fmt"@,
        pix,
        "-f"@,
        "yuv4mpegpipe"@,
        "-"@,
    ]
}

fn select_filter_string(start: usize, endm1: usize) -> (r: String)
    ensures
        r@ == select_filter_spec(start as int, endm1 as int),
{
    let mut r = String::from_str("select=between(n\\,");
    let sd = u64_dec(start as u64);
    r.append(sd.as_str());
    r.append("\\,");
    let ed = u64_dec(endm1 as u64);
    r.append(ed.as_str());
    r.append(")");
    proof {
        assert(r@ =~= select_filter_spec(start as int, endm1 as int));
    }
    r
}

/// What every planned chunk shares: its identity, its frame range taken from
/// its scene, the inherited encoder settings, and well-formedness.
pub open spec fn chunk_basics_ok(
    c: Chunk,
    s: &PlanSettings,
    idx: int,
    start: int,
    end: int,
    o: Option<ZoneOptions>,
) -> bool {
    &&& c.index == idx
    &&& c.start_frame == start
    &&& c.end_frame == end
    &&& c.wf()
    &&& c.temp@ == s.temp@
    &&& c.output_ext@ == s.output_ext@
    &&& c.frame_rate == s.frame_rate
    &&& c.model().video_params == eff_video_params(s, o)
    &&& c.passes as int == eff_passes(s, o)
    &&& c.encoder@ == eff_encoder(s, o)
    &&& c.tq_cq is None
    &&& c.ignore_frame_mismatch == s.ignore_frame_mismatch
}

fn eff_params_exec(s: &PlanSettings, o: &Option<ZoneOptions>) -> (r: (Vec<String>, u8, String))
    requires
        s.wf(),
        overrides_wf(*o),
    ensures
        r.0@.map_values(|t: String| t@) == eff_video_params(s, *o),
        r.1 as int == eff_passes(s, *o),
        r.2@ == eff_encoder(s, *o),
        r.1 == 1 || r.1 == 2,
{
    match o {
        Some(z) => {
            let params = clone_strings(&z.video_params);
            proof {
                assert(params@.map_values(|t: String| t@) =~= z.video_params@.map_values(
                    |t: String| t@,
                ));
            }
            (params, z.passes, z.encoder.clone())
        },
        None => {
            let params = clone_strings(&s.video_params);
            proof {
                assert(params@.map_values(|t: String| t@) =~= s.video_params@.map_values(
                    |t: String| t@,
                ));
            }
            (params, s.passes, s.encoder.clone())
        },
    }
}

/// Noise-size pair a chunk inherits: the zone's when present, else global.
pub open spec fn eff_noise(s: &PlanSettings, o: Option<ZoneOptions>) -> (
    Option<u32>,
    Option<u32>,
) {
    match o {
        Some(z) => (z.photon_noise_width, z.photon_noise_height),
        None => (s.photon_noise_width, s.photon_noise_height),
    }
}

/// Plan one frame-exact chunk that re-decodes the source file and selects
/// the scene's frames.
pub fn create_select_chunk(
    s: &PlanSettings,
    index: usize,
    src_path: &str,
    start_frame: usize,
    end_frame: usize,
    overrides: &Option<ZoneOptions>,
) -> (c: Chunk)
    requires
        s.wf(),
        overrides_wf(*overrides),
        start_frame < end_frame,
    ensures
        chunk_basics_ok(c, s, index as int, start_frame as int, end_frame as int, *overrides),
        c.model().source_cmd == select_cmd_spec(
            src_path@,
            start_frame as int,
            end_frame - 1,
            s.pix_format@,
        ),
        c.model().input == (crate::types::InputModel::Video {
            path: src_path@,
            script_text: None,
        }),
        (c.noise_width, c.noise_height) == (s.photon_noise_width, s.photon_noise_height),
{
    let mut cmd: Vec<String> = Vec::new();
    cmd.push(String::from_str("ffmpeg"));
    cmd.push(String::from_str("-y"));
    cmd.push(String::from_str("-hide_banner"));
    cmd.push(String::from_str("-loglevel"));
    cmd.push(String::from_str("error"));
    cmd.push(String::from_str("-i"));
    cmd.push(String::from_str(src_path));
    cmd.push(String::from_str("-vf"));
    cmd.push(select_filter_string(start_frame, end_frame - 1));
    cmd.push(String::from_str("-pix_fmt"));
    cmd.push(s.pix_format.clone());
    cmd.push(String::from_str("-strict"));
    cmd.push(String::from_str("-1"));
    cmd.push(String::from_str("-f"));
    cmd.push(String::from_str("yuv4mpegpipe"));
    cmd.push(String::from_str("-"));
    let (params, passes, encoder) = eff_params_exec(s, overrides);
    let c = Chunk {
        index,
        temp: s.temp.clone(),
        input: Input::Video { path: String::from_str(src_path), script_text: None },
        source_cmd: cmd,
        output_ext: s.output_ext.clone(),
        start_frame,
        end_frame,
        frame_rate: s.frame_rate,
        video_params: params,
        passes,
        encoder,
        noise_width: s.photon_noise_width,
        noise_height: s.photon_noise_height,
        tq_cq: None,
        ignore_frame_mismatch: s.ignore_frame_mismatch,
    };
    proof {
        assert(c.model().source_cmd =~~= select_cmd_spec(
            src_path@,
            start_frame as int,
            end_frame - 1,
            s.pix_format@,
        ));
    }
    c
}

/// Plan one chunk rendered by the script runtime for the scene's exact
/// frame range.
pub fn create_script_chunk(
    s: &PlanSettings,
    index: usize,
    script_path: &str,
    script_args: &Vec<String>,
    script_text: &String,
    scene: &Scene,
) -> (c: Chunk)
    requires
        s.wf(),
        overrides_wf(scene.zone_overrides),
        scene.wf(),
    ensures
        chunk_basics_ok(
            c,
            s,
            index as int,
            scene.start_frame as int,
            scene.end_frame as int,
            scene.zone_overrides,
        ),
        c.model().source_cmd == script_cmd_spec(
            script_path@,
            scene.start_frame as int,
            scene.end_frame - 1,
        ),
        c.model().input == (crate::types::InputModel::Script {
            path: script_path@,
            script_args: script_args@.map_values(|t: String| t@),
            script_text: script_text@,
        }),
        (c.noise_width, c.noise_height) == eff_noise(s, scene.zone_overrides),
{
    let mut cmd: Vec<String> = Vec::new();
    cmd.push(String::from_str("vspipe"));
    cmd.push(String::from_str(script_path));
    cmd.push(String::from_str("-c"));
    cmd.push(String::from_str("y4m"));
    cmd.push(String::from_str("-"));
    cmd.push(String::from_str("-s"));
    cmd.push(u64_dec(scene.start_frame as u64));
    cmd.push(String::from_str("-e"));
    cmd.push(u64_dec((scene.end_frame - 1) as u64));
    let (params, passes, encoder) = eff_params_exec(s, &scene.zone_overrides);
    let (noise_w, noise_h) = match &scene.zone_overrides {
        Some(z) => (z.photon_noise_width, z.photon_noise_height),
        None => (s.photon_noise_width, s.photon_noise_height),
    };
    let c = Chunk {
        index,
        temp: s.temp.clone(),
        input: Input::Script {
            path: String::from_str(script_path),
            script_args: clone_strings(script_args),
            script_text: script_text.clone(),
        },
        source_cmd: cmd,
        output_ext: s.output_ext.clone(),
        start_frame: scene.start_frame,
        end_frame: scene.end_frame,
        frame_rate: s.frame_rate,
        video_params: params,
        passes,
        encoder,
        noise_width: noise_w,
        noise_height: noise_h,
        tq_cq: None,
        ignore_frame_mismatch: s.ignore_frame_mismatch,
    };
    proof {
        assert(c.model().source_cmd =~~= script_cmd_spec(
            script_path@,
            scene.start_frame as int,
            scene.end_frame - 1,
        ));
        assert(c.model().input =~~= (crate::types::InputModel::Script {
            path: script_path@,
            script_args: script_args@.map_values(|t: String| t@),
            script_text: script_text@,
        }));
    }
    c
}

/// Plan one chunk over a pre-split segment file, covering the whole file.
pub fn create_segment_chunk(
    s: &PlanSettings,
    index: usize,
    file: &str,
    num_frames: usize,
    overrides: &Option<ZoneOptions>,
) -> (c: Chunk)
    requires
        s.wf(),
        overrides_wf(*overrides),
        num_frames >= 1,
    ensures
        chunk_basics_ok(c, s, index as int, 0, num_frames as int, *overrides),
        c.model().source_cmd == segment_cmd_spec(file@, s.pix_format@),
        c.model().input == (crate::types::InputModel::Video { path: file@, script_text: None }),
        (c.noise_width, c.noise_height) == (s.photon_noise_width, s.photon_noise_height),
{
    let mut cmd: Vec<String> = Vec::new();
    cmd.push(String::from_str("ffmpeg"));
    cmd.push(String::from_str("-y"));
    cmd.push(String::from_str("-hide_banner"));
    cmd.push(String::from_str("-loglevel"));
    cmd.push(String::from_str("error"));
    cmd.push(String::from_str("-i"));
    cmd.push(String::from_str(file));
    cmd.push(String::from_str("-strict"));
    cmd.push(String::from_str("-1"));
    cmd.push(String::from_str("-pix_fmt"));
    cmd.push(s.pix_format.clone());
    cmd.push(String::from_str("-f"));
    cmd.push(String::from_str("yuv4mpegpipe"));
    cmd.push(String::from_str("-"));
    let (params, passes, encoder) = eff_params_exec(s, overrides);
    let c = Chunk {
        index,
        temp: s.temp.clone(),
        input: Input::Video { path: String::from_str(file), script_text: None },
        source_cmd: cmd,
        output_ext: s.output_ext.clone(),
        start_frame: 0,
        end_frame: num_frames,
        frame_rate: s.frame_rate,
        video_params: params,
        passes,
        encoder,
        noise_width: s.photon_noise_width,
        noise_height: s.photon_noise_height,
        tq_cq: None,
        ignore_frame_mismatch: s.ignore_frame_mismatch,
    };
    proof {
        assert(c.model().source_cmd =~~= segment_cmd_spec(file@, s.pix_format@));
    }
    c
}

/// Every chunk of a planned queue sits at its own planning index and matches
/// its scene's frame range and overrides.
pub open spec fn plan_matches_scenes(cs: Seq<Chunk>, s: &PlanSettings, scenes: Seq<Scene>) -> bool {
    &&& cs.len() == scenes.len()
    &&& (forall|i: int|
        0 <= i < cs.len() ==> chunk_basics_ok(
            #[trigger] cs[i],
            s,
            i,
            scenes[i].start_frame as int,
            scenes[i].end_frame as int,
            scenes[i].zone_overrides,
        ))
}

/// Plan the frame-exact queue: one select chunk per scene, indexed in scene
/// order.
pub fn plan_select_chunks(s: &PlanSettings, scenes: &Vec<Scene>, src_path: &str) -> (cs: Vec<
    Chunk,
>)
    requires
        s.wf(),
        forall|i: int| 0 <= i < scenes@.len() ==> (#[trigger] scenes@[i]).wf(),
        forall|i: int|
            0 <= i < scenes@.len() ==> overrides_wf((#[trigger] scenes@[i]).zone_overrides),
    ensures
        plan_matches_scenes(cs@, s, scenes@),
        forall|i: int|
            0 <= i < cs@.len() ==> (#[trigger] cs@[i]).model().source_cmd == select_cmd_spec(
                src_path@,
                scenes@[i].start_frame as int,
                scenes@[i].end_frame - 1,
                s.pix_format@,
            ),
        forall|i: int|
            0 <= i < cs@.len() ==> (#[trigger] cs@[i]).model().input == (
            crate::types::InputModel::Video { path: src_path@, script_text: None }) && (
            cs@[i].noise_width, cs@[i].noise_height) == (
                s.photon_noise_width,
                s.photon_noise_height,
            ),
{
    let mut cs: Vec<Chunk> = Vec::new();
    let mut i: usize = 0;
    while i < scenes.len()
        invariant
            s.wf(),
            i <= scenes@.len(),
            cs@.len() == i,
            forall|k: int| 0 <= k < scenes@.len() ==> (#[trigger] scenes@[k]).wf(),
            forall|k: int|
                0 <= k < scenes@.len() ==> overrides_wf((#[trigger] scenes@[k]).zone_overrides),
            forall|k: int|
                0 <= k < i ==> chunk_basics_ok(
                    #[trigger] cs@[k],
                    s,
                    k,
                    scenes@[k].start_frame as int,
                    scenes@[k].end_frame as int,
                    scenes@[k].zone_overrides,
                ),
            forall|k: int|
                0 <= k < i ==> (#[trigger] cs@[k]).model().source_cmd == select_cmd_spec(
                    src_path@,
                    scenes@[k].start_frame as int,
                    scenes@[k].end_frame - 1,
                    s.pix_format@,
                ),
            forall|k: int|
                0 <= k < i ==> (#[trigger] cs@[k]).model().input == (
                crate::types::InputModel::Video { path: src_path@, script_text: None }) && (
                cs@[k].noise_width, cs@[k].noise_height) == (
                    s.photon_noise_width,
                    s.photon_noise_height,
                ),
        decreases scenes@.len() - i,
    {
        let scene = &scenes[i];
        let c = create_select_chunk(
            s,
            i,
            src_path,
            scene.start_frame,
            scene.end_frame,
            &scene.zone_overrides,
        );
        cs.push(c);
        i += 1;
    }
    cs
}

/// Plan the script queue: one script chunk per scene, indexed in scene order.
pub fn plan_script_chunks(
    s: &PlanSettings,
    scenes: &Vec<Scene>,
    script_path: &str,
    script_args: &Vec<String>,
    script_text: &String,
) -> (cs: Vec<Chunk>)
    requires
        s.wf(),
        forall|i: int| 0 <= i < scenes@.len() ==> (#[trigger] scenes@[i]).wf(),
        forall|i: int|
            0 <= i < scenes@.len() ==> overrides_wf((#[trigger] scenes@[i]).zone_overrides),
    ensures
        plan_matches_scenes(cs@, s, scenes@),
        forall|i: int|
            0 <= i < cs@.len() ==> (#[trigger] cs@[i]).model().source_cmd == script_cmd_spec(
                script_path@,
                scenes@[i].start_frame as int,
                scenes@[i].end_frame - 1,
            ),
        forall|i: int|
            0 <= i < cs@.len() ==> (#[trigger] cs@[i]).model().input == (
            crate::types::InputModel::Script {
                path: script_path@,
                script_args: script_args@.map_values(|t: String| t@),
                script_text: script_text@,
            }) && (cs@[i].noise_width, cs@[i].noise_height) == eff_noise(
                s,
                scenes@[i].zone_overrides,
            ),
{
    let mut cs: Vec<Chunk> = Vec::new();
    let mut i: usize = 0;
    while i < scenes.len()
        invariant
            s.wf(),
            i <= scenes@.len(),
            cs@.len() == i,
            forall|k: int| 0 <= k < scenes@.len() ==> (#[trigger] scenes@[k]).wf(),
            forall|k: int|
                0 <= k < scenes@.len() ==> overrides_wf((#[trigger] scenes@[k]).zone_overrides),
            forall|k: int|
                0 <= k < i ==> chunk_basics_ok(
                    #[trigger] cs@[k],
                    s,
                    k,
                    scenes@[k].start_frame as int,
                    scenes@[k].end_frame as int,
                    scenes@[k].zone_overrides,
                ),
            forall|k: int|
                0 <= k < i ==> (#[trigger] cs@[k]).model().source_cmd == script_cmd_spec(
                    script_path@,
                    scenes@[k].start_frame as int,
                    scenes@[k].end_frame - 1,
                ),
            forall|k: int|
                0 <= k < i ==> (#[trigger] cs@[k]).model().input == (
                crate::types::InputModel::Script {
                    path: script_path@,
                    script_args: script_args@.map_values(|t: String| t@),
                    script_text: script_text@,
                }) && (cs@[k].noise_width, cs@[k].noise_height) == eff_noise(
                    s,
                    scenes@[k].zone_overrides,
                ),
        decreases scenes@.len() - i,
    {
        let scene = &scenes[i];
        let c = create_script_chunk(s, i, script_path, script_args, script_text, scene);
        cs.push(c);
        i += 1;
    }
    cs
}

/// Plan the segment queue from the files the splitter produced, each probed
/// for its frame count.  A splitter that produced no files fails planning
/// before any worker starts.
pub fn plan_segment_chunks(
    s: &PlanSettings,
    files: &Vec<String>,
    frame_counts: &Vec<usize>,
    scenes: &Vec<Scene>,
) -> (r: Result<Vec<Chunk>, JobError>)
    requires
        s.wf(),
        frame_counts@.len() == files@.len(),
        files@.len() <= scenes@.len(),
        forall|i: int| 0 <= i < frame_counts@.len() ==> (#[trigger] frame_counts@[i]) >= 1,
        forall|i: int|
            0 <= i < scenes@.len() ==> overrides_wf((#[trigger] scenes@[i]).zone_overrides),
    ensures
        files@.len() == 0 <==> r == Err::<Vec<Chunk>, JobError>(JobError::PlanningFailed),
        match r {
            Ok(cs) => {
                &&& cs@.len() == files@.len()
                &&& (forall|i: int|
                    0 <= i < cs@.len() ==> chunk_basics_ok(
                        #[trigger] cs@[i],
                        s,
                        i,
                        0,
                        frame_counts@[i] as int,
                        scenes@[i].zone_overrides,
                    ))
                &&& (forall|i: int|
                    0 <= i < cs@.len() ==> (#[trigger] cs@[i]).model().source_cmd
                        == segment_cmd_spec(files@[i]@, s.pix_format@))
                &&& (forall|i: int|
                    0 <= i < cs@.len() ==> (#[trigger] cs@[i]).model().input == (
                    crate::types::InputModel::Video { path: files@[i]@, script_text: None })
                        && (cs@[i].noise_width, cs@[i].noise_height) == (
                        s.photon_noise_width,
                        s.photon_noise_height,
                    ))
            },
            Err(e) => e == JobError::PlanningFailed,
        },
{
    if files.len() == 0 {
        return Err(JobError::PlanningFailed);
    }
    let mut cs: Vec<Chunk> = Vec::new();
    let mut i: usize = 0;
    while i < files.len()
        invariant
            s.wf(),
            i <= files@.len(),
            cs@.len() == i,
            frame_counts@.len() == files@.len(),
            files@.len() <= scenes@.len(),
            forall|k: int| 0 <= k < frame_counts@.len() ==> (#[trigger] frame_counts@[k]) >= 1,
            forall|k: int|
                0 <= k < scenes@.len() ==> overrides_wf((#[trigger] scenes@[k]).zone_overrides),
            forall|k: int|
                0 <= k < i ==> chunk_basics_ok(
                    #[trigger] cs@[k],
                    s,
                    k,
                    0,
                    frame_counts@[k] as int,
                    scenes@[k].zone_overrides,
                ),
            forall|k: int|
                0 <= k < i ==> (#[trigger] cs@[k]).model().source_cmd == segment_cmd_spec(
                    files@[k]@,
                    s.pix_format@,
                ),
            forall|k: int|
                0 <= k < i ==> (#[trigger] cs@[k]).model().input == (
                crate::types::InputModel::Video { path: files@[k]@, script_text: None }) && (
                cs@[k].noise_width, cs@[k].noise_height) == (
                    s.photon_noise_width,
                    s.photon_noise_height,
                ),
        decreases files@.len() - i,
    {
        let c = create_segment_chunk(
            s,
            i,
            files[i].as_str(),
            frame_counts[i],
            &scenes[i].zone_overrides,
        );
        cs.push(c);
        i += 1;
    }
    Ok(cs)
}

/// Sum of the frame counts of a run of chunks.
pub open spec fn sum_chunk_frames(cs: Seq<Chunk>) -> int
    decreases cs.len(),
{
    if cs.len() == 0 {
        0
    } else {
        sum_chunk_frames(cs.drop_last()) + cs.last().frames_spec()
    }
}

/// Sum of the lengths of a run of scenes.
pub open spec fn sum_scene_len(ss: Seq<Scene>) -> int
    decreases ss.len(),
{
    if ss.len() == 0 {
        0
    } else {
        sum_scene_len(ss.drop_last()) + ss.last().len_spec()
    }
}

/// Scenes that tile a range cover it exactly: their lengths sum to the
/// range's width.
pub proof fn lemma_tiling_sum(ss: Seq<Scene>, lo: int, hi: int)
    requires
        crate::types::scenes_tile(ss, lo, hi),
    ensures
        sum_scene_len(ss) == hi - lo,
    decreases ss.len(),
{
    if ss.len() > 0 {
        let last = ss.last();
        if ss.len() == 1 {
            assert(sum_scene_len(ss.drop_last()) == 0);
        } else {
            assert(crate::types::scenes_tile(ss.drop_last(), lo, last.start_frame as int)) by {
                assert(forall|i: int|
                    0 <= i < ss.drop_last().len() ==> ss.drop_last()[i] == ss[i]);
                assert(ss.drop_last().last() == ss[ss.len() - 2]);
                assert(ss[ss.len() - 1].start_frame == ss[ss.len() - 2].end_frame);
            }
            lemma_tiling_sum(ss.drop_last(), lo, last.start_frame as int);
        }
    }
}

/// Chunks planned one-per-scene cover exactly as many frames as the scenes.
pub proof fn lemma_plan_sum(cs: Seq<Chunk>, ss: Seq<Scene>)
    requires
        cs.len() == ss.len(),
        forall|i: int|
            0 <= i < cs.len() ==> (#[trigger] cs[i]).frames_spec() == ss[i].len_spec(),
    ensures
        sum_chunk_frames(cs) == sum_scene_len(ss),
    decreases cs.len(),
{
    if cs.len() > 0 {
        assert(forall|i: int|
            0 <= i < cs.drop_last().len() ==> (#[trigger] cs.drop_last()[i]).frames_spec()
                == ss.drop_last()[i].len_spec()) by {
            assert(forall|i: int| 0 <= i < cs.len() - 1 ==> cs.drop_last()[i] == cs[i]);
            assert(forall|i: int| 0 <= i < ss.len() - 1 ==> ss.drop_last()[i] == ss[i]);
        }
        lemma_plan_sum(cs.drop_last(), ss.drop_last());
        assert(cs.last().frames_spec() == ss[cs.len() - 1].len_spec());
    }
}

/// A queue planned one chunk per scene over scenes that tile the whole clip
/// covers every frame exactly once: the chunks' frame counts sum to the
/// clip's total, and their indices are exactly the planning order `0..n`.
pub proof fn lemma_plan_covers_clip(
    cs: Seq<Chunk>,
    s: &PlanSettings,
    ss: Seq<Scene>,
    total: int,
)
    requires
        plan_matches_scenes(cs, s, ss),
        crate::types::scenes_tile(ss, 0, total),
    ensures
        sum_chunk_frames(cs) == total,
        forall|i: int| 0 <= i < cs.len() ==> (#[trigger] cs[i]).index == i,
{
    lemma_tiling_sum(ss, 0, total);
    lemma_plan_sum(cs, ss);
}

/// Sum of a list of probed frame counts.
pub open spec fn sum_counts(ns: Seq<usize>) -> int
    decreases ns.len(),
{
    if ns.len() == 0 {
        0
    } else {
        sum_counts(ns.drop_last()) + ns.last()
    }
}

/// A segment queue covers exactly the frames the splitter's files hold: one
/// chunk per file with the file's probed frame count, so the chunks' frames
/// sum to the probes' sum, and indices are the planning order.
pub proof fn lemma_segment_covers_files(cs: Seq<Chunk>, counts: Seq<usize>)
    requires
        cs.len() == counts.len(),
        forall|i: int| 0 <= i < cs.len() ==> (#[trigger] cs[i]).frames_spec() == counts[i],
    ensures
        sum_chunk_frames(cs) == sum_counts(counts),
    decreases cs.len(),
{
    if cs.len() > 0 {
        assert(forall|i: int|
            0 <= i < cs.drop_last().len() ==> (#[trigger] cs.drop_last()[i]).frames_spec()
                == counts.drop_last()[i]) by {
            assert(forall|i: int| 0 <= i < cs.len() - 1 ==> cs.drop_last()[i] == cs[i]);
            assert(forall|i: int| 0 <= i < counts.len() - 1 ==> counts.drop_last()[i] == counts[i]);
        }
        lemma_segment_covers_files(cs.drop_last(), counts.drop_last());
        assert(cs.last().frames_spec() == counts[cs.len() - 1]);
    }
}

/// A frame at which some scene begins.
pub open spec fn is_scene_start(scenes: Seq<Scene>, f: usize) -> bool {
    exists|i: int| 0 <= i < scenes.len() && (#[trigger] scenes[i]).start_frame == f
}

/// The keyframes the hybrid strategy splits at: exactly those container
/// keyframes that are also scene starts, in keyframe order.
pub open spec fn hybrid_points_of(keyframes: Seq<usize>, scenes: Seq<Scene>) -> Seq<usize> {
    keyframes.filter(|k: usize| is_scene_start(scenes, k))
}

/// Intersect the container's keyframes with the scene starts.
pub fn hybrid_split_points(keyframes: &Vec<usize>, scenes: &Vec<Scene>) -> (r: Vec<usize>)
    ensures
        r@ == hybrid_points_of(keyframes@, scenes@),
{
    let mut r: Vec<usize> = Vec::new();
    let mut i: usize = 0;
    proof {
        reveal(Seq::filter);
        assert(hybrid_points_of(keyframes@.take(0int), scenes@) =~= Seq::<usize>::empty());
    }
    while i < keyframes.len()
        invariant
            i <= keyframes@.len(),
            r@ == hybrid_points_of(keyframes@.take(i as int), scenes@),
        decreases keyframes@.len() - i,
    {
        let kf = keyframes[i];
        let mut hit = false;
        let mut j: usize = 0;
        while j < scenes.len()
            invariant
                j <= scenes@.len(),
                hit ==> is_scene_start(scenes@, kf),
                !hit ==> (forall|t: int|
                    0 <= t < j ==> (#[trigger] scenes@[t]).start_frame != kf),
            decreases scenes@.len() - j,
        {
            if scenes[j].start_frame == kf {
                hit = true;
            }
            j += 1;
        }
        proof {
            assert(hit == is_scene_start(scenes@, kf));
            assert(keyframes@.take(i + 1int).drop_last() =~= keyframes@.take(i as int));
            assert(keyframes@.take(i + 1int).last() == keyframes@[i as int]);
            reveal(Seq::filter);
        }
        if hit {
            r.push(kf);
        }
        proof {
            assert(r@ =~= hybrid_points_of(keyframes@.take(i + 1int), scenes@));
        }
        i += 1;
    }
    proof {
        assert(keyframes@.take(keyframes@.len() as int) =~= keyframes@);
    }
    r
}

/// Where a split window ends: at the next split point, or at the clip's end
/// for the last window.
pub open spec fn window_end(split: Seq<usize>, total: int, j: int) -> int {
    if j + 1 < split.len() {
        split[j + 1] as int
    } else {
        total
    }
}

/// A scene lies wholly inside split window `j`.
pub open spec fn scene_in_window(split: Seq<usize>, total: int, sc: Scene, j: int) -> bool {
    &&& 0 <= j < split.len()
    &&& split[j] <= sc.start_frame
    &&& sc.end_frame <= window_end(split, total, j)
}

/// A scene lies wholly inside some split window.
pub open spec fn scene_placed(split: Seq<usize>, total: int, sc: Scene) -> bool {
    exists|j: int| scene_in_window(split, total, sc, j)
}

/// What a hybrid chunk takes from its scene: identity, frame count, the
/// inherited encoder settings, and a frame-exact read of the covering
/// segment file, with the scene's range shifted by that window's start.
pub open spec fn hybrid_chunk_ok(
    c: Chunk,
    s: &PlanSettings,
    scene: Scene,
    idx: int,
    split: Seq<usize>,
    files: Seq<String>,
    total: int,
) -> bool {
    &&& c.index == idx
    &&& c.wf()
    &&& c.frames_spec() == scene.len_spec()
    &&& c.temp@ == s.temp@
    &&& c.model().video_params == eff_video_params(s, scene.zone_overrides)
    &&& c.passes as int == eff_passes(s, scene.zone_overrides)
    &&& c.encoder@ == eff_encoder(s, scene.zone_overrides)
    &&& exists|j: int|
        #[trigger] scene_in_window(split, total, scene, j) && {
            &&& c.start_frame == scene.start_frame - split[j]
            &&& c.end_frame == scene.end_frame - split[j]
            &&& c.model().source_cmd == select_cmd_spec(
                files[j]@,
                scene.start_frame - split[j],
                scene.end_frame - 1 - split[j],
                s.pix_format@,
            )
            &&& c.model().input == (crate::types::InputModel::Video {
                path: files[j]@,
                script_text: None,
            })
        }
}

/// Strictly sorted split points are monotone across any distance.
proof fn lemma_split_mono(split: Seq<usize>, a: int, b: int)
    requires
        forall|i: int| 0 <= i < split.len() - 1 ==> (#[trigger] split[i]) < split[i + 1],
        0 <= a <= b < split.len(),
    ensures
        split[a] <= split[b],
    decreases b - a,
{
    if a < b {
        lemma_split_mono(split, a, b - 1);
        assert(split[b - 1] < split[b]);
    }
}

/// Plan the hybrid queue: the clip was split at `split_points` into the
/// files, and every scene becomes a frame-exact chunk inside its covering
/// segment file.  Planning fails exactly when the split produced nothing or
/// some scene fits no split window.
#[verifier::rlimit(100)]
#[verifier::spinoff_prover]
pub fn plan_hybrid_chunks(
    s: &PlanSettings,
    scenes: &Vec<Scene>,
    split_points: &Vec<usize>,
    files: &Vec<String>,
    total_frames: usize,
) -> (r: Result<Vec<Chunk>, JobError>)
    requires
        s.wf(),
        split_points@.len() == files@.len(),
        forall|i: int| 0 <= i < scenes@.len() ==> (#[trigger] scenes@[i]).wf(),
        forall|i: int|
            0 <= i < scenes@.len() ==> overrides_wf((#[trigger] scenes@[i]).zone_overrides),
        forall|i: int|
            0 <= i < split_points@.len() - 1 ==> (#[trigger] split_points@[i]) < split_points@[
                i + 1
            ],
        forall|i: int|
            0 <= i < scenes@.len() - 1 ==> (#[trigger] scenes@[i]).start_frame <= scenes@[
                i + 1
            ].start_frame,
    ensures
        r is Err <==> (split_points@.len() == 0 || exists|i: int|
            0 <= i < scenes@.len() && !scene_placed(
                split_points@,
                total_frames as int,
                #[trigger] scenes@[i],
            )),
        match r {
            Ok(cs) => {
                &&& cs@.len() == scenes@.len()
                &&& (forall|i: int|
                    0 <= i < cs@.len() ==> hybrid_chunk_ok(
                        #[trigger] cs@[i],
                        s,
                        scenes@[i],
                        i,
                        split_points@,
                        files@,
                        total_frames as int,
                    ))
            },
            Err(e) => e == JobError::PlanningFailed,
        },
{
    let ghost split = split_points@;
    let ghost total = total_frames as int;
    if split_points.len() == 0 {
        return Err(JobError::PlanningFailed);
    }
    let mut cs: Vec<Chunk> = Vec::new();
    let mut j: usize = 0;
    let mut i: usize = 0;
    while i < scenes.len()
        invariant
            s.wf(),
            split == split_points@,
            total == total_frames as int,
            i <= scenes@.len(),
            cs@.len() == i,
            j < split.len(),
            split.len() == files@.len(),
            split.len() > 0,
            forall|k: int| 0 <= k < scenes@.len() ==> (#[trigger] scenes@[k]).wf(),
            forall|k: int|
                0 <= k < scenes@.len() ==> overrides_wf((#[trigger] scenes@[k]).zone_overrides),
            forall|k: int|
                0 <= k < split.len() - 1 ==> (#[trigger] split[k]) < split[k + 1],
            forall|k: int|
                0 <= k < scenes@.len() - 1 ==> (#[trigger] scenes@[k]).start_frame <= scenes@[
                    k + 1
                ].start_frame,
            i == 0 ==> j == 0,
            i > 0 ==> split[j as int] <= scenes@[i - 1].start_frame,
            forall|k: int|
                0 <= k < i ==> hybrid_chunk_ok(
                    #[trigger] cs@[k],
                    s,
                    scenes@[k],
                    k,
                    split,
                    files@,
                    total,
                ),
        decreases scenes@.len() - i,
    {
        let scene = &scenes[i];
        let ghost j_enter = j as int;
        while j < split_points.len() - 1 && split_points[j + 1] <= scene.start_frame
            invariant
                split == split_points@,
                split.len() > 0,
                j < split.len(),
                j as int == j_enter || split[j as int] <= scene.start_frame,
            decreases split.len() - j,
        {
            j += 1;
        }
        proof {
            // after the walk, no later window starts at or before this scene
            assert(j as int == split.len() - 1 || split[j + 1int] > scene.start_frame);
        }
        if split_points[j] > scene.start_frame {
            proof {
                // the walk never moved, so this is the first window; every
                // split point starts after the scene, so no window holds it
                assert(j as int == j_enter);
                if i > 0 {
                    assert(scenes@[i - 1].start_frame <= scene.start_frame);
                    assert(false);
                }
                assert(j == 0);
                assert forall|j2: int| !scene_in_window(split, total, scenes@[i as int], j2) by {
                    if 0 <= j2 < split.len() {
                        lemma_split_mono(split, 0, j2);
                    }
                }
                assert(!scene_placed(split, total, scenes@[i as int]));
            }
            return Err(JobError::PlanningFailed);
        }
        let window_close: usize = if j + 1 < split_points.len() {
            split_points[j + 1]
        } else {
            total_frames
        };
        if scene.end_frame > window_close {
            proof {
                // this window is the last whose start is not after the
                // scene, and the scene overruns it: no window holds it
                assert forall|j2: int| !scene_in_window(split, total, scenes@[i as int], j2) by {
                    if 0 <= j2 < split.len() {
                        if j2 < j as int {
                            lemma_split_mono(split, j2 + 1, j as int);
                            assert(window_end(split, total, j2) <= split[j as int]);
                        } else if j2 > j as int {
                            lemma_split_mono(split, j + 1int, j2);
                            assert(split[j2] > scene.start_frame);
                        } else {
                            assert(window_end(split, total, j2) == window_close);
                        }
                    }
                }
                assert(!scene_placed(split, total, scenes@[i as int]));
            }
            return Err(JobError::PlanningFailed);
        }
        let base = split_points[j];
        let c = create_select_chunk(
            s,
            i,
            files[j].as_str(),
            scene.start_frame - base,
            scene.end_frame - base,
            &scene.zone_overrides,
        );
        proof {
            assert(scene_in_window(split, total, scenes@[i as int], j as int));
            assert(hybrid_chunk_ok(c, s, scenes@[i as int], i as int, split, files@, total));
        }
        cs.push(c);
        i += 1;
    }
    proof {
        assert forall|k: int| 0 <= k < scenes@.len() implies scene_placed(
            split,
            total,
            #[trigger] scenes@[k],
        ) by {
            assert(hybrid_chunk_ok(cs@[k], s, scenes@[k], k, split, files@, total));
            let jw = choose|jw: int|
                #[trigger] scene_in_window(split, total, scenes@[k], jw) && cs@[k].start_frame
                    == scenes@[k].start_frame - split[jw];
            assert(scene_in_window(split, total, scenes@[k], jw));
        }
    }
    Ok(cs)
}

/// A hybrid queue covers exactly the clip: one chunk per scene with the
/// scene's frame count, over scenes that tile the clip, sums to the clip's
/// total, and the chunk indices are the planning order.
pub proof fn lemma_hybrid_covers_clip(
    cs: Seq<Chunk>,
    s: &PlanSettings,
    ss: Seq<Scene>,
    split: Seq<usize>,
    files: Seq<String>,
    total: int,
)
    requires
        cs.len() == ss.len(),
        forall|i: int|
            0 <= i < cs.len() ==> hybrid_chunk_ok(#[trigger] cs[i], s, ss[i], i, split, files, total),
        crate::types::scenes_tile(ss, 0, total),
    ensures
        sum_chunk_frames(cs) == total,
        forall|i: int| 0 <= i < cs.len() ==> (#[trigger] cs[i]).index == i,
{
    lemma_tiling_sum(ss, 0, total);
    lemma_plan_sum(cs, ss);
}

/// Check the settings the planners require: a legal pass count and a
/// meaningful frame rate.
pub fn check_plan_settings(s: &PlanSettings) -> (r: bool)
    ensures
        r == s.wf(),
{
    (s.passes == 1 || s.passes == 2) && s.frame_rate.den > 0
}

/// Check that a scene list can be planned: every scene nonempty and every
/// override naming a legal pass count.
pub fn check_scenes_plannable(scenes: &Vec<Scene>) -> (r: bool)
    ensures
        r == (forall|i: int|
            0 <= i < scenes@.len() ==> (#[trigger] scenes@[i]).wf() && overrides_wf(
                scenes@[i].zone_overrides,
            )),
{
    let mut i: usize = 0;
    while i < scenes.len()
        invariant
            i <= scenes@.len(),
            forall|k: int|
                0 <= k < i ==> (#[trigger] scenes@[k]).wf() && overrides_wf(
                    scenes@[k].zone_overrides,
                ),
        decreases scenes@.len() - i,
    {
        let sc = &scenes[i];
        if !(sc.start_frame < sc.end_frame) {
            return false;
        }
        match &sc.zone_overrides {
            Some(o) => {
                if !(o.passes == 1 || o.passes == 2) {
                    return false;
                }
            },
            None => {},
        }
        i += 1;
    }
    true
}

/// How the planned queue is handed to the pool.
#[derive(Debug, Clone, Copy, PartialEq, Eq, Structural)]
pub enum ChunkOrdering {
    LongestFirst,
    ShortestFirst,
    Sequential,
    Random,
}

pub open spec fn sorted_desc(cs: Seq<Chunk>) -> bool {
    forall|i: int, j: int|
        0 <= i < j < cs.len() ==> (#[trigger] cs[i]).frames_spec() >= (
        #[trigger] cs[j]).frames_spec()
}

pub open spec fn sorted_asc(cs: Seq<Chunk>) -> bool {
    forall|i: int, j: int|
        0 <= i < j < cs.len() ==> (#[trigger] cs[i]).frames_spec() <= (
        #[trigger] cs[j]).frames_spec()
}

/// Relies on rand::rngs::StdRng seeded from the given value and on
/// rand::seq::SliceRandom::shuffle: a Fisher-Yates shuffle that reorders the
/// slice in place, so the chunks afterwards are a permutation of the chunks
/// before.  The seed fixes the generator's stream, so a run can be repeated;
/// nothing more is promised about the order itself.
#[verifier::external_body]
fn shuffle_chunks(chunks: &mut Vec<Chunk>, seed: u64)
    ensures
        final(chunks)@.to_multiset() == old(chunks)@.to_multiset(),
{
    let mut rng = <rand::rngs::StdRng as rand::SeedableRng>::seed_from_u64(seed);
    chunks.shuffle(&mut rng);
}

/// Reorder chunks by frame count, descending or ascending.  Selection sort:
/// repeatedly move an extremal remaining chunk to the output.
fn sort_chunks_by_frames(chunks: Vec<Chunk>, descending: bool) -> (r: Vec<Chunk>)
    requires
        forall|i: int| 0 <= i < chunks@.len() ==> (#[trigger] chunks@[i]).wf(),
    ensures
        r@.to_multiset() == chunks@.to_multiset(),
        r@.len() == chunks@.len(),
        descending ==> sorted_desc(r@),
        !descending ==> sorted_asc(r@),
{
    broadcast use vstd::seq_lib::group_to_multiset_ensures;
    broadcast use vstd::multiset::group_multiset_axioms;

    let ghost orig = chunks@;
    let mut rest = chunks;
    let mut out: Vec<Chunk> = Vec::new();
    while rest.len() > 0
        invariant
            out@.to_multiset().add(rest@.to_multiset()) =~= orig.to_multiset(),
            out@.len() + rest@.len() == orig.len(),
            forall|i: int| 0 <= i < rest@.len() ==> (#[trigger] rest@[i]).wf(),
            forall|i: int| 0 <= i < out@.len() ==> (#[trigger] out@[i]).wf(),
            descending ==> sorted_desc(out@),
            !descending ==> sorted_asc(out@),
            forall|i: int, j: int|
                0 <= i < out@.len() && 0 <= j < rest@.len() ==> (descending ==> (
                #[trigger] out@[i]).frames_spec() >= (#[trigger] rest@[j]).frames_spec()) && (
                !descending ==> out@[i].frames_spec() <= rest@[j].frames_spec()),
        decreases rest@.len(),
    {
        // find the index of the extremal remaining chunk
        let mut best: usize = 0;
        let mut k: usize = 1;
        while k < rest.len()
            invariant
                rest@.len() > 0,
                best < k <= rest@.len(),
                forall|i: int| 0 <= i < rest@.len() ==> (#[trigger] rest@[i]).wf(),
                forall|j: int|
                    0 <= j < k ==> (descending ==> rest@[best as int].frames_spec() >= (
                    #[trigger] rest@[j]).frames_spec()) && (!descending ==> rest@[
                        best as int
                    ].frames_spec() <= (#[trigger] rest@[j]).frames_spec()),
            decreases rest@.len() - k,
        {
            let better = if descending {
                rest[k].frames() > rest[best].frames()
            } else {
                rest[k].frames() < rest[best].frames()
            };
            if better {
                best = k;
            }
            k += 1;
        }
        let ghost rest_before = rest@;
        let c = rest.remove(best);
        proof {
            assert(rest@ == rest_before.remove(best as int));
            assert(forall|j: int|
                0 <= j < rest@.len() ==> #[trigger] rest@[j] == (if j < best {
                    rest_before[j]
                } else {
                    rest_before[j + 1]
                }));
            assert(rest_before.contains(c)) by {
                assert(rest_before[best as int] == c);
            }
            vstd::seq_lib::to_multiset_remove(rest_before, best as int);
            vstd::seq_lib::to_multiset_build(out@, c);
            rest_before.to_multiset_ensures();
            assert(rest_before.to_multiset().count(c) > 0);
            assert(rest@.to_multiset() =~= rest_before.to_multiset().remove(c));
            assert(out@.push(c).to_multiset() =~= out@.to_multiset().insert(c));
            assert(out@.push(c).to_multiset().add(rest@.to_multiset()) =~= orig.to_multiset())
                by {
                assert forall|x: Chunk|
                    out@.push(c).to_multiset().add(rest@.to_multiset()).count(x)
                        == orig.to_multiset().count(x) by {
                    assert(out@.to_multiset().add(rest_before.to_multiset()).count(x)
                        == orig.to_multiset().count(x));
                }
            }
        }
        out.push(c);
        proof {
            assert(out@.drop_last() == out@.subrange(0, out@.len() - 1));
            assert(forall|i: int|
                0 <= i < out@.len() - 1 ==> (#[trigger] out@[i]).frames_spec() == out@.subrange(
                    0,
                    out@.len() - 1,
                )[i].frames_spec());
        }
    }
    proof {
        assert(rest@.to_multiset() =~= Multiset::<Chunk>::empty());
        assert(out@.to_multiset() =~= orig.to_multiset());
    }
    out
}

/// Reorder the planned queue for dispatch.  Whatever the ordering, the
/// queue afterwards holds exactly the planned chunks; the seed is used only
/// by the random ordering, so shuffled runs can be repeated.
pub fn order_chunks(chunks: Vec<Chunk>, ordering: ChunkOrdering, seed: u64) -> (r: Vec<Chunk>)
    requires
        forall|i: int| 0 <= i < chunks@.len() ==> (#[trigger] chunks@[i]).wf(),
    ensures
        r@.to_multiset() == chunks@.to_multiset(),
        ordering is LongestFirst ==> sorted_desc(r@),
        ordering is ShortestFirst ==> sorted_asc(r@),
        ordering is Sequential ==> r@ == chunks@,
{
    broadcast use vstd::seq_lib::group_to_multiset_ensures;

    match ordering {
        ChunkOrdering::LongestFirst => sort_chunks_by_frames(chunks, true),
        ChunkOrdering::ShortestFirst => sort_chunks_by_frames(chunks, false),
        ChunkOrdering::Sequential => chunks,
        ChunkOrdering::Random => {
            let mut chunks = chunks;
            shuffle_chunks(&mut chunks, seed);
            chunks
        },
    }
}

} // verus!
