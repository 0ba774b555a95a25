//! Data model of the encoding job: inputs, scenes, zones, chunks, and the
//! error kinds the lifecycle engine can surface.

use vstd::prelude::*;

verus! {

/// A frame rate as an exact rational, so that contracts never touch
/// floating point.
#[derive(Debug, Clone, Copy, PartialEq, Eq, Structural)]
pub struct Ratio {
    pub num: u64,
    pub den: u64,
}

impl Ratio {
    /// A frame rate is meaningful only with a nonzero denominator.
    pub open spec fn wf(self) -> bool {
        self.den > 0
    }
}

/// Clone a list of strings, keeping every element's characters.
pub fn clone_strings(v: &Vec<String>) -> (r: Vec<String>)
    ensures
        r@ == v@,
{
    let mut r: Vec<String> = Vec::new();
    let mut i: usize = 0;
    while i < v.len()
        invariant
            i <= v@.len(),
            r@ == v@.take(i as int),
        decreases v@.len() - i,
    {
        r.push(v[i].clone());
        proof {
            assert(r@ =~= v@.take(i + 1int));
        }
        i += 1;
    }
    proof {
        assert(v@.take(v@.len() as int) =~= v@);
    }
    r
}

/// The clip to encode: either a container file or a frame-generation script.
#[derive(Debug, PartialEq)]
pub enum Input {
    Video { path: String, script_text: Option<String> },
    Script { path: String, script_args: Vec<String>, script_text: String },
}

/// The mathematical content of an `Input`: the same shape over character
/// sequences, so that contracts can state full value equality.
#[verifier::ext_equal]
pub enum InputModel {
    Video { path: Seq<char>, script_text: Option<Seq<char>> },
    Script { path: Seq<char>, script_args: Seq<Seq<char>>, script_text: Seq<char> },
}

impl Clone for Input {
    fn clone(&self) -> (r: Self)
        ensures
            r.model() == self.model(),
    {
        match self {
            Input::Video { path, script_text } => Input::Video {
                path: path.clone(),
                script_text: match script_text {
                    Some(t) => Some(t.clone()),
                    None => None,
                },
            },
            Input::Script { path, script_args, script_text } => Input::Script {
                path: path.clone(),
                script_args: clone_strings(script_args),
                script_text: script_text.clone(),
            },
        }
    }
}

impl Input {
    pub open spec fn model(self) -> InputModel {
        match self {
            Input::Video { path, script_text } => InputModel::Video {
                path: path@,
                script_text: match script_text {
                    Some(t) => Some(t@),
                    None => None,
                },
            },
            Input::Script { path, script_args, script_text } => InputModel::Script {
                path: path@,
                script_args: script_args@.map_values(|s: String| s@),
                script_text: script_text@,
            },
        }
    }

    pub open spec fn path_view(self) -> Seq<char> {
        match self {
            Input::Video { path, .. } => path@,
            Input::Script { path, .. } => path@,
        }
    }
}

/// What is known of the source pixel layout: a full descriptor when the
/// prober gave one, or only the sample bit depth.
#[derive(Debug, Clone, PartialEq)]
pub enum FormatInfo {
    Pixel { name: String, bit_depth: u8 },
    BitDepth { bit_depth: u8 },
}

impl FormatInfo {
    pub open spec fn bit_depth_spec(self) -> u8 {
        match self {
            FormatInfo::Pixel { bit_depth, .. } => bit_depth,
            FormatInfo::BitDepth { bit_depth } => bit_depth,
        }
    }

    /// The sample bit depth, whichever form the probe reported.
    pub fn bit_depth(&self) -> (d: u8)
        ensures
            d == self.bit_depth_spec(),
    {
        match self {
            FormatInfo::Pixel { bit_depth, .. } => *bit_depth,
            FormatInfo::BitDepth { bit_depth } => *bit_depth,
        }
    }
}

/// Transfer characteristics of the source, reduced to what scheduling needs.
#[derive(Debug, Clone, Copy, PartialEq, Eq, Structural)]
pub enum Transfer {
    Sdr,
    Hdr,
}

/// Everything the engine needs to know about the clip itself.
#[derive(Debug, Clone, PartialEq)]
pub struct ClipInfo {
    pub width: u32,
    pub height: u32,
    pub frame_rate: Ratio,
    pub num_frames: usize,
    pub format: FormatInfo,
    pub transfer: Transfer,
}

/// Per-range overrides a user attaches to a zone of the clip.  A field kept
/// at the global default is simply repeated here by the zone parser.
#[derive(Debug, PartialEq)]
pub struct ZoneOptions {
    pub encoder: String,
    pub passes: u8,
    pub video_params: Vec<String>,
    pub min_scene_len: usize,
    pub photon_noise: Option<u8>,
    pub photon_noise_width: Option<u32>,
    pub photon_noise_height: Option<u32>,
    pub chroma_noise: bool,
}

/// The mathematical content of a `ZoneOptions`.
#[verifier::ext_equal]
pub struct ZoneOptionsModel {
    pub encoder: Seq<char>,
    pub passes: int,
    pub video_params: Seq<Seq<char>>,
    pub min_scene_len: int,
    pub photon_noise: Option<u8>,
    pub photon_noise_width: Option<u32>,
    pub photon_noise_height: Option<u32>,
    pub chroma_noise: bool,
}

impl ZoneOptions {
    pub open spec fn model(self) -> ZoneOptionsModel {
        ZoneOptionsModel {
            encoder: self.encoder@,
            passes: self.passes as int,
            video_params: self.video_params@.map_values(|s: String| s@),
            min_scene_len: self.min_scene_len as int,
            photon_noise: self.photon_noise,
            photon_noise_width: self.photon_noise_width,
            photon_noise_height: self.photon_noise_height,
            chroma_noise: self.chroma_noise,
        }
    }
}

impl Clone for ZoneOptions {
    fn clone(&self) -> (r: Self)
        ensures
            r.model() == self.model(),
    {
        ZoneOptions {
            encoder: self.encoder.clone(),
            passes: self.passes,
            video_params: clone_strings(&self.video_params),
            min_scene_len: self.min_scene_len,
            photon_noise: self.photon_noise,
            photon_noise_width: self.photon_noise_width,
            photon_noise_height: self.photon_noise_height,
            chroma_noise: self.chroma_noise,
        }
    }
}

/// A contiguous frame range separated by detected cuts, possibly carrying
/// zone overrides.
#[derive(Debug, PartialEq)]
pub struct Scene {
    pub start_frame: usize,
    pub end_frame: usize,
    pub zone_overrides: Option<ZoneOptions>,
}

/// The mathematical content of a `Scene`.
#[verifier::ext_equal]
pub struct SceneModel {
    pub start_frame: int,
    pub end_frame: int,
    pub zone_overrides: Option<ZoneOptionsModel>,
}

impl Clone for Scene {
    fn clone(&self) -> (r: Self)
        ensures
            r.model() == self.model(),
    {
        Scene {
            start_frame: self.start_frame,
            end_frame: self.end_frame,
            zone_overrides: match &self.zone_overrides {
                Some(z) => Some(z.clone()),
                None => None,
            },
        }
    }
}

impl Scene {
    pub open spec fn model(self) -> SceneModel {
        SceneModel {
            start_frame: self.start_frame as int,
            end_frame: self.end_frame as int,
            zone_overrides: match self.zone_overrides {
                Some(z) => Some(z.model()),
                None => None,
            },
        }
    }

    /// A scene is a nonempty half-open frame range.
    pub open spec fn wf(self) -> bool {
        self.start_frame < self.end_frame
    }

    pub open spec fn len_spec(self) -> int {
        self.end_frame - self.start_frame
    }
}

/// Scenes tile `[lo, hi)` contiguously: each scene is nonempty, starts where
/// the previous one ended, the first starts at `lo` and the last ends at `hi`.
pub open spec fn scenes_tile(scenes: Seq<Scene>, lo: int, hi: int) -> bool {
    &&& (forall|i: int| 0 <= i < scenes.len() ==> (#[trigger] scenes[i]).wf())
    &&& (forall|i: int|
        0 < i < scenes.len() ==> (#[trigger] scenes[i]).start_frame == scenes[
            i - 1
        ].end_frame)
    &&& (scenes.len() > 0 ==> scenes[0].start_frame == lo)
    &&& (scenes.len() > 0 ==> scenes[scenes.len() - 1].end_frame == hi)
    &&& (scenes.len() == 0 ==> lo == hi)
}

/// The models of a scene list.
pub open spec fn scene_models(s: Seq<Scene>) -> Seq<SceneModel> {
    s.map_values(|sc: Scene| sc.model())
}

/// Two tilings that meet at `mid` concatenate to one tiling.
pub proof fn lemma_tile_concat(a: Seq<Scene>, b: Seq<Scene>, lo: int, mid: int, hi: int)
    requires
        scenes_tile(a, lo, mid),
        scenes_tile(b, mid, hi),
    ensures
        scenes_tile(a + b, lo, hi),
{
    let ab = a + b;
    assert forall|i: int| 0 <= i < ab.len() implies (#[trigger] ab[i]).wf() by {
        if i < a.len() {
            assert(ab[i] == a[i]);
        } else {
            assert(ab[i] == b[i - a.len()]);
        }
    }
    assert forall|i: int| 0 < i < ab.len() implies (#[trigger] ab[i]).start_frame == ab[
        i - 1
    ].end_frame by {
        if i < a.len() {
            assert(ab[i] == a[i]);
            assert(ab[i - 1] == a[i - 1]);
        } else if i == a.len() {
            assert(ab[i] == b[0]);
            assert(ab[i - 1] == a[i - 1]);
        } else {
            assert(ab[i] == b[i - a.len()]);
            assert(ab[i - 1] == b[i - 1 - a.len()]);
        }
    }
    if ab.len() > 0 {
        if a.len() > 0 {
            assert(ab[0] == a[0]);
        } else {
            assert(ab[0] == b[0]);
        }
        if b.len() > 0 {
            assert(ab[ab.len() - 1] == b[b.len() - 1]);
        } else {
            assert(ab[ab.len() - 1] == a[a.len() - 1]);
        }
    }
}

/// A contiguous frame range encoded independently, immutable after planning.
#[derive(Debug, PartialEq)]
pub struct Chunk {
    pub index: usize,
    pub temp: String,
    pub input: Input,
    pub source_cmd: Vec<String>,
    pub output_ext: String,
    pub start_frame: usize,
    pub end_frame: usize,
    pub frame_rate: Ratio,
    pub video_params: Vec<String>,
    pub passes: u8,
    pub encoder: String,
    pub noise_width: Option<u32>,
    pub noise_height: Option<u32>,
    pub tq_cq: Option<u32>,
    pub ignore_frame_mismatch: bool,
}

/// The mathematical content of a `Chunk`.
#[verifier::ext_equal]
pub struct ChunkModel {
    pub index: int,
    pub temp: Seq<char>,
    pub input: InputModel,
    pub source_cmd: Seq<Seq<char>>,
    pub output_ext: Seq<char>,
    pub start_frame: int,
    pub end_frame: int,
    pub frame_rate: Ratio,
    pub video_params: Seq<Seq<char>>,
    pub passes: int,
    pub encoder: Seq<char>,
    pub noise_width: Option<u32>,
    pub noise_height: Option<u32>,
    pub tq_cq: Option<u32>,
    pub ignore_frame_mismatch: bool,
}

impl Clone for Chunk {
    fn clone(&self) -> (r: Self)
        ensures
            r.model() == self.model(),
    {
        Chunk {
            index: self.index,
            temp: self.temp.clone(),
            input: self.input.clone(),
            source_cmd: clone_strings(&self.source_cmd),
            output_ext: self.output_ext.clone(),
            start_frame: self.start_frame,
            end_frame: self.end_frame,
            frame_rate: self.frame_rate,
            video_params: clone_strings(&self.video_params),
            passes: self.passes,
            encoder: self.encoder.clone(),
            noise_width: self.noise_width,
            noise_height: self.noise_height,
            tq_cq: self.tq_cq,
            ignore_frame_mismatch: self.ignore_frame_mismatch,
        }
    }
}

impl Chunk {
    pub open spec fn model(self) -> ChunkModel {
        ChunkModel {
            index: self.index as int,
            temp: self.temp@,
            input: self.input.model(),
            source_cmd: self.source_cmd@.map_values(|s: String| s@),
            output_ext: self.output_ext@,
            start_frame: self.start_frame as int,
            end_frame: self.end_frame as int,
            frame_rate: self.frame_rate,
            video_params: self.video_params@.map_values(|s: String| s@),
            passes: self.passes as int,
            encoder: self.encoder@,
            noise_width: self.noise_width,
            noise_height: self.noise_height,
            tq_cq: self.tq_cq,
            ignore_frame_mismatch: self.ignore_frame_mismatch,
        }
    }

    /// A chunk covers at least one frame and is encoded in one or two passes.
    pub open spec fn wf(self) -> bool {
        &&& self.start_frame < self.end_frame
        &&& (self.passes == 1 || self.passes == 2)
        &&& self.frame_rate.wf()
    }

    pub open spec fn frames_spec(self) -> int {
        self.end_frame - self.start_frame
    }

    /// The number of frames this chunk covers.
    pub fn frames(&self) -> (n: usize)
        requires
            self.wf(),
        ensures
            n == self.frames_spec(),
    {
        self.end_frame - self.start_frame
    }
}

/// Errors the planner, detector driver, and stores can surface.  Retryable
/// encoder crashes are carried separately by `EncoderCrash`.
#[derive(Debug, Clone, PartialEq)]
pub enum JobError {
    ConfigInvalid,
    ResumeInconsistent,
    IoFailure,
    DetectorFrameCountMismatch { expected: usize, actual: usize },
    PlanningFailed,
}

/// Everything captured when one chunk's encoder pipeline fails: the exit
/// status and the collected stream excerpts that are surfaced on crash.
#[derive(Debug, Clone, PartialEq)]
pub struct EncoderCrash {
    pub exit_code: Option<i32>,
    pub source_stderr: String,
    pub filter_stderr: Option<String>,
    pub encoder_stderr: String,
    pub encoder_stdout: String,
}

} // verus!
