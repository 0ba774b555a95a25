//! Per-chunk pipeline decisions: which encoder invocation a pass needs,
//! whether the pixel-format converter sits between source and encoder, how
//! encoder progress lines advance the frame counter, where a chunk's files
//! live, and the verdict on the finished file's frame count.
//!
//! The pipeline itself — three piped subprocesses — runs outside the
//! library; every branch it takes is decided by a function here.

use vstd::prelude::*;

use crate::num::{dec_rep, pad5, pad5_spec, str_eq, u64_dec};
use crate::types::FormatInfo;

verus! {

/// Which of the encoder adapter's three invocations a pass uses.
#[derive(Debug, Clone, Copy, PartialEq, Eq, Structural)]
pub enum PassArity {
    OnePass,
    FirstOfTwo,
    SecondOfTwo,
}

/// Pick the encoder invocation: single-pass encodes directly, a two-pass
/// chunk first writes stats and then encodes from them.
pub fn select_pass_arity(passes: u8, current_pass: u8) -> (r: PassArity)
    requires
        passes == 1 || passes == 2,
        1 <= current_pass <= passes,
    ensures
        passes == 1 ==> r == PassArity::OnePass,
        passes == 2 && current_pass == 1 ==> r == PassArity::FirstOfTwo,
        passes == 2 && current_pass == 2 ==> r == PassArity::SecondOfTwo,
{
    if passes == 1 {
        PassArity::OnePass
    } else if current_pass == 1 {
        PassArity::FirstOfTwo
    } else {
        PassArity::SecondOfTwo
    }
}

/// Whether a converter stage must sit between the source and the encoder:
/// exactly when user filter arguments are present, or the declared input
/// pixel format differs from the target format, or the declared input bit
/// depth differs from the target depth.
pub fn needs_filter_stage(
    has_filter_args: bool,
    input: &FormatInfo,
    target_pix_format: &str,
    target_bit_depth: u8,
) -> (r: bool)
    ensures
        r == (has_filter_args || match *input {
            FormatInfo::Pixel { name, .. } => name@ != target_pix_format@,
            FormatInfo::BitDepth { bit_depth } => bit_depth != target_bit_depth,
        }),
{
    if has_filter_args {
        return true;
    }
    match input {
        FormatInfo::Pixel { name, .. } => !str_eq(name.as_str(), target_pix_format),
        FormatInfo::BitDepth { bit_depth } => *bit_depth != target_bit_depth,
    }
}

/// Fold one progress report into the monotone frame counter: a report behind
/// the counter moves nothing, a report ahead advances it by the difference.
pub fn progress_update(frame: u64, reported: u64) -> (r: (u64, u64))
    ensures
        reported > frame ==> r == (reported, (reported - frame) as u64),
        reported <= frame ==> r == (frame, 0u64),
        r.0 >= frame,
        r.0 == frame + r.1,
{
    if reported > frame {
        (reported, reported - frame)
    } else {
        (frame, 0)
    }
}

/// The verdict on a finished chunk's probed frame count.
#[derive(Debug, Clone, Copy, PartialEq, Eq, Structural)]
pub enum FrameCountVerdict {
    Accepted,
    Mismatch { got: usize },
    ProbeFailed,
}

/// Judge the finished file: accepted when the probe matches the chunk's
/// frame count or mismatches are ignored; a differing count is a mismatch;
/// a probe that produced nothing fails.
pub fn judge_frame_count(probed: &Option<usize>, expected: usize, ignore: bool) -> (r:
    FrameCountVerdict)
    ensures
        match *probed {
            Some(got) => r == if got == expected || ignore {
                FrameCountVerdict::Accepted
            } else {
                FrameCountVerdict::Mismatch { got }
            },
            None => r == FrameCountVerdict::ProbeFailed,
        },
{
    match probed {
        Some(got) => {
            if *got == expected || ignore {
                FrameCountVerdict::Accepted
            } else {
                FrameCountVerdict::Mismatch { got: *got }
            }
        },
        None => FrameCountVerdict::ProbeFailed,
    }
}

/// The synthetic report surfaced when a chunk's frame count disagrees.
pub open spec fn mismatch_message_spec(index: int, got: int, expected: int) -> Seq<char> {
    "FRAME MISMATCH: chunk "@ + dec_rep(index as nat) + ": "@ + dec_rep(got as nat) + "/"@
        + dec_rep(expected as nat) + " (actual/expected frames)"@
}

pub fn mismatch_message(index: usize, got: usize, expected: usize) -> (r: String)
    ensures
        r@ == mismatch_message_spec(index as int, got as int, expected as int),
{
    let mut r = String::from_str("FRAME MISMATCH: chunk ");
    let d0 = u64_dec(index as u64);
    r.append(d0.as_str());
    r.append(": ");
    let d1 = u64_dec(got as u64);
    r.append(d1.as_str());
    r.append("/");
    let d2 = u64_dec(expected as u64);
    r.append(d2.as_str());
    r.append(" (actual/expected frames)");
    proof {
        assert(r@ =~= mismatch_message_spec(index as int, got as int, expected as int));
    }
    r
}

/// The argv of the pixel-format converter stage: read raw frames on stdin,
/// apply the user's filter arguments, and emit raw frames in the target
/// format on stdout.
pub open spec fn filter_cmd_spec(filter_args: Seq<Seq<char>>, pix: Seq<char>) -> Seq<Seq<char>> {
    seq!["ffmpeg"@, "-y"@, "-hide_banner"@, "-loglevel"@, "error"@, "-i"@, "-"@] + filter_args
        + seq!["-pix_fmt"@, pix, "-strict"@, "-1"@, "-f"@, "yuv4mpegpipe"@, "-"@]
}

/// Compose the converter stage's argv, exactly as `filter_cmd_spec`
/// describes it.
pub fn create_filter_cmd(filter_args: &Vec<String>, pix: &str) -> (r: Vec<String>)
    ensures
        r@.map_values(|t: String| t@) == filter_cmd_spec(
            filter_args@.map_values(|t: String| t@),
            pix@,
        ),
{
    let ghost fa = filter_args@.map_values(|t: String| t@);
    let mut r: Vec<String> = Vec::new();
    r.push(String::from_str("ffmpeg"));
    r.push(String::from_str("-y"));
    r.push(String::from_str("-hide_banner"));
    r.push(String::from_str("-loglevel"));
    r.push(String::from_str("error"));
    r.push(String::from_str("-i"));
    r.push(String::from_str("-"));
    let ghost head = r@;
    let mut i: usize = 0;
    while i < filter_args.len()
        invariant
            i <= filter_args@.len(),
            fa == filter_args@.map_values(|t: String| t@),
            head.len() == 7,
            r@.len() == 7 + i,
            forall|j: int| 0 <= j < 7 ==> #[trigger] r@[j] == head[j],
            forall|j: int| 7 <= j < r@.len() ==> (#[trigger] r@[j])@ == fa[j - 7],
        decreases filter_args@.len() - i,
    {
        r.push(filter_args[i].clone());
        i += 1;
    }
    r.push(String::from_str("-pix_fmt"));
    r.push(String::from_str(pix));
    r.push(String::from_str("-strict"));
    r.push(String::from_str("-1"));
    r.push(String::from_str("-f"));
    r.push(String::from_str("yuv4mpegpipe"));
    r.push(String::from_str("-"));
    proof {
        assert(r@.map_values(|t: String| t@) =~~= filter_cmd_spec(fa, pix@));
    }
    r
}

/// Where the chunk's encoded output lives: `<temp>/encode/<name>.<ext>`.
pub open spec fn output_path_spec(temp: Seq<char>, index: int, ext: Seq<char>) -> Seq<char> {
    temp + "/encode/"@ + pad5_spec(index as nat) + "."@ + ext
}

pub fn output_path(temp: &str, index: usize, ext: &str) -> (r: String)
    ensures
        r@ == output_path_spec(temp@, index as int, ext@),
{
    let mut r = String::from_str(temp);
    r.append("/encode/");
    let name = pad5(index);
    r.append(name.as_str());
    r.append(".");
    r.append(ext);
    proof {
        assert(r@ =~= output_path_spec(temp@, index as int, ext@));
    }
    r
}

/// Where a two-pass chunk's first-pass stats live: `<temp>/split/<name>_fpf`.
pub open spec fn fpf_path_spec(temp: Seq<char>, index: int) -> Seq<char> {
    temp + "/split/"@ + pad5_spec(index as nat) + "_fpf"@
}

pub fn fpf_path(temp: &str, index: usize) -> (r: String)
    ensures
        r@ == fpf_path_spec(temp@, index as int),
{
    let mut r = String::from_str(temp);
    r.append("/split/");
    let name = pad5(index);
    r.append(name.as_str());
    r.append("_fpf");
    proof {
        assert(r@ =~= fpf_path_spec(temp@, index as int));
    }
    r
}

} // verus!
