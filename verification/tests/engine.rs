use av1an_core::detect::{analyzer_uses_wide_samples, sc_decoder_filter_args, SceneDetectionState};
use av1an_core::done::DoneSet;
use av1an_core::num::pad5;
use av1an_core::orchestrator::{exit_code, resume_decision, resume_total_frames, use_scenes_file};
use av1an_core::planner::{
    check_plan_settings, check_scenes_plannable, create_select_chunk, hybrid_split_points,
    order_chunks, plan_hybrid_chunks, plan_script_chunks, plan_segment_chunks, ChunkOrdering,
    PlanSettings,
};
use av1an_core::runner::{
    create_filter_cmd, fpf_path, judge_frame_count, mismatch_message, needs_filter_stage,
    output_path, progress_update, select_pass_arity, FrameCountVerdict, PassArity,
};
use av1an_core::types::{FormatInfo, JobError, Ratio, Scene, ZoneOptions};
use av1an_core::worker::{
    effective_workers, filter_unfinished, on_pass_result, start_chunk, ChunkState, MAX_TRIES,
};

fn settings() -> PlanSettings {
    PlanSettings {
        temp: String::from(".tmp"),
        video_params: vec![String::from("--cq-level=30")],
        passes: 1,
        encoder: String::from("aom"),
        output_ext: String::from("ivf"),
        pix_format: String::from("yuv420p10le"),
        photon_noise: None,
        photon_noise_width: None,
        photon_noise_height: None,
        chroma_noise: false,
        ignore_frame_mismatch: false,
        frame_rate: Ratio { num: 24000, den: 1001 },
    }
}

fn zone(start: usize, end: usize, min_scene_len: usize) -> Scene {
    Scene {
        start_frame: start,
        end_frame: end,
        zone_overrides: Some(ZoneOptions {
            encoder: String::from("aom"),
            passes: 1,
            video_params: vec![String::from("--cq-level=20")],
            min_scene_len,
            photon_noise: None,
            photon_noise_width: None,
            photon_noise_height: None,
            chroma_noise: false,
        }),
    }
}

#[test]
fn detector_without_zones_tiles_the_clip() {
    let mut st = SceneDetectionState::new_detection(100, Vec::new()).unwrap();
    assert!(!st.is_done());
    assert_eq!(st.frame_limit(), None);
    assert_eq!(st.min_scene_len_for_segment(24), 24);
    assert_eq!(st.segment_length(), 100);
    st.apply_segment(&vec![0, 40], 100).unwrap();
    assert!(st.is_done());
    assert_eq!(st.scenes.len(), 2);
    assert_eq!((st.scenes[0].start_frame, st.scenes[0].end_frame), (0, 40));
    assert_eq!((st.scenes[1].start_frame, st.scenes[1].end_frame), (40, 100));
}

#[test]
fn script_planner_matches_the_scenes() {
    let mut st = SceneDetectionState::new_detection(100, Vec::new()).unwrap();
    st.apply_segment(&vec![0, 40], 100).unwrap();
    let s = settings();
    let chunks = plan_script_chunks(
        &s,
        &st.scenes,
        "clip.vpy",
        &Vec::new(),
        &String::from("import vapoursynth"),
    );
    assert_eq!(chunks.len(), 2);
    assert_eq!((chunks[0].start_frame, chunks[0].end_frame), (0, 40));
    assert_eq!((chunks[1].start_frame, chunks[1].end_frame), (40, 100));
    assert_eq!(chunks[0].index, 0);
    assert_eq!(chunks[1].index, 1);
    assert_eq!(
        chunks[0].source_cmd,
        vec!["vspipe", "clip.vpy", "-c", "y4m", "-", "-s", "0", "-e", "39"]
            .into_iter()
            .map(String::from)
            .collect::<Vec<String>>()
    );

    // the done record after both chunks finish, as resume would see it
    let mut done = DoneSet::new();
    done.insert(pad5(0), 40, 1000);
    done.insert(pad5(1), 60, 1500);
    done.set_total_frames(100);
    assert_eq!(done.sum_frames(), 100);
    assert_eq!(done.len(), 2);
    assert!(done.contains("00000"));
    assert!(done.contains("00001"));
}

#[test]
fn zone_overrides_min_scene_len_and_scenes_stay_inside_zones() {
    let zones = vec![zone(30, 60, 20)];
    let mut st = SceneDetectionState::new_detection(100, zones).unwrap();
    // segment before the zone
    assert_eq!(st.min_scene_len_for_segment(24), 24);
    assert_eq!(st.frame_limit(), Some(30));
    st.apply_segment(&vec![0], 30).unwrap();
    // segment inside the zone
    assert_eq!(st.min_scene_len_for_segment(24), 20);
    assert_eq!(st.frame_limit(), Some(30));
    st.apply_segment(&vec![0, 15], 30).unwrap();
    // segment after the zone
    assert_eq!(st.min_scene_len_for_segment(24), 24);
    assert_eq!(st.frame_limit(), None);
    st.apply_segment(&vec![0], 40).unwrap();
    assert!(st.is_done());
    // contiguous, and no scene crosses the zone boundaries at 30 and 60
    let mut prev_end = 0;
    for sc in &st.scenes {
        assert_eq!(sc.start_frame, prev_end);
        assert!(sc.start_frame < sc.end_frame);
        assert!(sc.end_frame <= 30 || sc.start_frame >= 30);
        assert!(sc.end_frame <= 60 || sc.start_frame >= 60);
        prev_end = sc.end_frame;
    }
    assert_eq!(prev_end, 100);
    // the scenes inside the zone carry its overrides
    assert_eq!(
        st.scenes[1].zone_overrides.as_ref().unwrap().min_scene_len,
        20
    );
    assert!(st.scenes[0].zone_overrides.is_none());
}

#[test]
fn detector_frame_count_mismatch_is_fatal() {
    let zones = vec![zone(30, 60, 20)];
    let mut st = SceneDetectionState::new_detection(100, zones).unwrap();
    let r = st.apply_segment(&vec![0], 29);
    assert_eq!(
        r,
        Err(JobError::DetectorFrameCountMismatch { expected: 30, actual: 29 })
    );
    assert_eq!(st.frames_read, 0);
}

#[test]
fn invalid_zones_are_rejected() {
    let zones = vec![zone(50, 40, 10)];
    let r = SceneDetectionState::new_detection(100, zones);
    assert_eq!(r.err(), Some(JobError::ConfigInvalid));
}

#[test]
fn select_chunk_composes_the_frame_exact_argv() {
    let s = settings();
    let c = create_select_chunk(&s, 3, "in.mkv", 10, 50, &None);
    assert_eq!(c.index, 3);
    assert_eq!(c.frames(), 40);
    assert_eq!(c.source_cmd[8], "select=between(n\\,10\\,49)");
    assert_eq!(c.source_cmd[0], "ffmpeg");
    assert_eq!(c.source_cmd[10], "yuv420p10le");
    assert_eq!(c.video_params, vec![String::from("--cq-level=30")]);
}

#[test]
fn zone_overrides_replace_encoder_settings() {
    let s = settings();
    let z = zone(0, 10, 5).zone_overrides;
    let c = create_select_chunk(&s, 0, "in.mkv", 0, 10, &z);
    assert_eq!(c.video_params, vec![String::from("--cq-level=20")]);
}

#[test]
fn segment_planner_fails_on_zero_files() {
    let s = settings();
    let r = plan_segment_chunks(&s, &Vec::new(), &Vec::new(), &Vec::new());
    assert_eq!(r.err(), Some(JobError::PlanningFailed));
}

#[test]
fn segment_planner_covers_each_file() {
    let s = settings();
    let mut st = SceneDetectionState::new_detection(100, Vec::new()).unwrap();
    st.apply_segment(&vec![0, 40], 100).unwrap();
    let files = vec![String::from("s0.mkv"), String::from("s1.mkv")];
    let counts = vec![40usize, 60usize];
    let chunks = plan_segment_chunks(&s, &files, &counts, &st.scenes).unwrap();
    assert_eq!(chunks.len(), 2);
    assert_eq!((chunks[0].start_frame, chunks[0].end_frame), (0, 40));
    assert_eq!((chunks[1].start_frame, chunks[1].end_frame), (0, 60));
}

#[test]
fn hybrid_planner_splits_at_scene_aligned_keyframes() {
    let mut st = SceneDetectionState::new_detection(100, Vec::new()).unwrap();
    st.apply_segment(&vec![0, 40], 100).unwrap();
    let keyframes = vec![0usize, 40, 70];
    let split = hybrid_split_points(&keyframes, &st.scenes);
    assert_eq!(split, vec![0, 40]);
    let s = settings();
    let files = vec![String::from("s0.mkv"), String::from("s1.mkv")];
    let chunks = plan_hybrid_chunks(&s, &st.scenes, &split, &files, 100).unwrap();
    assert_eq!(chunks.len(), 2);
    // ranges are relative to each segment file, and each chunk reads its
    // covering segment's file
    assert_eq!((chunks[0].start_frame, chunks[0].end_frame), (0, 40));
    assert_eq!((chunks[1].start_frame, chunks[1].end_frame), (0, 60));
    assert_eq!(chunks[0].source_cmd[6], "s0.mkv");
    assert_eq!(chunks[1].source_cmd[6], "s1.mkv");
    assert_eq!(chunks[1].source_cmd[8], "select=between(n\\,0\\,59)");
    assert_eq!(chunks[0].frames() + chunks[1].frames(), 100);
    // a scene no segment holds fails planning before any worker starts
    let bad_split = vec![0usize, 50];
    let r = plan_hybrid_chunks(&s, &st.scenes, &bad_split, &files, 100);
    assert_eq!(r.err(), Some(JobError::PlanningFailed));
}

#[test]
fn ordering_reorders_without_losing_chunks() {
    let s = settings();
    let a = create_select_chunk(&s, 0, "in.mkv", 0, 10, &None);
    let b = create_select_chunk(&s, 1, "in.mkv", 10, 60, &None);
    let c = create_select_chunk(&s, 2, "in.mkv", 60, 80, &None);
    let longest = order_chunks(
        vec![a.clone(), b.clone(), c.clone()],
        ChunkOrdering::LongestFirst,
        0,
    );
    let frames: Vec<usize> = longest.iter().map(|x| x.frames()).collect();
    assert_eq!(frames, vec![50, 20, 10]);
    let shortest = order_chunks(
        vec![a.clone(), b.clone(), c.clone()],
        ChunkOrdering::ShortestFirst,
        0,
    );
    let frames: Vec<usize> = shortest.iter().map(|x| x.frames()).collect();
    assert_eq!(frames, vec![10, 20, 50]);
    let seq = order_chunks(
        vec![a.clone(), b.clone(), c.clone()],
        ChunkOrdering::Sequential,
        0,
    );
    assert_eq!(seq, vec![a.clone(), b.clone(), c.clone()]);
    let mut random = order_chunks(
        vec![a.clone(), b.clone(), c.clone()],
        ChunkOrdering::Random,
        7,
    );
    // the same seed shuffles the same way, so shuffled runs can be repeated
    let again = order_chunks(vec![a, b, c], ChunkOrdering::Random, 7);
    assert_eq!(random, again);
    let mut indices: Vec<usize> = random.drain(..).map(|x| x.index).collect();
    indices.sort();
    assert_eq!(indices, vec![0, 1, 2]);
}

#[test]
fn analysis_decoder_filter_args_cover_all_cases() {
    assert_eq!(
        sc_decoder_filter_args(Some(720), Some("yuv420p"), "bicubic"),
        vec![
            String::from("-vf"),
            String::from("format=yuv420p,scale=-2:'min(720,ih)':flags=bicubic"),
        ]
    );
    assert_eq!(
        sc_decoder_filter_args(Some(540), None, "lanczos"),
        vec![
            String::from("-vf"),
            String::from("scale=-2:'min(540,ih)':flags=lanczos"),
        ]
    );
    assert_eq!(
        sc_decoder_filter_args(None, Some("yuv420p10le"), "bicubic"),
        vec![String::from("-pix_fmt"), String::from("yuv420p10le")]
    );
    assert!(sc_decoder_filter_args(None, None, "bicubic").is_empty());
    assert!(!analyzer_uses_wide_samples(8));
    assert!(analyzer_uses_wide_samples(10));
}

#[test]
fn zone_with_illegal_pass_count_is_rejected() {
    let mut z = zone(30, 60, 20);
    if let Some(o) = z.zone_overrides.as_mut() {
        o.passes = 0;
    }
    let r = SceneDetectionState::new_detection(100, vec![z]);
    assert_eq!(r.err(), Some(JobError::ConfigInvalid));
}

#[test]
fn plannability_checks_mirror_the_planner_requires() {
    let s = settings();
    assert!(check_plan_settings(&s));
    let mut bad = settings();
    bad.passes = 3;
    assert!(!check_plan_settings(&bad));
    let scenes = vec![zone(0, 10, 5)];
    assert!(check_scenes_plannable(&scenes));
    let mut broken = zone(0, 10, 5);
    if let Some(o) = broken.zone_overrides.as_mut() {
        o.passes = 9;
    }
    assert!(!check_scenes_plannable(&vec![broken]));
}

#[test]
fn converter_stage_argv_is_exact() {
    let cmd = create_filter_cmd(&vec![String::from("-vf"), String::from("crop=1:1")], "yuv420p");
    assert_eq!(
        cmd,
        vec!["ffmpeg", "-y", "-hide_banner", "-loglevel", "error", "-i", "-", "-vf", "crop=1:1",
            "-pix_fmt", "yuv420p", "-strict", "-1", "-f", "yuv4mpegpipe", "-"]
            .into_iter()
            .map(String::from)
            .collect::<Vec<String>>()
    );
}

#[test]
fn resume_recomputes_a_zeroed_total() {
    assert_eq!(resume_total_frames(0, 100), 100);
    assert_eq!(resume_total_frames(80, 100), 80);
}

#[test]
fn resume_filters_only_finished_chunks() {
    let s = settings();
    let a = create_select_chunk(&s, 0, "in.mkv", 0, 40, &None);
    let b = create_select_chunk(&s, 1, "in.mkv", 40, 100, &None);
    let mut done = DoneSet::new();
    done.insert(pad5(0), 40, 1000);
    let remaining = filter_unfinished(vec![a, b], &done);
    assert_eq!(remaining.len(), 1);
    assert_eq!(remaining[0].index, 1);
    // the progress bar resumes at the recorded frames
    assert_eq!(done.sum_frames(), 40);
}

#[test]
fn done_set_only_grows() {
    let mut done = DoneSet::new();
    assert_eq!(done.sum_frames(), 0);
    done.insert(pad5(0), 40, 1000);
    let after_one = done.sum_frames();
    assert!(after_one >= 0);
    assert!(done.contains("00000"));
    done.insert(pad5(1), 60, 2000);
    assert!(done.sum_frames() >= after_one);
    assert!(done.contains("00000"));
    assert!(done.contains("00001"));
    done.mark_audio_done();
    assert!(done.audio_done());
    assert!(done.contains("00000"));
    assert_eq!(done.sum_frames(), 100);
}

#[test]
fn three_failures_make_a_chunk_fatal() {
    let mut st = start_chunk(1);
    assert_eq!(st, ChunkState::Running { pass: 1, tries: 1 });
    st = on_pass_result(st, 1, false);
    assert_eq!(st, ChunkState::Running { pass: 1, tries: 2 });
    st = on_pass_result(st, 1, false);
    assert_eq!(st, ChunkState::Running { pass: 1, tries: MAX_TRIES });
    st = on_pass_result(st, 1, false);
    assert_eq!(st, ChunkState::Fatal);
    assert_eq!(exit_code(true), 1);
    assert_eq!(exit_code(false), 0);
}

#[test]
fn two_pass_failure_restarts_at_pass_one() {
    let mut st = start_chunk(2);
    st = on_pass_result(st, 2, true);
    assert_eq!(st, ChunkState::Running { pass: 2, tries: 1 });
    st = on_pass_result(st, 2, false);
    assert_eq!(st, ChunkState::Running { pass: 1, tries: 2 });
    st = on_pass_result(st, 2, true);
    st = on_pass_result(st, 2, true);
    assert_eq!(st, ChunkState::Done);
}

#[test]
fn worker_count_is_bounded_by_the_queue() {
    assert_eq!(effective_workers(4, 8, 10), 4);
    assert_eq!(effective_workers(0, 8, 10), 8);
    assert_eq!(effective_workers(0, 8, 3), 3);
    assert_eq!(effective_workers(12, 8, 5), 5);
    assert_eq!(effective_workers(2, 8, 0), 0);
}

#[test]
fn pass_arity_follows_the_pass_plan() {
    assert_eq!(select_pass_arity(1, 1), PassArity::OnePass);
    assert_eq!(select_pass_arity(2, 1), PassArity::FirstOfTwo);
    assert_eq!(select_pass_arity(2, 2), PassArity::SecondOfTwo);
}

#[test]
fn filter_stage_is_inserted_exactly_when_needed() {
    let same = FormatInfo::Pixel { name: String::from("yuv420p"), bit_depth: 8 };
    let other = FormatInfo::Pixel { name: String::from("yuv420p10le"), bit_depth: 10 };
    let depth8 = FormatInfo::BitDepth { bit_depth: 8 };
    assert!(!needs_filter_stage(false, &same, "yuv420p", 8));
    assert!(needs_filter_stage(true, &same, "yuv420p", 8));
    assert!(needs_filter_stage(false, &other, "yuv420p", 8));
    assert!(!needs_filter_stage(false, &depth8, "yuv420p", 8));
    assert!(needs_filter_stage(false, &depth8, "yuv420p", 10));
}

#[test]
fn progress_counter_is_monotone() {
    assert_eq!(progress_update(10, 15), (15, 5));
    assert_eq!(progress_update(10, 10), (10, 0));
    assert_eq!(progress_update(10, 7), (10, 0));
}

#[test]
fn frame_count_verdicts() {
    assert_eq!(judge_frame_count(&Some(40), 40, false), FrameCountVerdict::Accepted);
    assert_eq!(
        judge_frame_count(&Some(39), 40, false),
        FrameCountVerdict::Mismatch { got: 39 }
    );
    assert_eq!(judge_frame_count(&Some(39), 40, true), FrameCountVerdict::Accepted);
    assert_eq!(judge_frame_count(&None, 40, false), FrameCountVerdict::ProbeFailed);
    assert_eq!(
        mismatch_message(1, 39, 40),
        "FRAME MISMATCH: chunk 1: 39/40 (actual/expected frames)"
    );
}

#[test]
fn chunk_paths_are_derived_from_the_name() {
    assert_eq!(output_path(".tmp", 3, "ivf"), ".tmp/encode/00003.ivf");
    assert_eq!(fpf_path(".tmp", 3), ".tmp/split/00003_fpf");
    assert_eq!(pad5(0), "00000");
    assert_eq!(pad5(42), "00042");
    assert_eq!(pad5(123456), "123456");
}

#[test]
fn resume_needs_both_records() {
    assert!(resume_decision(true, true, true));
    assert!(!resume_decision(true, false, true));
    assert!(!resume_decision(true, true, false));
    assert!(!resume_decision(false, true, true));
    assert!(use_scenes_file(true, false, true));
    assert!(use_scenes_file(true, true, false));
    assert!(!use_scenes_file(false, true, true));
    assert!(!use_scenes_file(true, false, false));
}
