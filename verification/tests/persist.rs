use av1an_core::done::DoneSet;
use av1an_core::num::pad5;
use av1an_core::planner::{create_select_chunk, create_script_chunk, PlanSettings};
use av1an_core::ser::{
    load_chunks, load_done, load_scenes, save_chunks, save_done, save_scenes,
    validate_queue_temp,
};
use av1an_core::types::{JobError, Ratio, Scene, ZoneOptions};

fn settings() -> PlanSettings {
    PlanSettings {
        temp: String::from(".tmp"),
        video_params: vec![String::from("--cq-level=30"), String::from("--threads=4")],
        passes: 2,
        encoder: String::from("aom"),
        output_ext: String::from("ivf"),
        pix_format: String::from("yuv420p10le"),
        photon_noise: Some(8),
        photon_noise_width: Some(1920),
        photon_noise_height: Some(1080),
        chroma_noise: true,
        ignore_frame_mismatch: false,
        frame_rate: Ratio { num: 24000, den: 1001 },
    }
}

#[test]
fn chunk_queue_round_trips() {
    let s = settings();
    let overrides = Some(ZoneOptions {
        encoder: String::from("rav1e"),
        passes: 1,
        video_params: vec![String::from("--speed=4")],
        min_scene_len: 12,
        photon_noise: None,
        photon_noise_width: None,
        photon_noise_height: None,
        chroma_noise: false,
    });
    let a = create_select_chunk(&s, 0, "in.mkv", 0, 40, &None);
    let b = create_select_chunk(&s, 1, "in.mkv", 40, 100, &overrides);
    let scene = Scene { start_frame: 100, end_frame: 160, zone_overrides: None };
    let c = create_script_chunk(
        &s,
        2,
        "clip.vpy",
        &vec![String::from("a=1")],
        &String::from("import vapoursynth as vs"),
        &scene,
    );
    let chunks = vec![a, b, c];
    let text = save_chunks(&chunks);
    let loaded = load_chunks(text.as_str()).unwrap();
    assert_eq!(loaded, chunks);
    // determinism: serializing again yields the same bytes
    assert_eq!(save_chunks(&loaded), text);
}

#[test]
fn empty_chunk_queue_round_trips() {
    let chunks: Vec<av1an_core::types::Chunk> = Vec::new();
    let text = save_chunks(&chunks);
    let loaded = load_chunks(text.as_str()).unwrap();
    assert!(loaded.is_empty());
}

#[test]
fn corrupt_chunk_queue_is_rejected() {
    assert!(load_chunks("garbage").is_none());
    let s = settings();
    let chunks = vec![create_select_chunk(&s, 0, "in.mkv", 0, 40, &None)];
    let mut text = save_chunks(&chunks);
    text.truncate(text.len() - 3);
    assert!(load_chunks(text.as_str()).is_none());
}

#[test]
fn scene_list_round_trips() {
    let scenes = vec![
        Scene { start_frame: 0, end_frame: 40, zone_overrides: None },
        Scene {
            start_frame: 40,
            end_frame: 100,
            zone_overrides: Some(ZoneOptions {
                encoder: String::from("svt-av1"),
                passes: 1,
                video_params: vec![String::from("--preset=6")],
                min_scene_len: 24,
                photon_noise: Some(3),
                photon_noise_width: Some(1280),
                photon_noise_height: None,
                chroma_noise: true,
            }),
        },
    ];
    let text = save_scenes(&scenes);
    let loaded = load_scenes(text.as_str()).unwrap();
    assert_eq!(loaded, scenes);
}

#[test]
fn done_record_round_trips() {
    let mut done = DoneSet::new();
    done.set_total_frames(100);
    done.insert(pad5(0), 40, 123456);
    done.insert(pad5(1), 60, 654321);
    done.mark_audio_done();
    let text = save_done(&done);
    let loaded = load_done(text.as_str()).unwrap();
    assert_eq!(loaded, done);
    assert_eq!(loaded.sum_frames(), 100);
    assert!(loaded.audio_done());
    assert_eq!(loaded.total_frames(), 100);
}

#[test]
fn done_record_with_duplicate_names_is_rejected() {
    // a record naming the same chunk twice cannot come from this engine and
    // must not load: total 100, audio not done, two entries both named
    // "00000" with 40 frames and 9 bytes
    let doubled = "100:F2:5:0000040:9:5:0000040:9:";
    assert!(load_done(doubled).is_none());
    // the same text with distinct names loads
    let fine = "100:F2:5:0000040:9:5:0000160:9:";
    let d = load_done(fine).unwrap();
    assert_eq!(d.len(), 2);
    assert_eq!(d.sum_frames(), 100);
    assert!(load_done("junk").is_none());
}

#[test]
fn stored_queue_must_match_the_active_temp_dir() {
    let s = settings();
    let chunks = vec![create_select_chunk(&s, 0, "in.mkv", 0, 40, &None)];
    assert!(validate_queue_temp(&chunks, ".tmp").is_ok());
    assert_eq!(
        validate_queue_temp(&chunks, "other"),
        Err(JobError::ResumeInconsistent)
    );
}
