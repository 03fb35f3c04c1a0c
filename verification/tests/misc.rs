use courseforge::capture::{CaptureRequest, Device, EndedReason, SegmentSidecar, SourceRole};
use courseforge::config::AppConfig;
use courseforge::error::{AppError, CoreError};
use courseforge::export::{default_export_dir, export_output_paths};
use courseforge::models::{
    check_download_outcome, range_header_value, resumed_total, ModelStore, WhisperModel,
};
use courseforge::recorder::{validate_phase2_requests, TakeSource};
use courseforge::transcript::{transcript_path, TRANSCRIPT_FILENAME};

fn src(role: SourceRole, segment_id: &str) -> TakeSource<()> {
    TakeSource {
        request: CaptureRequest {
            role,
            device: Device { id: "default".into(), label: "Default".into() },
            defaults: (),
            is_transcript_source: false,
        },
        segment_id: segment_id.into(),
        partial_path: format!("/tmp/{segment_id}.partial.mov"),
    }
}

#[test]
fn validate_accepts_a_single_screen() {
    validate_phase2_requests(&vec![src(SourceRole::Screen, "a")]).unwrap();
}

#[test]
fn validate_accepts_a_richer_multi_source_take() {
    validate_phase2_requests(&vec![
        src(SourceRole::Screen, "a"),
        src(SourceRole::Window, "b"),
        src(SourceRole::Camera, "c"),
        src(SourceRole::Microphone, "d"),
        src(SourceRole::SystemAudio, "e"),
    ])
    .unwrap();
}

#[test]
fn validate_rejects_two_microphones_per_take() {
    let err = validate_phase2_requests(&vec![
        src(SourceRole::Screen, "a"),
        src(SourceRole::Microphone, "b"),
        src(SourceRole::Microphone, "c"),
    ])
    .unwrap_err();
    assert!(err.message().contains("Microphone"));
    assert_eq!(
        err.message(),
        "recorder backend failed: Phase 2 recorder supports at most one Microphone source per Take (got 2)"
    );
}

#[test]
fn validate_rejects_empty_request_list() {
    let err = validate_phase2_requests::<()>(&vec![]).unwrap_err();
    assert!(err.message().contains("Start needs at least one"));
}

#[test]
fn transcript_path_is_under_video_subfolder() {
    assert_eq!(transcript_path("/c", "vid-1"), format!("/c/videos/vid-1/{}", TRANSCRIPT_FILENAME));
}

#[test]
fn default_export_dir_lives_under_course_folder_exports_video_id() {
    assert_eq!(default_export_dir("/course", "vid-1"), "/course/exports/vid-1");
    let (mp4, srt) = export_output_paths("/out", "vid-1");
    assert_eq!(mp4, "/out/vid-1.mp4");
    assert_eq!(srt, "/out/vid-1.srt");
}

#[test]
fn path_for_resolves_under_the_models_dir() {
    let store = ModelStore::new("/some/models".to_string());
    assert_eq!(store.path_for(WhisperModel::BaseEn), "/some/models/ggml-base.en.bin");
    assert_eq!(store.part_path_for(WhisperModel::TinyEn), "/some/models/ggml-tiny.en.bin.part");
    assert!(WhisperModel::TinyEn.download_url().ends_with(WhisperModel::TinyEn.filename()));
}

#[test]
fn resume_arithmetic_and_zero_byte_downloads() {
    assert_eq!(range_header_value(5), "bytes=5-");
    assert_eq!(resumed_total(Some(5), 5), Some(10));
    assert_eq!(resumed_total(None, 5), None);
    match check_download_outcome(0, 0) {
        Err(CoreError::Transcriber(msg)) => assert!(msg.contains("zero bytes"), "got: {msg}"),
        _ => panic!("expected Transcriber error"),
    }
    assert!(check_download_outcome(5, 0).is_ok());
    assert!(check_download_outcome(0, 5).is_ok());
}

#[test]
fn error_messages_read_as_the_display_text() {
    assert_eq!(CoreError::EmptyTitle.message(), "title cannot be empty");
    assert_eq!(CoreError::ModuleNotFound("m1".into()).message(), "module not found: m1");
    assert_eq!(
        CoreError::SceneDeviceMissing {
            scene_name: "S".into(),
            role: "camera".into(),
            device_label: "Cam".into(),
            device_id: "c1".into(),
        }
        .message(),
        "scene \"S\" expects camera device \"Cam\" (c1) but it's not currently attached"
    );
    let app = AppError::from_core(&CoreError::ExportCancelled);
    assert_eq!(app.message, "export cancelled by user");
}

#[test]
fn read_config_returns_default_when_file_missing() {
    let mut cfg = AppConfig::default();
    assert_eq!(cfg.scanned_root, None);
    assert!(cfg.pinned_folders.is_empty());
    assert!(cfg.ignored_folders.is_empty());
    cfg.set_scanned_root("/Users/me/Courseforge".to_string());
    assert_eq!(cfg.scanned_root.as_deref(), Some("/Users/me/Courseforge"));
}

#[test]
fn screen_capture_kit_sources_are_screen_window_and_system_audio() {
    assert!(SourceRole::Screen.is_sck_sourced());
    assert!(SourceRole::Window.is_sck_sourced());
    assert!(SourceRole::SystemAudio.is_sck_sourced());
    assert!(!SourceRole::Camera.is_sck_sourced());
    assert!(!SourceRole::Microphone.is_sck_sourced());
}

#[test]
fn sidecar_builders_set_one_field_each() {
    let base = SegmentSidecar::new(
        "take-1".to_string(),
        SourceRole::Microphone,
        Device { id: "mic".into(), label: "Mic".into() },
        "2026-05-26T12:00:00Z".to_string(),
        (),
        EndedReason::Normal,
    );
    assert!(!base.is_transcript_source);
    assert_eq!(base.ended_at, None);
    let flagged = base.with_transcript_source(true);
    assert!(flagged.is_transcript_source);
    assert_eq!(flagged.take_id, "take-1");
    let ended = flagged.with_ended_at("2026-05-26T12:05:00Z".to_string());
    assert_eq!(ended.ended_at, Some("2026-05-26T12:05:00Z".to_string()));
    assert!(ended.is_transcript_source);
}

#[test]
fn new_ids_are_hyphenated_lower_case_version_4_uuids() {
    for _ in 0..32 {
        let id = courseforge::ids::new_id();
        let chars: Vec<char> = id.chars().collect();
        assert_eq!(chars.len(), 36);
        for (i, c) in chars.iter().enumerate() {
            if i == 8 || i == 13 || i == 18 || i == 23 {
                assert_eq!(*c, '-');
            } else {
                assert!(c.is_ascii_digit() || ('a'..='f').contains(c), "{id}");
            }
        }
        assert_eq!(chars[14], '4');
        assert!(matches!(chars[19], '8' | '9' | 'a' | 'b'), "{id}");
    }
}
