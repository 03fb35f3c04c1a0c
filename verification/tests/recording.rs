use courseforge::capture::{CaptureRequest, Device, EndedReason, SourceRole, SIDECAR_SCHEMA_VERSION};
use courseforge::error::CoreError;
use courseforge::recorder::source_outcome;
use courseforge::recording::{sidecar_from_session, RecordingSession, SessionState};

fn screen_request() -> CaptureRequest<()> {
    CaptureRequest {
        role: SourceRole::Screen,
        device: Device { id: "default".into(), label: "Main Display".into() },
        defaults: (),
        is_transcript_source: false,
    }
}

fn session() -> RecordingSession<()> {
    RecordingSession::new(
        "vid-1".into(),
        "seg-1".into(),
        "/tmp/seg-1.partial.mov".into(),
        "take-1".into(),
        vec![screen_request()],
        "2026-05-26T12:00:00Z".into(),
    )
}

#[test]
fn new_session_is_idle_and_carries_its_inputs() {
    let s = session();
    assert_eq!(s.state, SessionState::Idle);
    assert_eq!(s.video_id, "vid-1");
    assert_eq!(s.segment_id, "seg-1");
    assert_eq!(s.take_id, "take-1");
    assert_eq!(s.requests, vec![screen_request()]);
    assert!(!s.id.is_empty());
    assert_eq!(s.partial_path, "/tmp/seg-1.partial.mov");
}

#[test]
fn start_moves_idle_to_recording() {
    let mut s = session();
    s.start().unwrap();
    assert_eq!(s.state, SessionState::Recording);
}

#[test]
fn start_from_non_idle_is_an_invalid_transition() {
    let mut s = session();
    s.start().unwrap();
    assert!(matches!(s.start(), Err(CoreError::InvalidSessionTransition { .. })));
}

#[test]
fn pause_only_works_from_recording() {
    let mut s = session();
    assert!(matches!(s.pause(), Err(CoreError::InvalidSessionTransition { .. })));
    s.start().unwrap();
    s.pause().unwrap();
    assert_eq!(s.state, SessionState::Paused);
    assert!(matches!(s.pause(), Err(CoreError::InvalidSessionTransition { .. })));
}

#[test]
fn resume_only_works_from_paused() {
    let mut s = session();
    s.start().unwrap();
    assert!(matches!(s.resume(), Err(CoreError::InvalidSessionTransition { .. })));
    s.pause().unwrap();
    s.resume().unwrap();
    assert_eq!(s.state, SessionState::Recording);
}

#[test]
fn stop_works_from_recording_or_paused_only() {
    let mut s = session();
    assert!(matches!(s.stop(), Err(CoreError::InvalidSessionTransition { .. })));
    s.start().unwrap();
    s.stop().unwrap();
    assert_eq!(s.state, SessionState::AwaitingDecision);

    let mut t = session();
    t.start().unwrap();
    t.pause().unwrap();
    t.stop().unwrap();
    assert_eq!(t.state, SessionState::AwaitingDecision);
}

#[test]
fn keep_promotes_awaiting_decision_to_persisted_terminal() {
    let mut s = session();
    s.start().unwrap();
    s.stop().unwrap();
    s.mark_persisted().unwrap();
    assert_eq!(s.state, SessionState::Persisted);
    assert!(s.is_terminal());
    assert!(s.mark_discarded().is_err());
    assert!(s.start().is_err());
}

#[test]
fn discard_works_from_awaiting_decision_recording_or_paused() {
    let mut s = session();
    s.start().unwrap();
    s.stop().unwrap();
    s.mark_discarded().unwrap();
    assert_eq!(s.state, SessionState::Discarded);

    let mut t = session();
    t.start().unwrap();
    t.mark_discarded().unwrap();
    assert_eq!(t.state, SessionState::Discarded);

    let mut u = session();
    u.start().unwrap();
    u.pause().unwrap();
    u.mark_discarded().unwrap();
    assert_eq!(u.state, SessionState::Discarded);
}

#[test]
fn discard_from_idle_or_terminal_is_invalid() {
    let mut s = session();
    assert!(matches!(s.mark_discarded(), Err(CoreError::InvalidSessionTransition { .. })));

    let mut t = session();
    t.start().unwrap();
    t.stop().unwrap();
    t.mark_persisted().unwrap();
    assert!(matches!(t.mark_discarded(), Err(CoreError::InvalidSessionTransition { .. })));
}

#[test]
fn is_active_is_true_for_recording_and_paused_only() {
    let mut s = session();
    assert!(!s.is_active());
    s.start().unwrap();
    assert!(s.is_active());
    s.pause().unwrap();
    assert!(s.is_active());
    s.resume().unwrap();
    s.stop().unwrap();
    assert!(!s.is_active());
}

#[test]
fn invalid_transition_error_names_the_current_state() {
    let mut s = session();
    let e = s.pause().unwrap_err();
    let msg = e.message();
    assert!(msg.contains("pause"), "msg was {msg}");
    assert!(msg.contains("idle"), "msg was {msg}");
    assert_eq!(msg, "cannot pause a session in state idle");
}

#[test]
fn a_failed_transition_leaves_the_session_unchanged() {
    let mut s = session();
    s.start().unwrap();
    s.stop().unwrap();
    assert!(s.resume().is_err());
    assert_eq!(s.state, SessionState::AwaitingDecision);
}

#[test]
fn sidecar_from_session_takes_the_first_request() {
    let s = session();
    let sc = sidecar_from_session(&s, EndedReason::Normal).unwrap();
    assert_eq!(sc.schema_version, SIDECAR_SCHEMA_VERSION);
    assert_eq!(sc.take_id, "take-1");
    assert_eq!(sc.source_role, SourceRole::Screen);
    assert_eq!(sc.device.label, "Main Display");
    assert_eq!(sc.recorded_at, "2026-05-26T12:00:00Z");
    assert_eq!(sc.ended_reason, EndedReason::Normal);
    assert!(!sc.is_transcript_source);
    assert_eq!(sc.ended_at, None);
}

#[test]
fn sidecar_from_session_without_requests_is_a_recorder_error() {
    let s: RecordingSession<()> = RecordingSession::new(
        "v".into(),
        "s".into(),
        "/tmp/s.partial.mov".into(),
        "t".into(),
        vec![],
        "2026-01-01T00:00:00Z".into(),
    );
    match sidecar_from_session(&s, EndedReason::Crashed) {
        Err(CoreError::Recorder(m)) => assert_eq!(m, "cannot finalise a session with no requests"),
        _ => panic!("expected a recorder error"),
    }
}

#[test]
fn a_source_ends_normally_unless_it_failed_along_the_way() {
    let ok = source_outcome("seg-1".into(), None);
    assert_eq!(ok.segment_id, "seg-1");
    assert_eq!(ok.ended_reason, EndedReason::Normal);
    assert_eq!(ok.ended_at, None);
    let failed = source_outcome("seg-2".into(), Some("2026-05-26T12:00:00Z".into()));
    assert_eq!(failed.ended_reason, EndedReason::SourceFailed);
    assert_eq!(failed.ended_at.as_deref(), Some("2026-05-26T12:00:00Z"));
}
