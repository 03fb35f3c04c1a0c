use courseforge::capture::{CaptureRequest, Device, SourceRole};
use courseforge::error::CoreError;
use courseforge::recording::{RecordingSession, SessionEvent, SessionState};
use courseforge::sessions::{require_sources, SessionRegistry};

fn screen_request() -> CaptureRequest<()> {
    CaptureRequest {
        role: SourceRole::Screen,
        device: Device { id: "default".into(), label: "Main Display".into() },
        defaults: (),
        is_transcript_source: false,
    }
}

fn started(video_id: &str) -> RecordingSession<()> {
    let mut s = RecordingSession::new(
        video_id.into(),
        "seg-1".into(),
        "videos/v/segments/seg-1.partial.mov".into(),
        "take-1".into(),
        vec![screen_request()],
        "2026-05-26T12:00:00Z".into(),
    );
    s.start().unwrap();
    s
}

#[test]
fn unknown_session_id_errors_clearly() {
    let mut reg: SessionRegistry<()> = SessionRegistry::new();
    assert!(matches!(reg.transition("nope", SessionEvent::Pause), Err(CoreError::SessionNotFound(_))));
    assert!(matches!(reg.get("nope"), Err(CoreError::SessionNotFound(_))));
    assert!(reg.remove("nope").is_none());
}

#[test]
fn has_active_sessions_is_true_until_terminal_decision() {
    let mut reg: SessionRegistry<()> = SessionRegistry::new();
    assert!(!reg.has_active_sessions());

    let s = started("vid");
    let id = s.id.clone();
    reg.insert(s, "/courses/c".into());
    assert!(reg.has_active_sessions());

    reg.transition(&id, SessionEvent::Stop).unwrap();
    assert!(reg.has_active_sessions());
    assert_eq!(reg.get(&id).unwrap().session.state, SessionState::AwaitingDecision);

    reg.transition(&id, SessionEvent::Keep).unwrap();
    let kept = reg.remove(&id).unwrap();
    assert_eq!(kept.session.state, SessionState::Persisted);
    assert_eq!(kept.course_folder, "/courses/c");
    assert!(!reg.has_active_sessions());
    assert!(matches!(reg.get(&id), Err(CoreError::SessionNotFound(_))));
}

#[test]
fn pause_then_resume_round_trips_state_and_drives_backend() {
    let mut reg: SessionRegistry<()> = SessionRegistry::new();
    let s = started("vid");
    let id = s.id.clone();
    reg.insert(s, "/c".into());
    reg.transition(&id, SessionEvent::Pause).unwrap();
    assert_eq!(reg.get(&id).unwrap().session.state, SessionState::Paused);
    reg.transition(&id, SessionEvent::Resume).unwrap();
    assert_eq!(reg.get(&id).unwrap().session.state, SessionState::Recording);
}

#[test]
fn an_invalid_event_leaves_the_session_as_it_was() {
    let mut reg: SessionRegistry<()> = SessionRegistry::new();
    let s = started("vid");
    let id = s.id.clone();
    reg.insert(s, "/c".into());
    let err = reg.transition(&id, SessionEvent::Keep).unwrap_err();
    assert!(matches!(err, CoreError::InvalidSessionTransition { .. }));
    assert_eq!(reg.get(&id).unwrap().session.state, SessionState::Recording);
}

#[test]
fn sessions_are_listed_in_start_order_and_kept_apart() {
    let mut reg: SessionRegistry<()> = SessionRegistry::new();
    let a = started("vid-a");
    let b = started("vid-b");
    let (ida, idb) = (a.id.clone(), b.id.clone());
    reg.insert(a, "/c".into());
    reg.insert(b, "/c".into());
    reg.transition(&ida, SessionEvent::Discard).unwrap();
    assert_eq!(reg.get(&idb).unwrap().session.state, SessionState::Recording);
    let listed: Vec<String> = reg.sessions().iter().map(|e| e.session.video_id.clone()).collect();
    assert_eq!(listed, vec!["vid-a".to_string(), "vid-b".to_string()]);
    reg.remove(&ida);
    assert!(reg.has_active_sessions());
    assert_eq!(reg.sessions().len(), 1);
}

#[test]
fn has_active_recording_gates_close_window_guard() {
    let mut reg: SessionRegistry<()> = SessionRegistry::new();
    assert!(!reg.has_active_sessions());
    let s = started("vid");
    let id = s.id.clone();
    reg.insert(s, "/c".into());
    assert!(reg.has_active_sessions(), "must block window-close while recording");
    reg.transition(&id, SessionEvent::Stop).unwrap();
    assert!(reg.has_active_sessions());
    reg.transition(&id, SessionEvent::Discard).unwrap();
    reg.remove(&id).unwrap();
    assert!(!reg.has_active_sessions());
}

#[test]
fn start_session_rejects_empty_request_list() {
    let none: Vec<CaptureRequest<()>> = vec![];
    let err = require_sources(&none).unwrap_err();
    assert!(matches!(err, CoreError::Recorder(_)));
    assert!(require_sources(&vec![screen_request()]).is_ok());
}
