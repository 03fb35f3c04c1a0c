use courseforge::capture::{CaptureRequest, Device, SourceRole};
use courseforge::permissions::{
    default_checker, status_from_authorization, status_from_screen_preflight, FixedPermissionChecker,
    Permission, PermissionStatus, PermissionsSnapshot, SettingsPane,
};

#[test]
fn snapshot_captures_each_permission_independently() {
    let checker = FixedPermissionChecker {
        screen_recording: PermissionStatus::Granted,
        camera: PermissionStatus::Denied,
        microphone: PermissionStatus::NotDetermined,
    };
    let snap = PermissionsSnapshot::capture(&checker);
    assert_eq!(snap.screen_recording, PermissionStatus::Granted);
    assert_eq!(snap.camera, PermissionStatus::Denied);
    assert_eq!(snap.microphone, PermissionStatus::NotDetermined);
}

fn req(role: SourceRole) -> CaptureRequest<()> {
    CaptureRequest {
        role,
        device: Device { id: "default".into(), label: "Default".into() },
        defaults: (),
        is_transcript_source: false,
    }
}

#[test]
fn satisfies_requests_demands_screen_recording_for_screen_role() {
    let snap = PermissionsSnapshot {
        screen_recording: PermissionStatus::Denied,
        camera: PermissionStatus::Granted,
        microphone: PermissionStatus::Granted,
    };
    assert!(!snap.satisfies_requests(&vec![req(SourceRole::Screen)]));
}

#[test]
fn satisfies_requests_demands_mic_only_when_microphone_role_present() {
    let snap = PermissionsSnapshot {
        screen_recording: PermissionStatus::Granted,
        camera: PermissionStatus::Denied,
        microphone: PermissionStatus::Denied,
    };
    assert!(snap.satisfies_requests(&vec![req(SourceRole::Screen)]));
    assert!(!snap.satisfies_requests(&vec![req(SourceRole::Screen), req(SourceRole::Microphone)]));
}

#[test]
fn satisfies_requests_demands_camera_only_when_camera_role_present() {
    let snap = PermissionsSnapshot {
        screen_recording: PermissionStatus::Granted,
        camera: PermissionStatus::Denied,
        microphone: PermissionStatus::Granted,
    };
    assert!(snap.satisfies_requests(&vec![req(SourceRole::Screen), req(SourceRole::Microphone)]));
    assert!(!snap.satisfies_requests(&vec![req(SourceRole::Screen), req(SourceRole::Camera)]));
}

#[test]
fn window_and_system_audio_ride_on_screen_recording_permission() {
    let snap = PermissionsSnapshot {
        screen_recording: PermissionStatus::Granted,
        camera: PermissionStatus::Denied,
        microphone: PermissionStatus::Denied,
    };
    assert!(snap.satisfies_requests(&vec![req(SourceRole::Window)]));
    assert!(snap.satisfies_requests(&vec![req(SourceRole::SystemAudio)]));
}

#[test]
fn settings_pane_url_is_distinct_per_pane() {
    let urls = [
        SettingsPane::ScreenRecording.url(),
        SettingsPane::Camera.url(),
        SettingsPane::Microphone.url(),
    ];
    let mut sorted = urls.to_vec();
    sorted.sort();
    sorted.dedup();
    assert_eq!(sorted.len(), 3, "panes must deep-link to distinct URLs");
}

#[test]
fn settings_pane_for_permission_is_consistent() {
    assert_eq!(
        SettingsPane::for_permission(Permission::ScreenRecording),
        SettingsPane::ScreenRecording
    );
    assert_eq!(SettingsPane::for_permission(Permission::Camera), SettingsPane::Camera);
    assert_eq!(SettingsPane::for_permission(Permission::Microphone), SettingsPane::Microphone);
}

#[test]
fn default_checker_grants_everything() {
    let snap = PermissionsSnapshot::capture(&default_checker());
    assert_eq!(snap.status_for(SourceRole::Camera), PermissionStatus::Granted);
    assert!(snap.satisfies_requests(&vec![
        req(SourceRole::Screen),
        req(SourceRole::Camera),
        req(SourceRole::Microphone),
    ]));
}

#[test]
fn authorization_codes_read_as_statuses_and_unknown_codes_as_denied() {
    assert_eq!(status_from_authorization(0), PermissionStatus::NotDetermined);
    assert_eq!(status_from_authorization(1), PermissionStatus::Restricted);
    assert_eq!(status_from_authorization(2), PermissionStatus::Denied);
    assert_eq!(status_from_authorization(3), PermissionStatus::Granted);
    assert_eq!(status_from_authorization(42), PermissionStatus::Denied);
    assert_eq!(status_from_authorization(-1), PermissionStatus::Denied);
}

#[test]
fn screen_preflight_is_granted_or_denied() {
    assert_eq!(status_from_screen_preflight(true), PermissionStatus::Granted);
    assert_eq!(status_from_screen_preflight(false), PermissionStatus::Denied);
}

#[test]
fn av_authorization_status_maps_each_variant() {
    // AVAuthorizationStatus codes: NotDetermined 0, Restricted 1, Denied 2, Authorized 3.
    assert_eq!(status_from_authorization(3), PermissionStatus::Granted);
    assert_eq!(status_from_authorization(2), PermissionStatus::Denied);
    assert_eq!(status_from_authorization(0), PermissionStatus::NotDetermined);
    assert_eq!(status_from_authorization(1), PermissionStatus::Restricted);
}
