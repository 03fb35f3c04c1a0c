use courseforge::capture::SourceRole;
use courseforge::devices::{
    device_source, display_device, list_capture_devices, window_devices, DeviceSource, WindowInfo,
};

#[test]
fn list_capture_devices_never_panics_for_any_role() {
    for role in [
        SourceRole::Screen,
        SourceRole::Window,
        SourceRole::Camera,
        SourceRole::Microphone,
        SourceRole::SystemAudio,
    ] {
        let _ = list_capture_devices(role).unwrap();
    }
}

#[test]
fn non_macos_returns_empty_lists_for_every_role() {
    for role in [
        SourceRole::Screen,
        SourceRole::Window,
        SourceRole::Camera,
        SourceRole::Microphone,
        SourceRole::SystemAudio,
    ] {
        let devices = list_capture_devices(role).unwrap();
        assert!(devices.is_empty(), "non-mac should return empty for {:?}", role);
    }
}

#[test]
fn each_role_is_listed_by_its_enumeration() {
    assert_eq!(device_source(SourceRole::Screen), DeviceSource::Displays);
    assert_eq!(device_source(SourceRole::SystemAudio), DeviceSource::Displays);
    assert_eq!(device_source(SourceRole::Window), DeviceSource::Windows);
    assert_eq!(device_source(SourceRole::Camera), DeviceSource::Cameras);
    assert_eq!(device_source(SourceRole::Microphone), DeviceSource::Microphones);
}

#[test]
fn displays_are_labelled_with_their_id_and_size() {
    let d = display_device(69_733_632, 1512, 982);
    assert_eq!(d.id, "69733632");
    assert_eq!(d.label, "Display 69733632 (1512×982)");
    assert_eq!(display_device(1, -1, 0).label, "Display 1 (-1×0)");
}

#[test]
fn windows_without_an_owner_are_left_out_and_untitled_ones_show_the_app() {
    let windows = vec![
        WindowInfo { id: 7, owner_name: "Safari".into(), title: "Docs".into() },
        WindowInfo { id: 8, owner_name: "".into(), title: "Shadow".into() },
        WindowInfo { id: 9, owner_name: "Finder".into(), title: "".into() },
    ];
    let devices = window_devices(&windows);
    assert_eq!(devices.len(), 2);
    assert_eq!(devices[0].id, "7");
    assert_eq!(devices[0].label, "Safari — Docs");
    assert_eq!(devices[1].id, "9");
    assert_eq!(devices[1].label, "Finder");
}
