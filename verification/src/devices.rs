//! The capture devices available for a Source Role. Screens and system
//! audio are offered per display, windows per shareable window that belongs
//! to an application, cameras and microphones per capture device. This
//! build enumerates no hardware: every role lists no devices, which callers
//! treat as "no devices found" rather than as an error. What an enumeration
//! reports is turned into devices here.

use vstd::prelude::*;
use crate::capture::{Device, DeviceView, SourceRole};
use crate::error::CoreError;
use crate::text::{concat, decimal, u64_to_decimal};

verus! {

/// The devices available for `role`: always `Ok`, and empty here. Live
/// enumeration needs the macOS capture frameworks (ScreenCaptureKit and
/// AVFoundation), which this library does not link; it answers as a
/// machine without them does, with no devices for any role. What such an
/// enumeration reports is turned into devices by `display_device` and
/// `window_devices` below.
pub fn list_capture_devices(role: SourceRole) -> (r: Result<Vec<Device>, CoreError>)
    ensures
        r matches Ok(v) && v@.len() == 0,
{
    let _ = role;
    Ok(Vec::new())
}

/// Which enumeration lists the devices of a role.
#[derive(Debug, Clone, Copy, PartialEq, Eq)]
pub enum DeviceSource {
    Displays,
    Windows,
    Cameras,
    Microphones,
}

pub open spec fn device_source_spec(role: SourceRole) -> DeviceSource {
    match role {
        SourceRole::Screen | SourceRole::SystemAudio => DeviceSource::Displays,
        SourceRole::Window => DeviceSource::Windows,
        SourceRole::Camera => DeviceSource::Cameras,
        SourceRole::Microphone => DeviceSource::Microphones,
    }
}

/// Screens and system audio are captured per display, windows per window,
/// cameras and microphones per capture device.
pub fn device_source(role: SourceRole) -> (s: DeviceSource)
    ensures
        s == device_source_spec(role),
{
    match role {
        SourceRole::Screen | SourceRole::SystemAudio => DeviceSource::Displays,
        SourceRole::Window => DeviceSource::Windows,
        SourceRole::Camera => DeviceSource::Cameras,
        SourceRole::Microphone => DeviceSource::Microphones,
    }
}

/// `v` in decimal, with a leading `-` when negative.
pub open spec fn signed_decimal(v: int) -> Seq<char> {
    if v < 0 {
        seq!['-'] + decimal((-v) as nat)
    } else {
        decimal(v as nat)
    }
}

fn i64_to_decimal(v: i64) -> (s: String)
    ensures
        s@ == signed_decimal(v as int),
{
    if v < 0 {
        let magnitude: u64 = (0i128 - v as i128) as u64;
        let digits = u64_to_decimal(magnitude);
        let r = concat("-", digits.as_str());
        proof {
            reveal_strlit("-");
        }
        assert(r@ =~= seq!['-'] + decimal((-v) as nat));
        r
    } else {
        u64_to_decimal(v as u64)
    }
}

/// A display as a device: its id, labelled `Display <id> (<w>×<h>)`.
pub open spec fn display_device_spec(id: u32, width: i64, height: i64) -> DeviceView {
    DeviceView {
        id: decimal(id as nat),
        label: "Display "@ + decimal(id as nat) + " ("@ + signed_decimal(width as int) + "\u{D7}"@
            + signed_decimal(height as int) + ")"@,
    }
}

pub fn display_device(id: u32, width: i64, height: i64) -> (d: Device)
    ensures
        d@ == display_device_spec(id, width, height),
{
    let id_text = u64_to_decimal(id as u64);
    let a = concat("Display ", id_text.as_str());
    let b = concat(a.as_str(), " (");
    let w = i64_to_decimal(width);
    let c = concat(b.as_str(), w.as_str());
    let e = concat(c.as_str(), "\u{D7}");
    let h = i64_to_decimal(height);
    let f = concat(e.as_str(), h.as_str());
    let label = concat(f.as_str(), ")");
    Device { id: id_text, label }
}

/// A shareable window as reported: its number, the name of the application
/// that owns it (empty when none does) and its title (empty when untitled).
pub struct WindowInfo {
    pub id: u32,
    pub owner_name: String,
    pub title: String,
}

/// A window as a device, labelled `<owner> — <title>`, or just the owner's
/// name for an untitled window.
pub open spec fn window_device_spec(id: u32, owner: Seq<char>, title: Seq<char>) -> DeviceView {
    DeviceView {
        id: decimal(id as nat),
        label: if title.len() == 0 {
            owner
        } else {
            owner + " \u{2014} "@ + title
        },
    }
}

/// The devices for the windows that belong to an application, in the
/// order reported; windows without an owning application are system noise
/// and are left out.
pub open spec fn window_devices_spec(windows: Seq<WindowInfo>) -> Seq<DeviceView>
    decreases windows.len(),
{
    if windows.len() == 0 {
        Seq::empty()
    } else {
        let w = windows.last();
        let rest = window_devices_spec(windows.drop_last());
        if w.owner_name@.len() == 0 {
            rest
        } else {
            rest.push(window_device_spec(w.id, w.owner_name@, w.title@))
        }
    }
}

pub open spec fn devices_view(v: Seq<Device>) -> Seq<DeviceView> {
    v.map_values(|d: Device| d@)
}

pub fn window_devices(windows: &Vec<WindowInfo>) -> (r: Vec<Device>)
    ensures
        devices_view(r@) == window_devices_spec(windows@),
{
    let mut out: Vec<Device> = Vec::new();
    let mut i: usize = 0;
    while i < windows.len()
        invariant
            i <= windows.len(),
            devices_view(out@) == window_devices_spec(windows@.take(i as int)),
        decreases windows.len() - i,
    {
        let w = &windows[i];
        proof {
            assert(windows@.take(i + 1).drop_last() =~= windows@.take(i as int));
            assert(windows@.take(i + 1).last() == windows@[i as int]);
        }
        if w.owner_name.as_str().unicode_len() > 0 {
            let label = if w.title.as_str().unicode_len() == 0 {
                w.owner_name.clone()
            } else {
                let a = concat(w.owner_name.as_str(), " \u{2014} ");
                concat(a.as_str(), w.title.as_str())
            };
            let d = Device { id: u64_to_decimal(w.id as u64), label };
            let ghost prev = out@;
            out.push(d);
            assert(devices_view(out@) =~= devices_view(prev).push(d@));
        }
        i = i + 1;
    }
    assert(windows@.take(windows.len() as int) =~= windows@);
    out
}

} // verus!
