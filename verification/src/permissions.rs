//! Capture permissions: which privacy permission each Source Role needs,
//! a snapshot of the three permissions Record cares about, and where in
//! System Settings the user grants each one. The status itself comes from a
//! `PermissionChecker`, so the rules here are independent of the platform.

use vstd::prelude::*;
use crate::capture::{CaptureRequest, SourceRole};

verus! {

#[derive(Debug, Clone, Copy, PartialEq, Eq, Hash, Structural)]
pub enum Permission {
    ScreenRecording,
    Camera,
    Microphone,
}

#[derive(Debug, Clone, Copy, PartialEq, Eq, Structural)]
pub enum PermissionStatus {
    Granted,
    Denied,
    /// Never requested yet: the system prompts on first use.
    NotDetermined,
    /// Restricted by device management or parental controls.
    Restricted,
}

impl PermissionStatus {
    pub open spec fn is_granted_spec(self) -> bool {
        self is Granted
    }

    #[verifier::when_used_as_spec(is_granted_spec)]
    pub fn is_granted(self) -> (b: bool)
        ensures
            b == self.is_granted_spec(),
    {
        match self {
            PermissionStatus::Granted => true,
            _ => false,
        }
    }
}

/// Source of truth for permission status; implemented per platform.
pub trait PermissionChecker {
    /// The status this checker reports for a permission.
    spec fn reported(&self, p: Permission) -> PermissionStatus;

    fn status(&self, p: Permission) -> (s: PermissionStatus)
        ensures
            s == self.reported(p),
    ;
}

/// The three permissions Record cares about, read at one moment.
#[derive(Debug, Clone, Copy, PartialEq, Eq, Structural)]
pub struct PermissionsSnapshot {
    pub screen_recording: PermissionStatus,
    pub camera: PermissionStatus,
    pub microphone: PermissionStatus,
}

/// The permission a Source Role rides on: window and system-audio capture
/// are Screen Recording content; Camera and Microphone have their own.
pub open spec fn permission_for(role: SourceRole) -> Permission {
    match role {
        SourceRole::Screen | SourceRole::Window | SourceRole::SystemAudio => Permission::ScreenRecording,
        SourceRole::Camera => Permission::Camera,
        SourceRole::Microphone => Permission::Microphone,
    }
}

impl PermissionsSnapshot {
    /// The snapshot's entry for a permission.
    pub open spec fn entry(self, p: Permission) -> PermissionStatus {
        match p {
            Permission::ScreenRecording => self.screen_recording,
            Permission::Camera => self.camera,
            Permission::Microphone => self.microphone,
        }
    }

    /// Asks the checker for each of the three permissions.
    pub fn capture<C: PermissionChecker>(checker: &C) -> (s: Self)
        ensures
            s.screen_recording == checker.reported(Permission::ScreenRecording),
            s.camera == checker.reported(Permission::Camera),
            s.microphone == checker.reported(Permission::Microphone),
    {
        PermissionsSnapshot {
            screen_recording: checker.status(Permission::ScreenRecording),
            camera: checker.status(Permission::Camera),
            microphone: checker.status(Permission::Microphone),
        }
    }

    /// The status this snapshot reports for a Source Role.
    pub fn status_for(&self, role: SourceRole) -> (s: PermissionStatus)
        ensures
            s == self.entry(permission_for(role)),
    {
        match role {
            SourceRole::Screen | SourceRole::Window | SourceRole::SystemAudio => self.screen_recording,
            SourceRole::Camera => self.camera,
            SourceRole::Microphone => self.microphone,
        }
    }

    /// True iff every requested source's permission is granted.
    pub fn satisfies_requests<D>(&self, requests: &Vec<CaptureRequest<D>>) -> (b: bool)
        ensures
            b == forall|i: int|
                0 <= i < requests@.len() ==> (#[trigger] self.entry(
                    permission_for(requests@[i].role),
                )) is Granted,
    {
        let mut i: usize = 0;
        while i < requests.len()
            invariant
                i <= requests.len(),
                forall|j: int|
                    0 <= j < i ==> (#[trigger] self.entry(permission_for(requests@[j].role)))
                        is Granted,
            decreases requests.len() - i,
        {
            if !self.status_for(requests[i].role).is_granted() {
                return false;
            }
            i = i + 1;
        }
        true
    }
}

/// Which Privacy & Security pane "Open System Settings" targets.
#[derive(Debug, Clone, Copy, PartialEq, Eq, Structural)]
pub enum SettingsPane {
    ScreenRecording,
    Camera,
    Microphone,
}

pub open spec fn pane_url_spec(pane: SettingsPane) -> Seq<char> {
    match pane {
        SettingsPane::ScreenRecording => "x-apple.systempreferences:com.apple.preference.security?Privacy_ScreenCapture"@,
        SettingsPane::Camera => "x-apple.systempreferences:com.apple.preference.security?Privacy_Camera"@,
        SettingsPane::Microphone => "x-apple.systempreferences:com.apple.preference.security?Privacy_Microphone"@,
    }
}

impl SettingsPane {
    pub fn for_permission(p: Permission) -> (pane: SettingsPane)
        ensures
            pane == match p {
                Permission::ScreenRecording => SettingsPane::ScreenRecording,
                Permission::Camera => SettingsPane::Camera,
                Permission::Microphone => SettingsPane::Microphone,
            },
    {
        match p {
            Permission::ScreenRecording => SettingsPane::ScreenRecording,
            Permission::Camera => SettingsPane::Camera,
            Permission::Microphone => SettingsPane::Microphone,
        }
    }

    /// The `x-apple.systempreferences:` deep link to the pane.
    pub fn url(self) -> (u: &'static str)
        ensures
            u@ == pane_url_spec(self),
    {
        match self {
            SettingsPane::ScreenRecording => "x-apple.systempreferences:com.apple.preference.security?Privacy_ScreenCapture",
            SettingsPane::Camera => "x-apple.systempreferences:com.apple.preference.security?Privacy_Camera",
            SettingsPane::Microphone => "x-apple.systempreferences:com.apple.preference.security?Privacy_Microphone",
        }
    }
}

/// The three panes have pairwise distinct deep links.
pub proof fn lemma_pane_urls_distinct(a: SettingsPane, b: SettingsPane)
    requires
        a != b,
    ensures
        pane_url_spec(a) != pane_url_spec(b),
{
    reveal_strlit("x-apple.systempreferences:com.apple.preference.security?Privacy_ScreenCapture");
    reveal_strlit("x-apple.systempreferences:com.apple.preference.security?Privacy_Camera");
    reveal_strlit("x-apple.systempreferences:com.apple.preference.security?Privacy_Microphone");
    let sr = pane_url_spec(SettingsPane::ScreenRecording);
    let ca = pane_url_spec(SettingsPane::Camera);
    let mi = pane_url_spec(SettingsPane::Microphone);
    assert(sr[64] == 'S' && ca[64] == 'C' && mi[64] == 'M');
}

/// A checker that reports fixed statuses: used where the platform has no
/// privacy framework to consult, and in tests.
#[derive(Debug, Clone, Copy, PartialEq, Eq)]
pub struct FixedPermissionChecker {
    pub screen_recording: PermissionStatus,
    pub camera: PermissionStatus,
    pub microphone: PermissionStatus,
}

impl FixedPermissionChecker {
    pub fn all_granted() -> (c: Self)
        ensures
            c.screen_recording is Granted,
            c.camera is Granted,
            c.microphone is Granted,
    {
        FixedPermissionChecker {
            screen_recording: PermissionStatus::Granted,
            camera: PermissionStatus::Granted,
            microphone: PermissionStatus::Granted,
        }
    }
}

impl PermissionChecker for FixedPermissionChecker {
    open spec fn reported(&self, p: Permission) -> PermissionStatus {
        match p {
            Permission::ScreenRecording => self.screen_recording,
            Permission::Camera => self.camera,
            Permission::Microphone => self.microphone,
        }
    }

    fn status(&self, p: Permission) -> (s: PermissionStatus) {
        match p {
            Permission::ScreenRecording => self.screen_recording,
            Permission::Camera => self.camera,
            Permission::Microphone => self.microphone,
        }
    }
}

/// What a camera or microphone authorization code reads as. The codes are
/// those of `AVAuthorizationStatus`: 0 not determined, 1 restricted,
/// 2 denied, 3 authorized. An unknown code reads as denied, the safe
/// default for capture.
pub open spec fn status_from_authorization_spec(code: i64) -> PermissionStatus {
    if code == 3 {
        PermissionStatus::Granted
    } else if code == 0 {
        PermissionStatus::NotDetermined
    } else if code == 1 {
        PermissionStatus::Restricted
    } else {
        PermissionStatus::Denied
    }
}

pub fn status_from_authorization(code: i64) -> (s: PermissionStatus)
    ensures
        s == status_from_authorization_spec(code),
{
    if code == 3 {
        PermissionStatus::Granted
    } else if code == 0 {
        PermissionStatus::NotDetermined
    } else if code == 1 {
        PermissionStatus::Restricted
    } else {
        PermissionStatus::Denied
    }
}

/// Screen recording has no "not asked yet" answer without prompting: the
/// preflight check either finds access granted or it does not.
pub fn status_from_screen_preflight(granted: bool) -> (s: PermissionStatus)
    ensures
        granted ==> s is Granted,
        !granted ==> s is Denied,
{
    if granted {
        PermissionStatus::Granted
    } else {
        PermissionStatus::Denied
    }
}

/// The checker for platforms without a privacy framework: everything is
/// granted.
pub fn default_checker() -> (c: FixedPermissionChecker)
    ensures
        c.reported(Permission::ScreenRecording) is Granted,
        c.reported(Permission::Camera) is Granted,
        c.reported(Permission::Microphone) is Granted,
{
    FixedPermissionChecker::all_granted()
}

/// A snapshot taken through a checker agrees with the checker on every
/// Source Role.
pub proof fn lemma_snapshot_agrees_with_checker<C: PermissionChecker>(
    checker: &C,
    snap: PermissionsSnapshot,
    role: SourceRole,
)
    requires
        snap.screen_recording == checker.reported(Permission::ScreenRecording),
        snap.camera == checker.reported(Permission::Camera),
        snap.microphone == checker.reported(Permission::Microphone),
    ensures
        snap.entry(permission_for(role)) == checker.reported(permission_for(role)),
{
}

} // verus!
