//! Capture-request vocabulary shared by Scenes, the recorder and the
//! per-Segment sidecar: the closed set of Source Roles, the device a source
//! is bound to, how a Segment's recording ended, and the sidecar itself.
//!
//! The canvas composition defaults a source carries (position, scale,
//! opacity, audio gain) are never inspected by the logic here, so the types
//! that hold them are generic over them (`D`), copied through untouched.

use vstd::prelude::*;

verus! {

/// Closed taxonomy of capture sources.
#[derive(Debug, Clone, Copy, PartialEq, Eq, Hash, Structural)]
pub enum SourceRole {
    Screen,
    Window,
    Camera,
    Microphone,
    SystemAudio,
}

impl SourceRole {
    pub open spec fn is_audio_only_spec(self) -> bool {
        self is Microphone || self is SystemAudio
    }

    pub open spec fn is_sck_sourced_spec(self) -> bool {
        self is Screen || self is Window || self is SystemAudio
    }

    /// True iff the role produces audio only (and so lands in `.m4a`).
    #[verifier::when_used_as_spec(is_audio_only_spec)]
    pub fn is_audio_only(self) -> (b: bool)
        ensures
            b == self.is_audio_only_spec(),
    {
        match self {
            SourceRole::Microphone | SourceRole::SystemAudio => true,
            _ => false,
        }
    }

    /// True iff the role is captured through ScreenCaptureKit (screen,
    /// window, system audio) rather than an `AVCaptureSession`.
    #[verifier::when_used_as_spec(is_sck_sourced_spec)]
    pub fn is_sck_sourced(self) -> (b: bool)
        ensures
            b == self.is_sck_sourced_spec(),
    {
        match self {
            SourceRole::Screen | SourceRole::Window | SourceRole::SystemAudio => true,
            _ => false,
        }
    }
}

/// A specific device bound to a Source Role. The id is opaque here; the
/// sentinel `"default"` stands for the system default device.
#[derive(Debug, Clone, PartialEq, Eq)]
pub struct Device {
    pub id: String,
    pub label: String,
}

pub struct DeviceView {
    pub id: Seq<char>,
    pub label: Seq<char>,
}

impl View for Device {
    type V = DeviceView;

    open spec fn view(&self) -> DeviceView {
        DeviceView { id: self.id@, label: self.label@ }
    }
}

impl Device {
    pub fn duplicate(&self) -> (r: Device)
        ensures
            r@ == self@,
    {
        Device { id: self.id.clone(), label: self.label.clone() }
    }
}

/// One source to capture in a Take, with its composition defaults `D`.
#[derive(Debug, Clone, PartialEq)]
pub struct CaptureRequest<D> {
    pub role: SourceRole,
    pub device: Device,
    pub defaults: D,
    /// Whether this source is the Scene's designated Transcript Source.
    pub is_transcript_source: bool,
}

/// Serialisation guard: a `false` flag is left out of the JSON.
pub fn is_false(b: &bool) -> (r: bool)
    ensures
        r == !*b,
{
    !*b
}

/// How a Segment's recording ended.
#[derive(Debug, Clone, Copy, PartialEq, Eq, Structural)]
pub enum EndedReason {
    /// The user stopped the Take cleanly.
    Normal,
    /// The source's device failed mid-Take; the other sources kept going.
    SourceFailed,
    /// The app or OS crashed and the partial file was recovered later.
    Crashed,
}

/// Per-Segment metadata written next to the media file.
#[derive(Debug, Clone, PartialEq)]
pub struct SegmentSidecar<D> {
    pub schema_version: u32,
    pub take_id: String,
    pub source_role: SourceRole,
    pub device: Device,
    /// ISO-8601 UTC timestamp the recording started.
    pub recorded_at: String,
    pub defaults: D,
    pub ended_reason: EndedReason,
    pub is_transcript_source: bool,
    /// ISO-8601 UTC timestamp the source stopped, when it ended early.
    pub ended_at: Option<String>,
}

pub const SIDECAR_SCHEMA_VERSION: u32 = 1;

impl<D> SegmentSidecar<D> {
    /// A sidecar for a source that is not the Transcript Source and has no
    /// recorded end time.
    pub fn new(
        take_id: String,
        source_role: SourceRole,
        device: Device,
        recorded_at: String,
        defaults: D,
        ended_reason: EndedReason,
    ) -> (s: Self)
        ensures
            s.schema_version == SIDECAR_SCHEMA_VERSION,
            s.take_id == take_id,
            s.source_role == source_role,
            s.device == device,
            s.recorded_at == recorded_at,
            s.defaults == defaults,
            s.ended_reason == ended_reason,
            !s.is_transcript_source,
            s.ended_at is None,
    {
        SegmentSidecar {
            schema_version: SIDECAR_SCHEMA_VERSION,
            take_id,
            source_role,
            device,
            recorded_at,
            defaults,
            ended_reason,
            is_transcript_source: false,
            ended_at: None,
        }
    }

    /// The same sidecar with the Transcript Source flag set to `flag`.
    pub fn with_transcript_source(self, flag: bool) -> (s: Self)
        ensures
            s == (SegmentSidecar { is_transcript_source: flag, ..self }),
    {
        let mut s = self;
        s.is_transcript_source = flag;
        s
    }

    /// The same sidecar with an explicit end time.
    pub fn with_ended_at(self, ended_at: String) -> (s: Self)
        ensures
            s == (SegmentSidecar { ended_at: Some(ended_at), ..self }),
    {
        let mut s = self;
        s.ended_at = Some(ended_at);
        s
    }
}

} // verus!
