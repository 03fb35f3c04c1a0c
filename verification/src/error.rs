//! The errors the core operations report, with the message each one reads
//! as. I/O and parse failures belong to the callers that perform the I/O.

use vstd::prelude::*;
use crate::text::{concat, decimal, u64_to_decimal};

verus! {

#[derive(Debug, Clone, PartialEq, Eq)]
pub enum CoreError {
    SceneNotFound(String),
    SceneSourceIndexOutOfBounds { scene_id: String, index: usize, len: usize },
    SceneHasNoSources { scene_name: String },
    SceneDeviceMissing {
        scene_name: String,
        role: String,
        device_label: String,
        device_id: String,
    },
    EmptyTitle,
    NotACourseFolder(String),
    ModuleNotFound(String),
    VideoNotFound(String),
    ReorderMismatch,
    WorkflowStateNotFound(String),
    OnlyWorkflowStateLeft,
    SegmentNotFound(String),
    SessionNotFound(String),
    InvalidSessionTransition { action: String, state: String },
    Recorder(String),
    Transcriber(String),
    NoSegmentsForTranscription(String),
    TranscriptionJobNotFound(String),
    Exporter(String),
    ExportCancelled,
    ExportJobNotFound(String),
    NoSegmentsForExport(String),
    NoTranscriptForExport(String),
    ExportAlreadyRunning(String),
}

impl CoreError {
    /// The message the error reads as.
    pub open spec fn message_spec(&self) -> Seq<char> {
        match self {
            CoreError::SceneNotFound(s) => "scene not found: "@ + s@,
            CoreError::SceneSourceIndexOutOfBounds { scene_id, index, len } => "scene source index "@
                + decimal(*index as nat) + " out of bounds for scene "@ + scene_id@ + " (len "@
                + decimal(*len as nat) + ")"@,
            CoreError::SceneHasNoSources { scene_name } => "scene \""@ + scene_name@
                + "\" has no sources to record"@,
            CoreError::SceneDeviceMissing { scene_name, role, device_label, device_id } =>
                "scene \""@ + scene_name@ + "\" expects "@ + role@ + " device \""@ + device_label@
                + "\" ("@ + device_id@ + ") but it's not currently attached"@,
            CoreError::EmptyTitle => "title cannot be empty"@,
            CoreError::NotACourseFolder(p) => "not a course folder: "@ + p@,
            CoreError::ModuleNotFound(s) => "module not found: "@ + s@,
            CoreError::VideoNotFound(s) => "video not found: "@ + s@,
            CoreError::ReorderMismatch => "reorder list does not match existing items"@,
            CoreError::WorkflowStateNotFound(s) => "workflow state not found: "@ + s@,
            CoreError::OnlyWorkflowStateLeft => "cannot remove the last remaining workflow state"@,
            CoreError::SegmentNotFound(s) => "segment not found: "@ + s@,
            CoreError::SessionNotFound(s) => "recording session not found: "@ + s@,
            CoreError::InvalidSessionTransition { action, state } => "cannot "@ + action@
                + " a session in state "@ + state@,
            CoreError::Recorder(s) => "recorder backend failed: "@ + s@,
            CoreError::Transcriber(s) => "transcriber backend failed: "@ + s@,
            CoreError::NoSegmentsForTranscription(s) =>
                "no segments available to transcribe for video: "@ + s@,
            CoreError::TranscriptionJobNotFound(s) => "transcription job not found: "@ + s@,
            CoreError::Exporter(s) => "exporter backend failed: "@ + s@,
            CoreError::ExportCancelled => "export cancelled by user"@,
            CoreError::ExportJobNotFound(s) => "export job not found: "@ + s@,
            CoreError::NoSegmentsForExport(s) => "export needs at least one Segment for video: "@
                + s@,
            CoreError::NoTranscriptForExport(s) =>
                "a transcript is required to export captions for video: "@ + s@,
            CoreError::ExportAlreadyRunning(s) => "an export is already in progress for video: "@
                + s@,
        }
    }

    /// The message the error reads as (what `to_string` gives).
    pub fn message(&self) -> (m: String)
        ensures
            m@ == self.message_spec(),
    {
        match self {
            CoreError::SceneNotFound(s) => concat("scene not found: ", s.as_str()),
            CoreError::SceneSourceIndexOutOfBounds { scene_id, index, len } => {
                let a = concat("scene source index ", u64_to_decimal(*index as u64).as_str());
                let b = concat(a.as_str(), " out of bounds for scene ");
                let c = concat(b.as_str(), scene_id.as_str());
                let d = concat(c.as_str(), " (len ");
                let e = concat(d.as_str(), u64_to_decimal(*len as u64).as_str());
                concat(e.as_str(), ")")
            },
            CoreError::SceneHasNoSources { scene_name } => {
                let a = concat("scene \"", scene_name.as_str());
                concat(a.as_str(), "\" has no sources to record")
            },
            CoreError::SceneDeviceMissing { scene_name, role, device_label, device_id } => {
                let a = concat("scene \"", scene_name.as_str());
                let b = concat(a.as_str(), "\" expects ");
                let c = concat(b.as_str(), role.as_str());
                let d = concat(c.as_str(), " device \"");
                let e = concat(d.as_str(), device_label.as_str());
                let f = concat(e.as_str(), "\" (");
                let g = concat(f.as_str(), device_id.as_str());
                concat(g.as_str(), ") but it's not currently attached")
            },
            CoreError::EmptyTitle => "title cannot be empty".to_owned(),
            CoreError::NotACourseFolder(p) => concat("not a course folder: ", p.as_str()),
            CoreError::ModuleNotFound(s) => concat("module not found: ", s.as_str()),
            CoreError::VideoNotFound(s) => concat("video not found: ", s.as_str()),
            CoreError::ReorderMismatch => "reorder list does not match existing items".to_owned(),
            CoreError::WorkflowStateNotFound(s) => concat("workflow state not found: ", s.as_str()),
            CoreError::OnlyWorkflowStateLeft => "cannot remove the last remaining workflow state".to_owned(),
            CoreError::SegmentNotFound(s) => concat("segment not found: ", s.as_str()),
            CoreError::SessionNotFound(s) => concat("recording session not found: ", s.as_str()),
            CoreError::InvalidSessionTransition { action, state } => {
                let a = concat("cannot ", action.as_str());
                let b = concat(a.as_str(), " a session in state ");
                concat(b.as_str(), state.as_str())
            },
            CoreError::Recorder(s) => concat("recorder backend failed: ", s.as_str()),
            CoreError::Transcriber(s) => concat("transcriber backend failed: ", s.as_str()),
            CoreError::NoSegmentsForTranscription(s) => concat(
                "no segments available to transcribe for video: ",
                s.as_str(),
            ),
            CoreError::TranscriptionJobNotFound(s) => concat(
                "transcription job not found: ",
                s.as_str(),
            ),
            CoreError::Exporter(s) => concat("exporter backend failed: ", s.as_str()),
            CoreError::ExportCancelled => "export cancelled by user".to_owned(),
            CoreError::ExportJobNotFound(s) => concat("export job not found: ", s.as_str()),
            CoreError::NoSegmentsForExport(s) => concat(
                "export needs at least one Segment for video: ",
                s.as_str(),
            ),
            CoreError::NoTranscriptForExport(s) => concat(
                "a transcript is required to export captions for video: ",
                s.as_str(),
            ),
            CoreError::ExportAlreadyRunning(s) => concat(
                "an export is already in progress for video: ",
                s.as_str(),
            ),
        }
    }
}

/// The error a command hands back to the user interface: just its message.
pub struct AppError {
    pub message: String,
}

impl AppError {
    /// The command-level error for a core error.
    pub fn from_core(e: &CoreError) -> (r: AppError)
        ensures
            r.message@ == e.message_spec(),
    {
        AppError { message: e.message() }
    }
}

} // verus!
