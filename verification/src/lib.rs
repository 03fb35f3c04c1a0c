//! Courseforge core: the Course skeleton, Scenes, capture requests, the
//! recording state machine and the registry of open sessions, edit-log
//! replay, the transcription queue and export jobs, SubRip captions,
//! on-disk naming conventions and the small text utilities they rest on,
//! with their contracts proved by Verus.

pub mod text;
pub mod slug;
pub mod error;
pub mod ids;
pub mod course;
pub mod course_structure;
pub mod capture;
pub mod permissions;
pub mod recording;
pub mod scenes;
pub mod paths;
pub mod segments;
pub mod timestamp;
pub mod edits;
pub mod sorting;
pub mod scan;
pub mod windows;
pub mod recorder;
pub mod models;
pub mod devices;
pub mod transcript;
pub mod export;
pub mod config;
pub mod library;
pub mod jobs;
pub mod captions;
pub mod sessions;
pub mod ffmpeg;
