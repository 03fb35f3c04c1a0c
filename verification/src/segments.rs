//! Segments: the raw captures of a Video, discovered by scanning
//! `videos/<video-id>/segments/` rather than listed in `course.json`.
//!
//! File naming: a video source records to `<id>.partial.mov` and becomes
//! `<id>.mov` on Keep; an audio-only source uses `.partial.m4a` / `.m4a`;
//! v1 Course Folders hold `.mp4` finals and `.partial.mkv` orphans, which
//! stay readable. Each kept Segment has a `<id>.json` sidecar, and a Take
//! in progress leaves a `<take-id>.in-progress.json` marker.

use vstd::prelude::*;
use crate::capture::SourceRole;
use crate::error::CoreError;
use crate::ids::{is_uuid_v4_text, new_id};
use crate::paths::{join_path, join_spec, video_dir, video_dir_spec};
use crate::text::{
    concat, ends_with_spec, opt_string_view, starts_with_char, strip_suffix, strip_suffix_spec,
};

verus! {

pub const SEGMENT_EXT: &'static str = "mov";
pub const PARTIAL_SUFFIX: &'static str = "partial.mov";
pub const SEGMENT_EXT_AUDIO: &'static str = "m4a";
pub const PARTIAL_SUFFIX_AUDIO: &'static str = "partial.m4a";
pub const SIDECAR_EXT: &'static str = "json";
pub const LEGACY_SEGMENT_EXT: &'static str = "mp4";
pub const LEGACY_PARTIAL_SUFFIX: &'static str = "partial.mkv";
pub const TAKE_MARKER_SUFFIX: &'static str = "in-progress.json";

pub open spec fn partial_suffix_spec(role: SourceRole) -> Seq<char> {
    if role.is_audio_only_spec() {
        "partial.m4a"@
    } else {
        "partial.mov"@
    }
}

pub open spec fn segment_ext_spec(role: SourceRole) -> Seq<char> {
    if role.is_audio_only_spec() {
        "m4a"@
    } else {
        "mov"@
    }
}

/// The partial-file suffix a source of this role records to.
pub fn partial_suffix_for(role: SourceRole) -> (s: &'static str)
    ensures
        s@ == partial_suffix_spec(role),
{
    if role.is_audio_only() {
        "partial.m4a"
    } else {
        "partial.mov"
    }
}

/// The extension of a kept Segment of this role.
pub fn segment_ext_for(role: SourceRole) -> (s: &'static str)
    ensures
        s@ == segment_ext_spec(role),
{
    if role.is_audio_only() {
        "m4a"
    } else {
        "mov"
    }
}

/// A kept Segment; `path` is relative to the Course Folder.
#[derive(Debug, Clone, PartialEq, Eq)]
pub struct Segment {
    pub id: String,
    pub video_id: String,
    pub path: String,
}

/// A partial file that survived a crash; `path` is relative to the Course
/// Folder.
#[derive(Debug, Clone, PartialEq, Eq)]
pub struct OrphanSegment {
    pub id: String,
    pub video_id: String,
    pub path: String,
}

/// One crashed Take found on disk, with its surviving partial files.
#[derive(Debug, Clone, PartialEq)]
pub struct OrphanTake {
    pub take_id: String,
    pub video_id: String,
    pub recorded_at: Option<String>,
    pub scene_id: Option<String>,
    pub segments: Vec<OrphanTakeSegment>,
}

#[derive(Debug, Clone, PartialEq)]
pub struct OrphanTakeSegment {
    pub segment_id: String,
    pub source_role: SourceRole,
    pub partial_path: String,
}

/// The id and partial path allocated to one source of a Take.
#[derive(Debug, Clone, PartialEq, Eq)]
pub struct TakeSlot {
    pub segment_id: String,
    pub partial_path: String,
}

/// `<folder>/videos/<video_id>/segments`.
pub open spec fn segments_dir_spec(folder: Seq<char>, video_id: Seq<char>) -> Seq<char> {
    join_spec(video_dir_spec(folder, video_id), "segments"@)
}

pub fn segments_dir(folder: &str, video_id: &str) -> (r: String)
    ensures
        r@ == segments_dir_spec(folder@, video_id@),
{
    let v = video_dir(folder, video_id);
    join_path(v.as_str(), "segments")
}

/// `<name>.<ext>`.
pub open spec fn dotted(name: Seq<char>, ext: Seq<char>) -> Seq<char> {
    name + "."@ + ext
}

pub fn dotted_name(name: &str, ext: &str) -> (r: String)
    ensures
        r@ == dotted(name@, ext@),
{
    let n = concat(name, ".");
    concat(n.as_str(), ext)
}

/// The sidecar JSON of a Segment: `<segments-dir>/<segment_id>.json`.
pub fn sidecar_path_for(folder: &str, video_id: &str, segment_id: &str) -> (r: String)
    ensures
        r@ == join_spec(segments_dir_spec(folder@, video_id@), dotted(segment_id@, "json"@)),
{
    let dir = segments_dir(folder, video_id);
    let name = dotted_name(segment_id, SIDECAR_EXT);
    join_path(dir.as_str(), name.as_str())
}

/// The in-progress marker of a Take:
/// `<segments-dir>/<take_id>.in-progress.json`.
pub fn take_marker_path(folder: &str, video_id: &str, take_id: &str) -> (r: String)
    ensures
        r@ == join_spec(
            segments_dir_spec(folder@, video_id@),
            dotted(take_id@, "in-progress.json"@),
        ),
{
    let dir = segments_dir(folder, video_id);
    let name = dotted_name(take_id, TAKE_MARKER_SUFFIX);
    join_path(dir.as_str(), name.as_str())
}

/// The path a source of `role` records to in `dir` under `segment_id`.
pub fn partial_path_in(dir: &str, segment_id: &str, role: SourceRole) -> (r: String)
    ensures
        r@ == join_spec(dir@, dotted(segment_id@, partial_suffix_spec(role))),
{
    let name = dotted_name(segment_id, partial_suffix_for(role));
    join_path(dir, name.as_str())
}

/// The path a Segment of `role` is kept at in `dir` under `segment_id`.
pub fn final_path_in(dir: &str, segment_id: &str, role: SourceRole) -> (r: String)
    ensures
        r@ == join_spec(dir@, dotted(segment_id@, segment_ext_spec(role))),
{
    let name = dotted_name(segment_id, segment_ext_for(role));
    join_path(dir, name.as_str())
}

/// One new random Segment id and partial path per requested role, all in `dir`,
/// in request order.
pub fn plan_take_slots(dir: &str, roles: &Vec<SourceRole>) -> (r: Vec<TakeSlot>)
    ensures
        r@.len() == roles@.len(),
        forall|i: int|
            0 <= i < r@.len() ==> is_uuid_v4_text((#[trigger] r@[i]).segment_id@)
                && r@[i].partial_path@ == join_spec(
                dir@,
                dotted(r@[i].segment_id@, partial_suffix_spec(roles@[i])),
            ),
{
    let mut out: Vec<TakeSlot> = Vec::new();
    let mut i: usize = 0;
    while i < roles.len()
        invariant
            i <= roles.len(),
            out@.len() == i,
            forall|j: int|
                0 <= j < i ==> is_uuid_v4_text((#[trigger] out@[j]).segment_id@)
                    && out@[j].partial_path@ == join_spec(
                    dir@,
                    dotted(out@[j].segment_id@, partial_suffix_spec(roles@[j])),
                ),
        decreases roles.len() - i,
    {
        let id = new_id();
        let path = partial_path_in(dir, id.as_str(), roles[i]);
        out.push(TakeSlot { segment_id: id, partial_path: path });
        i = i + 1;
    }
    out
}

/// `name` without a kept-Segment extension (`.mov`, `.m4a`, then `.mp4`).
pub open spec fn strip_segment_ext_spec(name: Seq<char>) -> Option<Seq<char>> {
    if ends_with_spec(name, ".mov"@) {
        strip_suffix_spec(name, ".mov"@)
    } else if ends_with_spec(name, ".m4a"@) {
        strip_suffix_spec(name, ".m4a"@)
    } else {
        strip_suffix_spec(name, ".mp4"@)
    }
}

/// `name` without a partial suffix (`.partial.mov`, `.partial.m4a`, then
/// `.partial.mkv`).
pub open spec fn strip_partial_suffix_spec(name: Seq<char>) -> Option<Seq<char>> {
    if ends_with_spec(name, ".partial.mov"@) {
        strip_suffix_spec(name, ".partial.mov"@)
    } else if ends_with_spec(name, ".partial.m4a"@) {
        strip_suffix_spec(name, ".partial.m4a"@)
    } else {
        strip_suffix_spec(name, ".partial.mkv"@)
    }
}

pub fn strip_segment_ext(name: &str) -> (r: Option<String>)
    ensures
        opt_string_view(r) == strip_segment_ext_spec(name@),
{
    match strip_suffix(name, ".mov") {
        Some(s) => Some(s),
        None => match strip_suffix(name, ".m4a") {
            Some(s) => Some(s),
            None => strip_suffix(name, ".mp4"),
        },
    }
}

pub fn strip_partial_suffix(name: &str) -> (r: Option<String>)
    ensures
        opt_string_view(r) == strip_partial_suffix_spec(name@),
{
    match strip_suffix(name, ".partial.mov") {
        Some(s) => Some(s),
        None => match strip_suffix(name, ".partial.m4a") {
            Some(s) => Some(s),
            None => strip_suffix(name, ".partial.mkv"),
        },
    }
}

/// The Segment id a file in a segments folder stands for, if it is a kept
/// Segment: not hidden, not a partial, not a sidecar, and named
/// `<non-empty id>.<mov|m4a|mp4>`.
pub open spec fn kept_segment_id_spec(name: Seq<char>) -> Option<Seq<char>> {
    if name.len() > 0 && name[0] == '.' {
        None
    } else if ends_with_spec(name, ".partial.mov"@) || ends_with_spec(name, ".partial.m4a"@)
        || ends_with_spec(name, ".partial.mkv"@) || ends_with_spec(name, ".json"@) {
        None
    } else {
        match strip_segment_ext_spec(name) {
            Some(id) => if id.len() > 0 {
                Some(id)
            } else {
                None
            },
            None => None,
        }
    }
}

pub fn kept_segment_id(name: &str) -> (r: Option<String>)
    ensures
        opt_string_view(r) == kept_segment_id_spec(name@),
{
    if starts_with_char(name, '.') {
        return None;
    }
    if strip_suffix(name, ".partial.mov").is_some() || strip_suffix(name, ".partial.m4a").is_some()
        || strip_suffix(name, ".partial.mkv").is_some() || strip_suffix(name, ".json").is_some() {
        return None;
    }
    match strip_segment_ext(name) {
        Some(id) => if id.as_str().is_empty() {
            None
        } else {
            Some(id)
        },
        None => None,
    }
}

/// The Segment id of a surviving partial file, if it is one.
pub open spec fn orphan_id_spec(name: Seq<char>) -> Option<Seq<char>> {
    match strip_partial_suffix_spec(name) {
        Some(id) => if id.len() > 0 {
            Some(id)
        } else {
            None
        },
        None => None,
    }
}

pub fn orphan_id(name: &str) -> (r: Option<String>)
    ensures
        opt_string_view(r) == orphan_id_spec(name@),
{
    match strip_partial_suffix(name) {
        Some(id) => if id.as_str().is_empty() {
            None
        } else {
            Some(id)
        },
        None => None,
    }
}

/// What keeping a Segment does, given what its folder holds.
#[derive(Debug, Clone, Copy, PartialEq, Eq)]
pub enum PromoteStep {
    /// Rename the partial to its kept name, first removing a kept file of
    /// that name when `replace_kept`.
    Rename { replace_kept: bool },
    /// Only the kept file is there: a Keep that already happened.
    AlreadyKept,
}

/// The partial wins when it is there; otherwise an existing kept file is
/// accepted, and with neither the Segment is not found.
pub fn promote_step(segment_id: &str, partial_is_file: bool, kept_exists: bool, kept_is_file: bool) -> (r:
    Result<PromoteStep, CoreError>)
    ensures
        partial_is_file ==> r == Ok::<PromoteStep, CoreError>(PromoteStep::Rename { replace_kept: kept_exists }),
        !partial_is_file && kept_is_file ==> r == Ok::<PromoteStep, CoreError>(PromoteStep::AlreadyKept),
        !partial_is_file && !kept_is_file ==> (r matches Err(CoreError::SegmentNotFound(id)) && id@
            == segment_id@),
{
    if partial_is_file {
        Ok(PromoteStep::Rename { replace_kept: kept_exists })
    } else if kept_is_file {
        Ok(PromoteStep::AlreadyKept)
    } else {
        Err(CoreError::SegmentNotFound(segment_id.to_owned()))
    }
}

/// What adopting a crash-recovered Segment does, given what its folder
/// holds.
#[derive(Debug, Clone, Copy, PartialEq, Eq)]
pub enum AdoptStep {
    /// A `.partial.mov` or `.partial.m4a` is there: keep it as usual.
    Finalize,
    /// Only a legacy `.partial.mkv` is there: remux it into an `.mp4`.
    RemuxLegacy,
    /// No partial, but a kept file with extension `ext` is there.
    Kept { ext: &'static str },
}

/// Which files of a Segment id are on disk, by name: the partials and the
/// kept files.
pub struct SegmentFiles {
    pub video_partial: bool,
    pub audio_partial: bool,
    pub legacy_partial: bool,
    pub kept_video: bool,
    pub kept_audio: bool,
    pub kept_legacy: bool,
}

/// A current partial comes first, then a legacy one, then a kept file
/// (`mov`, then `m4a`, then `mp4`); with none of them the Segment is not
/// found.
pub fn adopt_step(segment_id: &str, files: &SegmentFiles) -> (r: Result<AdoptStep, CoreError>)
    ensures
        files.video_partial || files.audio_partial ==> r == Ok::<AdoptStep, CoreError>(AdoptStep::Finalize),
        !(files.video_partial || files.audio_partial) && files.legacy_partial ==> r == Ok::<
            AdoptStep,
            CoreError,
        >(AdoptStep::RemuxLegacy),
        !(files.video_partial || files.audio_partial || files.legacy_partial) ==> ({
            if files.kept_video {
                r matches Ok(AdoptStep::Kept { ext }) && ext@ == SEGMENT_EXT@
            } else if files.kept_audio {
                r matches Ok(AdoptStep::Kept { ext }) && ext@ == SEGMENT_EXT_AUDIO@
            } else if files.kept_legacy {
                r matches Ok(AdoptStep::Kept { ext }) && ext@ == LEGACY_SEGMENT_EXT@
            } else {
                r matches Err(CoreError::SegmentNotFound(id)) && id@ == segment_id@
            }
        }),
{
    if files.video_partial || files.audio_partial {
        Ok(AdoptStep::Finalize)
    } else if files.legacy_partial {
        Ok(AdoptStep::RemuxLegacy)
    } else if files.kept_video {
        Ok(AdoptStep::Kept { ext: SEGMENT_EXT })
    } else if files.kept_audio {
        Ok(AdoptStep::Kept { ext: SEGMENT_EXT_AUDIO })
    } else if files.kept_legacy {
        Ok(AdoptStep::Kept { ext: LEGACY_SEGMENT_EXT })
    } else {
        Err(CoreError::SegmentNotFound(segment_id.to_owned()))
    }
}

} // verus!
