//! Where an export of a Video lands: by default
//! `<folder>/exports/<video-id>/`, as `<video-id>.mp4` with its captions
//! beside it as `<video-id>.srt`.

use vstd::prelude::*;
use crate::paths::{join_path, join_spec};
use crate::text::concat;

verus! {

/// `<folder>/exports/<video_id>`: the suggested destination; the user can
/// choose another.
pub fn default_export_dir(course_folder: &str, video_id: &str) -> (r: String)
    ensures
        r@ == join_spec(join_spec(course_folder@, "exports"@), video_id@),
{
    let exports = join_path(course_folder, "exports");
    join_path(exports.as_str(), video_id)
}

/// The MP4 and the SRT an export writes into `destination_dir`.
pub fn export_output_paths(destination_dir: &str, video_id: &str) -> (r: (String, String))
    ensures
        r.0@ == join_spec(destination_dir@, video_id@ + ".mp4"@),
        r.1@ == join_spec(destination_dir@, video_id@ + ".srt"@),
{
    let mp4 = concat(video_id, ".mp4");
    let srt = concat(video_id, ".srt");
    (join_path(destination_dir, mp4.as_str()), join_path(destination_dir, srt.as_str()))
}

} // verus!
