//! Where a Video's transcript lives: `videos/<video-id>/transcript.json`.

use vstd::prelude::*;
use crate::paths::{join_path, join_spec, video_dir, video_dir_spec};

verus! {

pub const TRANSCRIPT_FILENAME: &'static str = "transcript.json";
pub const SCHEMA_VERSION: u32 = 1;

/// `<folder>/videos/<video_id>/transcript.json`.
pub fn transcript_path(folder: &str, video_id: &str) -> (r: String)
    ensures
        r@ == join_spec(video_dir_spec(folder@, video_id@), "transcript.json"@),
{
    let dir = video_dir(folder, video_id);
    join_path(dir.as_str(), TRANSCRIPT_FILENAME)
}

} // verus!
