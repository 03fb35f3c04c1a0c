use courseforge::capture::SourceRole;
use courseforge::error::CoreError;
use courseforge::scan::{
    final_beside, find_segment_to_transcribe, first_segment_path, list_segments_in, marker_take_ids,
    scan_orphans_in, segment_id_from_path, sibling_final, sort_orphan_takes, unclaimed_partials,
    video_orphan_takes, ListedEntry, MarkerSource, SidecarInfo, TakeMarkerInfo, VideoListing,
};
use courseforge::segments::{
    adopt_step, promote_step, AdoptStep, PromoteStep, SegmentFiles, kept_segment_id, orphan_id, partial_suffix_for, plan_take_slots, segment_ext_for,
    segments_dir, sidecar_path_for, take_marker_path, OrphanTake, PARTIAL_SUFFIX,
};

fn names(v: &[&str]) -> Vec<String> {
    v.iter().map(|s| s.to_string()).collect()
}

fn files(v: &[&str]) -> Vec<ListedEntry> {
    v.iter().map(|s| ListedEntry { name: s.to_string(), is_file: true }).collect()
}

fn marker(take_id: &str, sources: &[(&str, SourceRole)]) -> TakeMarkerInfo {
    TakeMarkerInfo {
        take_id: take_id.to_string(),
        recorded_at: "2026-05-27T01:00:00Z".to_string(),
        scene_id: None,
        sources: sources
            .iter()
            .map(|(id, role)| MarkerSource { segment_id: id.to_string(), role: *role })
            .collect(),
    }
}

/// Drives the per-Video steps the way the scanner does: markers first, then
/// sidecars for the partials no marker claims.
fn takes_for(
    video_id: &str,
    entries: &Vec<ListedEntry>,
    markers: &Vec<TakeMarkerInfo>,
    sidecars: &dyn Fn(&str) -> Option<SidecarInfo>,
) -> Vec<OrphanTake> {
    let partials = unclaimed_partials("/c", video_id, entries, markers);
    let infos: Vec<Option<SidecarInfo>> =
        partials.iter().map(|p| sidecars(&p.segment_id)).collect();
    video_orphan_takes("/c", video_id, entries, markers, &infos)
}

#[test]
fn partial_and_final_names_follow_the_role() {
    assert_eq!(partial_suffix_for(SourceRole::Screen), "partial.mov");
    assert_eq!(partial_suffix_for(SourceRole::Microphone), "partial.m4a");
    assert_eq!(segment_ext_for(SourceRole::Camera), "mov");
    assert_eq!(segment_ext_for(SourceRole::SystemAudio), "m4a");
}

#[test]
fn prepare_segment_path_creates_dir_and_returns_dot_partial_mov_under_it() {
    let dir = segments_dir("/c", "vid-1");
    assert_eq!(dir, "/c/videos/vid-1/segments");
    let slots = plan_take_slots(&dir, &vec![SourceRole::Screen]);
    assert_eq!(slots.len(), 1);
    let id = &slots[0].segment_id;
    assert!(!id.is_empty());
    assert_eq!(slots[0].partial_path, format!("/c/videos/vid-1/segments/{id}.{PARTIAL_SUFFIX}"));
    assert!(slots[0].partial_path.ends_with(".partial.mov"));
}

#[test]
fn prepare_segment_path_gives_distinct_ids_for_successive_calls() {
    let dir = segments_dir("/c", "vid-1");
    let slots = plan_take_slots(&dir, &vec![SourceRole::Screen, SourceRole::Microphone]);
    assert_ne!(slots[0].segment_id, slots[1].segment_id);
    assert!(slots[1].partial_path.ends_with(".partial.m4a"));
}

#[test]
fn sidecar_and_marker_paths_sit_in_the_segments_folder() {
    assert_eq!(sidecar_path_for("/c", "v", "s1"), "/c/videos/v/segments/s1.json");
    assert_eq!(take_marker_path("/c", "v", "t1"), "/c/videos/v/segments/t1.in-progress.json");
}

#[test]
fn list_segments_returns_empty_when_segments_dir_missing() {
    let segs = list_segments_in("/c", "vid-1", &vec![]);
    assert!(segs.is_empty());
}

#[test]
fn list_segments_includes_new_mov_finals_skips_partials_sidecars_and_dotfiles() {
    let listing = names(&["keep.mov", "keep.json", "other.partial.mov", ".DS_Store", "x.partial.mkv"]);
    let segs = list_segments_in("/c", "vid-1", &listing);
    let ids: Vec<_> = segs.iter().map(|s| s.id.as_str()).collect();
    assert_eq!(ids, vec!["keep"]);
}

#[test]
fn list_segments_picks_up_legacy_mp4_finals_for_v1_back_compat() {
    let segs = list_segments_in("/c", "vid-1", &names(&["v1-id.mp4"]));
    assert_eq!(segs.len(), 1);
    assert_eq!(segs[0].id, "v1-id");
    assert_eq!(segs[0].path, "videos/vid-1/segments/v1-id.mp4");
    assert_eq!(segs[0].video_id, "vid-1");
}

#[test]
fn list_segments_returns_both_shapes_sorted_by_id() {
    let segs = list_segments_in("/c", "vid-1", &names(&["b.mov", "c.m4a", "a.mp4"]));
    let ids: Vec<_> = segs.into_iter().map(|s| s.id).collect();
    assert_eq!(ids, vec!["a", "b", "c"]);
}

#[test]
fn kept_and_orphan_ids_from_file_names() {
    assert_eq!(kept_segment_id("abc.mov").as_deref(), Some("abc"));
    assert_eq!(kept_segment_id(".mov"), None);
    assert_eq!(kept_segment_id("abc.partial.mov"), None);
    assert_eq!(orphan_id("abc.partial.m4a").as_deref(), Some("abc"));
    assert_eq!(orphan_id("abc.mov"), None);
}

#[test]
fn scan_orphans_finds_partial_mov_and_partial_mkv_across_videos() {
    let listings = vec![
        VideoListing { video_id: "vid-2".into(), names: names(&["legacy.partial.mkv"]) },
        VideoListing { video_id: "vid-1".into(), names: names(&["new.partial.mov", "done.mov", "done.json"]) },
    ];
    let orphans = scan_orphans_in("/c", &listings);
    let got: Vec<_> = orphans.iter().map(|o| (o.video_id.as_str(), o.id.as_str())).collect();
    assert_eq!(got, vec![("vid-1", "new"), ("vid-2", "legacy")]);
    assert_eq!(orphans[0].path, "videos/vid-1/segments/new.partial.mov");
    assert_eq!(orphans[1].path, "videos/vid-2/segments/legacy.partial.mkv");
}

#[test]
fn scan_orphans_returns_empty_when_videos_dir_absent() {
    let orphans = scan_orphans_in("/c", &vec![]);
    assert!(orphans.is_empty());
}

#[test]
fn marker_ids_come_from_in_progress_files() {
    let ids = marker_take_ids(&names(&["t1.in-progress.json", "a.partial.mov", "t2.in-progress.json"]));
    assert_eq!(ids, vec!["t1", "t2"]);
}

#[test]
fn scan_orphan_takes_groups_partials_by_take_id_via_marker() {
    let entries = files(&["seg-screen.partial.mov", "seg-cam.partial.mov", "take-multi.in-progress.json"]);
    let markers = vec![marker("take-multi", &[("seg-screen", SourceRole::Screen), ("seg-cam", SourceRole::Camera)])];
    let takes = sort_orphan_takes(&takes_for("vid-1", &entries, &markers, &|_| None));
    assert_eq!(takes.len(), 1, "two partials with one marker = one Take");
    let take = &takes[0];
    assert_eq!(take.take_id, "take-multi");
    assert_eq!(take.recorded_at.as_deref(), Some("2026-05-27T01:00:00Z"));
    assert_eq!(take.segments.len(), 2);
    let roles: Vec<SourceRole> = take.segments.iter().map(|s| s.source_role).collect();
    assert!(roles.contains(&SourceRole::Screen));
    assert!(roles.contains(&SourceRole::Camera));
}

#[test]
fn scan_orphan_takes_surfaces_v1_legacy_partials_as_single_segment_takes() {
    let entries = files(&["legacy-id.partial.mkv"]);
    let takes = takes_for("vid-1", &entries, &vec![], &|_| None);
    assert_eq!(takes.len(), 1);
    assert_eq!(takes[0].segments.len(), 1);
    assert!(takes[0].take_id.starts_with("legacy-"));
    assert_eq!(takes[0].take_id, "legacy-legacy-id");
    assert_eq!(takes[0].recorded_at, None);
    assert_eq!(takes[0].segments[0].source_role, SourceRole::Screen);
    assert_eq!(takes[0].segments[0].partial_path, "videos/vid-1/segments/legacy-id.partial.mkv");
}

#[test]
fn scan_orphan_takes_handles_mixed_video_and_audio_partials() {
    let entries = files(&["seg-screen.partial.mov", "seg-mic.partial.m4a", "take-mixed.in-progress.json"]);
    let markers = vec![marker("take-mixed", &[("seg-screen", SourceRole::Screen), ("seg-mic", SourceRole::Microphone)])];
    let takes = takes_for("vid-1", &entries, &markers, &|_| None);
    assert_eq!(takes.len(), 1);
    let roles: Vec<SourceRole> = takes[0].segments.iter().map(|s| s.source_role).collect();
    assert!(roles.contains(&SourceRole::Screen));
    assert!(roles.contains(&SourceRole::Microphone));
}

#[test]
fn unclaimed_partials_use_their_sidecar_and_markers_skip_missing_files() {
    let entries = files(&["a.partial.mov", "b.partial.m4a", "t.in-progress.json"]);
    // The marker names a source whose partial never landed ("gone").
    let markers = vec![marker("t", &[("a", SourceRole::Screen), ("gone", SourceRole::Camera)])];
    let partials = unclaimed_partials("/c", "v", &entries, &markers);
    assert_eq!(partials.len(), 1);
    assert_eq!(partials[0].segment_id, "b");
    let sidecar = |id: &str| {
        if id == "b" {
            Some(SidecarInfo {
                take_id: "t-old".into(),
                source_role: SourceRole::Microphone,
                recorded_at: "2026-01-01T00:00:00Z".into(),
            })
        } else {
            None
        }
    };
    let takes = sort_orphan_takes(&takes_for("v", &entries, &markers, &sidecar));
    assert_eq!(takes.len(), 2);
    assert_eq!(takes[0].take_id, "t");
    assert_eq!(takes[0].segments.len(), 1);
    assert_eq!(takes[0].segments[0].segment_id, "a");
    assert_eq!(takes[1].take_id, "t-old");
    assert_eq!(takes[1].segments[0].source_role, SourceRole::Microphone);
    assert_eq!(takes[1].recorded_at.as_deref(), Some("2026-01-01T00:00:00Z"));
}

#[test]
fn orphan_takes_sort_by_video_then_take_id() {
    let t1 = takes_for("v2", &files(&["z.partial.mov"]), &vec![], &|_| None);
    let t2 = takes_for("v1", &files(&["y.partial.mov", "x.partial.mov"]), &vec![], &|_| None);
    let mut all = t1;
    all.extend(t2);
    let sorted = sort_orphan_takes(&all);
    let keys: Vec<_> = sorted.iter().map(|t| (t.video_id.as_str(), t.take_id.as_str())).collect();
    assert_eq!(keys, vec![("v1", "legacy-x"), ("v1", "legacy-y"), ("v2", "legacy-z")]);
}

#[test]
fn first_segment_picks_the_first_listed_or_reports_none() {
    let segs = list_segments_in("/c", "v", &names(&["b.mov", "a.mov"]));
    assert_eq!(first_segment_path("v", &segs).unwrap(), "videos/v/segments/a.mov");
    assert_eq!(find_segment_to_transcribe("/c", "v", &segs).unwrap(), "/c/videos/v/segments/a.mov");
    assert!(matches!(first_segment_path("v", &vec![]), Err(CoreError::NoSegmentsForExport(_))));
    assert!(matches!(
        find_segment_to_transcribe("/c", "v", &vec![]),
        Err(CoreError::NoSegmentsForTranscription(_))
    ));
}

#[test]
fn segment_ids_and_final_names_from_paths() {
    assert_eq!(segment_id_from_path("/c/videos/v/segments/abc.mov").as_deref(), Some("abc"));
    assert_eq!(sibling_final("/c/videos/v/segments/abc.partial.mov"), "/c/videos/v/segments/abc.mov");
    assert_eq!(sibling_final("abc.partial.mov"), "abc.mov");
}

#[test]
fn the_kept_name_replaces_the_partial_suffix_beside_the_partial() {
    assert_eq!(final_beside(Some("/d".to_string()), Some("x.partial.mov".to_string())), "/d/x.mov");
    assert_eq!(final_beside(Some("/d/".to_string()), Some("x.mkv".to_string())), "/d/x.mkv.mov");
    assert_eq!(final_beside(None, None), "./.mov");
}

fn on_disk(flags: [bool; 6]) -> SegmentFiles {
    SegmentFiles {
        video_partial: flags[0],
        audio_partial: flags[1],
        legacy_partial: flags[2],
        kept_video: flags[3],
        kept_audio: flags[4],
        kept_legacy: flags[5],
    }
}

#[test]
fn keeping_renames_the_partial_or_accepts_a_kept_file() {
    assert_eq!(promote_step("s", true, false, false), Ok(PromoteStep::Rename { replace_kept: false }));
    assert_eq!(promote_step("s", true, true, true), Ok(PromoteStep::Rename { replace_kept: true }));
    assert_eq!(promote_step("s", false, true, true), Ok(PromoteStep::AlreadyKept));
    assert_eq!(promote_step("s", false, false, false), Err(CoreError::SegmentNotFound("s".into())));
}

#[test]
fn adopting_prefers_current_partials_then_legacy_then_kept_files() {
    assert_eq!(adopt_step("s", &on_disk([true, false, true, true, false, false])), Ok(AdoptStep::Finalize));
    assert_eq!(adopt_step("s", &on_disk([false, true, false, false, false, false])), Ok(AdoptStep::Finalize));
    assert_eq!(adopt_step("s", &on_disk([false, false, true, true, false, false])), Ok(AdoptStep::RemuxLegacy));
    assert_eq!(adopt_step("s", &on_disk([false, false, false, false, true, true])), Ok(AdoptStep::Kept { ext: "m4a" }));
    assert_eq!(adopt_step("s", &on_disk([false, false, false, false, false, true])), Ok(AdoptStep::Kept { ext: "mp4" }));
    assert_eq!(adopt_step("s", &on_disk([false; 6])), Err(CoreError::SegmentNotFound("s".into())));
}

#[test]
fn finalize_segment_errors_when_neither_partial_nor_final_exists() {
    let result = promote_step("no-such-segment", false, false, false);
    assert!(matches!(result, Err(CoreError::SegmentNotFound(_))));
}

#[test]
fn every_listed_partial_shows_up_in_exactly_one_row() {
    let entries = files(&[
        "a.partial.mov",
        "b.partial.m4a",
        "c.partial.mkv",
        "d.partial.mov",
        "a.json",
        "k.mov",
        "t.in-progress.json",
    ]);
    let markers = vec![
        marker("t", &[("a", SourceRole::Screen), ("b", SourceRole::Microphone)]),
        marker("u", &[("gone", SourceRole::Camera)]),
    ];
    let takes = takes_for("v", &entries, &markers, &|_| None);
    let shown: Vec<String> =
        takes.iter().flat_map(|t| t.segments.iter().map(|s| s.partial_path.clone())).collect();
    for name in ["a.partial.mov", "b.partial.m4a", "c.partial.mkv", "d.partial.mov"] {
        let path = format!("videos/v/segments/{name}");
        assert_eq!(shown.iter().filter(|p| **p == path).count(), 1, "{path} in {shown:?}");
    }
    assert_eq!(shown.len(), 4);
    assert_eq!(takes.len(), 4);
    assert_eq!(takes[1].take_id, "u");
    assert!(takes[1].segments.is_empty());
}
