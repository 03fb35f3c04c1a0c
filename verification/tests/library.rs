use std::path::Path;

use courseforge::course::{add_module, add_video, Course};
use courseforge::library::{course_entry, scan_library, walk_step, CourseEntry, LibraryNode, WalkStep};

fn entry(folder: &str, title: &str, videos: usize) -> CourseEntry {
    CourseEntry { folder: folder.into(), title: title.into(), modified_ms: 1_700_000_000_000, video_count: videos }
}

#[test]
fn scan_library_returns_empty_when_root_does_not_exist() {
    let root = Path::new("/tmp/this/should/not/exist/courseforge-test-1234");
    let entries = scan_library(root.is_dir(), &vec![]);
    assert!(entries.is_empty());
}

#[test]
fn scan_library_returns_empty_for_empty_root() {
    let entries = scan_library(true, &vec![]);
    assert!(entries.is_empty());
}

#[test]
fn scan_library_finds_created_courses_with_title_and_zero_videos() {
    let root = vec![
        LibraryNode::CourseFolder(Some(entry("/r/alpha", "Alpha", 0))),
        LibraryNode::Other,
        LibraryNode::CourseFolder(Some(entry("/r/beta", "Beta", 0))),
    ];
    let mut entries = scan_library(true, &root);
    entries.sort_by(|a, b| a.title.cmp(&b.title));
    assert_eq!(entries.len(), 2);
    assert_eq!(entries[0].title, "Alpha");
    assert_eq!(entries[0].video_count, 0);
    assert_eq!(entries[1].title, "Beta");
    assert_eq!(entries[1].video_count, 0);
    assert!(entries[0].modified_ms > 0);
}

#[test]
fn scan_library_descends_into_plain_folders_depth_first() {
    let root = vec![
        LibraryNode::Folder(vec![
            LibraryNode::CourseFolder(Some(entry("/r/group/one", "One", 1))),
            LibraryNode::Folder(vec![LibraryNode::CourseFolder(Some(entry("/r/group/deep/two", "Two", 2)))]),
        ]),
        LibraryNode::CourseFolder(Some(entry("/r/three", "Three", 3))),
        LibraryNode::CourseFolder(None),
        LibraryNode::Folder(vec![]),
    ];
    let titles: Vec<String> = scan_library(true, &root).into_iter().map(|e| e.title).collect();
    assert_eq!(titles, vec!["One", "Two", "Three"]);
}

#[test]
fn scan_library_groups_videos_by_course() {
    let mut c = Course::new("Has Videos".to_string());
    let m = add_module(&mut c, "M").unwrap();
    for t in ["v1", "v2", "v3"] {
        add_video(&mut c, &m.id, t).unwrap();
    }
    let e = course_entry("/r/has-videos".to_string(), &c, 42);
    assert_eq!(e.title, "Has Videos");
    assert_eq!(e.video_count, 3);
    assert_eq!(e.modified_ms, 42);
    let entries = scan_library(true, &vec![LibraryNode::CourseFolder(Some(e))]);
    assert_eq!(entries[0].video_count, 3);
}

#[test]
fn the_walk_stops_at_course_folders_and_descends_into_other_folders() {
    assert_eq!(walk_step(false, false), WalkStep::Skip);
    assert_eq!(walk_step(false, true), WalkStep::Skip);
    assert_eq!(walk_step(true, true), WalkStep::Course);
    assert_eq!(walk_step(true, false), WalkStep::Descend);
}
