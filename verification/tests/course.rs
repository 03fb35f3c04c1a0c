use courseforge::course::{
    add_module, add_video, add_workflow_state, check_course_title, delete_module, delete_video,
    ensure_workflow_invariants, move_video_to_module, pin_default_scene, remove_workflow_state,
    rename_course_title, rename_module, rename_video, rename_workflow_state, reorder_modules,
    reorder_videos_in_module, reorder_workflow_states, set_video_state, Course, Video,
    SCHEMA_VERSION,
};
use courseforge::error::CoreError;
use courseforge::slug::unique_slug_in;

fn course() -> Course {
    Course::new("C".to_string())
}

fn ids(v: &[&str]) -> Vec<String> {
    v.iter().map(|s| s.to_string()).collect()
}

#[test]
fn create_course_resolves_collisions_deterministically() {
    let mut taken: Vec<String> = Vec::new();
    let first = unique_slug_in(&taken, "My Course");
    taken.push(first.clone());
    let second = unique_slug_in(&taken, "My Course");
    assert_eq!(first, "my-course");
    assert_eq!(second, "my-course-2");
}

#[test]
fn rename_course_updates_json_title() {
    let mut c = Course::new("Old Title".to_string());
    rename_course_title(&mut c, "New Title").unwrap();
    assert_eq!(c.title, "New Title");
}

#[test]
fn rename_course_rejects_empty_title() {
    let mut c = Course::new("X".to_string());
    assert!(matches!(rename_course_title(&mut c, "  "), Err(CoreError::EmptyTitle)));
    assert_eq!(c.title, "X");
}

#[test]
fn read_course_round_trips_what_create_course_wrote() {
    let c = Course::new("Roundtrip".to_string());
    assert_eq!(c.schema_version, SCHEMA_VERSION);
    assert_eq!(c.title, "Roundtrip");
    assert!(c.modules.is_empty());
    assert!(c.videos.is_empty());
}

#[test]
fn create_course_rejects_empty_title() {
    assert!(matches!(check_course_title("   "), Err(CoreError::EmptyTitle)));
    assert!(check_course_title(" Hello ").is_ok());
}

#[test]
fn add_module_appends_a_module_with_fresh_id_and_persists() {
    let mut c = course();
    let m = add_module(&mut c, "Intro").unwrap();
    assert!(!m.id.is_empty());
    assert_eq!(m.title, "Intro");
    assert!(m.video_ids.is_empty());
    assert_eq!(c.modules.len(), 1);
    assert_eq!(c.modules[0], m);
}

#[test]
fn add_module_assigns_distinct_ids_to_successive_modules() {
    let mut c = course();
    let a = add_module(&mut c, "A").unwrap();
    let b = add_module(&mut c, "B").unwrap();
    assert_ne!(a.id, b.id);
    assert_eq!(c.modules.iter().map(|m| m.title.as_str()).collect::<Vec<_>>(), vec!["A", "B"]);
}

#[test]
fn add_module_rejects_empty_title() {
    let mut c = course();
    assert!(matches!(add_module(&mut c, "  "), Err(CoreError::EmptyTitle)));
    assert!(c.modules.is_empty());
}

#[test]
fn add_module_trims_the_title() {
    let mut c = course();
    let m = add_module(&mut c, "  Spaced  ").unwrap();
    assert_eq!(m.title, "Spaced");
}

#[test]
fn rename_module_updates_title_in_place() {
    let mut c = course();
    let m = add_module(&mut c, "Old").unwrap();
    rename_module(&mut c, &m.id, "New").unwrap();
    assert_eq!(c.modules[0].id, m.id);
    assert_eq!(c.modules[0].title, "New");
}

#[test]
fn rename_module_rejects_empty_title() {
    let mut c = course();
    let m = add_module(&mut c, "Old").unwrap();
    assert!(matches!(rename_module(&mut c, &m.id, " "), Err(CoreError::EmptyTitle)));
}

#[test]
fn rename_module_errors_when_module_not_found() {
    let mut c = course();
    let result = rename_module(&mut c, "no-such-id", "X");
    assert!(matches!(result, Err(CoreError::ModuleNotFound(_))));
}

#[test]
fn reorder_modules_permutes_the_module_list() {
    let mut c = course();
    let a = add_module(&mut c, "A").unwrap();
    let b = add_module(&mut c, "B").unwrap();
    let m3 = add_module(&mut c, "C").unwrap();
    reorder_modules(&mut c, &vec![m3.id.clone(), a.id.clone(), b.id.clone()]).unwrap();
    let titles: Vec<_> = c.modules.iter().map(|m| m.title.as_str()).collect();
    assert_eq!(titles, vec!["C", "A", "B"]);
}

#[test]
fn reorder_modules_rejects_mismatched_id_set() {
    let mut c = course();
    let a = add_module(&mut c, "A").unwrap();
    add_module(&mut c, "B").unwrap();
    let result = reorder_modules(&mut c, &vec![a.id.clone()]);
    assert!(matches!(result, Err(CoreError::ReorderMismatch)));
    assert_eq!(c.modules.len(), 2);
}

#[test]
fn reorder_modules_rejects_a_repeated_id() {
    let mut c = course();
    let a = add_module(&mut c, "A").unwrap();
    add_module(&mut c, "B").unwrap();
    let result = reorder_modules(&mut c, &vec![a.id.clone(), a.id.clone()]);
    assert!(matches!(result, Err(CoreError::ReorderMismatch)));
}

#[test]
fn add_video_appends_video_and_registers_it_with_module() {
    let mut c = course();
    let m = add_module(&mut c, "M").unwrap();
    let v = add_video(&mut c, &m.id, "Intro slot").unwrap();
    assert!(!v.id.is_empty());
    assert_eq!(v.title, "Intro slot");
    assert_eq!(c.videos, vec![v.clone()]);
    assert_eq!(c.modules[0].video_ids, vec![v.id]);
}

#[test]
fn add_video_appends_to_target_module_order() {
    let mut c = course();
    let m = add_module(&mut c, "M").unwrap();
    let a = add_video(&mut c, &m.id, "A").unwrap();
    let b = add_video(&mut c, &m.id, "B").unwrap();
    assert_eq!(c.modules[0].video_ids, vec![a.id, b.id]);
}

#[test]
fn add_video_rejects_empty_title() {
    let mut c = course();
    let m = add_module(&mut c, "M").unwrap();
    assert!(matches!(add_video(&mut c, &m.id, "  "), Err(CoreError::EmptyTitle)));
}

#[test]
fn add_video_errors_when_module_not_found() {
    let mut c = course();
    let result = add_video(&mut c, "no-such-id", "A");
    assert!(matches!(result, Err(CoreError::ModuleNotFound(_))));
    assert!(c.videos.is_empty());
}

#[test]
fn delete_module_removes_it_and_cascades_to_its_videos() {
    let mut c = course();
    let keep = add_module(&mut c, "Keep").unwrap();
    let drop = add_module(&mut c, "Drop").unwrap();
    let v_kept = add_video(&mut c, &keep.id, "K").unwrap();
    let v_gone = add_video(&mut c, &drop.id, "G").unwrap();
    delete_module(&mut c, &drop.id).unwrap();
    assert_eq!(c.modules.iter().map(|m| &m.id).collect::<Vec<_>>(), vec![&keep.id]);
    let video_ids: Vec<_> = c.videos.iter().map(|v| v.id.clone()).collect();
    assert_eq!(video_ids, vec![v_kept.id]);
    assert!(!video_ids.contains(&v_gone.id));
}

#[test]
fn delete_module_errors_when_missing() {
    let mut c = course();
    assert!(matches!(delete_module(&mut c, "no-such-id"), Err(CoreError::ModuleNotFound(_))));
}

#[test]
fn rename_video_updates_title_in_place() {
    let mut c = course();
    let m = add_module(&mut c, "M").unwrap();
    let v = add_video(&mut c, &m.id, "Old").unwrap();
    rename_video(&mut c, &v.id, "New").unwrap();
    assert_eq!(c.videos[0].id, v.id);
    assert_eq!(c.videos[0].title, "New");
}

#[test]
fn rename_video_rejects_empty_title() {
    let mut c = course();
    let m = add_module(&mut c, "M").unwrap();
    let v = add_video(&mut c, &m.id, "Old").unwrap();
    assert!(matches!(rename_video(&mut c, &v.id, " "), Err(CoreError::EmptyTitle)));
}

#[test]
fn rename_video_errors_when_missing() {
    let mut c = course();
    assert!(matches!(rename_video(&mut c, "no-such-id", "X"), Err(CoreError::VideoNotFound(_))));
}

#[test]
fn reorder_videos_in_module_permutes_only_that_modules_order() {
    let mut c = course();
    let m1 = add_module(&mut c, "M1").unwrap();
    let m2 = add_module(&mut c, "M2").unwrap();
    let a = add_video(&mut c, &m1.id, "A").unwrap();
    let b = add_video(&mut c, &m1.id, "B").unwrap();
    let v3 = add_video(&mut c, &m1.id, "C").unwrap();
    let z = add_video(&mut c, &m2.id, "Z").unwrap();
    reorder_videos_in_module(&mut c, &m1.id, &vec![v3.id.clone(), a.id.clone(), b.id.clone()])
        .unwrap();
    let m1_after = c.modules.iter().find(|m| m.id == m1.id).unwrap();
    let m2_after = c.modules.iter().find(|m| m.id == m2.id).unwrap();
    assert_eq!(m1_after.video_ids, vec![v3.id, a.id, b.id]);
    assert_eq!(m2_after.video_ids, vec![z.id]);
}

#[test]
fn reorder_videos_in_module_rejects_mismatched_id_set() {
    let mut c = course();
    let m = add_module(&mut c, "M").unwrap();
    let a = add_video(&mut c, &m.id, "A").unwrap();
    add_video(&mut c, &m.id, "B").unwrap();
    let result = reorder_videos_in_module(&mut c, &m.id, &vec![a.id]);
    assert!(matches!(result, Err(CoreError::ReorderMismatch)));
}

#[test]
fn delete_video_removes_from_videos_and_its_module() {
    let mut c = course();
    let m = add_module(&mut c, "M").unwrap();
    let a = add_video(&mut c, &m.id, "A").unwrap();
    let b = add_video(&mut c, &m.id, "B").unwrap();
    delete_video(&mut c, &a.id).unwrap();
    assert_eq!(c.videos.iter().map(|v| v.id.clone()).collect::<Vec<_>>(), vec![b.id.clone()]);
    assert_eq!(c.modules[0].video_ids, vec![b.id]);
}

#[test]
fn delete_video_errors_when_missing() {
    let mut c = course();
    assert!(matches!(delete_video(&mut c, "no-such-id"), Err(CoreError::VideoNotFound(_))));
}

#[test]
fn move_video_to_module_relocates_id_without_touching_videos_array_order() {
    let mut c = course();
    let src = add_module(&mut c, "Src").unwrap();
    let dst = add_module(&mut c, "Dst").unwrap();
    let a = add_video(&mut c, &src.id, "A").unwrap();
    let b = add_video(&mut c, &src.id, "B").unwrap();
    let x = add_video(&mut c, &dst.id, "X").unwrap();
    let before: Vec<Video> = c.videos.clone();
    move_video_to_module(&mut c, &a.id, &dst.id, 1).unwrap();
    let src_after = c.modules.iter().find(|m| m.id == src.id).unwrap();
    let dst_after = c.modules.iter().find(|m| m.id == dst.id).unwrap();
    assert_eq!(src_after.video_ids, vec![b.id]);
    assert_eq!(dst_after.video_ids, vec![x.id, a.id]);
    assert_eq!(c.videos, before);
    let video_ids: std::collections::HashSet<_> = c.videos.iter().map(|v| v.id.clone()).collect();
    assert_eq!(video_ids.len(), 3);
}

#[test]
fn move_video_to_module_clamps_index_to_end_of_target() {
    let mut c = course();
    let src = add_module(&mut c, "Src").unwrap();
    let dst = add_module(&mut c, "Dst").unwrap();
    let a = add_video(&mut c, &src.id, "A").unwrap();
    let x = add_video(&mut c, &dst.id, "X").unwrap();
    move_video_to_module(&mut c, &a.id, &dst.id, 999).unwrap();
    let dst_after = c.modules.iter().find(|m| m.id == dst.id).unwrap();
    assert_eq!(dst_after.video_ids, vec![x.id, a.id]);
}

#[test]
fn move_video_to_module_within_same_module_reorders() {
    let mut c = course();
    let m = add_module(&mut c, "M").unwrap();
    let a = add_video(&mut c, &m.id, "A").unwrap();
    let b = add_video(&mut c, &m.id, "B").unwrap();
    let v3 = add_video(&mut c, &m.id, "C").unwrap();
    move_video_to_module(&mut c, &a.id, &m.id, 2).unwrap();
    assert_eq!(c.modules[0].video_ids, vec![b.id, v3.id, a.id]);
}

#[test]
fn move_video_to_module_errors_for_missing_video_or_module() {
    let mut c = course();
    let m = add_module(&mut c, "M").unwrap();
    let v = add_video(&mut c, &m.id, "V").unwrap();
    assert!(matches!(
        move_video_to_module(&mut c, "nope", &m.id, 0),
        Err(CoreError::VideoNotFound(_))
    ));
    assert!(matches!(
        move_video_to_module(&mut c, &v.id, "nope", 0),
        Err(CoreError::ModuleNotFound(_))
    ));
}

#[test]
fn add_workflow_state_appends_a_state_with_fresh_id() {
    let mut c = course();
    let s = add_workflow_state(&mut c, "Awaiting Review").unwrap();
    assert!(!s.id.is_empty());
    assert_eq!(s.name, "Awaiting Review");
    assert_eq!(c.workflow_states.last().unwrap(), &s);
}

#[test]
fn add_workflow_state_rejects_empty_name() {
    let mut c = course();
    assert!(matches!(add_workflow_state(&mut c, "  "), Err(CoreError::EmptyTitle)));
}

#[test]
fn rename_workflow_state_updates_name_in_place() {
    let mut c = course();
    rename_workflow_state(&mut c, "done", "Shipped").unwrap();
    let s = c.workflow_states.iter().find(|s| s.id == "done").unwrap();
    assert_eq!(s.name, "Shipped");
}

#[test]
fn rename_workflow_state_rejects_empty_name() {
    let mut c = course();
    assert!(matches!(rename_workflow_state(&mut c, "done", " "), Err(CoreError::EmptyTitle)));
}

#[test]
fn rename_workflow_state_errors_when_state_missing() {
    let mut c = course();
    assert!(matches!(
        rename_workflow_state(&mut c, "nope", "X"),
        Err(CoreError::WorkflowStateNotFound(_))
    ));
}

#[test]
fn reorder_workflow_states_permutes_the_list() {
    let mut c = course();
    let order = ids(&["done", "needs-uploading", "needs-intro", "needs-editing", "needs-recording"]);
    reorder_workflow_states(&mut c, &order).unwrap();
    let got: Vec<&str> = c.workflow_states.iter().map(|s| s.id.as_str()).collect();
    assert_eq!(got, vec!["done", "needs-uploading", "needs-intro", "needs-editing", "needs-recording"]);
}

#[test]
fn reorder_workflow_states_rejects_mismatched_id_set() {
    let mut c = course();
    let result = reorder_workflow_states(&mut c, &ids(&["done"]));
    assert!(matches!(result, Err(CoreError::ReorderMismatch)));
}

#[test]
fn set_video_state_updates_persisted_state() {
    let mut c = course();
    let m = add_module(&mut c, "M").unwrap();
    let v = add_video(&mut c, &m.id, "V").unwrap();
    set_video_state(&mut c, &v.id, "done").unwrap();
    assert_eq!(c.videos[0].state_id.as_deref(), Some("done"));
}

#[test]
fn set_video_state_errors_for_missing_video() {
    let mut c = course();
    assert!(matches!(
        set_video_state(&mut c, "no-such-id", "done"),
        Err(CoreError::VideoNotFound(_))
    ));
}

#[test]
fn set_video_state_errors_for_missing_state() {
    let mut c = course();
    let m = add_module(&mut c, "M").unwrap();
    let v = add_video(&mut c, &m.id, "V").unwrap();
    assert!(matches!(
        set_video_state(&mut c, &v.id, "nope"),
        Err(CoreError::WorkflowStateNotFound(_))
    ));
}

#[test]
fn remove_workflow_state_moves_videos_to_fallback_state() {
    let mut c = course();
    let m = add_module(&mut c, "M").unwrap();
    let v1 = add_video(&mut c, &m.id, "A").unwrap();
    let v2 = add_video(&mut c, &m.id, "B").unwrap();
    set_video_state(&mut c, &v1.id, "needs-editing").unwrap();
    set_video_state(&mut c, &v2.id, "needs-editing").unwrap();
    remove_workflow_state(&mut c, "needs-editing", "done").unwrap();
    assert!(c.workflow_states.iter().all(|s| s.id != "needs-editing"));
    for v in &c.videos {
        assert_eq!(v.state_id.as_deref(), Some("done"));
    }
}

#[test]
fn remove_workflow_state_errors_when_only_one_state_remains() {
    let mut c = course();
    for id in ["needs-editing", "needs-intro", "needs-uploading", "done"] {
        remove_workflow_state(&mut c, id, "needs-recording").unwrap();
    }
    assert_eq!(c.workflow_states.len(), 1);
    let result = remove_workflow_state(&mut c, "needs-recording", "needs-recording");
    assert!(matches!(result, Err(CoreError::OnlyWorkflowStateLeft)));
}

#[test]
fn remove_workflow_state_errors_when_state_missing() {
    let mut c = course();
    assert!(matches!(
        remove_workflow_state(&mut c, "no-such-id", "done"),
        Err(CoreError::WorkflowStateNotFound(_))
    ));
}

#[test]
fn remove_workflow_state_errors_when_fallback_missing_or_same() {
    let mut c = course();
    assert!(matches!(
        remove_workflow_state(&mut c, "done", "nope"),
        Err(CoreError::WorkflowStateNotFound(_))
    ));
    assert!(matches!(
        remove_workflow_state(&mut c, "done", "done"),
        Err(CoreError::WorkflowStateNotFound(_))
    ));
}

#[test]
fn add_video_assigns_first_workflow_state_by_default() {
    let mut c = course();
    let m = add_module(&mut c, "M").unwrap();
    let v = add_video(&mut c, &m.id, "V").unwrap();
    assert_eq!(v.state_id.as_deref(), Some("needs-recording"));
    assert_eq!(c.videos[0].state_id.as_deref(), Some("needs-recording"));
}

#[test]
fn read_course_populates_default_workflow_states_when_absent() {
    let mut c = course();
    c.workflow_states.clear();
    c.videos.push(Video {
        id: "v1".into(),
        title: "Old".into(),
        state_id: None,
        default_scene_id: None,
    });
    ensure_workflow_invariants(&mut c);
    let names: Vec<&str> = c.workflow_states.iter().map(|s| s.name.as_str()).collect();
    assert_eq!(names, vec!["Needs Recording", "Needs Editing", "Needs Intro", "Needs Uploading", "Done"]);
    assert_eq!(c.workflow_states[0].id, "needs-recording");
    assert_eq!(c.workflow_states[4].id, "done");
    assert_eq!(c.videos[0].state_id.as_deref(), Some("needs-recording"));
}

#[test]
fn ensure_workflow_invariants_moves_unknown_states_to_the_first_state() {
    let mut c = course();
    let m = add_module(&mut c, "M").unwrap();
    let v = add_video(&mut c, &m.id, "V").unwrap();
    let w = add_video(&mut c, &m.id, "W").unwrap();
    c.videos[0].state_id = Some("retired-state".into());
    set_video_state(&mut c, &w.id, "done").unwrap();
    ensure_workflow_invariants(&mut c);
    assert_eq!(c.videos[0].id, v.id);
    assert_eq!(c.videos[0].state_id.as_deref(), Some("needs-recording"));
    assert_eq!(c.videos[1].state_id.as_deref(), Some("done"));
}

#[test]
fn pin_default_scene_records_the_scene_id_on_the_video() {
    let mut c = course();
    let m = add_module(&mut c, "M").unwrap();
    let v = add_video(&mut c, &m.id, "V").unwrap();
    assert_eq!(v.default_scene_id, None);
    pin_default_scene(&mut c, &v.id, Some("scene-abc".into())).unwrap();
    assert_eq!(c.videos[0].default_scene_id.as_deref(), Some("scene-abc"));
}

#[test]
fn pin_default_scene_with_none_clears_the_pin() {
    let mut c = course();
    let m = add_module(&mut c, "M").unwrap();
    let v = add_video(&mut c, &m.id, "V").unwrap();
    pin_default_scene(&mut c, &v.id, Some("scene-abc".into())).unwrap();
    pin_default_scene(&mut c, &v.id, None).unwrap();
    assert_eq!(c.videos[0].default_scene_id, None);
}

#[test]
fn pin_default_scene_with_empty_string_also_clears_the_pin() {
    let mut c = course();
    let m = add_module(&mut c, "M").unwrap();
    let v = add_video(&mut c, &m.id, "V").unwrap();
    pin_default_scene(&mut c, &v.id, Some("scene-abc".into())).unwrap();
    pin_default_scene(&mut c, &v.id, Some(String::new())).unwrap();
    assert_eq!(c.videos[0].default_scene_id, None);
}

#[test]
fn pin_default_scene_errors_on_unknown_video() {
    let mut c = course();
    let err = pin_default_scene(&mut c, "nope", Some("s".into())).unwrap_err();
    assert!(matches!(err, CoreError::VideoNotFound(_)));
}

#[test]
fn failed_operations_leave_the_course_untouched() {
    let mut c = course();
    let m = add_module(&mut c, "M").unwrap();
    add_video(&mut c, &m.id, "V").unwrap();
    let modules_before = c.modules.clone();
    let videos_before = c.videos.clone();
    let states_before = c.workflow_states.clone();
    assert!(add_video(&mut c, "missing", "X").is_err());
    assert!(move_video_to_module(&mut c, "missing", &m.id, 0).is_err());
    assert!(reorder_videos_in_module(&mut c, &m.id, &ids(&["x", "y"])).is_err());
    assert!(remove_workflow_state(&mut c, "done", "done").is_err());
    assert_eq!(c.modules, modules_before);
    assert_eq!(c.videos, videos_before);
    assert_eq!(c.workflow_states, states_before);
}
