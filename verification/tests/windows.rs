use courseforge::windows::{window_label, CourseWindowRegistry, OpenDecision};

#[test]
fn first_open_for_a_folder_returns_spawn() {
    let mut reg = CourseWindowRegistry::default();
    let decision = reg.open_or_focus("/Users/me/Courses/rust-101");
    assert!(matches!(decision, OpenDecision::Spawn { .. }));
}

#[test]
fn second_open_for_same_folder_returns_focus_with_same_label() {
    let mut reg = CourseWindowRegistry::default();
    let spawn = reg.open_or_focus("/Users/me/Courses/rust-101");
    let focus = reg.open_or_focus("/Users/me/Courses/rust-101");
    let label_spawn = match spawn {
        OpenDecision::Spawn { label } => label,
        _ => panic!(),
    };
    let label_focus = match focus {
        OpenDecision::Focus { label } => label,
        _ => panic!(),
    };
    assert_eq!(label_spawn, label_focus);
}

#[test]
fn different_folders_get_distinct_labels_and_both_spawn() {
    let mut reg = CourseWindowRegistry::default();
    let da = reg.open_or_focus("/a/course-one");
    let db = reg.open_or_focus("/b/course-two");
    let (la, lb) = match (da, db) {
        (OpenDecision::Spawn { label: la }, OpenDecision::Spawn { label: lb }) => (la, lb),
        _ => panic!("both should spawn"),
    };
    assert_ne!(la, lb);
}

#[test]
fn folder_for_label_resolves_back_to_the_folder_we_spawned_for() {
    let mut reg = CourseWindowRegistry::default();
    let label = match reg.open_or_focus("/Users/me/Courses/rust-101") {
        OpenDecision::Spawn { label } => label,
        _ => panic!(),
    };
    let resolved = reg.folder_for_label(&label).unwrap();
    assert_eq!(resolved, "/Users/me/Courses/rust-101");
}

#[test]
fn release_clears_label_lookup_too() {
    let mut reg = CourseWindowRegistry::default();
    let label = match reg.open_or_focus("/x/y") {
        OpenDecision::Spawn { label } => label,
        _ => panic!(),
    };
    reg.release("/x/y");
    assert!(reg.folder_for_label(&label).is_none());
}

#[test]
fn release_lets_the_folder_spawn_again() {
    let mut reg = CourseWindowRegistry::default();
    let _ = reg.open_or_focus("/x/y");
    reg.release("/x/y");
    assert!(matches!(reg.open_or_focus("/x/y"), OpenDecision::Spawn { .. }));
}

#[test]
fn labels_carry_a_sequence_number_and_a_sanitised_folder_name() {
    let mut reg = CourseWindowRegistry::new();
    let first = reg.open_or_focus("/Users/me/My Course (v2)");
    let second = reg.open_or_focus("/");
    assert_eq!(first, OpenDecision::Spawn { label: "course-0-My-Course--v2-".to_string() });
    assert_eq!(second, OpenDecision::Spawn { label: "course-1-course".to_string() });
}

#[test]
fn releasing_an_unknown_folder_changes_nothing() {
    let mut reg = CourseWindowRegistry::new();
    let label = match reg.open_or_focus("/a") {
        OpenDecision::Spawn { label } => label,
        _ => panic!(),
    };
    reg.release("/not-open");
    assert_eq!(reg.folder_for_label(&label).as_deref(), Some("/a"));
}

#[test]
fn window_labels_keep_ascii_alphanumerics_of_the_folder_name() {
    assert_eq!(window_label(Some("My Course!".to_string()), 3), "course-3-My-Course-");
    assert_eq!(window_label(Some("intro-2".to_string()), 0), "course-0-intro-2");
    assert_eq!(window_label(None, 7), "course-7-course");
}

#[test]
fn a_released_window_number_is_never_reused_so_labels_never_collide() {
    let mut reg = CourseWindowRegistry::default();
    let _ = reg.open_or_focus("/one/a");
    let second = match reg.open_or_focus("/two/b") {
        OpenDecision::Spawn { label } => label,
        _ => panic!(),
    };
    reg.release("/one/a");
    let third = match reg.open_or_focus("/three/b") {
        OpenDecision::Spawn { label } => label,
        _ => panic!(),
    };
    assert_ne!(second, third);
    assert_eq!(third, "course-2-b");
    assert_eq!(reg.folder_for_label(&second).as_deref(), Some("/two/b"));
    assert_eq!(reg.folder_for_label(&third).as_deref(), Some("/three/b"));
    assert_eq!(reg.spawned(), 3);
}
