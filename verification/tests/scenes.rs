use courseforge::capture::SourceRole;
use courseforge::error::CoreError;
use courseforge::scenes::{
    add_scene_source, create_scene, delete_scene, duplicate_scene, remove_scene_source,
    rename_scene, ScenesFile, SCENES_SCHEMA_VERSION,
};

fn file() -> ScenesFile<u8> {
    ScenesFile::empty()
}

#[test]
fn read_scenes_returns_empty_when_file_is_missing() {
    let f = file();
    assert_eq!(f.schema_version, SCENES_SCHEMA_VERSION);
    assert!(f.scenes.is_empty());
}

#[test]
fn read_scenes_after_create_returns_what_was_written() {
    let mut f = file();
    let scene = create_scene(&mut f, "Talking Head").unwrap();
    assert_eq!(f.scenes.len(), 1);
    assert_eq!(f.scenes[0].id, scene.id);
    assert_eq!(f.scenes[0].name, "Talking Head");
}

#[test]
fn create_scene_rejects_empty_name() {
    let mut f = file();
    let err = create_scene(&mut f, "   ").unwrap_err();
    assert!(matches!(err, CoreError::EmptyTitle));
    assert!(f.scenes.is_empty());
}

#[test]
fn create_scene_trims_name() {
    let mut f = file();
    let s = create_scene(&mut f, "  Demo  ").unwrap();
    assert_eq!(s.name, "Demo");
}

#[test]
fn rename_scene_changes_name_on_disk() {
    let mut f = file();
    let s = create_scene(&mut f, "A").unwrap();
    rename_scene(&mut f, &s.id, "B").unwrap();
    assert_eq!(f.scenes[0].name, "B");
}

#[test]
fn rename_scene_rejects_empty_name() {
    let mut f = file();
    let s = create_scene(&mut f, "A").unwrap();
    let err = rename_scene(&mut f, &s.id, "").unwrap_err();
    assert!(matches!(err, CoreError::EmptyTitle));
}

#[test]
fn rename_unknown_scene_is_an_error() {
    let mut f = file();
    let err = rename_scene(&mut f, "nope", "X").unwrap_err();
    assert!(matches!(err, CoreError::SceneNotFound(_)));
}

#[test]
fn duplicate_scene_inserts_a_copy_right_after_the_original() {
    let mut f = file();
    let a = create_scene(&mut f, "A").unwrap();
    let _b = create_scene(&mut f, "B").unwrap();
    let dup = duplicate_scene(&mut f, &a.id).unwrap();
    assert_eq!(f.scenes.len(), 3);
    assert_eq!(f.scenes[0].id, a.id);
    assert_eq!(f.scenes[1].id, dup.id);
    assert_eq!(f.scenes[1].name, "A Copy");
    assert_eq!(f.scenes[2].name, "B");
    assert_ne!(dup.id, a.id);
}

#[test]
fn duplicate_scene_copies_source_rows() {
    let mut f = file();
    let a = create_scene(&mut f, "A").unwrap();
    add_scene_source(&mut f, &a.id, SourceRole::Screen).unwrap();
    add_scene_source(&mut f, &a.id, SourceRole::Microphone).unwrap();
    let dup = duplicate_scene(&mut f, &a.id).unwrap();
    assert_eq!(dup.sources.len(), 2);
    assert_eq!(dup.sources[0].role, SourceRole::Screen);
    assert_eq!(dup.sources[1].role, SourceRole::Microphone);
}

#[test]
fn delete_scene_removes_it() {
    let mut f = file();
    let a = create_scene(&mut f, "A").unwrap();
    let _b = create_scene(&mut f, "B").unwrap();
    delete_scene(&mut f, &a.id).unwrap();
    assert_eq!(f.scenes.len(), 1);
    assert_eq!(f.scenes[0].name, "B");
}

#[test]
fn delete_unknown_scene_is_an_error() {
    let mut f = file();
    let err = delete_scene(&mut f, "nope").unwrap_err();
    assert!(matches!(err, CoreError::SceneNotFound(_)));
}

#[test]
fn add_scene_source_appends_a_placeholder_row() {
    let mut f = file();
    let s = create_scene(&mut f, "A").unwrap();
    let added = add_scene_source(&mut f, &s.id, SourceRole::Camera).unwrap();
    assert_eq!(added.role, SourceRole::Camera);
    assert_eq!(added.device.id, "default");
    assert_eq!(f.scenes[0].sources.len(), 1);
    assert_eq!(f.scenes[0].sources[0].role, SourceRole::Camera);
}

#[test]
fn add_scene_source_preserves_order_across_writes() {
    let mut f = file();
    let s = create_scene(&mut f, "A").unwrap();
    for role in [SourceRole::Screen, SourceRole::Microphone, SourceRole::Camera, SourceRole::SystemAudio] {
        add_scene_source(&mut f, &s.id, role).unwrap();
    }
    let roles: Vec<SourceRole> = f.scenes[0].sources.iter().map(|r| r.role).collect();
    assert_eq!(
        roles,
        vec![SourceRole::Screen, SourceRole::Microphone, SourceRole::Camera, SourceRole::SystemAudio]
    );
}

#[test]
fn remove_scene_source_drops_the_row_at_that_index() {
    let mut f = file();
    let s = create_scene(&mut f, "A").unwrap();
    add_scene_source(&mut f, &s.id, SourceRole::Screen).unwrap();
    add_scene_source(&mut f, &s.id, SourceRole::Microphone).unwrap();
    add_scene_source(&mut f, &s.id, SourceRole::Camera).unwrap();
    remove_scene_source(&mut f, &s.id, 1).unwrap();
    let roles: Vec<SourceRole> = f.scenes[0].sources.iter().map(|r| r.role).collect();
    assert_eq!(roles, vec![SourceRole::Screen, SourceRole::Camera]);
}

#[test]
fn remove_scene_source_out_of_bounds_is_an_error() {
    let mut f = file();
    let s = create_scene(&mut f, "A").unwrap();
    let err = remove_scene_source(&mut f, &s.id, 0).unwrap_err();
    assert!(matches!(err, CoreError::SceneSourceIndexOutOfBounds { .. }));
    assert_eq!(
        err.message(),
        format!("scene source index 0 out of bounds for scene {} (len 0)", s.id)
    );
}

#[test]
fn missing_scenes_json_keeps_courses_openable() {
    let mut f = file();
    assert!(f.scenes.is_empty());
    let s = create_scene(&mut f, "First").unwrap();
    assert_eq!(f.scenes.len(), 1);
    assert_eq!(f.scenes[0].id, s.id);
}
