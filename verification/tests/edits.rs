use courseforge::edits::{edits_path, replay_stacks, EditOp, EDITS_FILENAME};

#[test]
fn edits_path_is_under_video_subfolder() {
    let p = edits_path("/tmp/course", "vid-1");
    assert_eq!(p, format!("/tmp/course/videos/vid-1/{}", EDITS_FILENAME));
}

#[test]
fn replay_of_empty_log_yields_no_cuts_and_no_undo_redo() {
    let state = replay_stacks(&vec![]);
    assert!(state.active.is_empty());
    assert!(!state.can_undo());
    assert!(!state.can_redo());
}

#[test]
fn replay_with_one_add_cut_yields_one_active_cut_and_enables_undo() {
    let state = replay_stacks(&vec![EditOp::AddCut]);
    assert_eq!(state.active, vec![0]);
    assert!(state.can_undo());
    assert!(!state.can_redo());
}

#[test]
fn undo_moves_a_cut_to_the_redo_stack_and_flips_flags() {
    let state = replay_stacks(&vec![EditOp::AddCut, EditOp::Undo]);
    assert!(state.active.is_empty());
    assert_eq!(state.undone, vec![0]);
    assert!(!state.can_undo());
    assert!(state.can_redo());
}

#[test]
fn redo_after_undo_restores_the_cut() {
    let state = replay_stacks(&vec![EditOp::AddCut, EditOp::Undo, EditOp::Redo]);
    assert_eq!(state.active, vec![0]);
    assert!(state.can_undo());
    assert!(!state.can_redo());
}

#[test]
fn undo_on_empty_active_stack_is_a_no_op() {
    let state = replay_stacks(&vec![EditOp::Undo, EditOp::Undo]);
    assert!(state.active.is_empty());
    assert!(!state.can_undo());
    assert!(!state.can_redo());
}

#[test]
fn redo_on_empty_undone_stack_is_a_no_op() {
    let state = replay_stacks(&vec![EditOp::Redo]);
    assert!(state.active.is_empty());
    assert!(!state.can_undo());
    assert!(!state.can_redo());
}

#[test]
fn new_add_cut_after_undo_clears_the_redo_stack() {
    let state = replay_stacks(&vec![EditOp::AddCut, EditOp::Undo, EditOp::AddCut]);
    assert_eq!(state.active, vec![2]);
    assert!(state.can_undo());
    assert!(!state.can_redo());
}

#[test]
fn append_cut_undo_redo_round_trip_through_disk() {
    let mut log = vec![EditOp::AddCut];
    assert_eq!(replay_stacks(&log).active.len(), 1);
    log.push(EditOp::AddCut);
    assert_eq!(replay_stacks(&log).active.len(), 2);
    log.push(EditOp::Undo);
    let s3 = replay_stacks(&log);
    assert_eq!(s3.active.len(), 1);
    assert!(s3.can_redo());
    log.push(EditOp::Redo);
    let s4 = replay_stacks(&log);
    assert_eq!(s4.active, vec![0, 1]);
    assert!(s4.undone.is_empty());
}

#[test]
fn unlimited_undo_redo_within_a_long_session() {
    let mut log: Vec<EditOp> = Vec::new();
    for _ in 0..200 {
        log.push(EditOp::AddCut);
    }
    let full = replay_stacks(&log);
    assert_eq!(full.active.len(), 200);
    for _ in 0..200 {
        log.push(EditOp::Undo);
    }
    assert!(replay_stacks(&log).active.is_empty());
    for _ in 0..200 {
        log.push(EditOp::Redo);
    }
    let back = replay_stacks(&log);
    assert_eq!(back.active, full.active);
    assert!(back.undone.is_empty());
}

#[test]
fn undo_twice_then_redo_once_restores_the_most_recently_undone_cut() {
    let state = replay_stacks(&vec![
        EditOp::AddCut,
        EditOp::AddCut,
        EditOp::AddCut,
        EditOp::Undo,
        EditOp::Undo,
        EditOp::Redo,
    ]);
    assert_eq!(state.active, vec![0, 1]);
    assert_eq!(state.undone, vec![2]);
}
