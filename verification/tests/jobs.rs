use courseforge::error::CoreError;
use courseforge::export::default_export_dir;
use courseforge::jobs::{ExportRegistry, ExportStatus, JobStatus, TranscriptionQueue};

#[test]
fn enqueue_adds_a_pending_job_visible_in_jobs_list() {
    let mut q = TranscriptionQueue::new();
    q.enqueue("/tmp/whatever".to_string(), "vid-1".to_string());

    let jobs = q.jobs();
    assert_eq!(jobs.len(), 1);
    assert_eq!(jobs[0].video_id, "vid-1");
    assert!(matches!(jobs[0].status, JobStatus::Pending));
}

#[test]
fn enqueue_is_idempotent_while_a_job_is_in_flight() {
    let mut q = TranscriptionQueue::new();
    assert!(q.enqueue("/tmp/x".to_string(), "vid-1".to_string()));
    assert!(!q.enqueue("/tmp/x".to_string(), "vid-1".to_string()));
    assert!(!q.enqueue("/tmp/x".to_string(), "vid-1".to_string()));

    let jobs = q.jobs();
    assert_eq!(jobs.len(), 1);
}

#[test]
fn retry_on_unknown_video_errors_clearly() {
    let mut q = TranscriptionQueue::new();
    let err = q.retry("ghost").unwrap_err();
    assert!(matches!(err, CoreError::TranscriptionJobNotFound(_)));
}

#[test]
fn retry_requeues_a_failed_job() {
    let mut q = TranscriptionQueue::new();
    q.enqueue("/c".to_string(), "vid".to_string());
    assert_eq!(q.next_pending(), Some("vid".to_string()));
    q.mark("vid", JobStatus::Running);
    q.mark("vid", JobStatus::Failed { message: "nope".to_string() });
    assert!(matches!(q.job_for_video("vid").unwrap().status, JobStatus::Failed { .. }));

    assert!(q.retry("vid").unwrap());
    let job = q.job_for_video("vid").unwrap();
    assert!(matches!(job.status, JobStatus::Pending));
    assert_eq!(job.course_folder, "/c");
    assert_eq!(q.next_pending(), Some("vid".to_string()));
    assert_eq!(q.next_pending(), None);
}

#[test]
fn retry_of_a_running_job_queues_nothing() {
    let mut q = TranscriptionQueue::new();
    q.enqueue("/c".to_string(), "vid".to_string());
    q.next_pending();
    q.mark("vid", JobStatus::Running);
    assert!(!q.retry("vid").unwrap());
    assert_eq!(q.next_pending(), None);
    assert!(matches!(q.job_for_video("vid").unwrap().status, JobStatus::Running));
}

#[test]
fn enqueue_after_done_queues_the_video_again() {
    let mut q = TranscriptionQueue::new();
    q.enqueue("/a".to_string(), "vid".to_string());
    q.next_pending();
    q.mark("vid", JobStatus::Done);
    q.enqueue("/b".to_string(), "vid".to_string());
    let jobs = q.jobs();
    assert_eq!(jobs.len(), 1);
    assert_eq!(jobs[0].course_folder, "/b");
    assert!(matches!(jobs[0].status, JobStatus::Pending));
    assert_eq!(q.next_pending(), Some("vid".to_string()));
}

#[test]
fn queue_hands_videos_out_first_in_first_out() {
    let mut q = TranscriptionQueue::new();
    q.enqueue("/c".to_string(), "one".to_string());
    q.enqueue("/c".to_string(), "two".to_string());
    q.enqueue("/c".to_string(), "one".to_string());
    assert_eq!(q.next_pending(), Some("one".to_string()));
    assert_eq!(q.next_pending(), Some("two".to_string()));
    assert_eq!(q.next_pending(), None);
    assert_eq!(q.jobs().len(), 2);
}

#[test]
fn mark_of_an_unknown_video_changes_nothing() {
    let mut q = TranscriptionQueue::new();
    q.mark("ghost", JobStatus::Done);
    assert!(q.job_for_video("ghost").is_none());
    assert!(q.jobs().is_empty());
}

#[test]
fn double_start_for_the_same_video_is_rejected() {
    let mut reg = ExportRegistry::new();
    let first = reg.begin("/c", "vid", None).unwrap();
    assert!(matches!(first.status, ExportStatus::Pending));
    let err = reg.begin("/c", "vid", None).unwrap_err();
    assert!(matches!(err, CoreError::ExportAlreadyRunning(_)));

    reg.cancel("vid").unwrap();
}

#[test]
fn default_destination_is_under_exports_video_id() {
    assert_eq!(default_export_dir("/tmp/c", "vid-7"), "/tmp/c/exports/vid-7");
    let mut reg = ExportRegistry::new();
    let job = reg.begin("/tmp/c", "vid-7", None).unwrap();
    assert_eq!(job.destination_dir, "/tmp/c/exports/vid-7");
}

#[test]
fn a_user_chosen_destination_is_kept() {
    let mut reg = ExportRegistry::new();
    let job = reg.begin("/tmp/c", "vid", Some("/elsewhere".to_string())).unwrap();
    assert_eq!(job.destination_dir, "/elsewhere");
    assert_eq!(reg.job_for_video("vid").unwrap().destination_dir, "/elsewhere");
}

#[test]
fn a_finished_export_can_be_started_again_but_not_cancelled() {
    let mut reg = ExportRegistry::new();
    reg.begin("/c", "vid", None).unwrap();
    reg.mark_running("vid");
    assert!(matches!(reg.job_for_video("vid").unwrap().status, ExportStatus::Running));
    let done = reg.finalize(
        "vid",
        ExportStatus::Done { mp4: "/c/exports/vid/vid.mp4".to_string(), srt: "/c/exports/vid/vid.srt".to_string() },
    );
    assert!(matches!(done.status, ExportStatus::Done { .. }));
    assert_eq!(done.course_folder, "/c");
    assert!(matches!(reg.cancel("vid"), Err(CoreError::ExportJobNotFound(_))));
    let again = reg.begin("/c", "vid", None).unwrap();
    assert!(matches!(again.status, ExportStatus::Pending));
    assert_eq!(reg.jobs().len(), 1);
}

#[test]
fn cancel_of_an_unknown_export_is_not_found() {
    let reg = ExportRegistry::new();
    assert!(matches!(reg.cancel("ghost"), Err(CoreError::ExportJobNotFound(_))));
}

#[test]
fn finalize_of_an_unknown_export_records_nothing() {
    let mut reg = ExportRegistry::new();
    let job = reg.finalize("ghost", ExportStatus::Cancelled);
    assert_eq!(job.video_id, "ghost");
    assert_eq!(job.course_folder, "");
    assert_eq!(job.destination_dir, "");
    assert!(matches!(job.status, ExportStatus::Cancelled));
    assert!(reg.jobs().is_empty());
}
