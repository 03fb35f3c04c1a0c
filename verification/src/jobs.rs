//! The bookkeeping of background jobs per Video: the serial transcription
//! queue (at most one job per Video in flight; enqueueing one that is
//! pending or running changes nothing) and the export jobs (a second export
//! of a Video while one is pending or running is refused).
//!
//! Progress fractions are reported by the workers and kept by the caller;
//! the statuses here are what the decisions read.

use vstd::prelude::*;
use crate::course::{index_of, lemma_index_of_at, lemma_index_of_props, found_at};
use crate::error::CoreError;
use crate::export::default_export_dir;
use crate::paths::join_spec;

verus! {

/// Where a job is in its lifecycle.
#[derive(Debug, Clone, PartialEq, Eq)]
pub enum JobStatus {
    Pending,
    Running,
    Done,
    Failed { message: String },
}

pub enum StatusView {
    Pending,
    Running,
    Done,
    Failed { message: Seq<char> },
}

impl View for JobStatus {
    type V = StatusView;

    open spec fn view(&self) -> StatusView {
        match self {
            JobStatus::Pending => StatusView::Pending,
            JobStatus::Running => StatusView::Running,
            JobStatus::Done => StatusView::Done,
            JobStatus::Failed { message } => StatusView::Failed { message: message@ },
        }
    }
}

impl JobStatus {
    pub fn duplicate(&self) -> (r: JobStatus)
        ensures
            r@ == self@,
    {
        match self {
            JobStatus::Pending => JobStatus::Pending,
            JobStatus::Running => JobStatus::Running,
            JobStatus::Done => JobStatus::Done,
            JobStatus::Failed { message } => JobStatus::Failed { message: message.clone() },
        }
    }

    /// Pending or running.
    pub fn in_flight(&self) -> (b: bool)
        ensures
            b == in_flight(self@),
    {
        match self {
            JobStatus::Pending | JobStatus::Running => true,
            _ => false,
        }
    }
}

pub open spec fn in_flight(p: StatusView) -> bool {
    p is Pending || p is Running
}

/// One Video's transcription job.
#[derive(Debug, Clone)]
pub struct TranscriptionJob {
    pub video_id: String,
    pub course_folder: String,
    pub status: JobStatus,
}

pub struct JobView {
    pub video_id: Seq<char>,
    pub course_folder: Seq<char>,
    pub status: StatusView,
}

impl View for TranscriptionJob {
    type V = JobView;

    open spec fn view(&self) -> JobView {
        JobView { video_id: self.video_id@, course_folder: self.course_folder@, status: self.status@ }
    }
}

impl TranscriptionJob {
    pub fn duplicate(&self) -> (r: TranscriptionJob)
        ensures
            r@ == self@,
    {
        TranscriptionJob {
            video_id: self.video_id.clone(),
            course_folder: self.course_folder.clone(),
            status: self.status.duplicate(),
        }
    }
}

pub open spec fn jobs_view(s: Seq<TranscriptionJob>) -> Seq<JobView> {
    s.map_values(|j: TranscriptionJob| j@)
}

pub open spec fn strs(s: Seq<String>) -> Seq<Seq<char>> {
    s.map_values(|x: String| x@)
}

/// The jobs by Video, and the Videos waiting to run, first to run first.
pub struct QueueView {
    pub jobs: Seq<JobView>,
    pub queue: Seq<Seq<char>>,
}

pub open spec fn job_pos(jobs: Seq<JobView>, video_id: Seq<char>) -> int {
    index_of(jobs, |j: JobView| j.video_id == video_id)
}

/// The job for `video_id` set to `job`: replaced where there is one,
/// appended otherwise.
pub open spec fn put_job(jobs: Seq<JobView>, video_id: Seq<char>, job: JobView) -> Seq<JobView> {
    let p = job_pos(jobs, video_id);
    if p >= 0 {
        jobs.update(p, job)
    } else {
        jobs.push(job)
    }
}

/// The effect of enqueueing `video_id`.
pub open spec fn enqueue_step(s: QueueView, course_folder: Seq<char>, video_id: Seq<char>) -> QueueView {
    let p = job_pos(s.jobs, video_id);
    if p >= 0 && in_flight(s.jobs[p].status) {
        s
    } else {
        QueueView {
            jobs: put_job(
                s.jobs,
                video_id,
                JobView { video_id, course_folder, status: StatusView::Pending },
            ),
            queue: s.queue.push(video_id),
        }
    }
}

/// The serial transcription queue.
pub struct TranscriptionQueue {
    jobs: Vec<TranscriptionJob>,
    queue: Vec<String>,
}

impl View for TranscriptionQueue {
    type V = QueueView;

    closed spec fn view(&self) -> QueueView {
        QueueView { jobs: jobs_view(self.jobs@), queue: strs(self.queue@) }
    }
}

fn find_job(jobs: &Vec<TranscriptionJob>, video_id: &String) -> (r: Option<usize>)
    ensures
        found_at(r, job_pos(jobs_view(jobs@), video_id@)),
        r matches Some(i) ==> i < jobs@.len() && jobs@[i as int].video_id@ == video_id@,
{
    let ghost js = jobs_view(jobs@);
    let ghost p = |j: JobView| j.video_id == video_id@;
    let mut i: usize = 0;
    while i < jobs.len()
        invariant
            i <= jobs.len(),
            js == jobs_view(jobs@),
            p == (|j: JobView| j.video_id == video_id@),
            forall|k: int| 0 <= k < i ==> !p(#[trigger] js[k]),
        decreases jobs.len() - i,
    {
        if jobs[i].video_id == *video_id {
            proof {
                lemma_index_of_at(js, p, i as int);
            }
            return Some(i);
        }
        i = i + 1;
    }
    proof {
        lemma_index_of_at(js, p, i as int);
    }
    None
}

impl TranscriptionQueue {
    pub fn new() -> (q: TranscriptionQueue)
        ensures
            q@.jobs == Seq::<JobView>::empty(),
            q@.queue == Seq::<Seq<char>>::empty(),
    {
        let q = TranscriptionQueue { jobs: Vec::new(), queue: Vec::new() };
        assert(jobs_view(q.jobs@) =~= Seq::<JobView>::empty());
        assert(strs(q.queue@) =~= Seq::<Seq<char>>::empty());
        q
    }

    fn put(&mut self, job: TranscriptionJob)
        ensures
            final(self)@.jobs == put_job(old(self)@.jobs, job@.video_id, job@),
            final(self)@.queue == old(self)@.queue,
    {
        match find_job(&self.jobs, &job.video_id) {
            Some(i) => {
                let ghost v = job@;
                self.jobs.set(i, job);
                assert(jobs_view(self.jobs@) =~= jobs_view(old(self).jobs@).update(i as int, v));
            },
            None => {
                let ghost v = job@;
                self.jobs.push(job);
                assert(jobs_view(self.jobs@) =~= jobs_view(old(self).jobs@).push(v));
            },
        }
    }

    /// Queues a transcription of `video_id`, unless one is already pending
    /// or running: a duplicate request changes nothing. Answers whether the
    /// Video was queued.
    pub fn enqueue(&mut self, course_folder: String, video_id: String) -> (queued: bool)
        ensures
            final(self)@ == enqueue_step(old(self)@, course_folder@, video_id@),
            queued == !(job_pos(old(self)@.jobs, video_id@) >= 0 && in_flight(
                old(self)@.jobs[job_pos(old(self)@.jobs, video_id@)].status,
            )),
            !queued ==> final(self)@ == old(self)@,
            queued ==> final(self)@.queue == old(self)@.queue.push(video_id@),
    {
        if let Some(i) = find_job(&self.jobs, &video_id) {
            if self.jobs[i].status.in_flight() {
                return false;
            }
        }
        let ghost vid = video_id@;
        let job = TranscriptionJob {
            video_id: video_id.clone(),
            course_folder,
            status: JobStatus::Pending,
        };
        self.put(job);
        self.queue.push(video_id);
        assert(strs(self.queue@) =~= old(self)@.queue.push(vid));
        true
    }

    /// Queues a finished or failed job again; a pending or running one is
    /// left as it is, and an unknown Video is an error. Answers whether the
    /// Video was queued.
    pub fn retry(&mut self, video_id: &str) -> (r: Result<bool, CoreError>)
        ensures
            job_pos(old(self)@.jobs, video_id@) < 0 ==> (r matches Err(
                CoreError::TranscriptionJobNotFound(v),
            ) && v@ == video_id@ && final(self)@ == old(self)@),
            job_pos(old(self)@.jobs, video_id@) >= 0 && in_flight(
                old(self)@.jobs[job_pos(old(self)@.jobs, video_id@)].status,
            ) ==> r == Ok::<bool, CoreError>(false) && final(self)@ == old(self)@,
            job_pos(old(self)@.jobs, video_id@) >= 0 && !in_flight(
                old(self)@.jobs[job_pos(old(self)@.jobs, video_id@)].status,
            ) ==> ({
                let p = job_pos(old(self)@.jobs, video_id@);
                &&& r == Ok::<bool, CoreError>(true)
                &&& final(self)@.jobs == old(self)@.jobs.update(
                    p,
                    JobView { status: StatusView::Pending, ..old(self)@.jobs[p] },
                )
                &&& final(self)@.queue == old(self)@.queue.push(video_id@)
            }),
    {
        let key = video_id.to_owned();
        match find_job(&self.jobs, &key) {
            None => Err(CoreError::TranscriptionJobNotFound(key)),
            Some(i) => {
                proof {
                    lemma_index_of_props(jobs_view(self.jobs@), |j: JobView| j.video_id == video_id@);
                }
                if self.jobs[i].status.in_flight() {
                    return Ok(false);
                }
                let job = TranscriptionJob {
                    video_id: key.clone(),
                    course_folder: self.jobs[i].course_folder.clone(),
                    status: JobStatus::Pending,
                };
                let ghost v = job@;
                self.jobs.set(i, job);
                assert(jobs_view(self.jobs@) =~= jobs_view(old(self).jobs@).update(i as int, v));
                self.queue.push(key);
                assert(strs(self.queue@) =~= old(self)@.queue.push(video_id@));
                Ok(true)
            },
        }
    }

    /// Takes the next Video off the front of the queue.
    pub fn next_pending(&mut self) -> (r: Option<String>)
        ensures
            old(self)@.queue.len() == 0 ==> r is None && final(self)@ == old(self)@,
            old(self)@.queue.len() > 0 ==> (r matches Some(v) && v@ == old(self)@.queue[0])
                && final(self)@.queue == old(self)@.queue.drop_first() && final(self)@.jobs == old(
                self,
            )@.jobs,
    {
        if self.queue.len() == 0 {
            return None;
        }
        let v = self.queue.remove(0);
        assert(strs(self.queue@) =~= old(self)@.queue.drop_first());
        Some(v)
    }

    /// Records the status a job has reached; an unknown Video is ignored.
    pub fn mark(&mut self, video_id: &str, status: JobStatus)
        ensures
            job_pos(old(self)@.jobs, video_id@) < 0 ==> final(self)@ == old(self)@,
            job_pos(old(self)@.jobs, video_id@) >= 0 ==> final(self)@.jobs == old(self)@.jobs.update(
                job_pos(old(self)@.jobs, video_id@),
                JobView { status: status@, ..old(self)@.jobs[job_pos(old(self)@.jobs, video_id@)] },
            ) && final(self)@.queue == old(self)@.queue,
    {
        let key = video_id.to_owned();
        match find_job(&self.jobs, &key) {
            None => {},
            Some(i) => {
                proof {
                    lemma_index_of_props(jobs_view(self.jobs@), |j: JobView| j.video_id == video_id@);
                }
                let ghost pv = status@;
                self.jobs[i].status = status;
                assert(jobs_view(self.jobs@) =~= jobs_view(old(self).jobs@).update(
                    i as int,
                    JobView { status: pv, ..jobs_view(old(self).jobs@)[i as int] },
                ));
            },
        }
    }

    /// The job of `video_id`, if there is one.
    pub fn job_for_video(&self, video_id: &str) -> (r: Option<TranscriptionJob>)
        ensures
            job_pos(self@.jobs, video_id@) < 0 ==> r is None,
            job_pos(self@.jobs, video_id@) >= 0 ==> (r matches Some(j) && j@ == self@.jobs[job_pos(
                self@.jobs,
                video_id@,
            )]),
    {
        let key = video_id.to_owned();
        match find_job(&self.jobs, &key) {
            None => None,
            Some(i) => Some(self.jobs[i].duplicate()),
        }
    }

    /// Every job, in the order the Videos were first queued.
    pub fn jobs(&self) -> (r: Vec<TranscriptionJob>)
        ensures
            jobs_view(r@) == self@.jobs,
    {
        let mut out: Vec<TranscriptionJob> = Vec::new();
        let mut i: usize = 0;
        while i < self.jobs.len()
            invariant
                i <= self.jobs.len(),
                jobs_view(out@) == jobs_view(self.jobs@).take(i as int),
            decreases self.jobs.len() - i,
        {
            let j = self.jobs[i].duplicate();
            let ghost prev = out@;
            out.push(j);
            assert(jobs_view(out@) =~= jobs_view(prev).push(j@));
            assert(jobs_view(self.jobs@).take(i + 1) =~= jobs_view(self.jobs@).take(i as int).push(
                jobs_view(self.jobs@)[i as int],
            ));
            i = i + 1;
        }
        assert(jobs_view(self.jobs@).take(self.jobs.len() as int) =~= jobs_view(self.jobs@));
        out
    }
}

/// Enqueueing is idempotent: a second request for the same Video, while the
/// first is pending, changes nothing.
pub proof fn lemma_enqueue_idempotent(
    s: QueueView,
    folder: Seq<char>,
    other_folder: Seq<char>,
    video_id: Seq<char>,
)
    ensures
        enqueue_step(enqueue_step(s, folder, video_id), other_folder, video_id) == enqueue_step(
            s,
            folder,
            video_id,
        ),
{
    let s1 = enqueue_step(s, folder, video_id);
    let pr = |j: JobView| j.video_id == video_id;
    lemma_index_of_props(s.jobs, pr);
    let p = job_pos(s.jobs, video_id);
    if !(p >= 0 && in_flight(s.jobs[p].status)) {
        let job = JobView { video_id, course_folder: folder, status: StatusView::Pending };
        if p >= 0 {
            let js = s.jobs.update(p, job);
            assert forall|k: int| 0 <= k < p implies !pr(#[trigger] js[k]) by {
                assert(js[k] == s.jobs[k]);
            }
            lemma_index_of_at(js, pr, p);
        } else {
            let js = s.jobs.push(job);
            assert forall|k: int| 0 <= k < s.jobs.len() implies !pr(#[trigger] js[k]) by {
                assert(js[k] == s.jobs[k]);
            }
            lemma_index_of_at(js, pr, s.jobs.len() as int);
        }
    }
}


/// Where an export is in its lifecycle; a finished one names the files it
/// wrote.
#[derive(Debug, Clone, PartialEq, Eq)]
pub enum ExportStatus {
    Pending,
    Running,
    Done { mp4: String, srt: String },
    Failed { message: String },
    Cancelled,
}

pub enum ExportStatusView {
    Pending,
    Running,
    Done { mp4: Seq<char>, srt: Seq<char> },
    Failed { message: Seq<char> },
    Cancelled,
}

impl View for ExportStatus {
    type V = ExportStatusView;

    open spec fn view(&self) -> ExportStatusView {
        match self {
            ExportStatus::Pending => ExportStatusView::Pending,
            ExportStatus::Running => ExportStatusView::Running,
            ExportStatus::Done { mp4, srt } => ExportStatusView::Done { mp4: mp4@, srt: srt@ },
            ExportStatus::Failed { message } => ExportStatusView::Failed { message: message@ },
            ExportStatus::Cancelled => ExportStatusView::Cancelled,
        }
    }
}

pub open spec fn export_in_flight(s: ExportStatusView) -> bool {
    s is Pending || s is Running
}

impl ExportStatus {
    pub fn duplicate(&self) -> (r: ExportStatus)
        ensures
            r@ == self@,
    {
        match self {
            ExportStatus::Pending => ExportStatus::Pending,
            ExportStatus::Running => ExportStatus::Running,
            ExportStatus::Done { mp4, srt } => ExportStatus::Done { mp4: mp4.clone(), srt: srt.clone() },
            ExportStatus::Failed { message } => ExportStatus::Failed { message: message.clone() },
            ExportStatus::Cancelled => ExportStatus::Cancelled,
        }
    }

    /// Pending or running.
    pub fn in_flight(&self) -> (b: bool)
        ensures
            b == export_in_flight(self@),
    {
        match self {
            ExportStatus::Pending | ExportStatus::Running => true,
            _ => false,
        }
    }
}

/// One Video's export job.
#[derive(Debug, Clone)]
pub struct ExportJob {
    pub video_id: String,
    pub course_folder: String,
    /// The directory the renderer writes into.
    pub destination_dir: String,
    pub status: ExportStatus,
}

pub struct ExportJobView {
    pub video_id: Seq<char>,
    pub course_folder: Seq<char>,
    pub destination_dir: Seq<char>,
    pub status: ExportStatusView,
}

impl View for ExportJob {
    type V = ExportJobView;

    open spec fn view(&self) -> ExportJobView {
        ExportJobView {
            video_id: self.video_id@,
            course_folder: self.course_folder@,
            destination_dir: self.destination_dir@,
            status: self.status@,
        }
    }
}

impl ExportJob {
    pub fn duplicate(&self) -> (r: ExportJob)
        ensures
            r@ == self@,
    {
        ExportJob {
            video_id: self.video_id.clone(),
            course_folder: self.course_folder.clone(),
            destination_dir: self.destination_dir.clone(),
            status: self.status.duplicate(),
        }
    }
}

/// A Video's export job, and whether a cancellation can still reach its
/// renderer (from the start of the export until it is finalized).
pub struct ExportEntryView {
    pub job: ExportJobView,
    pub cancellable: bool,
}

struct ExportEntry {
    job: ExportJob,
    cancellable: bool,
}

spec fn entries_view(s: Seq<ExportEntry>) -> Seq<ExportEntryView> {
    s.map_values(|e: ExportEntry| ExportEntryView { job: e.job@, cancellable: e.cancellable })
}

pub open spec fn export_pos(entries: Seq<ExportEntryView>, video_id: Seq<char>) -> int {
    index_of(entries, |e: ExportEntryView| e.job.video_id == video_id)
}

/// The entry for `video_id` set to `e`: replaced where there is one,
/// appended otherwise.
pub open spec fn put_entry(entries: Seq<ExportEntryView>, video_id: Seq<char>, e: ExportEntryView) -> Seq<ExportEntryView> {
    let p = export_pos(entries, video_id);
    if p >= 0 {
        entries.update(p, e)
    } else {
        entries.push(e)
    }
}

/// Whether starting an export of `video_id` is refused: one is pending or
/// running.
pub open spec fn export_busy(entries: Seq<ExportEntryView>, video_id: Seq<char>) -> bool {
    let p = export_pos(entries, video_id);
    p >= 0 && export_in_flight(entries[p].job.status)
}

/// The export jobs by Video, in the order the Videos were first exported.
pub struct ExportRegistry {
    entries: Vec<ExportEntry>,
}

impl View for ExportRegistry {
    type V = Seq<ExportEntryView>;

    closed spec fn view(&self) -> Seq<ExportEntryView> {
        entries_view(self.entries@)
    }
}

fn find_export(entries: &Vec<ExportEntry>, video_id: &String) -> (r: Option<usize>)
    ensures
        found_at(r, export_pos(entries_view(entries@), video_id@)),
        r matches Some(i) ==> i < entries@.len() && entries@[i as int].job.video_id@ == video_id@,
{
    let ghost es = entries_view(entries@);
    let ghost p = |e: ExportEntryView| e.job.video_id == video_id@;
    let mut i: usize = 0;
    while i < entries.len()
        invariant
            i <= entries.len(),
            es == entries_view(entries@),
            p == (|e: ExportEntryView| e.job.video_id == video_id@),
            forall|k: int| 0 <= k < i ==> !p(#[trigger] es[k]),
        decreases entries.len() - i,
    {
        if entries[i].job.video_id == *video_id {
            proof {
                lemma_index_of_at(es, p, i as int);
            }
            return Some(i);
        }
        i = i + 1;
    }
    proof {
        lemma_index_of_at(es, p, i as int);
    }
    None
}

impl ExportRegistry {
    pub fn new() -> (r: ExportRegistry)
        ensures
            r@ == Seq::<ExportEntryView>::empty(),
    {
        let r = ExportRegistry { entries: Vec::new() };
        assert(entries_view(r.entries@) =~= Seq::<ExportEntryView>::empty());
        r
    }

    /// Starts the export of `video_id` into `destination_dir` (by default
    /// `<folder>/exports/<video_id>`): its job becomes pending and
    /// cancellable. A Video whose export is pending or running is refused,
    /// so that two renderers never write to one destination.
    pub fn begin(&mut self, course_folder: &str, video_id: &str, destination_dir: Option<String>) -> (r: Result<ExportJob, CoreError>)
        ensures
            export_busy(old(self)@, video_id@) ==> (r matches Err(CoreError::ExportAlreadyRunning(v))
                && v@ == video_id@ && final(self)@ == old(self)@),
            !export_busy(old(self)@, video_id@) ==> (r matches Ok(j) && j@ == ExportJobView {
                video_id: video_id@,
                course_folder: course_folder@,
                destination_dir: match destination_dir {
                    Some(d) => d@,
                    None => join_spec(join_spec(course_folder@, "exports"@), video_id@),
                },
                status: ExportStatusView::Pending,
            } && final(self)@ == put_entry(
                old(self)@,
                video_id@,
                ExportEntryView { job: j@, cancellable: true },
            )),
    {
        let key = video_id.to_owned();
        let found = find_export(&self.entries, &key);
        if let Some(i) = found {
            if self.entries[i].job.status.in_flight() {
                return Err(CoreError::ExportAlreadyRunning(key));
            }
        }
        let dest = match destination_dir {
            Some(d) => d,
            None => default_export_dir(course_folder, video_id),
        };
        let job = ExportJob {
            video_id: key,
            course_folder: course_folder.to_owned(),
            destination_dir: dest,
            status: ExportStatus::Pending,
        };
        let snapshot = job.duplicate();
        let ghost ev = ExportEntryView { job: job@, cancellable: true };
        let entry = ExportEntry { job, cancellable: true };
        match found {
            Some(i) => {
                self.entries.set(i, entry);
                assert(entries_view(self.entries@) =~= entries_view(old(self).entries@).update(i as int, ev));
            },
            None => {
                self.entries.push(entry);
                assert(entries_view(self.entries@) =~= entries_view(old(self).entries@).push(ev));
            },
        }
        Ok(snapshot)
    }

    /// Records that the renderer of `video_id` is running; an unknown Video
    /// is ignored.
    pub fn mark_running(&mut self, video_id: &str)
        ensures
            export_pos(old(self)@, video_id@) < 0 ==> final(self)@ == old(self)@,
            export_pos(old(self)@, video_id@) >= 0 ==> final(self)@ == old(self)@.update(
                export_pos(old(self)@, video_id@),
                ExportEntryView {
                    job: ExportJobView {
                        status: ExportStatusView::Running,
                        ..old(self)@[export_pos(old(self)@, video_id@)].job
                    },
                    ..old(self)@[export_pos(old(self)@, video_id@)]
                },
            ),
    {
        let key = video_id.to_owned();
        if let Some(i) = find_export(&self.entries, &key) {
            let ghost old_e = entries_view(old(self).entries@)[i as int];
            self.entries[i].job.status = ExportStatus::Running;
            assert(entries_view(self.entries@) =~= entries_view(old(self).entries@).update(
                i as int,
                ExportEntryView {
                    job: ExportJobView { status: ExportStatusView::Running, ..old_e.job },
                    ..old_e
                },
            ));
        }
    }

    /// Ends the export of `video_id` with `status`: it can no longer be
    /// cancelled, and its job is returned. For a Video the registry does not
    /// know, the snapshot carries empty paths and nothing is recorded.
    pub fn finalize(&mut self, video_id: &str, status: ExportStatus) -> (r: ExportJob)
        ensures
            export_pos(old(self)@, video_id@) < 0 ==> final(self)@ == old(self)@ && r@ == (
            ExportJobView {
                video_id: video_id@,
                course_folder: Seq::<char>::empty(),
                destination_dir: Seq::<char>::empty(),
                status: status@,
            }),
            export_pos(old(self)@, video_id@) >= 0 ==> ({
                let p = export_pos(old(self)@, video_id@);
                &&& r@ == (ExportJobView { status: status@, ..old(self)@[p].job })
                &&& final(self)@ == old(self)@.update(p, (ExportEntryView { job: r@, cancellable: false }))
            }),
    {
        let key = video_id.to_owned();
        match find_export(&self.entries, &key) {
            Some(i) => {
                                self.entries[i].job.status = status;
                self.entries[i].cancellable = false;
                let r = self.entries[i].job.duplicate();
                assert(entries_view(self.entries@) =~= entries_view(old(self).entries@).update(
                    i as int,
                    ExportEntryView { job: r@, cancellable: false },
                ));
                r
            },
            None => ExportJob {
                video_id: key,
                course_folder: String::new(),
                destination_dir: String::new(),
                status,
            },
        }
    }

    /// Whether a cancellation of `video_id` can be delivered: `Ok` while its
    /// export is running or pending, `ExportJobNotFound` otherwise. The
    /// caller then signals the renderer, whose job ends as cancelled when
    /// it returns.
    pub fn cancel(&self, video_id: &str) -> (r: Result<(), CoreError>)
        ensures
            ({
                let p = export_pos(self@, video_id@);
                p >= 0 && self@[p].cancellable
            }) ==> r is Ok,
            !({
                let p = export_pos(self@, video_id@);
                p >= 0 && self@[p].cancellable
            }) ==> (r matches Err(CoreError::ExportJobNotFound(v)) && v@ == video_id@),
    {
        let key = video_id.to_owned();
        match find_export(&self.entries, &key) {
            Some(i) => {
                if self.entries[i].cancellable {
                    Ok(())
                } else {
                    Err(CoreError::ExportJobNotFound(key))
                }
            },
            None => Err(CoreError::ExportJobNotFound(key)),
        }
    }

    /// The export job of `video_id`, if there is one.
    pub fn job_for_video(&self, video_id: &str) -> (r: Option<ExportJob>)
        ensures
            export_pos(self@, video_id@) < 0 ==> r is None,
            export_pos(self@, video_id@) >= 0 ==> (r matches Some(j) && j@ == self@[export_pos(
                self@,
                video_id@,
            )].job),
    {
        let key = video_id.to_owned();
        match find_export(&self.entries, &key) {
            None => None,
            Some(i) => Some(self.entries[i].job.duplicate()),
        }
    }

    /// Every export job, in the order the Videos were first exported.
    pub fn jobs(&self) -> (r: Vec<ExportJob>)
        ensures
            r@.len() == self@.len(),
            forall|k: int| 0 <= k < r@.len() ==> #[trigger] r@[k]@ == self@[k].job,
    {
        let mut out: Vec<ExportJob> = Vec::new();
        let mut i: usize = 0;
        while i < self.entries.len()
            invariant
                i <= self.entries.len(),
                out@.len() == i,
                forall|k: int| 0 <= k < i ==> #[trigger] out@[k]@ == entries_view(self.entries@)[k].job,
            decreases self.entries.len() - i,
        {
            out.push(self.entries[i].job.duplicate());
            i = i + 1;
        }
        out
    }
}

/// Once an export of a Video has started, the Video is busy: a second start
/// of it, whatever destination it asks for, is the refused case of `begin`.
pub proof fn lemma_begin_twice_refused(
    entries: Seq<ExportEntryView>,
    video_id: Seq<char>,
    job: ExportJobView,
)
    requires
        job.video_id == video_id,
        job.status == ExportStatusView::Pending,
    ensures
        export_busy(put_entry(entries, video_id, ExportEntryView { job, cancellable: true }), video_id),
{
    lemma_put_entry_finds_it(entries, video_id, ExportEntryView { job, cancellable: true });
}

/// Once finalized, an export can no longer be cancelled, and a new export
/// of the Video is accepted unless the final status is still in flight.
pub proof fn lemma_finalize_ends_cancellation(
    entries: Seq<ExportEntryView>,
    video_id: Seq<char>,
    status: ExportStatusView,
)
    requires
        export_pos(entries, video_id) >= 0,
    ensures
        ({
            let p = export_pos(entries, video_id);
            let after = entries.update(
                p,
                ExportEntryView {
                    job: ExportJobView { status, ..entries[p].job },
                    cancellable: false,
                },
            );
            &&& export_pos(after, video_id) == p
            &&& !after[p].cancellable
            &&& export_busy(after, video_id) == export_in_flight(status)
        }),
{
    let pr = |e: ExportEntryView| e.job.video_id == video_id;
    lemma_index_of_props(entries, pr);
    let p = export_pos(entries, video_id);
    let after = entries.update(
        p,
        ExportEntryView { job: ExportJobView { status, ..entries[p].job }, cancellable: false },
    );
    assert forall|k: int| 0 <= k < p implies !pr(#[trigger] after[k]) by {
        assert(after[k] == entries[k]);
    }
    lemma_index_of_at(after, pr, p);
}

/// The Videos of a list of jobs, in order.
pub open spec fn job_ids(jobs: Seq<JobView>) -> Seq<Seq<char>> {
    jobs.map_values(|j: JobView| j.video_id)
}

/// The queue after enqueueing `video_ids[i]` from `folders[i]`, one after
/// another.
pub open spec fn enqueue_all(s: QueueView, folders: Seq<Seq<char>>, video_ids: Seq<Seq<char>>) -> QueueView
    decreases video_ids.len(),
{
    if video_ids.len() == 0 || folders.len() != video_ids.len() {
        s
    } else {
        enqueue_step(
            enqueue_all(s, folders.drop_last(), video_ids.drop_last()),
            folders.last(),
            video_ids.last(),
        )
    }
}

/// Jobs are listed in the order their Videos were first queued: enqueueing
/// distinct Videos into an empty queue lists one job per Video, pending and
/// in call order, and queues them in that order.
pub proof fn lemma_enqueue_keeps_call_order(folders: Seq<Seq<char>>, video_ids: Seq<Seq<char>>)
    requires
        folders.len() == video_ids.len(),
        video_ids.no_duplicates(),
    ensures
        ({
            let r = enqueue_all(
                QueueView { jobs: Seq::empty(), queue: Seq::empty() },
                folders,
                video_ids,
            );
            &&& job_ids(r.jobs) == video_ids
            &&& r.queue == video_ids
            &&& forall|i: int| 0 <= i < r.jobs.len() ==> (#[trigger] r.jobs[i]).status == StatusView::Pending
                && r.jobs[i].course_folder == folders[i]
        }),
    decreases video_ids.len(),
{
    let e = QueueView { jobs: Seq::empty(), queue: Seq::empty() };
    if video_ids.len() == 0 {
        assert(job_ids(e.jobs) =~= video_ids);
        assert(e.queue =~= video_ids);
    } else {
        let vs = video_ids.drop_last();
        let fs = folders.drop_last();
        assert(vs.no_duplicates()) by {
            assert forall|i: int, j: int| 0 <= i < vs.len() && 0 <= j < vs.len() && i != j implies vs[i] != vs[j] by {
                assert(vs[i] == video_ids[i] && vs[j] == video_ids[j]);
            }
        }
        lemma_enqueue_keeps_call_order(fs, vs);
        let prev = enqueue_all(e, fs, vs);
        let v = video_ids.last();
        let pr = |j: JobView| j.video_id == v;
        lemma_index_of_props(prev.jobs, pr);
        if job_pos(prev.jobs, v) >= 0 {
            let p = job_pos(prev.jobs, v);
            assert(job_ids(prev.jobs)[p] == v);
            assert(vs[p] == video_ids[p]);
            assert(video_ids[p] == video_ids[video_ids.len() - 1]);
            assert(false);
        }
        let job = JobView { video_id: v, course_folder: folders.last(), status: StatusView::Pending };
        let r = enqueue_step(prev, folders.last(), v);
        assert(r.jobs == prev.jobs.push(job));
        assert forall|i: int| 0 <= i < video_ids.len() implies job_ids(r.jobs)[i] == video_ids[i] by {
            if i < prev.jobs.len() {
                assert(r.jobs[i] == prev.jobs[i]);
                assert(job_ids(prev.jobs)[i] == vs[i]);
                assert(vs[i] == video_ids[i]);
            }
        }
        assert(job_ids(r.jobs) =~= video_ids);
        assert(r.queue =~= video_ids);
        assert forall|i: int| 0 <= i < r.jobs.len() implies (#[trigger] r.jobs[i]).status == StatusView::Pending
            && r.jobs[i].course_folder == folders[i] by {
            if i < prev.jobs.len() {
                assert(r.jobs[i] == prev.jobs[i]);
                assert(fs[i] == folders[i]);
            }
        }
    }
}

/// The registry after `put_entry` of each of `entries`, one after another.
pub open spec fn put_all(s: Seq<ExportEntryView>, entries: Seq<ExportEntryView>) -> Seq<ExportEntryView>
    decreases entries.len(),
{
    if entries.len() == 0 {
        s
    } else {
        let rest = put_all(s, entries.drop_last());
        put_entry(rest, entries.last().job.video_id, entries.last())
    }
}

/// Export jobs are listed in the order their Videos were first exported:
/// starting exports of distinct Videos on an empty registry (each start is
/// a `put_entry`, as `begin` states) lists exactly those entries, in call
/// order.
pub proof fn lemma_begin_keeps_call_order(entries: Seq<ExportEntryView>)
    requires
        forall|i: int, j: int|
            0 <= i < j < entries.len() ==> (#[trigger] entries[i]).job.video_id != (#[trigger] entries[j]).job.video_id,
    ensures
        put_all(Seq::empty(), entries) == entries,
    decreases entries.len(),
{
    if entries.len() == 0 {
        assert(put_all(Seq::empty(), entries) =~= entries);
    } else {
        let es = entries.drop_last();
        assert forall|i: int, j: int| 0 <= i < j < es.len() implies (#[trigger] es[i]).job.video_id != (#[trigger] es[j]).job.video_id by {
            assert(es[i] == entries[i] && es[j] == entries[j]);
        }
        lemma_begin_keeps_call_order(es);
        let v = entries.last().job.video_id;
        let pr = |e: ExportEntryView| e.job.video_id == v;
        lemma_index_of_props(es, pr);
        if export_pos(es, v) >= 0 {
            let p = export_pos(es, v);
            assert(es[p] == entries[p]);
            assert(entries[p].job.video_id != entries[entries.len() - 1].job.video_id);
            assert(false);
        }
        assert(es.push(entries.last()) =~= entries);
    }
}

/// Only a pending or running export makes a Video busy: `begin` is refused
/// exactly when the Video's export is `Pending` or `Running`, so after an
/// export ends as done, failed or cancelled the Video can be exported
/// again.
pub proof fn lemma_busy_only_while_pending_or_running(
    entries: Seq<ExportEntryView>,
    video_id: Seq<char>,
)
    ensures
        export_busy(entries, video_id) <==> ({
            let p = export_pos(entries, video_id);
            p >= 0 && (entries[p].job.status is Pending || entries[p].job.status is Running)
        }),
        export_pos(entries, video_id) >= 0 && (entries[export_pos(entries, video_id)].job.status is Done
            || entries[export_pos(entries, video_id)].job.status is Failed
            || entries[export_pos(entries, video_id)].job.status is Cancelled) ==> !export_busy(
            entries,
            video_id,
        ),
{
}

/// A finalized export frees its Video: after `finalize` with a done,
/// failed or cancelled status, starting a new export of it is accepted.
pub proof fn lemma_begin_after_finalize(
    entries: Seq<ExportEntryView>,
    video_id: Seq<char>,
    status: ExportStatusView,
)
    requires
        export_pos(entries, video_id) >= 0,
        status is Done || status is Failed || status is Cancelled,
    ensures
        !export_busy(
            entries.update(
                export_pos(entries, video_id),
                ExportEntryView {
                    job: ExportJobView { status, ..entries[export_pos(entries, video_id)].job },
                    cancellable: false,
                },
            ),
            video_id,
        ),
{
    lemma_finalize_ends_cancellation(entries, video_id, status);
}

/// Enqueueing a Video whose transcription is pending or running changes
/// nothing: no second job is queued and the running one keeps its status.
pub proof fn lemma_enqueue_in_flight_is_no_op(s: QueueView, folder: Seq<char>, video_id: Seq<char>)
    requires
        job_pos(s.jobs, video_id) >= 0,
        s.jobs[job_pos(s.jobs, video_id)].status is Pending || s.jobs[job_pos(
            s.jobs,
            video_id,
        )].status is Running,
    ensures
        enqueue_step(s, folder, video_id) == s,
{
}

/// Enqueueing a Video with no job, or whose job has finished or failed,
/// queues it once more, at the back, with a pending job from `folder`.
pub proof fn lemma_enqueue_idle_queues_once(s: QueueView, folder: Seq<char>, video_id: Seq<char>)
    requires
        !(job_pos(s.jobs, video_id) >= 0 && (s.jobs[job_pos(s.jobs, video_id)].status is Pending
            || s.jobs[job_pos(s.jobs, video_id)].status is Running)),
    ensures
        enqueue_step(s, folder, video_id).queue == s.queue.push(video_id),
        enqueue_step(s, folder, video_id).jobs == put_job(
            s.jobs,
            video_id,
            JobView { video_id, course_folder: folder, status: StatusView::Pending },
        ),
{
}

/// Setting the export entry of a Video is a write that reads back: the
/// Video's entry is then the one written, and every other Video is found at
/// the same place with the same entry as before.
pub proof fn lemma_put_entry_reads_back(
    entries: Seq<ExportEntryView>,
    video_id: Seq<char>,
    e: ExportEntryView,
    other: Seq<char>,
)
    requires
        e.job.video_id == video_id,
    ensures
        export_pos(put_entry(entries, video_id, e), video_id) >= 0,
        put_entry(entries, video_id, e)[export_pos(put_entry(entries, video_id, e), video_id)] == e,
        other != video_id ==> export_pos(put_entry(entries, video_id, e), other) == export_pos(
            entries,
            other,
        ),
        other != video_id && export_pos(entries, other) >= 0 ==> put_entry(entries, video_id, e)[export_pos(
            entries,
            other,
        )] == entries[export_pos(entries, other)],
{
    lemma_put_entry_finds_it(entries, video_id, e);
    if other != video_id {
        let po = |x: ExportEntryView| x.job.video_id == other;
        let pv = |x: ExportEntryView| x.job.video_id == video_id;
        lemma_index_of_props(entries, po);
        lemma_index_of_props(entries, pv);
        let r = put_entry(entries, video_id, e);
        let q = export_pos(entries, other);
        let k = if q >= 0 { q } else { entries.len() as int };
        if export_pos(entries, video_id) >= 0 {
            assert(r.len() == entries.len());
            assert forall|j: int| 0 <= j < k implies !po(#[trigger] r[j]) by {
                assert(!po(entries[j]));
            }
            if q >= 0 {
                assert(r[q] == entries[q]);
            }
            lemma_index_of_at(r, po, k);
        } else {
            assert forall|j: int| 0 <= j < k implies !po(#[trigger] r[j]) by {
                assert(r[j] == entries[j]);
            }
            if q >= 0 {
                assert(r[q] == entries[q]);
                lemma_index_of_at(r, po, k);
            } else {
                assert(!po(r[entries.len() as int]));
                assert forall|j: int| 0 <= j < r.len() implies !po(#[trigger] r[j]) by {
                    if j < entries.len() {
                        assert(r[j] == entries[j]);
                    }
                }
                lemma_index_of_at(r, po, r.len() as int);
            }
        }
    }
}

proof fn lemma_put_entry_finds_it(entries: Seq<ExportEntryView>, video_id: Seq<char>, e: ExportEntryView)
    requires
        e.job.video_id == video_id,
    ensures
        export_pos(put_entry(entries, video_id, e), video_id) >= 0,
        put_entry(entries, video_id, e)[export_pos(put_entry(entries, video_id, e), video_id)] == e,
{
    let pr = |x: ExportEntryView| x.job.video_id == video_id;
    lemma_index_of_props(entries, pr);
    let p = export_pos(entries, video_id);
    if p >= 0 {
        let es = entries.update(p, e);
        assert forall|k: int| 0 <= k < p implies !pr(#[trigger] es[k]) by {
            assert(es[k] == entries[k]);
        }
        lemma_index_of_at(es, pr, p);
    } else {
        let es = entries.push(e);
        assert forall|k: int| 0 <= k < entries.len() implies !pr(#[trigger] es[k]) by {
            assert(es[k] == entries[k]);
        }
        lemma_index_of_at(es, pr, entries.len() as int);
    }
}

/// Setting the transcription job of a Video is a write that reads back:
/// the Video's job is then the one written, and every other Video is found at
/// the same place with the same job as before.
pub proof fn lemma_put_job_reads_back(
    jobs: Seq<JobView>,
    video_id: Seq<char>,
    e: JobView,
    other: Seq<char>,
)
    requires
        e.video_id == video_id,
    ensures
        job_pos(put_job(jobs, video_id, e), video_id) >= 0,
        put_job(jobs, video_id, e)[job_pos(put_job(jobs, video_id, e), video_id)] == e,
        other != video_id ==> job_pos(put_job(jobs, video_id, e), other) == job_pos(
            jobs,
            other,
        ),
        other != video_id && job_pos(jobs, other) >= 0 ==> put_job(jobs, video_id, e)[job_pos(
            jobs,
            other,
        )] == jobs[job_pos(jobs, other)],
{
    lemma_put_job_finds_it(jobs, video_id, e);
    if other != video_id {
        let po = |x: JobView| x.video_id == other;
        let pv = |x: JobView| x.video_id == video_id;
        lemma_index_of_props(jobs, po);
        lemma_index_of_props(jobs, pv);
        let r = put_job(jobs, video_id, e);
        let q = job_pos(jobs, other);
        let k = if q >= 0 { q } else { jobs.len() as int };
        if job_pos(jobs, video_id) >= 0 {
            assert(r.len() == jobs.len());
            assert forall|j: int| 0 <= j < k implies !po(#[trigger] r[j]) by {
                assert(!po(jobs[j]));
            }
            if q >= 0 {
                assert(r[q] == jobs[q]);
            }
            lemma_index_of_at(r, po, k);
        } else {
            assert forall|j: int| 0 <= j < k implies !po(#[trigger] r[j]) by {
                assert(r[j] == jobs[j]);
            }
            if q >= 0 {
                assert(r[q] == jobs[q]);
                lemma_index_of_at(r, po, k);
            } else {
                assert(!po(r[jobs.len() as int]));
                assert forall|j: int| 0 <= j < r.len() implies !po(#[trigger] r[j]) by {
                    if j < jobs.len() {
                        assert(r[j] == jobs[j]);
                    }
                }
                lemma_index_of_at(r, po, r.len() as int);
            }
        }
    }
}

proof fn lemma_put_job_finds_it(jobs: Seq<JobView>, video_id: Seq<char>, e: JobView)
    requires
        e.video_id == video_id,
    ensures
        job_pos(put_job(jobs, video_id, e), video_id) >= 0,
        put_job(jobs, video_id, e)[job_pos(put_job(jobs, video_id, e), video_id)] == e,
{
    let pr = |x: JobView| x.video_id == video_id;
    lemma_index_of_props(jobs, pr);
    let p = job_pos(jobs, video_id);
    if p >= 0 {
        let es = jobs.update(p, e);
        assert forall|k: int| 0 <= k < p implies !pr(#[trigger] es[k]) by {
            assert(es[k] == jobs[k]);
        }
        lemma_index_of_at(es, pr, p);
    } else {
        let es = jobs.push(e);
        assert forall|k: int| 0 <= k < jobs.len() implies !pr(#[trigger] es[k]) by {
            assert(es[k] == jobs[k]);
        }
        lemma_index_of_at(es, pr, jobs.len() as int);
    }
}

} // verus!
