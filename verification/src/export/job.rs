//! Export jobs: how one is prepared, who runs it, and what becomes of it.
use crate::export;
use crate::export::destination;
use crate::export::destination::{partial_path, Destination};
use crate::export::{
    frame_count,
    recording_blocks_export,
    status_from,
    validate_settings,
    ExportFailure,
    ExportSettings,
    ExportState,
    ExportStatus,
};
use crate::ids;
use crate::paths;
use crate::project::reader::{SegmentSummary, TrackSummary};
use crate::project::revision;
use crate::project::revision::{copy_texts, EditDocument};
use crate::session::state::SessionState;
use crate::text;
use crate::timeline;
use vstd::prelude::*;
use vstd::string::*;

verus! {

/// A job that is ready to run, with the edit as it was when it was prepared.
#[derive(Debug)]
pub struct CapturedExport {
    pub job_id: String,
    pub root: String,
    pub document: EditDocument,
    pub tracks: Vec<(TrackSummary, Vec<SegmentSummary>)>,
    pub dest: Destination,
    pub temp: String,
    pub settings: ExportSettings,
}

/// What the file system says of a job's surroundings: where it goes, whether
/// something is there, and whether the project could be leased.
#[derive(Debug)]
pub struct Surroundings {
    pub place: Result<Destination, ExportFailure>,
    pub dest_exists: bool,
    pub lease: Result<(), String>,
}

/// Settings with the size that suits a layout.
pub open spec fn fitted(s: ExportSettings, document: revision::Edit) -> ExportSettings {
    let size = document.layout.export_size(s.width, s.height);
    ExportSettings { width: size.0 as u32, height: size.1 as u32, ..s }
}

/// Why a job cannot be prepared, and with which settings it is shown; `None` when it
/// can.
pub open spec fn prepare_refusal(
    state: SessionState,
    busy: bool,
    document: revision::Edit,
    settings: ExportSettings,
    around: Surroundings,
) -> Option<(export::Refusal, ExportSettings)> {
    let fit = fitted(settings, document);
    if export::blocks_export(state) {
        Some(
            (
                export::Refusal::RecordingActive(
                    "Export is deferred while a recording session is active"@,
                ),
                settings,
            ),
        )
    } else if busy {
        Some((export::Refusal::EncoderBusy("An export job is already running"@), settings))
    } else if settings.refusal() is Some {
        Some((settings.refusal().unwrap(), settings))
    } else if document.layout.fault() is Some {
        Some((export::Refusal::InvalidSettings(document.layout.fault().unwrap()), settings))
    } else if around.place is Err {
        Some((around.place->Err_0@, fit))
    } else if around.dest_exists {
        Some((export::Refusal::Collision("Export destination already exists"@), fit))
    } else if timeline::retained_fault(document.retained) is Some {
        Some(
            (
                export::Refusal::InvalidSettings(
                    timeline::retained_fault(document.retained).unwrap(),
                ),
                fit,
            ),
        )
    } else if export::frames_refusal(
        timeline::total(document.retained) as u64,
        fit.fps,
    ) is Some {
        Some(
            (
                export::frames_refusal(
                    timeline::total(document.retained) as u64,
                    fit.fps,
                ).unwrap(),
                fit,
            ),
        )
    } else if around.lease is Err {
        Some((export::Refusal::Io(around.lease->Err_0@), fit))
    } else {
        None
    }
}

/// Whether a prepared job, or the status of a refused one, follows from what it was
/// asked for.
pub open spec fn is_prepared(
    r: Result<CapturedExport, ExportStatus>,
    job_id: Seq<char>,
    state: SessionState,
    busy: bool,
    root: String,
    document: revision::Edit,
    tracks: Vec<(TrackSummary, Vec<SegmentSummary>)>,
    settings: ExportSettings,
    around: Surroundings,
) -> bool {
    match prepare_refusal(state, busy, document, settings, around) {
        Some((refusal, shown)) => r matches Err(s) && export::is_status(
            s,
            job_id,
            document.revision,
            shown,
            ExportState::Failed,
            Some(refusal),
        ),
        None => r matches Ok(c) && {
            &&& c.job_id@ == job_id
            &&& c.root == root
            &&& c.document@ == document
            &&& c.tracks == tracks
            &&& c.dest == around.place->Ok_0
            &&& c.temp@ == paths::joined(
                c.dest.parent@,
                destination::partial_name(c.dest.file_name@, job_id),
            )
            &&& c.settings == fitted(settings, document)
        },
    }
}

fn failed(job_id: &str, revision: u64, settings: &ExportSettings, failure: ExportFailure) -> (s:
    ExportStatus)
    ensures
        export::is_status(
            s,
            job_id@,
            revision,
            *settings,
            ExportState::Failed,
            Some(failure@),
        ),
{
    status_from(job_id, revision, settings, ExportState::Failed, Some(failure))
}

/// Prepares a job with a given identifier.
pub fn prepare_with_id(
    job_id: String,
    session_state: SessionState,
    busy: bool,
    root: String,
    document: EditDocument,
    tracks: Vec<(TrackSummary, Vec<SegmentSummary>)>,
    settings: ExportSettings,
    around: Surroundings,
) -> (r: Result<CapturedExport, ExportStatus>)
    ensures
        is_prepared(
            r,
            job_id@,
            session_state,
            busy,
            root,
            document@,
            tracks,
            settings,
            around,
        ),
{
    let revision: u64 = document.revision;
    if recording_blocks_export(session_state) {
        return Err(
            failed(
                job_id.as_str(),
                revision,
                &settings,
                ExportFailure::RecordingActive {
                    message: "Export is deferred while a recording session is active".to_owned(),
                },
            ),
        );
    }
    if busy {
        return Err(
            failed(
                job_id.as_str(),
                revision,
                &settings,
                ExportFailure::EncoderBusy {
                    message: "An export job is already running".to_owned(),
                },
            ),
        );
    }
    match validate_settings(&settings) {
        Ok(()) => {},
        Err(e) => {
            return Err(failed(job_id.as_str(), revision, &settings, e));
        },
    }
    let mut fit: ExportSettings = settings.clone();
    match document.layout.fit_export_size(settings.width, settings.height) {
        Ok((width, height)) => {
            fit.width = width;
            fit.height = height;
        },
        Err(message) => {
            return Err(
                failed(
                    job_id.as_str(),
                    revision,
                    &settings,
                    ExportFailure::InvalidSettings { message },
                ),
            );
        },
    }
    assert(fit == fitted(settings, document@));
    let dest: Destination = match around.place {
        Ok(d) => d,
        Err(e) => {
            return Err(failed(job_id.as_str(), revision, &fit, e));
        },
    };
    if around.dest_exists {
        return Err(
            failed(
                job_id.as_str(),
                revision,
                &fit,
                ExportFailure::Collision {
                    message: "Export destination already exists".to_owned(),
                },
            ),
        );
    }
    let duration: u64 = match document.edited_duration_us() {
        Ok(d) => d,
        Err(message) => {
            return Err(
                failed(
                    job_id.as_str(),
                    revision,
                    &fit,
                    ExportFailure::InvalidSettings { message },
                ),
            );
        },
    };
    match frame_count(duration, fit.fps) {
        Ok(_) => {},
        Err(e) => {
            return Err(failed(job_id.as_str(), revision, &fit, e));
        },
    }
    match around.lease {
        Ok(()) => {},
        Err(message) => {
            return Err(
                failed(job_id.as_str(), revision, &fit, ExportFailure::Io { message }),
            );
        },
    }
    let temp = partial_path(&dest, job_id.as_str());
    Ok(CapturedExport { job_id, root, document, tracks, dest, temp, settings: fit })
}

/// Prepares a job, with a fresh identifier.
pub fn prepare_job(
    session_state: SessionState,
    busy: bool,
    root: String,
    document: EditDocument,
    tracks: Vec<(TrackSummary, Vec<SegmentSummary>)>,
    settings: ExportSettings,
    around: Surroundings,
) -> (r: Result<CapturedExport, ExportStatus>)
    ensures
        exists|id: Seq<char>| #[trigger]
            ids::is_id(id) && is_prepared(
                r,
                id,
                session_state,
                busy,
                root,
                document@,
                tracks,
                settings,
                around,
            ),
{
    let id = ids::new_id();
    assert(ids::is_id(id@));
    prepare_with_id(id, session_state, busy, root, document, tracks, settings, around)
}

/// A job and who runs it.
#[derive(Debug)]
pub struct LiveJob {
    pub id: String,
    /// Whether it is to stop.
    pub cancel: bool,
    pub status: ExportStatus,
    /// Whether its worker has not been seen to end.
    pub worker: bool,
}

/// The owner of the one job that there can be.
#[derive(Debug)]
pub struct ExportOwner {
    pub job: Option<LiveJob>,
}

/// What is seen of a job's worker.
#[derive(Debug, Clone, Copy, PartialEq, Eq, Structural)]
pub enum WorkerLook {
    Alive,
    Ended,
    /// It ended without a result.
    Broken,
}

/// Whether two statuses say the same.
pub open spec fn same_status(a: ExportStatus, b: ExportStatus) -> bool {
    &&& paths::texts(a.diagnostics@) == paths::texts(b.diagnostics@)
    &&& a == (ExportStatus { diagnostics: a.diagnostics, ..b })
}

impl Clone for ExportStatus {
    fn clone(&self) -> (r: Self)
        ensures
            same_status(r, *self),
    {
        ExportStatus {
            job_id: self.job_id.clone(),
            state: self.state,
            captured_revision: self.captured_revision,
            video_codec: self.video_codec.clone(),
            audio_codec: self.audio_codec.clone(),
            width: self.width,
            height: self.height,
            fps: self.fps,
            progress_numerator: self.progress_numerator,
            progress_denominator: self.progress_denominator,
            output_path: match &self.output_path {
                Some(p) => Some(p.clone()),
                None => None,
            },
            failure: match &self.failure {
                Some(f) => Some(f.clone()),
                None => None,
            },
            diagnostics: copy_texts(&self.diagnostics),
        }
    }
}

impl ExportStatus {
    fn is_pending(&self) -> (r: bool)
        ensures
            r == self.pending(),
    {
        self.state == ExportState::Queued || self.state == ExportState::Running
    }

    /// The job's worker has started.
    pub fn started(&mut self)
        ensures
            *final(self) == (ExportStatus { state: ExportState::Running, ..*old(self) }),
    {
        self.state = ExportState::Running;
    }

    /// `done` of `total` frames are written.
    pub fn progressed(&mut self, done: u32, total: u32)
        ensures
            *final(self) == (ExportStatus {
                state: ExportState::Running,
                progress_numerator: done,
                progress_denominator: total,
                ..*old(self)
            }),
    {
        self.progress_numerator = done;
        self.progress_denominator = total;
        self.state = ExportState::Running;
    }

    /// The job has ended.
    pub fn ended(&mut self, outcome: Result<String, ExportFailure>)
        ensures
            *final(self) == match outcome {
                Ok(path) => (ExportStatus {
                    state: ExportState::Completed,
                    output_path: Some(path),
                    progress_numerator: if old(self).progress_denominator > 1 {
                        old(self).progress_denominator
                    } else {
                        1
                    },
                    failure: None,
                    ..*old(self)
                }),
                Err(e) => (ExportStatus {
                    state: if e is Cancelled {
                        ExportState::Cancelled
                    } else {
                        ExportState::Failed
                    },
                    output_path: None,
                    failure: Some(e),
                    ..*old(self)
                }),
            },
    {
        match outcome {
            Ok(path) => {
                self.state = ExportState::Completed;
                self.output_path = Some(path);
                self.progress_numerator = if self.progress_denominator > 1 {
                    self.progress_denominator
                } else {
                    1
                };
                self.failure = None;
            },
            Err(e) => {
                self.state = if matches!(e, ExportFailure::Cancelled { .. }) {
                    ExportState::Cancelled
                } else {
                    ExportState::Failed
                };
                self.output_path = None;
                self.failure = Some(e);
            },
        }
    }
}

/// The job after its worker has been looked at.
pub open spec fn reaped(before: LiveJob, look: WorkerLook, after: LiveJob) -> bool {
    if !before.worker || look == WorkerLook::Alive {
        after == before
    } else if look == WorkerLook::Ended {
        after == (LiveJob { worker: false, ..before })
    } else {
        &&& after == (LiveJob { worker: false, status: after.status, ..before })
        &&& after.status == (ExportStatus {
            state: ExportState::Failed,
            output_path: None,
            failure: after.status.failure,
            ..before.status
        })
        &&& after.status.failure matches Some(e) && e@ == export::Refusal::Native(
            "Export worker terminated unexpectedly"@,
        )
    }
}

impl ExportOwner {
    pub fn new() -> (r: Self)
        ensures
            r.job is None,
    {
        ExportOwner { job: None }
    }

    /// Whether a job is running, or still to run.
    pub open spec fn occupied(&self) -> bool {
        self.job matches Some(j) && (j.worker || j.status.pending())
    }

    /// Looks at the job's worker.
    pub fn reap(&mut self, look: WorkerLook)
        ensures
            match old(self).job {
                None => final(self).job is None,
                Some(before) => final(self).job matches Some(after) && reaped(before, look, after),
            },
    {
        match &mut self.job {
            None => {},
            Some(job) => {
                if job.worker && look != WorkerLook::Alive {
                    job.worker = false;
                    if look == WorkerLook::Broken {
                        job.status.state = ExportState::Failed;
                        job.status.output_path = None;
                        job.status.failure = Some(
                            ExportFailure::Native {
                                message: "Export worker terminated unexpectedly".to_owned(),
                            },
                        );
                    }
                }
            },
        }
    }

    /// Whether a job is running, or still to run.
    pub fn busy(&self) -> (r: bool)
        ensures
            r == self.occupied(),
    {
        match &self.job {
            None => false,
            Some(job) => job.worker || job.status.is_pending(),
        }
    }

    /// How the job is doing.
    pub fn status(&self) -> (r: ExportStatus)
        ensures
            match self.job {
                Some(j) => same_status(r, j.status),
                None => r.is_idle(),
            },
    {
        match &self.job {
            Some(job) => job.status.clone(),
            None => ExportStatus::idle(),
        }
    }

    /// Asks the job to stop.
    pub fn cancel(&mut self, job_id: &str) -> (r: Result<(), String>)
        ensures
            match (old(self).job, final(self).job) {
                (None, after) => after is None && (r matches Err(e) && e@ == "No export job"@),
                (Some(before), Some(after)) => if before.id@ != job_id@ {
                    &&& after == before
                    &&& r matches Err(e) && e@ == "Stale export job id"@
                } else {
                    &&& r is Ok
                    &&& after == (LiveJob { cancel: true, status: after.status, ..before })
                    &&& if before.status.pending() {
                        &&& after.status == (ExportStatus {
                            diagnostics: after.status.diagnostics,
                            ..before.status
                        })
                        &&& paths::texts(after.status.diagnostics@) == seq![
                            "Cancellation requested; waiting for cleanup"@,
                        ]
                    } else {
                        after.status == before.status
                    }
                },
                _ => false,
            },
    {
        match &mut self.job {
            None => Err("No export job".to_owned()),
            Some(job) => {
                if !text::str_eq(job.id.as_str(), job_id) {
                    return Err("Stale export job id".to_owned());
                }
                job.cancel = true;
                if job.status.is_pending() {
                    let mut notes: Vec<String> = Vec::new();
                    notes.push("Cancellation requested; waiting for cleanup".to_owned());
                    assert(paths::texts(notes@) =~= seq![
                        "Cancellation requested; waiting for cleanup"@,
                    ]);
                    job.status.diagnostics = notes;
                }
                Ok(())
            },
        }
    }

    /// Shows a refused job, unless another one is running.
    pub fn install_failed(&mut self, status: ExportStatus)
        ensures
            if old(self).occupied() {
                *final(self) == *old(self)
            } else {
                final(self).job matches Some(j) && j.id == status.job_id && !j.cancel && j.status
                    == status && !j.worker
            },
    {
        if self.busy() {
            return;
        }
        self.job = Some(
            LiveJob { id: status.job_id.clone(), cancel: false, status, worker: false },
        );
    }

    /// Hands a prepared job to a worker.
    pub fn spawn_job(&mut self, captured: &CapturedExport)
        requires
            !old(self).occupied(),
        ensures
            final(self).occupied(),
            final(self).job matches Some(j) && {
                &&& j.id == captured.job_id
                &&& !j.cancel
                &&& j.worker
                &&& export::is_status(
                    j.status,
                    captured.job_id@,
                    captured.document@.revision,
                    captured.settings,
                    ExportState::Queued,
                    None,
                )
            },
    {
        let status = status_from(
            captured.job_id.as_str(),
            captured.document.revision,
            &captured.settings,
            ExportState::Queued,
            None,
        );
        self.job = Some(
            LiveJob { id: captured.job_id.clone(), cancel: false, status, worker: true },
        );
    }
}

impl Default for ExportOwner {
    fn default() -> (r: Self)
        ensures
            r.job is None,
    {
        ExportOwner { job: None }
    }
}

/// While a job is running or still to run, no other one can be prepared.
pub proof fn one_job_at_a_time(
    owner: ExportOwner,
    state: SessionState,
    document: revision::Edit,
    settings: ExportSettings,
    around: Surroundings,
)
    requires
        owner.occupied(),
    ensures
        prepare_refusal(state, owner.occupied(), document, settings, around) is Some,
{
}

/// A job is prepared exactly where nothing records or exports, the settings and the layout can
/// be encoded, its destination can be had and is free, and there is something to show.
pub proof fn jobs_are_prepared_where_they_can_run(
    state: SessionState,
    busy: bool,
    document: revision::Edit,
    settings: ExportSettings,
    around: Surroundings,
)
    ensures
        prepare_refusal(state, busy, document, settings, around) is None ==> {
            &&& !busy
            &&& state != SessionState::Preparing && state != SessionState::Recording && state
                != SessionState::Paused && state != SessionState::Stopping
            &&& settings.refusal() is None
            &&& document.layout.fault() is None
            &&& around.place is Ok
            &&& !around.dest_exists
            &&& around.lease is Ok
            &&& timeline::retained_fault(document.retained) is None
            &&& timeline::total(document.retained) as u64 > 0
        },
        fitted(settings, document).fps == settings.fps,
        fitted(settings, document).video_codec == settings.video_codec,
        fitted(settings, document).audio_codec == settings.audio_codec,
        fitted(settings, document).destination == settings.destination,
{
}

/// A job that is prepared holds what it was asked to export, in the size that its layout gives
/// it, and writes beside its destination. One that is refused says why, of the same revision.
pub proof fn prepared_jobs_hold_what_was_asked_for(
    r: Result<CapturedExport, ExportStatus>,
    job_id: Seq<char>,
    state: SessionState,
    busy: bool,
    root: String,
    document: revision::Edit,
    tracks: Vec<(TrackSummary, Vec<SegmentSummary>)>,
    settings: ExportSettings,
    around: Surroundings,
)
    requires
        is_prepared(r, job_id, state, busy, root, document, tracks, settings, around),
    ensures
        r is Ok <==> prepare_refusal(state, busy, document, settings, around) is None,
        r matches Ok(c) ==> {
            &&& c.job_id@ == job_id
            &&& c.root == root
            &&& c.document@ == document
            &&& c.tracks == tracks
            &&& c.dest == around.place->Ok_0
            &&& c.settings.fps == settings.fps
            &&& c.settings.width == document.layout.export_size(
                settings.width,
                settings.height,
            ).0 as u32
            &&& c.settings.height == document.layout.export_size(
                settings.width,
                settings.height,
            ).1 as u32
        },
        r matches Err(s) ==> {
            &&& s.job_id@ == job_id
            &&& s.state == ExportState::Failed
            &&& s.captured_revision == document.revision
            &&& s.failure is Some
            &&& s.output_path is None
            &&& s.fps == settings.fps
        },
{
}

/// A worker that ended without a result fails its job; one that ended leaves the job as it
/// was, and one that works on changes nothing.
pub proof fn broken_workers_fail_their_job(before: LiveJob, look: WorkerLook, after: LiveJob)
    requires
        reaped(before, look, after),
        before.worker,
    ensures
        after.id == before.id,
        after.cancel == before.cancel,
        look == WorkerLook::Alive ==> after == before,
        look == WorkerLook::Ended ==> !after.worker && after.status == before.status,
        look == WorkerLook::Broken ==> !after.worker && after.status.state == ExportState::Failed
            && after.status.failure is Some && after.status.output_path is None
            && after.status.job_id == before.status.job_id,
{
}

} // verus!
