//! Running an export, step by step: what is written next, what is checked at the end,
//! and when it stops.
use crate::export;
use crate::export::{frame_count, frame_time_us, ExportFailure, AUDIO_DURATION_SLACK_US};
use crate::media::audio::CHUNK_FRAMES;
use crate::text;
use crate::timeline;
use vstd::prelude::*;
use vstd::string::*;

verus! {

/// How far a run is.
#[derive(Debug, Clone, Copy, PartialEq, Eq, Structural)]
pub enum Stage {
    Video,
    Audio,
    Measure,
    DecodeFirst,
    DecodeLast,
    Publish,
    Done,
}

/// What is to be done next.
#[derive(Debug, Clone, Copy, PartialEq, Eq, Structural)]
pub enum RunAction {
    /// The picture at this time is written.
    WriteVideo { pts_us: u64 },
    /// So many frames of sound from the first on are written, at this time.
    WriteAudio { start: u64, count: usize, pts_us: u64 },
    /// So many of all pictures are written.
    Report { done: u32, total: u32 },
    /// The file is closed, as one of this duration.
    Finish { duration_us: u64 },
    /// The duration of the file is measured.
    Measure,
    /// The picture at this time is read back.
    Decode { pts_us: u64 },
    /// The file is published.
    Publish,
}

/// A run.
#[derive(Debug, Clone, Copy, PartialEq, Eq, Structural)]
pub struct ExportRun {
    pub duration_us: u64,
    pub fps: u32,
    pub width: u32,
    pub height: u32,
    pub frames: u32,
    pub has_audio: bool,
    pub audio_total: u64,
    pub index: u32,
    pub audio_frame: u64,
    pub stage: Stage,
}

/// The sound frames that belong to the first `n` pictures, of `total`.
pub open spec fn audio_upto(n: int, fps: int, total: int) -> int {
    timeline::min(n * 48_000 / fps, total)
}

pub open spec fn cancelled_refusal() -> export::Refusal {
    export::Refusal::Cancelled("Export cancelled"@)
}

fn cancelled_failure() -> (r: ExportFailure)
    ensures
        r@ == cancelled_refusal(),
{
    ExportFailure::Cancelled { message: "Export cancelled".to_owned() }
}

/// What is known before a run starts.
#[derive(Debug)]
pub struct RunStart {
    /// Whether the encoder could be had.
    pub gate: Result<(), String>,
    pub cancelled: bool,
    pub dest_exists: bool,
    pub temp_exists: bool,
    pub duration: Result<u64, String>,
    /// Whether there is sound, and how many frames of it.
    pub sound: Result<(bool, u64), String>,
}

/// Why a run does not start; `None` when it does.
pub open spec fn start_refusal(s: RunStart, fps: u32) -> Option<export::Refusal> {
    if s.gate is Err {
        Some(export::Refusal::EncoderBusy(s.gate->Err_0@))
    } else if s.cancelled {
        Some(cancelled_refusal())
    } else if s.dest_exists {
        Some(export::Refusal::Collision("Export destination already exists"@))
    } else if s.temp_exists {
        Some(export::Refusal::Collision("Temporary export path exists"@))
    } else if s.duration is Err {
        Some(export::Refusal::InvalidSettings(s.duration->Err_0@))
    } else if export::frames_refusal(s.duration->Ok_0, fps) is Some {
        export::frames_refusal(s.duration->Ok_0, fps)
    } else if s.sound is Err {
        Some(export::Refusal::Io(s.sound->Err_0@))
    } else {
        None
    }
}

impl ExportRun {
    /// The counts are those of the edit, and the sound that belongs to the pictures so
    /// far is written.
    pub open spec fn wf(self) -> bool {
        &&& export::allowed_fps(self.fps)
        &&& self.duration_us > 0
        &&& self.frames == export::frames_of(self.duration_us as int, self.fps as int)
        &&& self.has_audio ==> self.audio_total == self.duration_us * 48_000 / 1_000_000
        &&& self.index <= self.frames
        &&& self.stage == Stage::Audio ==> self.index < self.frames
        &&& self.stage != Stage::Video && self.stage != Stage::Audio ==> self.index == self.frames
        &&& self.stage == Stage::Audio && self.has_audio ==> audio_upto(
            self.index as int,
            self.fps as int,
            self.audio_total as int,
        ) <= self.audio_frame <= audio_upto(
            self.index + 1,
            self.fps as int,
            self.audio_total as int,
        )
        &&& self.stage != Stage::Audio && self.has_audio ==> self.audio_frame == audio_upto(
            self.index as int,
            self.fps as int,
            self.audio_total as int,
        )
        &&& !self.has_audio ==> self.audio_frame == 0
    }

    /// Starts a run.
    pub fn start(s: RunStart, fps: u32, width: u32, height: u32) -> (r: Result<
        ExportRun,
        ExportFailure,
    >)
        requires
            s.duration is Ok && s.sound is Ok && s.sound->Ok_0.0 ==> s.sound->Ok_0.1
                == s.duration->Ok_0 * 48_000 / 1_000_000,
        ensures
            match r {
                Ok(run) => {
                    &&& start_refusal(s, fps) is None
                    &&& run.wf()
                    &&& run == (ExportRun {
                        duration_us: s.duration->Ok_0,
                        fps,
                        width,
                        height,
                        frames: run.frames,
                        has_audio: s.sound->Ok_0.0,
                        audio_total: s.sound->Ok_0.1,
                        index: 0,
                        audio_frame: 0,
                        stage: Stage::Video,
                    })
                },
                Err(e) => start_refusal(s, fps) == Some(e@),
            },
    {
        match s.gate {
            Ok(()) => {},
            Err(message) => {
                return Err(ExportFailure::EncoderBusy { message });
            },
        }
        if s.cancelled {
            return Err(cancelled_failure());
        }
        if s.dest_exists {
            return Err(
                ExportFailure::Collision {
                    message: "Export destination already exists".to_owned(),
                },
            );
        }
        if s.temp_exists {
            return Err(
                ExportFailure::Collision { message: "Temporary export path exists".to_owned() },
            );
        }
        let duration_us: u64 = match s.duration {
            Ok(d) => d,
            Err(message) => {
                return Err(ExportFailure::InvalidSettings { message });
            },
        };
        let frames: u32 = match frame_count(duration_us, fps) {
            Ok(n) => n,
            Err(e) => {
                return Err(e);
            },
        };
        let (has_audio, audio_total): (bool, u64) = match s.sound {
            Ok(p) => p,
            Err(message) => {
                return Err(ExportFailure::Io { message });
            },
        };
        assert(0int * 48_000 / (fps as int) == 0) by (nonlinear_arith)
            requires
                fps > 0,
        ;
        Ok(
            ExportRun {
                duration_us,
                fps,
                width,
                height,
                frames,
                has_audio,
                audio_total,
                index: 0,
                audio_frame: 0,
                stage: Stage::Video,
            },
        )
    }

    /// The last sound frame that belongs to the picture that was written last.
    pub open spec fn audio_end(self) -> int {
        audio_upto(self.index + 1, self.fps as int, self.audio_total as int)
    }

    /// What is done next, and the run after it; or that the run stops.
    pub open spec fn step(self, cancelled: bool) -> Result<(RunAction, ExportRun), export::Refusal> {
        match self.stage {
            Stage::Video => if self.index < self.frames {
                if cancelled {
                    Err(cancelled_refusal())
                } else {
                    Ok(
                        (
                            RunAction::WriteVideo {
                                pts_us: export::time_of(self.index as int, self.fps as int) as u64,
                            },
                            ExportRun { stage: Stage::Audio, ..self },
                        ),
                    )
                }
            } else {
                Ok(
                    (
                        RunAction::Finish { duration_us: self.duration_us },
                        ExportRun { stage: Stage::Measure, ..self },
                    ),
                )
            },
            Stage::Audio => if self.has_audio && self.audio_frame < self.audio_end() {
                if cancelled {
                    Err(cancelled_refusal())
                } else {
                    let count = timeline::min(
                        CHUNK_FRAMES as int,
                        self.audio_end() - self.audio_frame,
                    );
                    Ok(
                        (
                            RunAction::WriteAudio {
                                start: self.audio_frame,
                                count: count as usize,
                                pts_us: (self.audio_frame * 1_000_000 / 48_000) as u64,
                            },
                            ExportRun { audio_frame: (self.audio_frame + count) as u64, ..self },
                        ),
                    )
                }
            } else {
                Ok(
                    (
                        RunAction::Report {
                            done: (self.index + 1) as u32,
                            total: self.frames,
                        },
                        ExportRun { index: (self.index + 1) as u32, stage: Stage::Video, ..self },
                    ),
                )
            },
            Stage::Measure => if cancelled {
                Err(cancelled_refusal())
            } else {
                Ok((RunAction::Measure, ExportRun { stage: Stage::DecodeFirst, ..self }))
            },
            Stage::DecodeFirst => Ok(
                (
                    RunAction::Decode { pts_us: 0 },
                    ExportRun { stage: Stage::DecodeLast, ..self },
                ),
            ),
            Stage::DecodeLast => Ok(
                (
                    RunAction::Decode {
                        pts_us: export::time_of(self.frames - 1, self.fps as int) as u64,
                    },
                    ExportRun { stage: Stage::Publish, ..self },
                ),
            ),
            Stage::Publish => if cancelled {
                Err(cancelled_refusal())
            } else {
                Ok((RunAction::Publish, ExportRun { stage: Stage::Done, ..self }))
            },
            Stage::Done => Err(cancelled_refusal()),
        }
    }

    /// Goes one step on.
    pub fn next(&mut self, cancelled: bool) -> (r: Result<RunAction, ExportFailure>)
        requires
            old(self).wf(),
            old(self).stage != Stage::Done,
        ensures
            final(self).wf(),
            match r {
                Ok(action) => old(self).step(cancelled) == Ok::<
                    (RunAction, ExportRun),
                    export::Refusal,
                >((action, *final(self))),
                Err(e) => *final(self) == *old(self) && old(self).step(cancelled) == Err::<
                    (RunAction, ExportRun),
                    export::Refusal,
                >(e@),
            },
    {
        proof {
            lemma_audio_steps(self.index as int, self.fps as int, self.audio_total as int);
            lemma_frames_positive(self.duration_us as int, self.fps as int);
        }
        match self.stage {
            Stage::Video => {
                if self.index < self.frames {
                    if cancelled {
                        return Err(cancelled_failure());
                    }
                    let pts_us: u64 = frame_time_us(self.index, self.fps);
                    self.stage = Stage::Audio;
                    Ok(RunAction::WriteVideo { pts_us })
                } else {
                    self.stage = Stage::Measure;
                    Ok(RunAction::Finish { duration_us: self.duration_us })
                }
            },
            Stage::Audio => {
                let reach: u64 = ((self.index as u64) + 1) * 48_000 / (self.fps as u64);
                let end: u64 = if reach <= self.audio_total {
                    reach
                } else {
                    self.audio_total
                };
                if self.has_audio && self.audio_frame < end {
                    if cancelled {
                        return Err(cancelled_failure());
                    }
                    let start: u64 = self.audio_frame;
                    let left: u64 = end - start;
                    let count: usize = if left >= CHUNK_FRAMES as u64 {
                        CHUNK_FRAMES
                    } else {
                        left as usize
                    };
                    let pts_us: u64 = ((start as u128) * 1_000_000 / 48_000) as u64;
                    self.audio_frame = start + (count as u64);
                    Ok(RunAction::WriteAudio { start, count, pts_us })
                } else {
                    self.index = self.index + 1;
                    self.stage = Stage::Video;
                    Ok(RunAction::Report { done: self.index, total: self.frames })
                }
            },
            Stage::Measure => {
                if cancelled {
                    return Err(cancelled_failure());
                }
                self.stage = Stage::DecodeFirst;
                Ok(RunAction::Measure)
            },
            Stage::DecodeFirst => {
                self.stage = Stage::DecodeLast;
                Ok(RunAction::Decode { pts_us: 0 })
            },
            Stage::DecodeLast => {
                let pts_us: u64 = frame_time_us(self.frames - 1, self.fps);
                self.stage = Stage::Publish;
                Ok(RunAction::Decode { pts_us })
            },
            Stage::Publish => {
                if cancelled {
                    return Err(cancelled_failure());
                }
                self.stage = Stage::Done;
                Ok(RunAction::Publish)
            },
            Stage::Done => Err(cancelled_failure()),
        }
    }

    /// Whether a measured duration is too far from the edit's.
    pub open spec fn duration_off(self, actual_us: u64) -> bool {
        actual_us - self.duration_us > AUDIO_DURATION_SLACK_US || self.duration_us - actual_us
            > AUDIO_DURATION_SLACK_US
    }

    /// Checks the measured duration of the file.
    pub fn measured(&self, actual_us: u64) -> (r: Result<(), ExportFailure>)
        ensures
            match r {
                Ok(()) => !self.duration_off(actual_us),
                Err(e) => self.duration_off(actual_us) && e@ == export::Refusal::Native(
                    "Output duration "@ + text::decimal(actual_us as nat) + " differs from "@
                        + text::decimal(self.duration_us as nat),
                ),
            },
    {
        let off: u64 = if actual_us >= self.duration_us {
            actual_us - self.duration_us
        } else {
            self.duration_us - actual_us
        };
        if off > AUDIO_DURATION_SLACK_US {
            let mut message: String = "Output duration ".to_owned();
            text::push_decimal(&mut message, actual_us);
            message.append(" differs from ");
            text::push_decimal(&mut message, self.duration_us);
            return Err(ExportFailure::Native { message });
        }
        Ok(())
    }

    /// Checks the size of a picture that was read back.
    pub fn decoded(&self, width: u32, height: u32) -> (r: Result<(), ExportFailure>)
        ensures
            match r {
                Ok(()) => width == self.width && height == self.height,
                Err(e) => (width != self.width || height != self.height) && e@
                    == export::Refusal::Native("Output dimensions do not match settings"@),
            },
    {
        if width != self.width || height != self.height {
            return Err(
                ExportFailure::Native {
                    message: "Output dimensions do not match settings".to_owned(),
                },
            );
        }
        Ok(())
    }
}

proof fn lemma_audio_steps(n: int, fps: int, total: int)
    requires
        0 <= n,
        0 < fps,
        0 <= total,
    ensures
        0 <= audio_upto(n, fps, total) <= audio_upto(n + 1, fps, total) <= total,
        0 <= n * 48_000 / fps <= (n + 1) * 48_000 / fps <= (n + 1) * 48_000,
{
    assert(0 <= n * 48_000 / fps <= (n + 1) * 48_000 / fps) by (nonlinear_arith)
        requires
            0 <= n,
            0 < fps,
    ;
    assert((n + 1) * 48_000 / fps <= (n + 1) * 48_000) by (nonlinear_arith)
        requires
            0 <= n,
            1 <= fps,
    ;
}

proof fn lemma_frames_positive(duration: int, fps: int)
    requires
        duration > 0,
        fps > 0,
    ensures
        export::frames_of(duration, fps) > 0,
{
    assert(duration * fps >= 1) by (nonlinear_arith)
        requires
            duration >= 1,
            fps >= 1,
    ;
}

/// Every picture that is written lies before the end of the edit.
pub proof fn written_pictures_lie_in_the_edit(run: ExportRun)
    requires
        run.wf(),
        run.stage == Stage::Video,
        run.index < run.frames,
    ensures
        run.step(false) matches Ok(p) && (p.0 matches RunAction::WriteVideo { pts_us } && pts_us
            < run.duration_us),
{
    export::the_end_is_not_exported(run.duration_us, run.fps, run.index as int);
    assert(0 <= run.index * 1_000_000 / (run.fps as int)) by (nonlinear_arith)
        requires
            run.index >= 0,
            run.fps >= 1,
    ;
}

/// Each picture comes after the one before it.
pub proof fn pictures_come_in_order(index: int, fps: u32)
    requires
        export::allowed_fps(fps),
        0 <= index,
    ensures
        export::time_of(index, fps as int) < export::time_of(index + 1, fps as int),
{
    let f = fps as int;
    assert(index * 1_000_000 / f < (index + 1) * 1_000_000 / f) by (nonlinear_arith)
        requires
            0 < f <= 60,
            0 <= index,
    ;
}

/// Once all pictures are written, all of the sound is.
pub proof fn all_sound_is_written(run: ExportRun)
    requires
        run.wf(),
        run.index == run.frames,
        run.has_audio,
    ensures
        run.audio_frame == run.audio_total,
{
    let d = run.duration_us as int;
    let f = run.fps as int;
    let n = run.frames as int;
    let t = run.audio_total as int;
    assert(n * 1_000_000 >= d * f);
    assert(t * 1_000_000 <= d * 48_000);
    assert(n * 48_000 >= t * f) by (nonlinear_arith)
        requires
            n * 1_000_000 >= d * f,
            t * 1_000_000 <= d * 48_000,
            f >= 1,
            n >= 0,
            t >= 0,
            d >= 0,
    ;
    assert(n * 48_000 / f >= t) by (nonlinear_arith)
        requires
            n * 48_000 >= t * f,
            f >= 1,
    ;
}

/// A run that is cancelled publishes nothing.
pub proof fn cancelled_runs_publish_nothing(run: ExportRun)
    requires
        run.wf(),
    ensures
        run.step(true) matches Ok(p) ==> p.0 != RunAction::Publish,
{
}

/// What the file system says while a file is published.
#[derive(Debug)]
pub struct PublishLook {
    pub dest_exists: bool,
    pub sync: Result<(), String>,
    /// Linking the file to its destination, without replacing what is there.
    pub link: Result<(), String>,
    pub dest_exists_after: bool,
    /// Where linking is not possible: moving it, without replacing what is there.
    pub rename: Option<RenameLook>,
}

#[derive(Debug)]
pub enum RenameLook {
    Done,
    AlreadyExists,
    Failed(String),
}

/// Why a file was not published; `None` when it was.
pub open spec fn publish_refusal(l: PublishLook) -> Option<export::Refusal> {
    let collision = export::Refusal::Collision("Export destination already exists"@);
    if l.dest_exists {
        Some(collision)
    } else if l.sync is Err {
        Some(export::Refusal::Io(l.sync->Err_0@))
    } else if l.link is Ok {
        None
    } else if l.dest_exists_after {
        Some(collision)
    } else {
        match l.rename {
            Some(RenameLook::Done) => None,
            Some(RenameLook::AlreadyExists) => Some(collision),
            Some(RenameLook::Failed(e)) => Some(export::Refusal::Io(e@)),
            None => Some(export::Refusal::Io(l.link->Err_0@)),
        }
    }
}

fn collision() -> (r: ExportFailure)
    ensures
        r@ == export::Refusal::Collision("Export destination already exists"@),
{
    ExportFailure::Collision { message: "Export destination already exists".to_owned() }
}

/// What became of a file that was to be published.
pub fn publish_output(l: PublishLook) -> (r: Result<(), ExportFailure>)
    ensures
        match r {
            Ok(()) => publish_refusal(l) is None,
            Err(e) => publish_refusal(l) == Some(e@),
        },
{
    if l.dest_exists {
        return Err(collision());
    }
    match l.sync {
        Ok(()) => {},
        Err(message) => {
            return Err(ExportFailure::Io { message });
        },
    }
    let why: String = match l.link {
        Ok(()) => {
            return Ok(());
        },
        Err(e) => e,
    };
    if l.dest_exists_after {
        return Err(collision());
    }
    match l.rename {
        Some(RenameLook::Done) => Ok(()),
        Some(RenameLook::AlreadyExists) => Err(collision()),
        Some(RenameLook::Failed(message)) => Err(ExportFailure::Io { message }),
        None => Err(ExportFailure::Io { message: why }),
    }
}

/// The run writes the picture whose turn it is, at the start of its turn, and then the sound
/// up to the next one.
pub proof fn each_picture_is_written_in_its_turn(run: ExportRun)
    requires
        run.wf(),
        run.stage == Stage::Video,
        run.index < run.frames,
    ensures
        run.step(false) matches Ok(p) && p.0 matches RunAction::WriteVideo { pts_us } && {
            &&& pts_us * run.fps <= run.index * 1_000_000 < (pts_us + 1) * run.fps
            &&& p.1.stage == Stage::Audio
            &&& p.1 == (ExportRun { stage: Stage::Audio, ..run })
        },
{
    export::pictures_are_taken_at_their_turn(run.index as int, run.fps);
    written_pictures_lie_in_the_edit(run);
    let f = run.fps as int;
    let i = run.index as int;
    assert(0 <= i * 1_000_000 / f) by (nonlinear_arith)
        requires
            0 <= i,
            0 < f,
    ;
}

/// Sound is written without gaps and in its place: each chunk starts where the last one
/// ended, at the time of its first frame, and holds no frame that belongs to a later picture.
/// Once the picture is reported, all the sound up to the next picture is written.
pub proof fn sound_is_written_beside_its_picture(run: ExportRun)
    requires
        run.wf(),
        run.stage == Stage::Audio,
    ensures
        run.step(false) matches Ok(p) && match p.0 {
            RunAction::WriteAudio { start, count, pts_us } => {
                &&& run.has_audio
                &&& start == run.audio_frame
                &&& 0 < count <= 4_800
                &&& start + count <= run.audio_total
                &&& (start + count) * run.fps <= (run.index + 1) * 48_000
                &&& pts_us * 48_000 <= start * 1_000_000 < (pts_us + 1) * 48_000
                &&& p.1 == (ExportRun { audio_frame: (start + count) as u64, ..run })
                &&& p.1.audio_frame == start + count
            },
            RunAction::Report { done, total } => {
                &&& done == run.index + 1
                &&& total == run.frames
                &&& p.1.index == run.index + 1
                &&& p.1.stage == Stage::Video
                &&& p.1.audio_frame == run.audio_frame
                &&& run.has_audio ==> run.audio_frame == run.audio_total || (run.index + 1)
                    * 48_000 < (run.audio_frame + 1) * run.fps
            },
            _ => false,
        },
{
    let f = run.fps as int;
    let n = (run.index + 1) * 48_000;
    let end = run.audio_end();
    assert(n / f * f <= n < (n / f + 1) * f) by (nonlinear_arith)
        requires
            f > 0,
    ;
    if run.has_audio && run.audio_frame < end {
        let count = timeline::min(CHUNK_FRAMES as int, end - run.audio_frame);
        let upto = run.audio_frame + count;
        assert(upto * f <= n / f * f) by (nonlinear_arith)
            requires
                upto <= n / f,
                f > 0,
        ;
        assert(run.audio_total <= u64::MAX);
        assert(run.audio_frame * 1_000_000 / 48_000 <= run.duration_us);
    } else if run.has_audio && run.audio_frame != run.audio_total {
        assert(run.audio_frame == n / f);
    }
}

/// After the last picture the file is closed as long as the edit, measured, its first and its
/// last picture are read back, and it is published: in this order, each once.
pub proof fn a_file_is_read_back_before_it_is_published(run: ExportRun)
    requires
        run.wf(),
        run.stage == Stage::Video,
        run.index == run.frames,
    ensures
        ({
            let finish = run.step(false);
            let measure = finish->Ok_0.1.step(false);
            let first = measure->Ok_0.1.step(false);
            let last = first->Ok_0.1.step(false);
            let publish = last->Ok_0.1.step(false);
            &&& finish is Ok
            &&& finish->Ok_0.0 == (RunAction::Finish { duration_us: run.duration_us })
            &&& measure is Ok
            &&& measure->Ok_0.0 == RunAction::Measure
            &&& first is Ok
            &&& first->Ok_0.0 == (RunAction::Decode { pts_us: 0 })
            &&& last is Ok
            &&& last->Ok_0.0 matches RunAction::Decode { pts_us } && {
                &&& pts_us * run.fps <= (run.frames - 1) * 1_000_000 < (pts_us + 1) * run.fps
                &&& pts_us < run.duration_us
            }
            &&& run.duration_us * run.fps <= run.frames * 1_000_000
            &&& publish is Ok
            &&& publish->Ok_0.0 == RunAction::Publish
            &&& publish->Ok_0.1 == (ExportRun { stage: Stage::Done, ..run })
        }),
{
    let f = run.fps as int;
    let last = run.frames - 1;
    assert(run.frames >= 1) by (nonlinear_arith)
        requires
            run.frames == (run.duration_us * run.fps + 999_999) / 1_000_000,
            run.duration_us > 0,
            run.fps > 0,
    ;
    export::pictures_are_taken_at_their_turn(last, run.fps);
    export::the_end_is_not_exported(run.duration_us, run.fps, last);
    export::the_end_is_not_exported(run.duration_us, run.fps, run.frames as int);
    assert(0 <= last * 1_000_000 / f) by (nonlinear_arith)
        requires
            0 <= last,
            0 < f,
    ;
}

/// A run that is cancelled stops before the next picture or sound is written, before the file
/// is measured, and before it is published.
pub proof fn cancelled_runs_stop(run: ExportRun)
    requires
        run.wf(),
    ensures
        run.step(true) matches Ok(p) ==> !(p.0 is WriteVideo) && !(p.0 is WriteAudio) && !(
        p.0 is Measure) && !(p.0 is Publish),
        run.step(true) matches Err(e) ==> e == export::Refusal::Cancelled("Export cancelled"@),
        run.stage != Stage::Done ==> run.step(false) is Ok,
{
}

/// A file is as long as the edit when they differ by no more than 80 milliseconds.
pub proof fn durations_may_differ_a_little(run: ExportRun, actual_us: u64)
    ensures
        run.duration_off(actual_us) <==> actual_us > run.duration_us + 80_000 || actual_us + 80_000
            < run.duration_us,
{
}

/// A file is published only where nothing stood before, once it is on disk, and only by a
/// link or a move that replaces nothing. Whatever stands in the way is a collision.
pub proof fn publishing_replaces_nothing(l: PublishLook)
    ensures
        publish_refusal(l) is None <==> !l.dest_exists && l.sync is Ok && (l.link is Ok || (
        !l.dest_exists_after && l.rename == Some(RenameLook::Done))),
        l.dest_exists ==> publish_refusal(l) == Some(
            export::Refusal::Collision("Export destination already exists"@),
        ),
        publish_refusal(l) matches Some(r) && r is Collision ==> l.dest_exists
            || l.dest_exists_after || l.rename == Some(RenameLook::AlreadyExists),
{
}

/// A run starts only where the encoder is free, nobody has cancelled, nothing stands at its
/// destination, and there is something to show.
pub proof fn runs_start_where_they_can(s: RunStart, fps: u32)
    ensures
        start_refusal(s, fps) is None <==> s.gate is Ok && !s.cancelled && !s.dest_exists
            && !s.temp_exists && s.duration is Ok && s.sound is Ok && s.duration->Ok_0 > 0
            && export::allowed_fps(fps) && s.duration->Ok_0 * fps <= u32::MAX * 1_000_000,
{
    let d = s.duration->Ok_0 as int;
    let n = d * fps;
    assert((n + 999_999) / 1_000_000 > u32::MAX <==> n > u32::MAX * 1_000_000);
}

} // verus!
