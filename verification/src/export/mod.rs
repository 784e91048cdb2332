//! Export jobs: their settings, what they are refused for, and how far they are.
use crate::project::names;
use crate::session::state::SessionState;
use crate::text;
use vstd::prelude::*;
use vstd::string::*;

pub mod destination;
pub mod job;
pub mod run;
pub mod scene;
pub mod session;

verus! {

/// One frame of compressed sound at 48 kHz, and some delay of its encoder.
pub const AUDIO_DURATION_SLACK_US: u64 = 80_000;

/// What an export is to look like.
#[derive(Debug, PartialEq)]
pub struct ExportSettings {
    pub video_codec: String,
    pub audio_codec: String,
    pub width: u32,
    pub height: u32,
    pub fps: u32,
    pub destination: Option<String>,
}

impl Clone for ExportSettings {
    fn clone(&self) -> (r: Self)
        ensures
            r == *self,
    {
        ExportSettings {
            video_codec: self.video_codec.clone(),
            audio_codec: self.audio_codec.clone(),
            width: self.width,
            height: self.height,
            fps: self.fps,
            destination: match &self.destination {
                Some(d) => Some(d.clone()),
                None => None,
            },
        }
    }
}

impl Default for ExportSettings {
    fn default() -> (r: Self)
        ensures
            r.video_codec@ == "h264"@,
            r.audio_codec@ == "aac"@,
            r.width == 1920,
            r.height == 1080,
            r.fps == 30,
            r.destination is None,
    {
        ExportSettings {
            video_codec: "h264".to_owned(),
            audio_codec: "aac".to_owned(),
            width: 1920,
            height: 1080,
            fps: 30,
            destination: None,
        }
    }
}

#[derive(Debug, Clone, Copy, PartialEq, Eq, Structural)]
pub enum ExportState {
    Idle,
    Queued,
    Running,
    Completed,
    Failed,
    Cancelled,
}

/// Why an export did not come about.
#[derive(Debug, PartialEq)]
pub enum ExportFailure {
    Collision { message: String },
    Cancelled { message: String },
    InvalidSettings { message: String },
    SourcePath { message: String },
    RecordingActive { message: String },
    EncoderBusy { message: String },
    Native { message: String },
    Io { message: String },
}

impl Clone for ExportFailure {
    fn clone(&self) -> (r: Self)
        ensures
            r == *self,
    {
        match self {
            ExportFailure::Collision { message } => ExportFailure::Collision {
                message: message.clone(),
            },
            ExportFailure::Cancelled { message } => ExportFailure::Cancelled {
                message: message.clone(),
            },
            ExportFailure::InvalidSettings { message } => ExportFailure::InvalidSettings {
                message: message.clone(),
            },
            ExportFailure::SourcePath { message } => ExportFailure::SourcePath {
                message: message.clone(),
            },
            ExportFailure::RecordingActive { message } => ExportFailure::RecordingActive {
                message: message.clone(),
            },
            ExportFailure::EncoderBusy { message } => ExportFailure::EncoderBusy {
                message: message.clone(),
            },
            ExportFailure::Native { message } => ExportFailure::Native {
                message: message.clone(),
            },
            ExportFailure::Io { message } => ExportFailure::Io { message: message.clone() },
        }
    }
}

/// A failure, with its message as characters.
pub enum Refusal {
    Collision(Seq<char>),
    Cancelled(Seq<char>),
    InvalidSettings(Seq<char>),
    SourcePath(Seq<char>),
    RecordingActive(Seq<char>),
    EncoderBusy(Seq<char>),
    Native(Seq<char>),
    Io(Seq<char>),
}

impl View for ExportFailure {
    type V = Refusal;

    open spec fn view(&self) -> Refusal {
        match self {
            ExportFailure::Collision { message } => Refusal::Collision(message@),
            ExportFailure::Cancelled { message } => Refusal::Cancelled(message@),
            ExportFailure::InvalidSettings { message } => Refusal::InvalidSettings(message@),
            ExportFailure::SourcePath { message } => Refusal::SourcePath(message@),
            ExportFailure::RecordingActive { message } => Refusal::RecordingActive(message@),
            ExportFailure::EncoderBusy { message } => Refusal::EncoderBusy(message@),
            ExportFailure::Native { message } => Refusal::Native(message@),
            ExportFailure::Io { message } => Refusal::Io(message@),
        }
    }
}

/// Whether an export can have this frame rate.
pub open spec fn allowed_fps(fps: u32) -> bool {
    fps == 10 || fps == 15 || fps == 24 || fps == 25 || fps == 30 || fps == 60
}

fn is_allowed_fps(fps: u32) -> (r: bool)
    ensures
        r == allowed_fps(fps),
{
    fps == 10 || fps == 15 || fps == 24 || fps == 25 || fps == 30 || fps == 60
}

/// Whether an export can have this size.
pub open spec fn allowed_canvas(width: u32, height: u32) -> bool {
    16 <= width <= 4096 && 16 <= height <= 4096 && width % 2 == 0 && height % 2 == 0
}

impl ExportSettings {
    /// Why nothing can be exported with these settings; `None` when it can.
    pub open spec fn refusal(self) -> Option<Refusal> {
        if text::lowered(self.video_codec@) != "h264"@ {
            Some(Refusal::InvalidSettings("Unsupported video codec: "@ + self.video_codec@))
        } else if text::lowered(self.audio_codec@) != "aac"@ {
            Some(Refusal::InvalidSettings("Unsupported audio codec: "@ + self.audio_codec@))
        } else if !allowed_fps(self.fps) {
            Some(
                Refusal::InvalidSettings(
                    "Unsupported export frame rate: "@ + text::decimal(self.fps as nat),
                ),
            )
        } else if !allowed_canvas(self.width, self.height) {
            Some(Refusal::InvalidSettings("Export canvas must be even, 16..=4096"@))
        } else {
            None
        }
    }
}

/// Checks that something can be exported with these settings.
pub fn validate_settings(settings: &ExportSettings) -> (r: Result<(), ExportFailure>)
    ensures
        match r {
            Ok(()) => settings.refusal() is None,
            Err(e) => settings.refusal() == Some(e@),
        },
{
    let video = text::to_ascii_lowercase(settings.video_codec.as_str());
    if !text::str_eq(video.as_str(), "h264") {
        let mut message: String = "Unsupported video codec: ".to_owned();
        message.append(settings.video_codec.as_str());
        return Err(ExportFailure::InvalidSettings { message });
    }
    let audio = text::to_ascii_lowercase(settings.audio_codec.as_str());
    if !text::str_eq(audio.as_str(), "aac") {
        let mut message: String = "Unsupported audio codec: ".to_owned();
        message.append(settings.audio_codec.as_str());
        return Err(ExportFailure::InvalidSettings { message });
    }
    if !is_allowed_fps(settings.fps) {
        let mut message: String = "Unsupported export frame rate: ".to_owned();
        text::push_decimal(&mut message, settings.fps as u64);
        return Err(ExportFailure::InvalidSettings { message });
    }
    if settings.width < 16 || settings.height < 16 || settings.width > 4096 || settings.height
        > 4096 || settings.width % 2 != 0 || settings.height % 2 != 0 {
        return Err(
            ExportFailure::InvalidSettings {
                message: "Export canvas must be even, 16..=4096".to_owned(),
            },
        );
    }
    Ok(())
}

/// What an export of a project is called, but for its extension.
pub open spec fn export_stem(name: Seq<char>) -> Seq<char> {
    let stem = names::folder_stem(name);
    if stem.len() == 0 {
        "Untitled"@
    } else if text::has_suffix(stem, ".mp4"@) || text::has_suffix(stem, ".MP4"@) {
        stem.take(stem.len() - 4)
    } else {
        stem
    }
}

/// What an export of a project is called.
pub fn default_export_filename(project_name: &str) -> (r: String)
    ensures
        r@ == export_stem(project_name@) + ".mp4"@,
{
    let stem = names::file_stem_for(project_name);
    let mut r: String = String::new();
    if stem.as_str().is_empty() {
        r.append("Untitled");
    } else if text::ends_with(stem.as_str(), ".mp4") || text::ends_with(stem.as_str(), ".MP4") {
        proof {
            reveal_strlit(".mp4");
            reveal_strlit(".MP4");
        }
        let v = text::to_chars(stem.as_str());
        let short = text::from_chars(&v, 0, v.len() - 4);
        r.append(short.as_str());
        assert(short@ =~= stem@.take(stem@.len() - 4));
    } else {
        r.append(stem.as_str());
    }
    assert(r@ =~= export_stem(project_name@));
    r.append(".mp4");
    r
}

/// The frames of an edit that lasts `duration_us`, the last one perhaps short.
pub open spec fn frames_of(duration_us: int, fps: int) -> int {
    (duration_us * fps + 999_999) / 1_000_000
}

/// Why an edit has no frames that can be exported; `None` when it has.
pub open spec fn frames_refusal(duration_us: u64, fps: u32) -> Option<Refusal> {
    if duration_us == 0 {
        Some(Refusal::InvalidSettings("Edited timeline is empty"@))
    } else if !allowed_fps(fps) {
        Some(Refusal::InvalidSettings("Unsupported frame rate"@))
    } else if frames_of(duration_us as int, fps as int) > u32::MAX {
        Some(Refusal::InvalidSettings("Timeline exceeds output timestamp bounds"@))
    } else {
        None
    }
}

/// The frames of an edit.
pub fn frame_count(duration_us: u64, fps: u32) -> (r: Result<u32, ExportFailure>)
    ensures
        match r {
            Ok(n) => frames_refusal(duration_us, fps) is None && n == frames_of(
                duration_us as int,
                fps as int,
            ),
            Err(e) => frames_refusal(duration_us, fps) == Some(e@),
        },
{
    if duration_us == 0 {
        return Err(
            ExportFailure::InvalidSettings { message: "Edited timeline is empty".to_owned() },
        );
    }
    if !is_allowed_fps(fps) {
        return Err(
            ExportFailure::InvalidSettings { message: "Unsupported frame rate".to_owned() },
        );
    }
    assert(0 <= duration_us * fps <= 0xffff_ffff_ffff_ffff * 60) by (nonlinear_arith)
        requires
            0 <= duration_us <= 0xffff_ffff_ffff_ffff,
            0 <= fps <= 60,
    ;
    let count: u128 = ((duration_us as u128) * (fps as u128) + 999_999) / 1_000_000;
    if count > u32::MAX as u128 {
        return Err(
            ExportFailure::InvalidSettings {
                message: "Timeline exceeds output timestamp bounds".to_owned(),
            },
        );
    }
    Ok(count as u32)
}

/// The time of an exported frame.
pub open spec fn time_of(index: int, fps: int) -> int {
    index * 1_000_000 / fps
}

/// The time of an exported frame.
pub fn frame_time_us(index: u32, fps: u32) -> (r: u64)
    requires
        fps > 0,
    ensures
        r == time_of(index as int, fps as int),
{
    assert(0 <= index * 1_000_000 / (fps as int) <= index * 1_000_000) by (nonlinear_arith)
        requires
            index >= 0,
            fps >= 1,
    ;
    ((index as u128) * 1_000_000 / (fps as u128)) as u64
}

/// The end of an edit is no sample of its export: every exported frame starts before
/// it, and the next one would not.
pub proof fn the_end_is_not_exported(duration_us: u64, fps: u32, index: int)
    requires
        allowed_fps(fps),
        0 <= index,
    ensures
        index < frames_of(duration_us as int, fps as int) <==> time_of(index, fps as int)
            < duration_us,
{
    let d = duration_us as int;
    let f = fps as int;
    let n = frames_of(d, f);
    let t = time_of(index, f);
    assert(t * f <= index * 1_000_000 < (t + 1) * f) by (nonlinear_arith)
        requires
            t == index * 1_000_000 / f,
            f > 0,
    ;
    if index < n {
        assert(index * 1_000_000 < d * f);
        assert(t < d) by (nonlinear_arith)
            requires
                t * f < d * f,
                f > 0,
        ;
    }
    if t < d {
        assert((t + 1) * f <= d * f) by (nonlinear_arith)
            requires
                t + 1 <= d,
                f > 0,
        ;
    }
}

/// Whether a recording keeps exports from starting.
pub open spec fn blocks_export(state: SessionState) -> bool {
    state == SessionState::Preparing || state == SessionState::Recording || state
        == SessionState::Paused || state == SessionState::Stopping
}

/// Whether a recording keeps exports from starting.
pub fn recording_blocks_export(state: SessionState) -> (r: bool)
    ensures
        r == blocks_export(state),
{
    matches!(
        state,
        SessionState::Preparing | SessionState::Recording | SessionState::Paused
            | SessionState::Stopping
    )
}

/// How an export job is doing.
#[derive(Debug, PartialEq)]
pub struct ExportStatus {
    pub job_id: String,
    pub state: ExportState,
    pub captured_revision: u64,
    pub video_codec: String,
    pub audio_codec: String,
    pub width: u32,
    pub height: u32,
    pub fps: u32,
    pub progress_numerator: u32,
    pub progress_denominator: u32,
    pub output_path: Option<String>,
    pub failure: Option<ExportFailure>,
    pub diagnostics: Vec<String>,
}

impl ExportStatus {
    /// Whether this is the status without a job.
    pub open spec fn is_idle(self) -> bool {
        &&& self.job_id@ == ""@
        &&& self.state == ExportState::Idle
        &&& self.captured_revision == 0
        &&& self.video_codec@ == "h264"@
        &&& self.audio_codec@ == "aac"@
        &&& self.width == 1920
        &&& self.height == 1080
        &&& self.fps == 30
        &&& self.progress_numerator == 0
        &&& self.progress_denominator == 0
        &&& self.output_path is None
        &&& self.failure is None
        &&& self.diagnostics@.len() == 0
    }

    /// There is no job.
    pub fn idle() -> (r: Self)
        ensures
            r.is_idle(),
    {
        ExportStatus {
            job_id: "".to_owned(),
            state: ExportState::Idle,
            captured_revision: 0,
            video_codec: "h264".to_owned(),
            audio_codec: "aac".to_owned(),
            width: 1920,
            height: 1080,
            fps: 30,
            progress_numerator: 0,
            progress_denominator: 0,
            output_path: None,
            failure: None,
            diagnostics: Vec::new(),
        }
    }

    /// Whether the job is still to be done.
    pub open spec fn pending(self) -> bool {
        self.state == ExportState::Queued || self.state == ExportState::Running
    }
}

/// Whether `s` is the status of a job that has made no progress.
pub open spec fn is_status(
    s: ExportStatus,
    job_id: Seq<char>,
    revision: u64,
    settings: ExportSettings,
    state: ExportState,
    failure: Option<Refusal>,
) -> bool {
    &&& s.job_id@ == job_id
    &&& s.state == state
    &&& s.captured_revision == revision
    &&& s.video_codec == settings.video_codec
    &&& s.audio_codec == settings.audio_codec
    &&& s.width == settings.width
    &&& s.height == settings.height
    &&& s.fps == settings.fps
    &&& s.progress_numerator == 0
    &&& s.progress_denominator == 0
    &&& s.output_path is None
    &&& match failure {
        Some(f) => s.failure matches Some(e) && e@ == f,
        None => s.failure is None,
    }
    &&& s.diagnostics@.len() == 0
}

/// The status of a job that has made no progress.
pub fn status_from(
    job_id: &str,
    revision: u64,
    settings: &ExportSettings,
    state: ExportState,
    failure: Option<ExportFailure>,
) -> (s: ExportStatus)
    ensures
        is_status(
            s,
            job_id@,
            revision,
            *settings,
            state,
            match failure {
                Some(f) => Some(f@),
                None => None,
            },
        ),
        s.failure == failure,
{
    ExportStatus {
        job_id: job_id.to_owned(),
        state,
        captured_revision: revision,
        video_codec: settings.video_codec.clone(),
        audio_codec: settings.audio_codec.clone(),
        width: settings.width,
        height: settings.height,
        fps: settings.fps,
        progress_numerator: 0,
        progress_denominator: 0,
        output_path: None,
        failure,
        diagnostics: Vec::new(),
    }
}

/// A picture is taken at the start of its turn, to the microsecond: no earlier than that, and
/// less than a microsecond before it.
pub proof fn pictures_are_taken_at_their_turn(index: int, fps: u32)
    requires
        allowed_fps(fps),
        0 <= index,
    ensures
        time_of(index, fps as int) * fps <= index * 1_000_000 < (time_of(index, fps as int) + 1)
            * fps,
        time_of(0, fps as int) == 0,
        time_of(index + fps, fps as int) == time_of(index, fps as int) + 1_000_000,
{
    let f = fps as int;
    assert(index * 1_000_000 / f * f <= index * 1_000_000 < (index * 1_000_000 / f + 1) * f)
        by (nonlinear_arith)
        requires
            f > 0,
    ;
    assert((index + f) * 1_000_000 / f == index * 1_000_000 / f + 1_000_000) by (nonlinear_arith)
        requires
            f > 0,
    ;
    assert(0int * 1_000_000 / f == 0) by (nonlinear_arith)
        requires
            f > 0,
    ;
}

/// Settings are accepted just when the codecs are known, the frame rate is one of those that
/// can be written, and the canvas has even sides of a size that can be encoded.
pub proof fn settings_that_can_be_encoded_are_accepted(s: ExportSettings)
    ensures
        s.refusal() is None <==> {
            &&& text::lowered(s.video_codec@) == "h264"@
            &&& text::lowered(s.audio_codec@) == "aac"@
            &&& seq![10u32, 15, 24, 25, 30, 60].contains(s.fps)
            &&& 16 <= s.width <= 4096 && s.width % 2 == 0
            &&& 16 <= s.height <= 4096 && s.height % 2 == 0
        },
        s.refusal() matches Some(r) ==> r is InvalidSettings,
{
    let rates = seq![10u32, 15, 24, 25, 30, 60];
    assert(rates[0] == 10 && rates[1] == 15 && rates[2] == 24 && rates[3] == 25 && rates[4] == 30
        && rates[5] == 60);
}

/// The name of an exported file ends in the extension once: a project that is named like
/// such a file keeps its name.
pub proof fn exported_files_are_named_once(name: Seq<char>)
    ensures
        ({
            let stem = names::folder_stem(name);
            let file = export_stem(name) + ".mp4"@;
            &&& text::has_suffix(file, ".mp4"@)
            &&& stem.len() == 0 ==> file == "Untitled.mp4"@
            &&& text::has_suffix(stem, ".mp4"@) && stem.len() > 0 ==> file == stem
            &&& text::has_suffix(stem, ".MP4"@) && stem.len() > 0 ==> file.len() == stem.len()
                && file.take(stem.len() - 4) == stem.take(stem.len() - 4)
            &&& stem.len() > 0 && !text::has_suffix(stem, ".mp4"@) && !text::has_suffix(
                stem,
                ".MP4"@,
            ) ==> file == stem + ".mp4"@
        }),
{
    reveal_strlit(".mp4");
    reveal_strlit(".MP4");
    reveal_strlit("Untitled");
    reveal_strlit("Untitled.mp4");
    let stem = names::folder_stem(name);
    let file = export_stem(name) + ".mp4"@;
    assert(file.skip(file.len() - 4) =~= ".mp4"@);
    if stem.len() == 0 {
        assert(file =~= "Untitled.mp4"@);
    } else if text::has_suffix(stem, ".mp4"@) {
        assert(stem.skip(stem.len() - 4) =~= ".mp4"@);
        assert(file =~= stem.take(stem.len() - 4) + stem.skip(stem.len() - 4));
        assert(file =~= stem);
    } else if text::has_suffix(stem, ".MP4"@) {
        assert(file.take(stem.len() - 4) =~= stem.take(stem.len() - 4));
    }
}

} // verus!
