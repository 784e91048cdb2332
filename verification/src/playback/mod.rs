//! Playback: what is decoded at an edited time, and the clock that moves it on.
use crate::media::audio;
use crate::media::audio::copy_segments;
use crate::paths;
use crate::playback::files::OpenFiles;
use crate::playback::plan::{notes_of, plan_tracks, TrackDecodePlan};
use crate::project::manifest;
use crate::project::manifest::TrackType;
use crate::project::reader::{ProjectReader, SegmentSummary, TrackSummary};
use crate::project::revision::{copy_intervals, copy_texts, EditDocument};
use crate::timeline;
use crate::timeline::{RetainedInterval, TimelineMapper, MAX_SAFE_TIME};
use vstd::prelude::*;
use vstd::string::*;

pub mod engine;
pub mod files;
pub mod plan;
pub mod preview;

verus! {

#[derive(Debug, Clone, Copy, PartialEq, Eq, Structural)]
pub enum PlaybackState {
    Closed,
    Ready,
    Playing,
    Paused,
    Seeking,
    Ended,
    Error,
}

#[derive(Debug, Clone, Copy, PartialEq, Eq, Structural)]
pub enum ClockKind {
    Audio,
    Monotonic,
}

/// How playback is doing.
#[derive(Debug, PartialEq)]
pub struct PlaybackStatus {
    pub project_handle: String,
    pub state: PlaybackState,
    pub generation: u64,
    pub position_us: u64,
    pub duration_us: u64,
    pub clock_kind: ClockKind,
    pub preview_available: bool,
    pub open_files: usize,
    pub plans: Vec<TrackDecodePlan>,
    pub error: Option<String>,
    pub diagnostics: Vec<String>,
}

/// What the clocks say: a monotonic time, and the frames that the sound device has
/// played, or why it has stopped.
#[derive(Debug)]
pub struct Reading {
    pub now_us: u64,
    pub frames: Result<u64, String>,
}

/// The largest number of frames that a sound device counts.
pub const MAX_FRAMES: u64 = 0x7fff_ffff_ffff_ffff;

/// What comes of a request to play.
#[derive(Debug, Clone, Copy, PartialEq, Eq, Structural)]
pub enum PlayStep {
    /// It plays, and has moved or not since the clock was last read.
    Playing(bool),
    /// It had ended, and starts over once what is decoded at its start is planned.
    StartOver,
}

/// Playback of an edit.
#[derive(Debug)]
pub struct PlaybackOwner {
    pub native_enabled: bool,
    /// Whether a sound device is playing.
    pub audio: bool,
    pub audio_start_frame: u64,
    pub audio_queued_frame: u64,
    pub preview_available: bool,
    pub project_handle: String,
    pub state: PlaybackState,
    pub generation: u64,
    pub position_us: u64,
    pub duration_us: u64,
    pub retained: Vec<RetainedInterval>,
    pub tracks: Vec<(TrackSummary, Vec<SegmentSummary>)>,
    pub files: OpenFiles,
    pub last_accepted_generation: u64,
    /// A monotonic time, and the edited time that played then.
    pub play_anchor: Option<(u64, u64)>,
    pub error: Option<String>,
    pub diagnostics: Vec<String>,
}

/// The source time that plays at an edited time.
pub open spec fn sampled(retained: Seq<RetainedInterval>, t: u64) -> Option<u64> {
    if timeline::retained_fault(retained) is Some {
        None
    } else {
        match timeline::to_source(retained, t as int) {
            Some(x) => Some(x as u64),
            None => None,
        }
    }
}

/// Whether any of the segments is available.
pub open spec fn any_available(s: Seq<SegmentSummary>) -> bool {
    exists|j: int| 0 <= j < s.len() && (#[trigger] s[j]).available
}

fn has_available(s: &Vec<SegmentSummary>) -> (r: bool)
    ensures
        r == any_available(s@),
{
    let mut i: usize = 0;
    while i < s.len()
        invariant
            i <= s@.len(),
            forall|j: int| 0 <= j < i ==> !(#[trigger] s@[j]).available,
        decreases s@.len() - i,
    {
        if s[i].available {
            assert(s@[i as int].available);
            return true;
        }
        i = i + 1;
    }
    false
}

/// The edited time of a frame of sound.
pub open spec fn frame_position(duration: int, frame: int) -> int {
    if frame >= duration * 48_000 / 1_000_000 {
        duration
    } else {
        frame * 1_000_000 / 48_000
    }
}

impl PlaybackOwner {
    /// The position lies in the edit, and few files are open.
    pub open spec fn wf(&self) -> bool {
        &&& self.position_us <= self.duration_us <= MAX_SAFE_TIME
        &&& self.files.wf()
        &&& self.audio_start_frame <= MAX_FRAMES
    }

    /// Whether there is sound to be played by a device.
    pub open spec fn audible(&self) -> bool {
        self.native_enabled && exists|i: int|
            0 <= i < self.tracks@.len() && audio::is_sound(
                (#[trigger] self.tracks@[i]).0.descriptor.track_type,
            ) && any_available(self.tracks@[i].1@)
    }

    /// Why nothing can be played; `None` when something can.
    pub open spec fn refusal(&self) -> Option<Seq<char>> {
        if self.state == PlaybackState::Closed {
            Some("Playback is closed"@)
        } else if self.state == PlaybackState::Error {
            Some(
                match self.error {
                    Some(e) => e@,
                    None => "Playback error"@,
                },
            )
        } else {
            None
        }
    }

    /// Nothing is open.
    pub fn closed() -> (r: Self)
        ensures
            r.wf(),
            !r.native_enabled,
            !r.audio,
            r.audio_start_frame == 0,
            r.audio_queued_frame == 0,
            !r.preview_available,
            r.project_handle@ == ""@,
            r.state == PlaybackState::Closed,
            r.generation == 0,
            r.position_us == 0,
            r.duration_us == 0,
            r.retained@.len() == 0,
            r.tracks@.len() == 0,
            r.files@.len() == 0,
            r.last_accepted_generation == 0,
            r.play_anchor is None,
            r.error is None,
            r.diagnostics@.len() == 0,
    {
        PlaybackOwner {
            native_enabled: false,
            audio: false,
            audio_start_frame: 0,
            audio_queued_frame: 0,
            preview_available: false,
            project_handle: "".to_owned(),
            state: PlaybackState::Closed,
            generation: 0,
            position_us: 0,
            duration_us: 0,
            retained: Vec::new(),
            tracks: Vec::new(),
            files: OpenFiles::new(),
            last_accepted_generation: 0,
            play_anchor: None,
            error: None,
            diagnostics: Vec::new(),
        }
    }

    /// Opens an edit, at its start.
    pub fn open(
        project_handle: String,
        document: &EditDocument,
        tracks: Vec<(TrackSummary, Vec<SegmentSummary>)>,
        generation: u64,
    ) -> (r: Result<Self, String>)
        ensures
            match r {
                Ok(o) => {
                    &&& timeline::retained_fault(document@.retained) is None
                    &&& o.wf()
                    &&& !o.native_enabled
                    &&& !o.audio
                    &&& o.audio_start_frame == 0
                    &&& o.audio_queued_frame == 0
                    &&& !o.preview_available
                    &&& o.project_handle == project_handle
                    &&& o.state == if timeline::total(document@.retained) == 0 {
                        PlaybackState::Ended
                    } else {
                        PlaybackState::Ready
                    }
                    &&& o.generation == generation
                    &&& o.position_us == 0
                    &&& o.duration_us == timeline::total(document@.retained)
                    &&& o.retained@ == document@.retained
                    &&& o.tracks == tracks
                    &&& o.files@.len() == 0
                    &&& o.last_accepted_generation == 0
                    &&& o.play_anchor is None
                    &&& o.error is None
                    &&& o.diagnostics@.len() == 0
                },
                Err(e) => timeline::retained_fault(document@.retained) == Some(e@),
            },
    {
        let duration_us: u64 = match document.edited_duration_us() {
            Ok(d) => d,
            Err(e) => {
                return Err(e);
            },
        };
        proof {
            timeline::retainable_means_ordered(document@.retained);
            timeline::edited_duration_is_bounded(document@.retained);
        }
        let mut o: PlaybackOwner = PlaybackOwner::closed();
        o.project_handle = project_handle;
        o.state =
        if duration_us == 0 {
            PlaybackState::Ended
        } else {
            PlaybackState::Ready
        };
        o.generation = generation;
        o.duration_us = duration_us;
        o.retained = copy_intervals(&document.retained_intervals);
        o.tracks = tracks;
        Ok(o)
    }

    /// Closes what is open.
    pub fn close(&mut self)
        ensures
            final(self).wf(),
            final(self).state == PlaybackState::Closed,
            final(self).generation == 0,
            final(self).position_us == 0,
            final(self).duration_us == 0,
            final(self).project_handle@ == ""@,
            final(self).retained@.len() == 0,
            final(self).tracks@.len() == 0,
            final(self).files@.len() == 0,
            final(self).diagnostics@.len() == 0,
            *final(self) == (PlaybackOwner {
                native_enabled: false,
                audio: false,
                audio_start_frame: 0,
                audio_queued_frame: 0,
                preview_available: false,
                last_accepted_generation: 0,
                play_anchor: None,
                error: None,
                ..*final(self)
            }),
    {
        *self = PlaybackOwner::closed();
    }

    /// Checks that something can be played.
    pub fn ensure_open(&self) -> (r: Result<(), String>)
        ensures
            match r {
                Ok(()) => self.refusal() is None,
                Err(e) => self.refusal() == Some(e@),
            },
    {
        if self.state == PlaybackState::Closed {
            return Err("Playback is closed".to_owned());
        }
        if self.state == PlaybackState::Error {
            return Err(
                match &self.error {
                    Some(e) => e.clone(),
                    None => "Playback error".to_owned(),
                },
            );
        }
        Ok(())
    }

    /// Whether there is sound to be played by a device.
    pub fn needs_audio(&self) -> (r: bool)
        ensures
            r == self.audible(),
    {
        if !self.native_enabled {
            return false;
        }
        let mut i: usize = 0;
        while i < self.tracks.len()
            invariant
                i <= self.tracks@.len(),
                self.native_enabled,
                forall|k: int|
                    0 <= k < i ==> !(audio::is_sound(
                        (#[trigger] self.tracks@[k]).0.descriptor.track_type,
                    ) && any_available(self.tracks@[k].1@)),
            decreases self.tracks@.len() - i,
        {
            let kind: TrackType = self.tracks[i].0.descriptor.track_type;
            if (kind == TrackType::MicAudio || kind == TrackType::SystemAudio) && has_available(
                &self.tracks[i].1,
            ) {
                assert(audio::is_sound(self.tracks@[i as int].0.descriptor.track_type));
                return true;
            }
            i = i + 1;
        }
        false
    }

    /// The source time that plays at an edited time.
    pub fn sample_source_us(&self, edited_us: u64) -> (r: Option<u64>)
        ensures
            r == sampled(self.retained@, edited_us),
    {
        match TimelineMapper::try_new(copy_intervals(&self.retained)) {
            Ok(mapper) => mapper.edited_to_source_us(edited_us),
            Err(_) => None,
        }
    }

    /// Playback after it has failed.
    pub open spec fn failed(self, error: String) -> PlaybackOwner {
        PlaybackOwner {
            audio: false,
            play_anchor: None,
            state: PlaybackState::Error,
            error: Some(error),
            preview_available: false,
            ..self
        }
    }

    /// Notes that playback has failed, unless something else plays by now.
    pub fn fail(&mut self, generation: u64, error: String)
        ensures
            *final(self) == if old(self).generation == generation {
                old(self).failed(error)
            } else {
                *old(self)
            },
    {
        if self.generation != generation {
            return;
        }
        self.audio = false;
        self.play_anchor = None;
        self.state = PlaybackState::Error;
        self.error = Some(error);
        self.preview_available = false;
    }

    /// Whether a picture of a generation can be shown.
    pub open spec fn presentable(&self, generation: u64) -> bool {
        self.generation == generation && self.state != PlaybackState::Closed && self.state
            != PlaybackState::Error
    }

    /// Notes that a picture was shown.
    pub fn mark_presented(&mut self, generation: u64) -> (r: bool)
        ensures
            r == old(self).presentable(generation),
            *final(self) == if r {
                PlaybackOwner { preview_available: true, ..*old(self) }
            } else {
                *old(self)
            },
    {
        if self.generation != generation || self.state == PlaybackState::Closed || self.state
            == PlaybackState::Error {
            return false;
        }
        self.preview_available = true;
        true
    }

    /// Playback at a position that its clock gives.
    pub open spec fn moved(self, position: int) -> PlaybackOwner {
        if position >= self.duration_us {
            PlaybackOwner {
                position_us: self.duration_us,
                state: PlaybackState::Ended,
                play_anchor: None,
                ..self
            }
        } else {
            PlaybackOwner { position_us: position as u64, ..self }
        }
    }

    /// The position that the clocks give, if they do.
    pub open spec fn clock_position(self, r: Reading) -> Option<int> {
        if self.audio {
            match r.frames {
                Ok(frames) => Some(
                    frame_position(self.duration_us as int, self.audio_start_frame + frames),
                ),
                Err(_) => None,
            }
        } else {
            match self.play_anchor {
                Some(a) => Some(
                    timeline::min(
                        self.duration_us as int,
                        a.1 + timeline::max(0, r.now_us - a.0),
                    ),
                ),
                None => None,
            }
        }
    }

    /// Playback after its clock was read.
    pub open spec fn advanced(self, r: Reading) -> PlaybackOwner {
        if self.state != PlaybackState::Playing {
            self
        } else {
            match self.clock_position(r) {
                Some(p) => self.moved(p),
                None => match r.frames {
                    Err(e) => if self.audio {
                        self.failed(e)
                    } else {
                        self
                    },
                    Ok(_) => self,
                },
            }
        }
    }

    /// Whether reading the clock moves playback.
    pub open spec fn moves(self, r: Reading) -> bool {
        self.state == PlaybackState::Playing && self.clock_position(r) is Some
    }

    /// Reads the clock. Gives back whether it has moved, so that what is decoded is to be
    /// planned again.
    pub fn advance(&mut self, reading: Reading) -> (r: bool)
        requires
            old(self).wf(),
            reading.frames matches Ok(f) ==> f <= MAX_FRAMES,
        ensures
            final(self).wf(),
            *final(self) == old(self).advanced(reading),
            r == old(self).moves(reading),
            old(self).state != PlaybackState::Playing ==> *final(self) == *old(self) && !r,
            old(self).state == PlaybackState::Playing && old(self).audio && reading.frames is Ok
                ==> r && final(self).position_us == if old(self).audio_start_frame
                + reading.frames->Ok_0 < old(self).duration_us * 48_000 / 1_000_000 {
                (old(self).audio_start_frame + reading.frames->Ok_0) * 1_000_000 / 48_000
            } else {
                old(self).duration_us as int
            },
    {
        if self.state != PlaybackState::Playing {
            return false;
        }
        if self.audio {
            match reading.frames {
                Ok(frames) => {
                    let total: u64 = self.audio_start_frame + frames;
                    let end: u64 = ((self.duration_us as u128) * 48_000 / 1_000_000) as u64;
                    self.position_us =
                    if total >= end {
                        self.duration_us
                    } else {
                        ((total as u128) * 1_000_000 / 48_000) as u64
                    };
                },
                Err(e) => {
                    let generation: u64 = self.generation;
                    self.fail(generation, e);
                    return false;
                },
            }
        } else {
            match self.play_anchor {
                Some((anchor, start_us)) => {
                    let elapsed: u64 = if reading.now_us >= anchor {
                        reading.now_us - anchor
                    } else {
                        0
                    };
                    self.position_us =
                    if elapsed >= self.duration_us || start_us >= self.duration_us - elapsed {
                        self.duration_us
                    } else {
                        start_us + elapsed
                    };
                },
                None => {
                    return false;
                },
            }
        }
        if self.position_us >= self.duration_us {
            self.position_us = self.duration_us;
            self.state = PlaybackState::Ended;
            self.play_anchor = None;
        }
        true
    }

    /// Playback of another edit, at the position that it had as far as there is one.
    pub open spec fn with_edit(
        self,
        retained: Vec<RetainedInterval>,
        generation: u64,
    ) -> PlaybackOwner {
        let bumped = PlaybackOwner { preview_available: false, generation, retained, ..self };
        if timeline::retained_fault(retained@) is Some {
            bumped
        } else {
            let duration = timeline::total(retained@);
            let position = timeline::min(self.position_us as int, duration);
            PlaybackOwner {
                duration_us: duration as u64,
                position_us: position as u64,
                play_anchor: None,
                audio: false,
                state: if position >= duration {
                    PlaybackState::Ended
                } else {
                    PlaybackState::Paused
                },
                ..bumped
            }
        }
    }

    /// Goes on with another edit, which makes what was planned before stale.
    pub fn apply_document(&mut self, document: &EditDocument, generation: u64) -> (r: Result<
        (),
        String,
    >)
        requires
            old(self).wf(),
        ensures
            final(self).wf(),
            final(self).retained@ == document@.retained,
            *final(self) == old(self).with_edit(final(self).retained, generation),
            match r {
                Ok(()) => timeline::retained_fault(document@.retained) is None,
                Err(e) => timeline::retained_fault(document@.retained) == Some(e@),
            },
    {
        self.preview_available = false;
        self.generation = generation;
        self.retained = copy_intervals(&document.retained_intervals);
        let duration: u64 = match document.edited_duration_us() {
            Ok(d) => d,
            Err(e) => {
                return Err(e);
            },
        };
        proof {
            timeline::retainable_means_ordered(document@.retained);
            timeline::edited_duration_is_bounded(document@.retained);
        }
        self.duration_us = duration;
        if self.position_us > duration {
            self.position_us = duration;
        }
        self.play_anchor = None;
        self.audio = false;
        self.state =
        if self.position_us >= duration {
            PlaybackState::Ended
        } else {
            PlaybackState::Paused
        };
        Ok(())
    }

    /// Playback that seeks.
    pub open spec fn sought(self, edited: u64, generation: u64, now_us: u64) -> PlaybackOwner {
        let position = timeline::min(edited as int, self.duration_us as int) as u64;
        PlaybackOwner {
            preview_available: false,
            generation,
            audio: false,
            state: PlaybackState::Seeking,
            position_us: position,
            play_anchor: if self.state == PlaybackState::Playing && !self.audible() && position
                < self.duration_us {
                Some((now_us, position))
            } else {
                None
            },
            ..self
        }
    }

    /// Starts to seek, which makes what was planned before stale. Gives back whether it
    /// was playing.
    pub fn seek(&mut self, edited_us: u64, generation: u64, now_us: u64) -> (r: Result<
        bool,
        String,
    >)
        requires
            old(self).wf(),
        ensures
            final(self).wf(),
            match r {
                Ok(was_playing) => {
                    &&& old(self).refusal() is None
                    &&& was_playing == (old(self).state == PlaybackState::Playing)
                    &&& *final(self) == old(self).sought(edited_us, generation, now_us)
                },
                Err(e) => old(self).refusal() == Some(e@) && *final(self) == *old(self),
            },
    {
        match self.ensure_open() {
            Ok(()) => {},
            Err(e) => {
                return Err(e);
            },
        }
        let was_playing: bool = self.state == PlaybackState::Playing;
        let audible: bool = self.needs_audio();
        self.preview_available = false;
        self.generation = generation;
        self.audio = false;
        self.state = PlaybackState::Seeking;
        if edited_us <= self.duration_us {
            self.position_us = edited_us;
        } else {
            self.position_us = self.duration_us;
        }
        self.play_anchor =
        if was_playing && !audible && self.position_us < self.duration_us {
            Some((now_us, self.position_us))
        } else {
            None
        };
        Ok(was_playing)
    }

    /// Playback after a seek.
    pub open spec fn settled(self, was_playing: bool) -> PlaybackOwner {
        PlaybackOwner {
            state: if self.position_us >= self.duration_us {
                PlaybackState::Ended
            } else if was_playing {
                PlaybackState::Playing
            } else {
                PlaybackState::Paused
            },
            ..self
        }
    }

    /// Ends a seek, once what is decoded is planned.
    pub fn settle(&mut self, was_playing: bool)
        requires
            old(self).wf(),
        ensures
            final(self).wf(),
            *final(self) == old(self).settled(was_playing),
    {
        self.state =
        if self.position_us >= self.duration_us {
            PlaybackState::Ended
        } else if was_playing {
            PlaybackState::Playing
        } else {
            PlaybackState::Paused
        };
    }

    /// Playback that plays from where it is.
    pub open spec fn started(self, now_us: u64) -> PlaybackOwner {
        PlaybackOwner {
            state: PlaybackState::Playing,
            play_anchor: if self.audible() {
                None
            } else {
                Some((now_us, self.position_us))
            },
            ..self
        }
    }

    fn start(&mut self, now_us: u64)
        requires
            old(self).wf(),
        ensures
            final(self).wf(),
            *final(self) == old(self).started(now_us),
    {
        let audible: bool = self.needs_audio();
        self.state = PlaybackState::Playing;
        self.play_anchor =
        if audible {
            None
        } else {
            Some((now_us, self.position_us))
        };
    }

    /// Starts to play, now that the clock was read. What has ended is sought to its start,
    /// and plays once what is decoded there is planned.
    pub fn play(&mut self, reading: Reading, generation: u64) -> (r: Result<PlayStep, String>)
        requires
            old(self).wf(),
            reading.frames matches Ok(f) ==> f <= MAX_FRAMES,
        ensures
            final(self).wf(),
            match r {
                Ok(step) => {
                    let now = old(self).advanced(reading);
                    &&& old(self).refusal() is None
                    &&& if now.state == PlaybackState::Ended {
                        &&& step == PlayStep::StartOver
                        &&& *final(self) == now.sought(0, generation, reading.now_us)
                    } else {
                        &&& step == PlayStep::Playing(old(self).moves(reading))
                        &&& *final(self) == now.started(reading.now_us)
                    }
                },
                Err(e) => old(self).refusal() == Some(e@) && *final(self) == *old(self),
            },
    {
        match self.ensure_open() {
            Ok(()) => {},
            Err(e) => {
                return Err(e);
            },
        }
        let now_us: u64 = reading.now_us;
        let moved: bool = self.advance(reading);
        if self.state == PlaybackState::Ended {
            match self.seek(0, generation, now_us) {
                Ok(_) => {},
                Err(e) => {
                    return Err(e);
                },
            }
            return Ok(PlayStep::StartOver);
        }
        self.start(now_us);
        Ok(PlayStep::Playing(moved))
    }

    /// Plays from the start, once what is decoded there is planned.
    pub fn start_over(&mut self, now_us: u64)
        requires
            old(self).wf(),
            old(self).state == PlaybackState::Seeking,
        ensures
            final(self).wf(),
            *final(self) == old(self).settled(false).started(now_us),
    {
        self.settle(false);
        self.start(now_us);
    }

    /// Playback that is stopped where it is.
    pub open spec fn paused(self) -> PlaybackOwner {
        PlaybackOwner {
            state: if self.state == PlaybackState::Ended {
                PlaybackState::Ended
            } else {
                PlaybackState::Paused
            },
            play_anchor: None,
            audio: false,
            ..self
        }
    }

    /// Stops to play, where it is now that the clock was read. Gives back whether it has
    /// moved.
    pub fn pause(&mut self, reading: Reading) -> (r: Result<bool, String>)
        requires
            old(self).wf(),
            reading.frames matches Ok(f) ==> f <= MAX_FRAMES,
        ensures
            final(self).wf(),
            match r {
                Ok(moved) => {
                    &&& old(self).refusal() is None
                    &&& moved == old(self).moves(reading)
                    &&& *final(self) == old(self).advanced(reading).paused()
                },
                Err(e) => old(self).refusal() == Some(e@) && *final(self) == *old(self),
            },
    {
        match self.ensure_open() {
            Ok(()) => {},
            Err(e) => {
                return Err(e);
            },
        }
        let moved: bool = self.advance(reading);
        if self.state != PlaybackState::Ended {
            self.state = PlaybackState::Paused;
        }
        self.play_anchor = None;
        self.audio = false;
        Ok(moved)
    }

    /// Whether a decoded picture is the one that is wanted.
    pub open spec fn accepts(&self, generation: u64, source_us: u64) -> bool {
        &&& self.state != PlaybackState::Closed
        &&& generation == self.generation
        &&& sampled(self.retained@, self.position_us) == Some(source_us)
    }

    /// Takes a decoded picture, if it is the one that is wanted.
    pub fn accept_decode_result(&mut self, generation: u64, source_us: u64) -> (r: bool)
        ensures
            r == old(self).accepts(generation, source_us),
            *final(self) == if r {
                PlaybackOwner { last_accepted_generation: generation, ..*old(self) }
            } else {
                *old(self)
            },
    {
        if self.state == PlaybackState::Closed || generation != self.generation {
            return false;
        }
        match self.sample_source_us(self.position_us) {
            Some(t) => {
                if t != source_us {
                    return false;
                }
            },
            None => {
                return false;
            },
        }
        self.last_accepted_generation = generation;
        true
    }

    pub fn open_file_count(&self) -> (r: usize)
        ensures
            r == self.files@.len(),
    {
        self.files.len()
    }

    /// What is to be decoded at an edited time.
    pub open spec fn planned(&self, edited: u64) -> Seq<plan::Plan> {
        plan::plans_of(
            self.tracks@,
            self.generation,
            edited,
            sampled(self.retained@, edited),
            edited >= self.duration_us,
        )
    }

    /// Plans what is to be decoded at an edited time.
    pub fn plans_at(&self, edited_us: u64) -> (r: Vec<TrackDecodePlan>)
        ensures
            plan::plans(r@) == self.planned(edited_us),
    {
        plan_tracks(
            &self.tracks,
            self.generation,
            edited_us,
            self.sample_source_us(edited_us),
            edited_us >= self.duration_us,
        )
    }

    /// Notes the gaps in what is to be decoded.
    pub fn note_gaps(&mut self, plans: &Vec<TrackDecodePlan>)
        ensures
            paths::texts(final(self).diagnostics@) == plan::gap_notes(
                plan::plans(plans@),
                plans@.len() as int,
            ),
            *final(self) == (PlaybackOwner { diagnostics: final(self).diagnostics, ..*old(self) }),
    {
        self.diagnostics = notes_of(plans);
    }

    /// How playback is doing.
    pub fn status(&self) -> (r: PlaybackStatus)
        ensures
            r.project_handle == self.project_handle,
            r.state == self.state,
            r.generation == self.generation,
            r.position_us == self.position_us,
            r.duration_us == self.duration_us,
            r.clock_kind == if self.audio {
                ClockKind::Audio
            } else {
                ClockKind::Monotonic
            },
            r.preview_available == self.preview_available,
            r.open_files == self.files@.len(),
            plan::plans(r.plans@) == plan::plans_of(
                self.tracks@,
                self.generation,
                self.position_us,
                sampled(self.retained@, self.position_us),
                self.position_us >= self.duration_us && (self.duration_us > 0 || self.state
                    == PlaybackState::Ended),
            ),
            r.error == self.error,
            paths::texts(r.diagnostics@) == paths::texts(self.diagnostics@),
    {
        let ended: bool = self.position_us >= self.duration_us && (self.duration_us > 0
            || self.state == PlaybackState::Ended);
        PlaybackStatus {
            project_handle: self.project_handle.clone(),
            state: self.state,
            generation: self.generation,
            position_us: self.position_us,
            duration_us: self.duration_us,
            clock_kind: if self.audio {
                ClockKind::Audio
            } else {
                ClockKind::Monotonic
            },
            preview_available: self.preview_available,
            open_files: self.files.len(),
            plans: plan_tracks(
                &self.tracks,
                self.generation,
                self.position_us,
                self.sample_source_us(self.position_us),
                ended,
            ),
            error: match &self.error {
                Some(e) => Some(e.clone()),
                None => None,
            },
            diagnostics: copy_texts(&self.diagnostics),
        }
    }
}

/// The segments of a track of an opened project; none, if there is no such track.
pub open spec fn segments_of(reader: ProjectReader, id: Seq<char>) -> Seq<SegmentSummary> {
    match manifest::find_track(reader.summary.manifest.tracks@, id, 0) {
        Some(i) => reader.segments@[i]@,
        None => Seq::empty(),
    }
}

/// The tracks of an opened project, with their segments.
pub fn tracks_from_reader(reader: &ProjectReader) -> (r: Vec<(TrackSummary, Vec<SegmentSummary>)>)
    requires
        reader.wf(),
    ensures
        r@.len() == reader.summary.tracks@.len(),
        forall|i: int|
            0 <= i < r@.len() ==> (#[trigger] r@[i]).0 == reader.summary.tracks@[i] && r@[i].1@
                == segments_of(*reader, reader.summary.tracks@[i].descriptor.id@),
{
    let mut out: Vec<(TrackSummary, Vec<SegmentSummary>)> = Vec::new();
    let mut i: usize = 0;
    while i < reader.summary.tracks.len()
        invariant
            i <= reader.summary.tracks@.len(),
            reader.wf(),
            out@.len() == i,
            forall|k: int|
                0 <= k < i ==> (#[trigger] out@[k]).0 == reader.summary.tracks@[k] && out@[k].1@
                    == segments_of(*reader, reader.summary.tracks@[k].descriptor.id@),
        decreases reader.summary.tracks@.len() - i,
    {
        let track: TrackSummary = reader.summary.tracks[i].clone();
        let segments: Vec<SegmentSummary> = match reader.segments_for(
            track.descriptor.id.as_str(),
        ) {
            Some(v) => copy_segments(v),
            None => Vec::new(),
        };
        out.push((track, segments));
        i = i + 1;
    }
    out
}

/// What was decoded before a seek is not taken after it.
pub proof fn seeking_makes_results_stale(
    o: PlaybackOwner,
    edited: u64,
    generation: u64,
    now_us: u64,
    stale: u64,
    source_us: u64,
)
    requires
        stale != generation,
    ensures
        !o.sought(edited, generation, now_us).accepts(stale, source_us),
        !o.sought(edited, generation, now_us).presentable(stale),
{
}

/// Of one generation and position, at most one picture is taken.
pub proof fn one_picture_is_wanted(o: PlaybackOwner, generation: u64, a: u64, b: u64)
    requires
        o.accepts(generation, a),
        o.accepts(generation, b),
    ensures
        a == b,
{
}

/// What has ended plays from its start: never from its end, unless there is nothing to
/// play.
pub proof fn ended_playback_starts_over(
    o: PlaybackOwner,
    reading: Reading,
    generation: u64,
    now_us: u64,
)
    requires
        o.advanced(reading).state == PlaybackState::Ended,
    ensures
        ({
            let sought = o.advanced(reading).sought(0, generation, reading.now_us);
            let plays = sought.settled(false).started(now_us);
            &&& sought.state == PlaybackState::Seeking
            &&& plays.state == PlaybackState::Playing
            &&& plays.position_us == 0
            &&& plays.generation == generation
            &&& plays.duration_us > 0 ==> plays.position_us < plays.duration_us
        }),
{
}

/// The monotonic clock never moves playback back.
pub proof fn clocks_move_forward(o: PlaybackOwner, first: Reading, later: Reading)
    requires
        o.wf(),
        o.state == PlaybackState::Playing,
        !o.audio,
        first.now_us <= later.now_us,
    ensures
        o.advanced(first).position_us <= o.advanced(later).position_us,
{
}

/// A frame of sound that has played is never taken for one past the end.
pub proof fn sound_positions_stay_inside(duration: int, frame: int)
    requires
        0 <= duration,
        0 <= frame,
    ensures
        0 <= frame_position(duration, frame) <= duration,
{
}

/// While sound plays, the position is that of the frame that is heard: of all frames since
/// the start, the one that the device started at and those it has played. Before the last
/// frame it goes on playing there; from the last frame on it has ended, at its end. Nothing
/// else changes.
pub proof fn sound_leads_the_picture(o: PlaybackOwner, reading: Reading, frames: u64)
    requires
        o.wf(),
        o.state == PlaybackState::Playing,
        o.audio,
        reading.frames == Ok::<u64, String>(frames),
    ensures
        ({
            let after = o.advanced(reading);
            let heard = o.audio_start_frame + frames;
            let last = o.duration_us * 48_000 / 1_000_000;
            &&& o.moves(reading)
            &&& heard < last ==> after.position_us * 48_000 <= heard * 1_000_000 < (
            after.position_us + 1) * 48_000
            &&& heard < last ==> after.state == PlaybackState::Playing && after.play_anchor
                == o.play_anchor
            &&& heard >= last ==> after.position_us == o.duration_us && after.state
                == PlaybackState::Ended && after.play_anchor is None
            &&& o.audio_start_frame < last ==> after.position_us * 48_000 + 48_000
                > o.audio_start_frame * 1_000_000
            &&& after == (PlaybackOwner {
                position_us: after.position_us,
                state: after.state,
                play_anchor: after.play_anchor,
                ..o
            })
        }),
{
}

/// Between two readings of the sound device playback moves as far as the frames that were
/// played between them last, give or take a microsecond, until it ends. A reading of the
/// same frames leaves it where it is.
pub proof fn sound_moves_by_what_was_played(
    o: PlaybackOwner,
    first: Reading,
    later: Reading,
    a: u64,
    b: u64,
)
    requires
        o.wf(),
        o.state == PlaybackState::Playing,
        o.audio,
        first.frames == Ok::<u64, String>(a),
        later.frames == Ok::<u64, String>(b),
        a <= b,
        o.audio_start_frame + b < o.duration_us * 48_000 / 1_000_000,
    ensures
        ({
            let moved = o.advanced(later).position_us - o.advanced(first).position_us;
            &&& -48_000 < moved * 48_000 - (b - a) * 1_000_000 < 48_000
            &&& a == b ==> moved == 0
            &&& o.advanced(first).advanced(later) == o.advanced(later)
        }),
{
}

/// Without sound, playback moves with the monotonic clock: as far from where it was anchored
/// as time has passed since then, until it ends. A clock that went back counts as one that
/// stood still.
pub proof fn pictures_follow_the_clock(
    o: PlaybackOwner,
    reading: Reading,
    anchor: u64,
    position: u64,
)
    requires
        o.wf(),
        o.state == PlaybackState::Playing,
        !o.audio,
        o.play_anchor == Some((anchor, position)),
    ensures
        ({
            let after = o.advanced(reading);
            let passed = if reading.now_us > anchor {
                reading.now_us - anchor
            } else {
                0
            };
            &&& o.moves(reading)
            &&& position + passed < o.duration_us ==> after.position_us == position + passed
                && after.state == PlaybackState::Playing && after.play_anchor == o.play_anchor
            &&& position + passed >= o.duration_us ==> after.position_us == o.duration_us
                && after.state == PlaybackState::Ended && after.play_anchor is None
            &&& after == (PlaybackOwner {
                position_us: after.position_us,
                state: after.state,
                play_anchor: after.play_anchor,
                ..o
            })
        }),
{
}

/// A sound device that has stopped fails playback, with its own reason and where it was. What
/// does not play is not moved by any clock.
pub proof fn clocks_only_move_what_plays(o: PlaybackOwner, reading: Reading)
    ensures
        o.state != PlaybackState::Playing ==> o.advanced(reading) == o && !o.moves(reading),
        o.state == PlaybackState::Playing && o.audio && reading.frames is Err ==> {
            let after = o.advanced(reading);
            &&& !o.moves(reading)
            &&& after.state == PlaybackState::Error
            &&& after.error == Some(reading.frames->Err_0)
            &&& after.position_us == o.position_us
            &&& after.generation == o.generation
            &&& !after.audio
            &&& after.play_anchor is None
            &&& !after.preview_available
        },
        o.state == PlaybackState::Playing && !o.audio && o.play_anchor is None ==> o.advanced(
            reading,
        ) == o && !o.moves(reading),
{
}

/// Playback that starts goes on from where it is: after some time it is as much further.
pub proof fn playing_goes_on_from_where_it_is(o: PlaybackOwner, now_us: u64, reading: Reading)
    requires
        o.wf(),
        !o.audible(),
        !o.audio,
        o.position_us < o.duration_us,
        now_us <= reading.now_us,
    ensures
        ({
            let plays = o.started(now_us);
            let passed = reading.now_us - now_us;
            &&& plays.state == PlaybackState::Playing
            &&& plays.position_us == o.position_us
            &&& plays.generation == o.generation
            &&& plays.advanced(reading).position_us == if o.position_us + passed < o.duration_us {
                o.position_us + passed
            } else {
                o.duration_us as int
            }
        }),
{
}

/// What is paused stays where it is, whatever the clocks say, until it plays again, and then
/// goes on from there. What has ended stays ended.
pub proof fn what_is_paused_stays(o: PlaybackOwner, reading: Reading, now_us: u64)
    ensures
        o.paused().position_us == o.position_us,
        o.paused().generation == o.generation,
        o.paused().preview_available == o.preview_available,
        !o.paused().audio,
        o.paused().play_anchor is None,
        o.state == PlaybackState::Ended ==> o.paused().state == PlaybackState::Ended,
        o.state != PlaybackState::Ended ==> o.paused().state == PlaybackState::Paused,
        o.paused().advanced(reading) == o.paused(),
        o.paused().started(now_us).position_us == o.position_us,
{
}

/// A seek goes to the edited time that is asked for, or to the end where it lies behind. Once
/// it has settled, what played goes on from there with the clock, what did not is paused
/// there, and at the end it has ended.
pub proof fn seeking_goes_where_it_is_asked_to(
    o: PlaybackOwner,
    edited: u64,
    generation: u64,
    now_us: u64,
    was_playing: bool,
    reading: Reading,
)
    requires
        o.wf(),
    ensures
        ({
            let sought = o.sought(edited, generation, now_us);
            let settled = sought.settled(was_playing);
            &&& sought.generation == generation
            &&& sought.state == PlaybackState::Seeking
            &&& !sought.audio
            &&& !sought.preview_available
            &&& sought.duration_us == o.duration_us
            &&& sought.retained == o.retained
            &&& sought.tracks == o.tracks
            &&& edited <= o.duration_us ==> sought.position_us == edited
            &&& edited > o.duration_us ==> sought.position_us == o.duration_us
            &&& settled.position_us == sought.position_us
            &&& settled.generation == generation
            &&& edited >= o.duration_us ==> settled.state == PlaybackState::Ended
            &&& edited < o.duration_us && !was_playing ==> settled.state == PlaybackState::Paused
            &&& edited < o.duration_us && was_playing ==> settled.state == PlaybackState::Playing
            &&& edited < o.duration_us && o.state == PlaybackState::Playing && was_playing
                && !o.audible() && reading.now_us >= now_us ==> settled.advanced(reading).position_us
                == if edited + (reading.now_us - now_us) < o.duration_us {
                edited + (reading.now_us - now_us)
            } else {
                o.duration_us as int
            }
        }),
{
}

/// With another edit playback stops, at the position that it had or at the end of the edit
/// where that lies before it, and what was decoded for the edit before is not taken any more.
pub proof fn another_edit_keeps_the_position(
    o: PlaybackOwner,
    retained: Vec<RetainedInterval>,
    generation: u64,
    stale: u64,
    source_us: u64,
)
    requires
        timeline::ordered(retained@),
        timeline::retained_fault(retained@) is None,
        stale != generation,
    ensures
        ({
            let after = o.with_edit(retained, generation);
            let duration = timeline::total(retained@);
            &&& after.retained == retained
            &&& after.duration_us == duration
            &&& after.generation == generation
            &&& !after.audio
            &&& after.play_anchor is None
            &&& !after.preview_available
            &&& after.tracks == o.tracks
            &&& o.position_us < duration ==> after.position_us == o.position_us && after.state
                == PlaybackState::Paused
            &&& o.position_us >= duration ==> after.position_us == duration && after.state
                == PlaybackState::Ended
            &&& !after.accepts(stale, source_us)
            &&& !after.presentable(stale)
        }),
{
    timeline::edited_duration_is_bounded(retained@);
}

/// A decoded picture is taken exactly when it is of the generation that plays and of the
/// source time that plays at the position.
pub proof fn the_picture_that_plays_is_taken(o: PlaybackOwner, generation: u64, source_us: u64)
    requires
        timeline::ordered(o.retained@),
        timeline::retained_fault(o.retained@) is None,
    ensures
        o.accepts(generation, source_us) <==> o.state != PlaybackState::Closed && generation
            == o.generation && timeline::to_source(o.retained@, o.position_us as int) == Some(
            source_us as int,
        ),
        o.presentable(generation) <==> o.state != PlaybackState::Closed && o.state
            != PlaybackState::Error && generation == o.generation,
{
    timeline::every_edited_time_has_a_source_time(o.retained@, o.position_us as int);
}

/// What has failed plays nothing and shows nothing, says why, and stays where it was.
pub proof fn what_has_failed_says_why(o: PlaybackOwner, error: String, reading: Reading)
    ensures
        o.failed(error).refusal() == Some(error@),
        o.failed(error).error == Some(error),
        o.failed(error).position_us == o.position_us,
        o.failed(error).generation == o.generation,
        !o.failed(error).audio,
        o.failed(error).play_anchor is None,
        !o.failed(error).preview_available,
        o.failed(error).advanced(reading) == o.failed(error),
        !o.failed(error).presentable(o.generation),
        o.state == PlaybackState::Closed ==> o.refusal() is Some,
        o.state != PlaybackState::Closed && o.state != PlaybackState::Error ==> o.refusal() is None,
{
}

/// A sound device is needed exactly where native playback is on and some segment of a sound
/// track can be heard.
pub proof fn sound_needs_a_device(o: PlaybackOwner)
    ensures
        o.audible() <==> o.native_enabled && exists|i: int, j: int|
            0 <= i < o.tracks@.len() && 0 <= j < o.tracks@[i].1@.len() && (
            #[trigger] o.tracks@[i].1@[j]).available && (o.tracks@[i].0.descriptor.track_type
                == TrackType::MicAudio || o.tracks@[i].0.descriptor.track_type
                == TrackType::SystemAudio),
{
    if o.audible() {
        let i = choose|i: int|
            0 <= i < o.tracks@.len() && audio::is_sound(
                (#[trigger] o.tracks@[i]).0.descriptor.track_type,
            ) && any_available(o.tracks@[i].1@);
        let j = choose|j: int|
            0 <= j < o.tracks@[i].1@.len() && (#[trigger] o.tracks@[i].1@[j]).available;
        assert(o.tracks@[i].1@[j].available);
    }
    if exists|i: int, j: int|
        0 <= i < o.tracks@.len() && 0 <= j < o.tracks@[i].1@.len() && (
        #[trigger] o.tracks@[i].1@[j]).available && (o.tracks@[i].0.descriptor.track_type
            == TrackType::MicAudio || o.tracks@[i].0.descriptor.track_type
            == TrackType::SystemAudio) {
        let (i, j) = choose|i: int, j: int|
            0 <= i < o.tracks@.len() && 0 <= j < o.tracks@[i].1@.len() && (
            #[trigger] o.tracks@[i].1@[j]).available && (o.tracks@[i].0.descriptor.track_type
                == TrackType::MicAudio || o.tracks@[i].0.descriptor.track_type
                == TrackType::SystemAudio);
        assert(any_available(o.tracks@[i].1@));
        assert(audio::is_sound(o.tracks@[i].0.descriptor.track_type));
    }
}

/// A track plays its own segments: those that stand in its place in the project.
pub proof fn tracks_play_their_own_segments(reader: ProjectReader, i: int)
    requires
        0 <= i < reader.summary.manifest.tracks@.len(),
        forall|j: int|
            0 <= j < i ==> (#[trigger] reader.summary.manifest.tracks@[j]).id@
                != reader.summary.manifest.tracks@[i].id@,
    ensures
        segments_of(reader, reader.summary.manifest.tracks@[i].id@) == reader.segments@[i]@,
{
    let tracks = reader.summary.manifest.tracks@;
    manifest::tracks_are_found_by_identifier(tracks, tracks[i].id@);
    let k = manifest::find_track(tracks, tracks[i].id@, 0)->0;
    if k < i {
        assert(tracks[k].id@ != tracks[i].id@);
    } else if i < k {
        assert(tracks[i].id@ != tracks[i].id@);
    }
}

/// At an edited time just that is planned which plays there, on each track, for the generation
/// that plays; from the end on nothing is.
pub proof fn what_plays_is_planned(o: PlaybackOwner, edited: u64, i: int)
    requires
        0 <= i < o.tracks@.len(),
        i < 16,
        timeline::ordered(o.retained@),
        timeline::retained_fault(o.retained@) is None,
        o.duration_us == timeline::total(o.retained@),
    ensures
        ({
            let p = o.planned(edited)[i];
            &&& p.track_id == o.tracks@[i].0.descriptor.id@
            &&& p.generation == o.generation
            &&& p.edited_us == edited
            &&& p.ended <==> edited >= o.duration_us
            &&& edited < o.duration_us ==> p.source_us is Some && timeline::to_source(
                o.retained@,
                edited as int,
            ) == Some(p.source_us->0 as int)
            &&& edited >= o.duration_us ==> p.source_us is None && p.decode_to_us is None && !p.gap
        }),
{
    timeline::every_edited_time_has_a_source_time(o.retained@, edited as int);
    plan::every_track_is_planned(
        o.tracks@,
        o.generation,
        edited,
        sampled(o.retained@, edited),
        edited >= o.duration_us,
        i,
    );
}

} // verus!
