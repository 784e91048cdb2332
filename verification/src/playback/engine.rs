//! The decisions of the worker that plays: when it needs new sources, how much sound it
//! queues, and which pictures it shows.
use crate::media::audio::CHUNK_FRAMES;
use crate::playback::{PlaybackState, PlaybackStatus};
use crate::timeline;
use vstd::prelude::*;
use vstd::string::*;

verus! {

/// How many chunks of sound are queued ahead of what plays.
pub const QUEUED_CHUNKS: u64 = 3;

/// What the worker does about its sources.
#[derive(Debug, Clone, Copy, PartialEq, Eq, Structural)]
pub enum SourceStep {
    /// Nothing plays: they are let go.
    Drop,
    /// They are made anew.
    Renew,
    /// They are those of what plays.
    Keep,
}

/// What the worker does about its sources, which are those of generation `held`.
pub open spec fn source_step_of(
    state: PlaybackState,
    generation: u64,
    held: Option<u64>,
) -> SourceStep {
    if state == PlaybackState::Closed || state == PlaybackState::Error {
        SourceStep::Drop
    } else if held == Some(generation) {
        SourceStep::Keep
    } else {
        SourceStep::Renew
    }
}

/// Decides about the worker's sources.
pub fn source_step(status: &PlaybackStatus, held: Option<u64>) -> (r: SourceStep)
    ensures
        r == source_step_of(status.state, status.generation, held),
{
    if status.state == PlaybackState::Closed || status.state == PlaybackState::Error {
        return SourceStep::Drop;
    }
    match held {
        Some(g) => if g == status.generation {
            SourceStep::Keep
        } else {
            SourceStep::Renew
        },
        None => SourceStep::Renew,
    }
}

/// The frame of sound at an edited time.
pub fn frame_at(position_us: u64) -> (r: u64)
    requires
        position_us <= timeline::MAX_SAFE_TIME,
    ensures
        r == position_us * 48_000 / 1_000_000,
{
    ((position_us as u128) * 48_000 / 1_000_000) as u64
}

/// Whether more sound is queued, when `queued` is the next frame, `from` is the frame
/// that plays, and there are `total`.
pub open spec fn wants_sound(queued: int, from: int, total: int) -> bool {
    queued < total && queued < from + QUEUED_CHUNKS * CHUNK_FRAMES
}

/// Decides whether more sound is queued.
pub fn queues_more(queued: u64, from: u64, total: u64) -> (r: bool)
    requires
        from <= timeline::MAX_SAFE_TIME,
    ensures
        r == wants_sound(queued as int, from as int, total as int),
{
    queued < total && queued < from + QUEUED_CHUNKS * (CHUNK_FRAMES as u64)
}

/// Whether what the worker prepared is still what plays.
pub open spec fn current(state: PlaybackState, now: u64, generation: u64) -> bool {
    now == generation && state == PlaybackState::Playing
}

/// Decides whether what the worker prepared is still what plays.
pub fn still_plays(status: &PlaybackStatus, generation: u64) -> (r: bool)
    ensures
        r == current(status.state, status.generation, generation),
{
    status.generation == generation && status.state == PlaybackState::Playing
}

/// Checks a chunk of sound, of left and right samples in turn, that is to be queued.
pub fn check_pcm_chunk(samples: usize) -> (r: Result<(), String>)
    ensures
        match r {
            Ok(()) => 0 < samples <= 2 * CHUNK_FRAMES && samples % 2 == 0,
            Err(e) => !(0 < samples <= 2 * CHUNK_FRAMES && samples % 2 == 0) && e@
                == "Invalid playback PCM chunk"@,
        },
{
    if samples == 0 || samples % 2 != 0 || samples / 2 > CHUNK_FRAMES {
        return Err("Invalid playback PCM chunk".to_owned());
    }
    Ok(())
}

/// What a picture was shown of: the generation of playback, its position, and the
/// generation of the surface.
#[derive(Debug, Clone, Copy, PartialEq, Eq, Structural)]
pub struct FrameKey {
    pub generation: u64,
    pub position_us: u64,
    pub surface: u64,
}

/// What is known of the surface that pictures are shown on.
#[derive(Debug, Clone, Copy, PartialEq, Eq, Structural)]
pub struct Surface {
    pub attached: bool,
    pub visible: bool,
    pub generation: u64,
}

/// The picture that is to be shown, if any: not past the end, nor while another one is on
/// its way, nor the one that was shown last.
pub open spec fn next_picture(
    status: PlaybackStatus,
    surface: Surface,
    pending: bool,
    last: Option<FrameKey>,
) -> Option<FrameKey> {
    let key = FrameKey {
        generation: status.generation,
        position_us: status.position_us,
        surface: surface.generation,
    };
    if surface.attached && surface.visible && status.position_us < status.duration_us && !pending
        && last != Some(key) {
        Some(key)
    } else {
        None
    }
}

/// Chooses the picture that is to be shown.
pub fn choose_picture(
    status: &PlaybackStatus,
    surface: Surface,
    pending: bool,
    last: Option<FrameKey>,
) -> (r: Option<FrameKey>)
    ensures
        r == next_picture(*status, surface, pending, last),
{
    if !surface.attached || !surface.visible || status.duration_us == 0 || status.position_us
        >= status.duration_us || pending {
        return None;
    }
    let key = FrameKey {
        generation: status.generation,
        position_us: status.position_us,
        surface: surface.generation,
    };
    match last {
        Some(k) => if k == key {
            None
        } else {
            Some(key)
        },
        None => Some(key),
    }
}

/// Whether a picture that was made may still be shown.
pub open spec fn may_show(
    state: PlaybackState,
    now: u64,
    surface: Surface,
    key: FrameKey,
) -> bool {
    &&& now == key.generation
    &&& state != PlaybackState::Closed
    &&& state != PlaybackState::Error
    &&& surface.attached
    &&& surface.visible
    &&& surface.generation == key.surface
}

/// Decides whether a picture that was made may still be shown.
pub fn shows_picture(status: &PlaybackStatus, surface: Surface, key: FrameKey) -> (r: bool)
    ensures
        r == may_show(status.state, status.generation, surface, key),
{
    status.generation == key.generation && status.state != PlaybackState::Closed && status.state
        != PlaybackState::Error && surface.attached && surface.visible && surface.generation
        == key.surface
}

/// Queueing chunk by chunk ends with the wanted frames queued, and less than one chunk
/// more.
pub proof fn queueing_stays_close(queued: int, from: int, total: int)
    requires
        wants_sound(queued, from, total),
        0 <= queued,
    ensures
        timeline::min(queued + CHUNK_FRAMES, total) < from + (QUEUED_CHUNKS + 1) * CHUNK_FRAMES,
        timeline::min(queued + CHUNK_FRAMES, total) <= total,
{
}

/// A picture is not shown twice.
pub proof fn a_picture_is_shown_once(
    status: PlaybackStatus,
    surface: Surface,
    pending: bool,
    key: FrameKey,
)
    ensures
        next_picture(status, surface, pending, Some(key)) != Some(key),
{
}

/// How far a round of the worker is.
#[derive(Debug, Clone, Copy, PartialEq, Eq, Structural)]
pub enum TickStage {
    /// Its sources are looked at.
    Sources,
    /// Sound is queued before a new device starts to play.
    Prefill,
    /// The new device is about to play.
    Start,
    /// Sound is queued ahead of what plays.
    TopUp,
    /// So many frames of sound were read, and are about to be queued.
    Hold(u64),
    /// A picture is about to be shown.
    Show,
}

/// What the worker does next.
#[derive(Debug, Clone, Copy, PartialEq, Eq, Structural)]
pub enum TickAction {
    /// Its sources are let go, and the round ends.
    DropSources,
    /// Its sources are made anew.
    OpenSources,
    /// Its sources are looked at.
    LookAtSources,
    /// A sound device is opened.
    OpenOutput,
    /// So many frames of sound are read, from one on.
    ReadSound { from: u64, count: usize },
    /// What was read is queued.
    QueueSound,
    /// The new device starts to play at a frame, with all before another queued.
    StartOutput { start: u64, queued: u64 },
    /// The status of playback is read again.
    CheckStatus,
    /// A picture is made and shown.
    Render(FrameKey),
    /// The round ends.
    Stop,
}

/// A round of the worker: for which generation, and how far its sound is queued.
#[derive(Debug, Clone, Copy, PartialEq, Eq, Structural)]
pub struct Tick {
    pub generation: u64,
    pub stage: TickStage,
    pub base: u64,
    pub queued: u64,
    pub total: u64,
}

/// What is known when the status of playback was read: whether a sound device plays, the
/// frame that is queued next, the surface, whether a picture is on its way, and the one
/// that was shown last.
#[derive(Debug, Clone, Copy, PartialEq, Eq, Structural)]
pub struct Around {
    pub output: bool,
    pub queued: u64,
    pub surface: Surface,
    pub pending: bool,
    pub last: Option<FrameKey>,
}

impl Tick {
    /// The next chunk of sound before a device starts.
    pub open spec fn prefilled(self) -> (Tick, TickAction) {
        if wants_sound(self.queued as int, self.base as int, self.total as int) {
            (self, TickAction::ReadSound { from: self.queued, count: CHUNK_FRAMES })
        } else {
            (Tick { stage: TickStage::Start, ..self }, TickAction::CheckStatus)
        }
    }

    fn prefill(&mut self) -> (r: TickAction)
        requires
            old(self).base <= timeline::MAX_SAFE_TIME,
        ensures
            (*final(self), r) == old(self).prefilled(),
    {
        if queues_more(self.queued, self.base, self.total) {
            TickAction::ReadSound { from: self.queued, count: CHUNK_FRAMES }
        } else {
            self.stage = TickStage::Start;
            TickAction::CheckStatus
        }
    }

    /// Starts a round, when the worker's sources are those of generation `held`.
    pub fn begin(status: &PlaybackStatus, held: Option<u64>) -> (r: (Tick, TickAction))
        ensures
            r.0 == (Tick {
                generation: status.generation,
                stage: TickStage::Sources,
                base: 0,
                queued: 0,
                total: 0,
            }),
            r.1 == match source_step_of(status.state, status.generation, held) {
                SourceStep::Drop => TickAction::DropSources,
                SourceStep::Renew => TickAction::OpenSources,
                SourceStep::Keep => TickAction::LookAtSources,
            },
    {
        let tick = Tick {
            generation: status.generation,
            stage: TickStage::Sources,
            base: 0,
            queued: 0,
            total: 0,
        };
        let action: TickAction = match source_step(status, held) {
            SourceStep::Drop => TickAction::DropSources,
            SourceStep::Renew => TickAction::OpenSources,
            SourceStep::Keep => TickAction::LookAtSources,
        };
        (tick, action)
    }

    /// What follows once the sources are there: they have `total` frames of sound, if any,
    /// and a device plays, or does not.
    pub open spec fn with_sources(
        self,
        status: PlaybackStatus,
        sound: Option<u64>,
        output: bool,
    ) -> (Tick, TickAction) {
        if status.state != PlaybackState::Playing || sound is None {
            (Tick { stage: TickStage::Show, ..self }, TickAction::CheckStatus)
        } else if output {
            (
                Tick { stage: TickStage::TopUp, total: sound.unwrap(), ..self },
                TickAction::CheckStatus,
            )
        } else {
            let base = (status.position_us * 48_000 / 1_000_000) as u64;
            (
                Tick { stage: TickStage::Prefill, base, queued: base, total: sound.unwrap(), ..self },
                TickAction::OpenOutput,
            )
        }
    }

    /// Goes on once the sources are there.
    pub fn sourced(&mut self, status: &PlaybackStatus, sound: Option<u64>, output: bool) -> (r:
        TickAction)
        requires
            status.position_us <= timeline::MAX_SAFE_TIME,
        ensures
            (*final(self), r) == old(self).with_sources(*status, sound, output),
    {
        if status.state != PlaybackState::Playing {
            self.stage = TickStage::Show;
            return TickAction::CheckStatus;
        }
        match sound {
            None => {
                self.stage = TickStage::Show;
                TickAction::CheckStatus
            },
            Some(total) => {
                self.total = total;
                if output {
                    self.stage = TickStage::TopUp;
                    TickAction::CheckStatus
                } else {
                    self.base = frame_at(status.position_us);
                    self.queued = self.base;
                    self.stage = TickStage::Prefill;
                    TickAction::OpenOutput
                }
            },
        }
    }

    /// Goes on once a device is opened.
    pub fn output_opened(&mut self) -> (r: TickAction)
        requires
            old(self).base <= timeline::MAX_SAFE_TIME,
        ensures
            (*final(self), r) == old(self).prefilled(),
    {
        self.prefill()
    }

    /// What follows once so many frames of sound were read.
    pub open spec fn with_sound(self, frames: u64) -> (Tick, TickAction) {
        if self.stage == TickStage::Prefill {
            if frames == 0 {
                (Tick { stage: TickStage::Start, ..self }, TickAction::CheckStatus)
            } else {
                (Tick { queued: (self.queued + frames) as u64, ..self }, TickAction::QueueSound)
            }
        } else if frames == 0 {
            (Tick { stage: TickStage::Show, ..self }, TickAction::CheckStatus)
        } else {
            (Tick { stage: TickStage::Hold(frames), ..self }, TickAction::CheckStatus)
        }
    }

    /// Goes on once sound was read.
    pub fn sound_read(&mut self, frames: u64) -> (r: TickAction)
        requires
            old(self).queued + frames <= u64::MAX,
        ensures
            (*final(self), r) == old(self).with_sound(frames),
    {
        if self.stage == TickStage::Prefill {
            if frames == 0 {
                self.stage = TickStage::Start;
                return TickAction::CheckStatus;
            }
            self.queued = self.queued + frames;
            return TickAction::QueueSound;
        }
        self.stage =
        if frames == 0 {
            TickStage::Show
        } else {
            TickStage::Hold(frames)
        };
        TickAction::CheckStatus
    }

    /// What follows once sound was queued. A device that plays has that much more queued.
    pub open spec fn with_queued(self) -> (Tick, TickAction) {
        if self.stage == TickStage::Prefill {
            self.prefilled()
        } else {
            (Tick { stage: TickStage::TopUp, ..self }, TickAction::CheckStatus)
        }
    }

    /// Goes on once sound was queued.
    pub fn sound_queued(&mut self) -> (r: TickAction)
        requires
            old(self).base <= timeline::MAX_SAFE_TIME,
        ensures
            (*final(self), r) == old(self).with_queued(),
    {
        if self.stage == TickStage::Prefill {
            return self.prefill();
        }
        self.stage = TickStage::TopUp;
        TickAction::CheckStatus
    }

    /// What follows once the status of playback was read again.
    pub open spec fn with_status(self, status: PlaybackStatus, a: Around) -> (Tick, TickAction) {
        let plays = current(status.state, status.generation, self.generation);
        match self.stage {
            TickStage::Start => if plays {
                (
                    Tick { stage: TickStage::TopUp, ..self },
                    TickAction::StartOutput { start: self.base, queued: self.queued },
                )
            } else {
                (self, TickAction::Stop)
            },
            TickStage::TopUp => if plays && wants_sound(
                a.queued as int,
                status.position_us * 48_000 / 1_000_000,
                self.total as int,
            ) {
                (
                    Tick { queued: a.queued, ..self },
                    TickAction::ReadSound { from: a.queued, count: CHUNK_FRAMES },
                )
            } else {
                (Tick { stage: TickStage::Show, ..self }, TickAction::CheckStatus)
            },
            TickStage::Hold(_) => if !plays {
                (self, TickAction::Stop)
            } else if a.output {
                (self, TickAction::QueueSound)
            } else {
                (Tick { stage: TickStage::Show, ..self }, TickAction::CheckStatus)
            },
            TickStage::Show => (
                self,
                if status.generation != self.generation {
                    TickAction::Stop
                } else {
                    match next_picture(status, a.surface, a.pending, a.last) {
                        Some(key) => TickAction::Render(key),
                        None => TickAction::Stop,
                    }
                },
            ),
            _ => (self, TickAction::Stop),
        }
    }

    /// Goes on once the status of playback was read again.
    pub fn status_read(&mut self, status: &PlaybackStatus, a: Around) -> (r: TickAction)
        requires
            status.position_us <= timeline::MAX_SAFE_TIME,
        ensures
            (*final(self), r) == old(self).with_status(*status, a),
    {
        let plays: bool = still_plays(status, self.generation);
        match self.stage {
            TickStage::Start => {
                if !plays {
                    return TickAction::Stop;
                }
                self.stage = TickStage::TopUp;
                TickAction::StartOutput { start: self.base, queued: self.queued }
            },
            TickStage::TopUp => {
                if plays && queues_more(a.queued, frame_at(status.position_us), self.total) {
                    self.queued = a.queued;
                    return TickAction::ReadSound { from: a.queued, count: CHUNK_FRAMES };
                }
                self.stage = TickStage::Show;
                TickAction::CheckStatus
            },
            TickStage::Hold(_) => {
                if !plays {
                    return TickAction::Stop;
                }
                if a.output {
                    return TickAction::QueueSound;
                }
                self.stage = TickStage::Show;
                TickAction::CheckStatus
            },
            TickStage::Show => {
                if status.generation != self.generation {
                    return TickAction::Stop;
                }
                match choose_picture(status, a.surface, a.pending, a.last) {
                    Some(key) => TickAction::Render(key),
                    None => TickAction::Stop,
                }
            },
            _ => TickAction::Stop,
        }
    }
}

/// Sound is queued without gaps: what is read before a device starts follows what was
/// queued.
pub proof fn prefilled_sound_has_no_gaps(t: Tick, frames: u64)
    requires
        t.stage == TickStage::Prefill,
        0 < frames,
        t.queued + frames <= u64::MAX,
    ensures
        t.with_sound(frames).0.prefilled().1 matches TickAction::ReadSound { from, .. } ==> from
            == t.queued + frames,
        t.with_sound(frames).0.prefilled().1 == TickAction::CheckStatus ==> t.with_sound(
            frames,
        ).0.prefilled().0.queued == t.queued + frames,
{
}

/// A picture is only made of what plays, and never at its end.
pub proof fn rendered_pictures_are_current(t: Tick, status: PlaybackStatus, a: Around)
    ensures
        t.with_status(status, a).1 matches TickAction::Render(key) ==> {
            &&& key.generation == t.generation == status.generation
            &&& key.position_us == status.position_us < status.duration_us
            &&& a.last != Some(key)
        },
{
}

/// Once something else plays, a round touches no sound device any more.
pub proof fn stale_rounds_queue_nothing(t: Tick, status: PlaybackStatus, a: Around)
    requires
        status.generation != t.generation,
    ensures
        t.with_status(status, a).1 == TickAction::Stop || t.with_status(status, a).1
            == TickAction::CheckStatus,
{
}

/// A new sound device starts at the frame that plays at the position, with nothing queued
/// before it, so that the picture goes on where it was: by less than a frame before.
pub proof fn sound_starts_where_the_picture_is(t: Tick, status: PlaybackStatus, total: u64)
    requires
        status.state == PlaybackState::Playing,
        status.position_us <= status.duration_us <= timeline::MAX_SAFE_TIME,
    ensures
        ({
            let (after, action) = t.with_sources(status, Some(total), false);
            let seen = crate::playback::frame_position(status.duration_us as int, after.base as int);
            &&& action == TickAction::OpenOutput
            &&& after.stage == TickStage::Prefill
            &&& after.base == after.queued
            &&& after.total == total
            &&& after.generation == t.generation
            &&& after.base * 1_000_000 <= status.position_us * 48_000 < (after.base + 1) * 1_000_000
            &&& seen == status.duration_us || status.position_us - 21 <= seen <= status.position_us
        }),
{
}

/// The new device is started just when what was prepared for still plays, at the frame that
/// it was opened for, with all that was queued.
pub proof fn sound_starts_while_it_plays(t: Tick, status: PlaybackStatus, a: Around)
    requires
        t.stage == TickStage::Start,
    ensures
        ({
            let (after, action) = t.with_status(status, a);
            let plays = status.state == PlaybackState::Playing && status.generation
                == t.generation;
            &&& plays ==> action == (TickAction::StartOutput { start: t.base, queued: t.queued })
                && after.stage == TickStage::TopUp
            &&& !plays ==> action == TickAction::Stop
        }),
{
}

/// While it plays, sound is read on from the last frame that is queued, as long as there is
/// sound left and no more than three chunks of it lie ahead of what is heard.
pub proof fn sound_is_read_ahead(t: Tick, status: PlaybackStatus, a: Around)
    requires
        t.stage == TickStage::TopUp,
    ensures
        ({
            let (after, action) = t.with_status(status, a);
            let ahead = status.state == PlaybackState::Playing && status.generation
                == t.generation && a.queued < t.total && a.queued < status.position_us * 48_000
                / 1_000_000 + 14_400;
            &&& ahead ==> action == (TickAction::ReadSound { from: a.queued, count: 4_800 })
                && after.queued == a.queued
            &&& !ahead ==> action == TickAction::CheckStatus && after.stage == TickStage::Show
        }),
{
}

/// What was read is queued while it plays and the device is there.
pub proof fn sound_is_queued_while_it_plays(t: Tick, frames: u64, status: PlaybackStatus, a: Around)
    requires
        t.stage == TickStage::Hold(frames),
    ensures
        t.with_status(status, a).1 == TickAction::QueueSound <==> status.state
            == PlaybackState::Playing && status.generation == t.generation && a.output,
        !(status.state == PlaybackState::Playing && status.generation == t.generation)
            ==> t.with_status(status, a).1 == TickAction::Stop,
{
}

/// A picture is made exactly where it can be seen, the end is not reached, none is being made,
/// and it is not the one that is shown: the picture of the position, for the surface.
pub proof fn pictures_are_made_where_they_are_seen(
    status: PlaybackStatus,
    surface: Surface,
    pending: bool,
    last: Option<FrameKey>,
)
    ensures
        next_picture(status, surface, pending, last) is Some <==> surface.attached
            && surface.visible && !pending && status.position_us < status.duration_us && !(
        last matches Some(k) && k.generation == status.generation && k.position_us
            == status.position_us && k.surface == surface.generation),
        next_picture(status, surface, pending, last) matches Some(k) ==> k.generation
            == status.generation && k.position_us == status.position_us && k.surface
            == surface.generation,
{
}

/// A picture is shown exactly where what it was made for still plays and its surface is still
/// there.
pub proof fn pictures_are_shown_where_they_belong(
    state: PlaybackState,
    now: u64,
    surface: Surface,
    key: FrameKey,
)
    ensures
        may_show(state, now, surface, key) <==> key.generation == now && key.surface
            == surface.generation && surface.attached && surface.visible && state
            != PlaybackState::Closed && state != PlaybackState::Error,
        source_step_of(state, now, Some(now)) != SourceStep::Renew,
        source_step_of(state, now, None) != SourceStep::Keep,
        forall|held: u64|
            held != now ==> #[trigger] source_step_of(state, now, Some(held)) != SourceStep::Keep,
        source_step_of(state, now, None) == SourceStep::Drop <==> state == PlaybackState::Closed
            || state == PlaybackState::Error,
{
}

} // verus!
