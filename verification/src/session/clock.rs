//! Session time: integer microseconds since the session began.
use crate::bytes;
use vstd::prelude::*;

verus! {

/// `chrono::Utc::now().timestamp_micros()` reads the wall clock, in microseconds
/// since the Unix epoch. Nothing is promised of the value.
#[verifier::external_body]
fn utc_now_micros() -> (us: i64) {
    chrono::Utc::now().timestamp_micros()
}

/// The beginning of a session, established before any capture stream starts. All
/// capture timestamps are microseconds relative to it.
#[derive(Debug, Clone, Copy, PartialEq, Eq, Structural)]
pub struct SessionEpoch {
    start_us: u64,
    start_wall_time_us: i64,
}

/// Microseconds of `samples` at a rate, modulo `2^64`.
pub open spec fn sample_us(samples: nat, sample_rate: nat) -> nat {
    if sample_rate == 0 {
        0
    } else {
        (samples * 1_000_000 / sample_rate) % 0x1_0000_0000_0000_0000
    }
}

/// Whole samples in a time at a rate, modulo `2^64`.
pub open spec fn us_samples(time_us: nat, sample_rate: nat) -> nat {
    (time_us * sample_rate / 1_000_000) % 0x1_0000_0000_0000_0000
}

impl SessionEpoch {
    /// The reading of the monotonic clock at the start.
    pub closed spec fn start(self) -> nat {
        self.start_us as nat
    }

    /// The wall clock at the start.
    pub closed spec fn wall(self) -> int {
        self.start_wall_time_us as int
    }

    /// Establishes an epoch at a reading of the monotonic clock and of the wall
    /// clock, both in microseconds.
    pub fn at(monotonic_us: u64, wall_us: i64) -> (e: Self)
        ensures
            e.start() == monotonic_us,
            e.wall() == wall_us,
    {
        SessionEpoch { start_us: monotonic_us, start_wall_time_us: wall_us }
    }

    /// Establishes an epoch at a reading of the monotonic clock, with the wall
    /// clock as it is now.
    pub fn now(monotonic_us: u64) -> (e: Self)
        ensures
            e.start() == monotonic_us,
    {
        let wall_us: i64 = utc_now_micros();
        Self::at(monotonic_us, wall_us)
    }

    /// Session time at a reading of the monotonic clock; zero before the start.
    pub fn elapsed_us_at(&self, monotonic_us: u64) -> (us: u64)
        ensures
            us == if monotonic_us < self.start() {
                0
            } else {
                monotonic_us - self.start()
            },
    {
        if monotonic_us < self.start_us {
            0
        } else {
            monotonic_us - self.start_us
        }
    }

    /// Microseconds of a number of audio samples.
    pub fn samples_to_us(samples: u64, sample_rate: u32) -> (us: u64)
        ensures
            us == sample_us(samples as nat, sample_rate as nat),
    {
        if sample_rate == 0 {
            return 0;
        }
        bytes::low64((samples as u128) * 1_000_000 / (sample_rate as u128))
    }

    /// Whole audio samples in a session time.
    pub fn us_to_samples(time_us: u64, sample_rate: u32) -> (samples: u64)
        ensures
            samples == us_samples(time_us as nat, sample_rate as nat),
    {
        assert(0 <= time_us * sample_rate <= 0xffff_ffff_ffff_ffff * 0xffff_ffff)
            by (nonlinear_arith)
            requires
                0 <= time_us <= 0xffff_ffff_ffff_ffff,
                0 <= sample_rate <= 0xffff_ffff,
        ;
        bytes::low64((time_us as u128) * (sample_rate as u128) / 1_000_000)
    }

    /// The wall clock, in UTC microseconds, when the session started.
    pub fn start_wall_time_us(&self) -> (us: i64)
        ensures
            us == self.wall(),
    {
        self.start_wall_time_us
    }
}

/// Session time never runs backwards: a later reading is never mapped earlier.
pub proof fn session_time_is_monotonic(epoch: SessionEpoch, earlier: nat, later: nat)
    requires
        earlier <= later,
    ensures
        (if earlier < epoch.start() {
            0
        } else {
            earlier - epoch.start()
        }) <= (if later < epoch.start() {
            0
        } else {
            later - epoch.start()
        }),
{
}

/// Samples that make whole microseconds survive the way to microseconds and back.
pub proof fn whole_microsecond_samples_round_trip(samples: nat, sample_rate: nat)
    requires
        sample_rate > 0,
        (samples * 1_000_000) % sample_rate == 0,
        samples * 1_000_000 / sample_rate < 0x1_0000_0000_0000_0000,
        samples < 0x1_0000_0000_0000_0000,
    ensures
        us_samples(sample_us(samples, sample_rate), sample_rate) == samples,
{
    let us = samples * 1_000_000 / sample_rate;
    assert(us * sample_rate == samples * 1_000_000) by (nonlinear_arith)
        requires
            us == samples * 1_000_000 / sample_rate,
            (samples * 1_000_000) % sample_rate == 0,
            sample_rate > 0,
    ;
}

/// Compares the samples that an audio clock delivered with the time that passed.
#[derive(Debug, Clone, Copy, PartialEq, Eq, Structural)]
pub struct ClockDriftEstimator {
    sample_rate: u32,
    cumulative_samples: u64,
    start_time_us: u64,
}

/// The time that samples stand for, and the time that passed.
#[derive(Debug, Clone, Copy, PartialEq, Eq, Structural)]
pub struct DriftReading {
    pub expected_us: u64,
    pub actual_us: u64,
}

impl ClockDriftEstimator {
    pub closed spec fn rate(self) -> nat {
        self.sample_rate as nat
    }

    pub closed spec fn samples(self) -> nat {
        self.cumulative_samples as nat
    }

    pub closed spec fn started(self) -> nat {
        self.start_time_us as nat
    }

    pub fn new(sample_rate: u32, start_time_us: u64) -> (e: Self)
        ensures
            e.rate() == sample_rate,
            e.samples() == 0,
            e.started() == start_time_us,
    {
        ClockDriftEstimator { sample_rate, cumulative_samples: 0, start_time_us }
    }

    /// Takes samples in, and gives the two times whose ratio is the drift. A
    /// reading without time passed has no drift.
    pub fn update(&mut self, samples_added: u64, current_wall_us: u64) -> (r: DriftReading)
        requires
            old(self).samples() + samples_added <= u64::MAX,
        ensures
            final(self).rate() == old(self).rate(),
            final(self).started() == old(self).started(),
            final(self).samples() == old(self).samples() + samples_added,
            r.expected_us == sample_us(final(self).samples(), final(self).rate()),
            r.actual_us == if current_wall_us < old(self).started() {
                0
            } else {
                current_wall_us - old(self).started()
            },
    {
        self.cumulative_samples = self.cumulative_samples + samples_added;
        DriftReading {
            expected_us: SessionEpoch::samples_to_us(self.cumulative_samples, self.sample_rate),
            actual_us: current_wall_us.saturating_sub(self.start_time_us),
        }
    }

    pub fn cumulative_samples(&self) -> (n: u64)
        ensures
            n == self.samples(),
    {
        self.cumulative_samples
    }
}

/// Seconds per tick, as a fraction.
#[derive(Debug, Clone, Copy, PartialEq, Eq, Structural)]
pub struct RationalTimebase {
    pub numerator: u32,
    pub denominator: u32,
}

/// Microseconds of ticks, modulo `2^64`.
pub open spec fn ticks_us(t: RationalTimebase, ticks: nat) -> nat {
    if t.denominator == 0 {
        0
    } else {
        (ticks * t.numerator as nat * 1_000_000 / (t.denominator as nat)) % 0x1_0000_0000_0000_0000
    }
}

/// Whole ticks in a time, modulo `2^64`.
pub open spec fn us_ticks(t: RationalTimebase, us: nat) -> nat {
    if t.numerator == 0 {
        0
    } else {
        (us * t.denominator as nat / (t.numerator as nat * 1_000_000)) % 0x1_0000_0000_0000_0000
    }
}

impl RationalTimebase {
    /// The 90 kHz clock of H.264 video.
    pub fn h264_90khz() -> (t: Self)
        ensures
            t == (RationalTimebase { numerator: 1, denominator: 90_000 }),
    {
        RationalTimebase { numerator: 1, denominator: 90_000 }
    }

    /// The clock of 48 kHz audio.
    pub fn audio_48khz() -> (t: Self)
        ensures
            t == (RationalTimebase { numerator: 1, denominator: 48_000 }),
    {
        RationalTimebase { numerator: 1, denominator: 48_000 }
    }

    /// The clock of 44.1 kHz audio.
    pub fn audio_44_1khz() -> (t: Self)
        ensures
            t == (RationalTimebase { numerator: 1, denominator: 44_100 }),
    {
        RationalTimebase { numerator: 1, denominator: 44_100 }
    }

    /// A clock of nanoseconds.
    pub fn nanoseconds() -> (t: Self)
        ensures
            t == (RationalTimebase { numerator: 1, denominator: 1_000_000_000 }),
    {
        RationalTimebase { numerator: 1, denominator: 1_000_000_000 }
    }

    /// A clock of hundreds of nanoseconds.
    pub fn hundred_nanos() -> (t: Self)
        ensures
            t == (RationalTimebase { numerator: 1, denominator: 10_000_000 }),
    {
        RationalTimebase { numerator: 1, denominator: 10_000_000 }
    }

    pub fn new(numerator: u32, denominator: u32) -> (t: Self)
        ensures
            t.numerator == numerator,
            t.denominator == denominator,
    {
        RationalTimebase { numerator, denominator }
    }

    /// Converts ticks to microseconds.
    pub fn ticks_to_us(&self, ticks: u64) -> (us: u64)
        ensures
            us == ticks_us(*self, ticks as nat),
    {
        if self.denominator == 0 {
            return 0;
        }
        let n: u128 = self.numerator as u128;
        assert(0 <= ticks * n <= 0xffff_ffff_ffff_ffff * 0xffff_ffff) by (nonlinear_arith)
            requires
                0 <= ticks <= 0xffff_ffff_ffff_ffff,
                0 <= n <= 0xffff_ffff,
        ;
        bytes::low64((ticks as u128) * n * 1_000_000 / (self.denominator as u128))
    }

    /// Converts microseconds to whole ticks.
    pub fn us_to_ticks(&self, us: u64) -> (ticks: u64)
        ensures
            ticks == us_ticks(*self, us as nat),
    {
        if self.numerator == 0 {
            return 0;
        }
        let d: u128 = self.denominator as u128;
        assert(0 <= us * d <= 0xffff_ffff_ffff_ffff * 0xffff_ffff) by (nonlinear_arith)
            requires
                0 <= us <= 0xffff_ffff_ffff_ffff,
                0 <= d <= 0xffff_ffff,
        ;
        bytes::low64((us as u128) * d / ((self.numerator as u128) * 1_000_000))
    }
}

/// A native timestamp and the session time it was mapped to.
#[derive(Debug, Clone, Copy, PartialEq, Eq, Structural)]
pub struct MappedTimestamp {
    pub native_ticks: u64,
    pub timebase: RationalTimebase,
    pub mapped_us: u64,
    pub is_discontinuity: bool,
}

/// Maps native clock ticks to session time, and notices clock resets.
pub struct NativeTimestampMapper {
    source_id: String,
    timebase: RationalTimebase,
    anchor_native_ticks: u64,
    anchor_session_us: u64,
    last_mapped_us: u64,
}

impl NativeTimestampMapper {
    pub closed spec fn source(self) -> Seq<char> {
        self.source_id@
    }

    pub closed spec fn base(self) -> RationalTimebase {
        self.timebase
    }

    pub closed spec fn anchor_ticks(self) -> nat {
        self.anchor_native_ticks as nat
    }

    pub closed spec fn anchor_us(self) -> nat {
        self.anchor_session_us as nat
    }

    /// The session time that was given last.
    pub closed spec fn last(self) -> nat {
        self.last_mapped_us as nat
    }

    /// The session time of a tick count, before it is held against the last one.
    /// Ticks before the anchor count as the anchor.
    pub open spec fn calculated(self, native_ticks: nat) -> nat {
        if native_ticks >= self.anchor_ticks() {
            self.anchor_us() + ticks_us(self.base(), (native_ticks - self.anchor_ticks()) as nat)
        } else {
            self.anchor_us()
        }
    }

    pub fn new(
        source_id: String,
        timebase: RationalTimebase,
        anchor_native_ticks: u64,
        anchor_session_us: u64,
    ) -> (m: Self)
        ensures
            m.source() == source_id@,
            m.base() == timebase,
            m.anchor_ticks() == anchor_native_ticks,
            m.anchor_us() == anchor_session_us,
            m.last() == anchor_session_us,
    {
        NativeTimestampMapper {
            source_id,
            timebase,
            anchor_native_ticks,
            anchor_session_us,
            last_mapped_us: anchor_session_us,
        }
    }

    /// Maps ticks to session time. Session time never runs backwards: a clock that
    /// jumped back is reported as a discontinuity, and the last time is kept.
    pub fn map_native_ticks(&mut self, native_ticks: u64) -> (m: MappedTimestamp)
        requires
            old(self).calculated(native_ticks as nat) <= u64::MAX,
        ensures
            final(self).source() == old(self).source(),
            final(self).base() == old(self).base(),
            final(self).anchor_ticks() == old(self).anchor_ticks(),
            final(self).anchor_us() == old(self).anchor_us(),
            m.native_ticks == native_ticks,
            m.timebase == old(self).base(),
            m.mapped_us == if old(self).calculated(native_ticks as nat) < old(self).last() {
                old(self).last()
            } else {
                old(self).calculated(native_ticks as nat)
            },
            m.is_discontinuity == (native_ticks < old(self).anchor_ticks() || old(self).calculated(
                native_ticks as nat,
            ) < old(self).last()),
            final(self).last() == m.mapped_us,
            old(self).last() <= final(self).last(),
    {
        let backwards: bool = native_ticks < self.anchor_native_ticks;
        let calculated: u64 = if backwards {
            self.anchor_session_us
        } else {
            self.anchor_session_us + self.timebase.ticks_to_us(
                native_ticks - self.anchor_native_ticks,
            )
        };
        let behind: bool = calculated < self.last_mapped_us;
        let mapped_us: u64 = if behind {
            self.last_mapped_us
        } else {
            calculated
        };
        self.last_mapped_us = mapped_us;
        MappedTimestamp {
            native_ticks,
            timebase: self.timebase,
            mapped_us,
            is_discontinuity: backwards || behind,
        }
    }

    pub fn timebase(&self) -> (t: RationalTimebase)
        ensures
            t == self.base(),
    {
        self.timebase
    }

    pub fn source_id(&self) -> (s: &str)
        ensures
            s@ == self.source(),
    {
        self.source_id.as_str()
    }
}

/// A number of samples lasts as long as the rate says, to the microsecond below.
pub proof fn samples_last_as_long_as_their_rate_says(samples: nat, sample_rate: nat)
    requires
        sample_rate > 0,
        samples * 1_000_000 < sample_rate * 0x1_0000_0000_0000_0000,
    ensures
        sample_us(samples, sample_rate) * sample_rate <= samples * 1_000_000 < (sample_us(
            samples,
            sample_rate,
        ) + 1) * sample_rate,
{
    let n = samples * 1_000_000;
    let q = n / sample_rate;
    assert(q * sample_rate <= n < (q + 1) * sample_rate && q < 0x1_0000_0000_0000_0000)
        by (nonlinear_arith)
        requires
            q == n / sample_rate,
            sample_rate > 0,
            n < sample_rate * 0x1_0000_0000_0000_0000,
    ;
}

/// As many samples fit in a time as the rate says, of which none is cut short.
pub proof fn whole_samples_fit_in_a_time(time_us: nat, sample_rate: nat)
    requires
        time_us * sample_rate < 1_000_000 * 0x1_0000_0000_0000_0000,
    ensures
        us_samples(time_us, sample_rate) * 1_000_000 <= time_us * sample_rate < (us_samples(
            time_us,
            sample_rate,
        ) + 1) * 1_000_000,
{
}

/// Ticks of a timebase are its numerator over its denominator of a second each, to the
/// microsecond below.
pub proof fn ticks_last_as_long_as_their_timebase_says(t: RationalTimebase, ticks: nat)
    requires
        t.denominator > 0,
        ticks * t.numerator * 1_000_000 < t.denominator * 0x1_0000_0000_0000_0000,
    ensures
        ticks_us(t, ticks) * t.denominator <= ticks * t.numerator * 1_000_000 < (ticks_us(t, ticks)
            + 1) * t.denominator,
{
    let d = t.denominator as nat;
    let n = ticks * t.numerator as nat * 1_000_000;
    let q = n / d;
    assert(q * d <= n < (q + 1) * d && q < 0x1_0000_0000_0000_0000) by (nonlinear_arith)
        requires
            q == n / d,
            d > 0,
            n < d * 0x1_0000_0000_0000_0000,
    ;
}

/// A time holds as many ticks as start within it and are whole.
pub proof fn whole_ticks_fit_in_a_time(t: RationalTimebase, us: nat)
    requires
        t.numerator > 0,
        us * t.denominator < t.numerator * 1_000_000 * 0x1_0000_0000_0000_0000,
    ensures
        us_ticks(t, us) * (t.numerator * 1_000_000) <= us * t.denominator < (us_ticks(t, us) + 1) * (
        t.numerator * 1_000_000),
{
    let d = (t.numerator * 1_000_000) as nat;
    let n = us * t.denominator as nat;
    let q = n / d;
    assert(q * d <= n < (q + 1) * d && q < 0x1_0000_0000_0000_0000) by (nonlinear_arith)
        requires
            q == n / d,
            d > 0,
            n < d * 0x1_0000_0000_0000_0000,
    ;
}

/// Native times keep their distance from the anchor: the anchor is the session time that it
/// was bound to, and ticks behind it last as long as the timebase says. None lies before it.
pub proof fn native_times_keep_their_distance(m: NativeTimestampMapper, ticks: nat)
    requires
        m.base().denominator > 0,
        ticks * m.base().numerator * 1_000_000 < m.base().denominator * 0x1_0000_0000_0000_0000,
    ensures
        ({
            let d = m.calculated(m.anchor_ticks() + ticks) - m.anchor_us();
            d * m.base().denominator <= ticks * m.base().numerator * 1_000_000 < (d + 1)
                * m.base().denominator
        }),
        forall|early: nat|
            early < m.anchor_ticks() ==> #[trigger] m.calculated(early) == m.anchor_us(),
{
    ticks_last_as_long_as_their_timebase_says(m.base(), ticks);
    assert((m.anchor_ticks() + ticks - m.anchor_ticks()) as nat == ticks);
}

} // verus!
