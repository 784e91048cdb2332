//! Waveforms over edited time: which buckets a view has, which stretches of the
//! source they show, and the files that keep what was measured. Loudness is kept as
//! single-precision bit patterns.
use crate::bytes;
use crate::paths;
use crate::paths::{is_safe_track_id, safe_path, PathProbe};
use crate::project::layout;
use crate::project::layout::ONE_BITS;
use crate::project::manifest::TrackType;
use crate::project::pcm::{WavInfo, MAX_CHANNELS, MAX_SAMPLE_RATE, MIN_SAMPLE_RATE};
use crate::project::reader::SegmentSummary;
use crate::text;
use crate::timeline;
use crate::timeline::{RetainedInterval, TimelineMapper};
use vstd::prelude::*;
use vstd::string::*;

verus! {

pub const ANALYSIS_VERSION: u32 = 3;

pub const CACHE_BUCKET_US: u64 = 10_000;

pub const MAX_QUERY_BUCKETS: usize = 512;

pub const MAX_CACHE_BUCKETS: usize = 200_000;

pub const CACHE_HEADER_SIZE: usize = 64;

/// A track of an opened project, for analysis.
#[derive(Debug)]
pub struct WaveformTrackContext {
    pub root: String,
    pub track_id: String,
    pub track_type: TrackType,
    pub segments: Vec<SegmentSummary>,
    pub retained: Vec<RetainedInterval>,
    pub edited_duration_us: u64,
}

/// What a waveform query is to show: edited ranges, and under each the stretches of
/// the source.
#[derive(Debug)]
pub struct WaveformPlan {
    pub start_us: u64,
    pub end_us: u64,
    pub buckets: Vec<(u64, u64)>,
    pub ranges: Vec<Vec<(u64, u64)>>,
    pub visible: Vec<(u64, u64)>,
}

/// Whether a track holds sound.
pub open spec fn is_audio(t: TrackType) -> bool {
    t == TrackType::MicAudio || t == TrackType::SystemAudio
}

/// Why a waveform cannot be asked for; `None` when it can.
pub open spec fn query_fault(t: TrackType, from: u64, to: u64, count: usize) -> Option<Seq<char>> {
    if !is_audio(t) {
        Some("Track is not audio"@)
    } else if count == 0 || count > MAX_QUERY_BUCKETS {
        Some("Waveform bucket count must be 1–512"@)
    } else if from >= to {
        Some("Waveform range must be a half-open interval"@)
    } else {
        None
    }
}

/// The stretches of the source that play in the edited times from `a` up to `b`, when
/// the first retained stretch starts at edited time `base`.
pub open spec fn source_ranges(s: Seq<RetainedInterval>, base: int, a: int, b: int) -> Seq<
    (int, int),
>
    decreases s.len(),
{
    if s.len() == 0 {
        Seq::empty()
    } else {
        let end = base + timeline::span(s[0]);
        let lo = timeline::max(a, base);
        let hi = timeline::min(b, end);
        let rest = source_ranges(s.drop_first(), end, a, b);
        if lo < hi {
            seq![(s[0].start_us + (lo - base), s[0].start_us + (hi - base))] + rest
        } else {
            rest
        }
    }
}

/// The stretches of the source that play in an edited range.
pub fn edited_range_to_source(mapper: &TimelineMapper, start_us: u64, end_us: u64) -> (r: Vec<
    (u64, u64),
>)
    requires
        mapper.wf(),
    ensures
        timeline::pairs(r@) == source_ranges(mapper@, 0, start_us as int, end_us as int),
{
    let ghost s = mapper@;
    let v: &Vec<RetainedInterval> = mapper.intervals();
    let mut out: Vec<(u64, u64)> = Vec::new();
    let mut base: u64 = 0;
    let mut i: usize = 0;
    proof {
        assert(s.skip(0) =~= s);
        assert(timeline::pairs(out@) =~= Seq::<(int, int)>::empty());
        timeline::edited_duration_is_bounded(s);
    }
    while i < v.len()
        invariant
            i <= s.len(),
            s == v@,
            timeline::ordered(s),
            base + timeline::total(s.skip(i as int)) == timeline::total(s),
            timeline::total(s) <= timeline::MAX_SAFE_TIME,
            source_ranges(s, 0, start_us as int, end_us as int) == timeline::pairs(out@)
                + source_ranges(s.skip(i as int), base as int, start_us as int, end_us as int),
        decreases s.len() - i,
    {
        let ghost here = s.skip(i as int);
        proof {
            assert(here.drop_first() =~= s.skip(i + 1));
            timeline::lemma_skip_ordered(s, i + 1);
            timeline::edited_duration_is_bounded(s.skip(i + 1));
        }
        let r: RetainedInterval = v[i];
        let end: u64 = base + (r.end_us - r.start_us);
        let lo: u64 = if start_us >= base {
            start_us
        } else {
            base
        };
        let hi: u64 = if end_us <= end {
            end_us
        } else {
            end
        };
        let ghost before = timeline::pairs(out@);
        let ghost rest = source_ranges(s.skip(i + 1), end as int, start_us as int, end_us as int);
        if lo < hi {
            let from: u64 = r.start_us + (lo - base);
            let to: u64 = r.start_us + (hi - base);
            out.push((from, to));
            assert(timeline::pairs(out@) =~= before.push((from as int, to as int)));
            assert(before + (seq![(from as int, to as int)] + rest) =~= timeline::pairs(out@)
                + rest);
        }
        base = end;
        i = i + 1;
    }
    assert(timeline::pairs(out@) + Seq::<(int, int)>::empty() =~= timeline::pairs(out@));
    out
}

/// Whether source time `x` plays at edited time `t`, from `a` up to `b`, when the
/// first retained stretch starts at edited time `base`.
pub open spec fn plays_at(s: Seq<RetainedInterval>, base: int, a: int, b: int, x: int, t: int) -> bool {
    base <= t && a <= t < b && timeline::to_source(s, t - base) == Some(x)
}

proof fn lemma_source_ranges(s: Seq<RetainedInterval>, base: int, a: int, b: int, x: int)
    requires
        timeline::ordered(s),
    ensures
        timeline::in_ranges(source_ranges(s, base, a, b), x) <==> exists|t: int|
            plays_at(s, base, a, b, x, t),
    decreases s.len(),
{
    if s.len() > 0 {
        timeline::lemma_skip_ordered(s, 1);
        assert(s.skip(1) =~= s.drop_first());
        let rest = s.drop_first();
        let end = base + timeline::span(s[0]);
        lemma_source_ranges(rest, end, a, b, x);
        let all = source_ranges(s, base, a, b);
        let tail = source_ranges(rest, end, a, b);
        let lo = timeline::max(a, base);
        let hi = timeline::min(b, end);
        let first = (s[0].start_us + (lo - base), s[0].start_us + (hi - base));
        if lo < hi {
            assert(all == seq![first] + tail);
        }
        if timeline::in_ranges(all, x) {
            let i = choose|i: int| 0 <= i < all.len() && (#[trigger] all[i]).0 <= x < all[i].1;
            if lo < hi && i == 0 {
                assert(plays_at(s, base, a, b, x, base + (x - s[0].start_us)));
            } else {
                if lo < hi {
                    assert(tail[i - 1] == all[i]);
                }
                assert(timeline::in_ranges(tail, x));
                let t = choose|t: int| plays_at(rest, end, a, b, x, t);
                assert(plays_at(s, base, a, b, x, t));
            }
        }
        if exists|t: int| plays_at(s, base, a, b, x, t) {
            let t = choose|t: int| plays_at(s, base, a, b, x, t);
            if t < end {
                assert(all[0] == first);
            } else {
                assert(plays_at(rest, end, a, b, x, t));
                assert(timeline::in_ranges(tail, x));
                let i = choose|i: int| 0 <= i < tail.len() && (#[trigger] tail[i]).0 <= x < tail[i].1;
                if lo < hi {
                    assert(all[i + 1] == tail[i]);
                } else {
                    assert(all[i] == tail[i]);
                }
            }
        }
    }
}

/// The stretches of the source under an edited range hold exactly what plays in it.
pub proof fn source_ranges_are_exact(s: Seq<RetainedInterval>, a: int, b: int, x: int)
    requires
        timeline::ordered(s),
    ensures
        timeline::in_ranges(source_ranges(s, 0, a, b), x) <==> exists|t: int|
            plays_at(s, 0, a, b, x, t),
{
    lemma_source_ranges(s, 0, a, b, x);
}

/// The edges of bucket `i` of `count` that divide `width`, counted from its start.
pub open spec fn edge(width: int, i: int, count: int) -> int {
    width * i / count
}

/// The end of what a query can show.
pub open spec fn edited_end(retained: Seq<RetainedInterval>, edited_duration: u64) -> int {
    timeline::min(timeline::total(retained), edited_duration as int)
}

/// Whether a plan shows an edited range in buckets.
pub open spec fn is_plan(
    plan: WaveformPlan,
    retained: Seq<RetainedInterval>,
    edited_duration: u64,
    from: u64,
    to: u64,
    count: usize,
) -> bool {
    let end = edited_end(retained, edited_duration);
    let width = plan.end_us - plan.start_us;
    &&& plan.start_us == timeline::min(from as int, end)
    &&& plan.end_us == timeline::max(timeline::min(to as int, end), plan.start_us as int)
    &&& plan.buckets@.len() == timeline::min(count as int, width)
    &&& plan.ranges@.len() == plan.buckets@.len()
    &&& forall|i: int|
        0 <= i < plan.buckets@.len() ==> (#[trigger] plan.buckets@[i]).0 == plan.start_us + edge(
            width,
            i,
            plan.buckets@.len() as int,
        ) && plan.buckets@[i].1 == plan.start_us + edge(width, i + 1, plan.buckets@.len() as int)
    &&& forall|i: int|
        0 <= i < plan.buckets@.len() ==> timeline::pairs((#[trigger] plan.ranges@[i])@)
            == source_ranges(
            retained,
            0,
            plan.buckets@[i].0 as int,
            plan.buckets@[i].1 as int,
        )
    &&& timeline::pairs(plan.visible@) == source_ranges(
        retained,
        0,
        plan.start_us as int,
        plan.end_us as int,
    )
}

proof fn lemma_edge(width: int, i: int, count: int)
    requires
        0 <= i <= count,
        0 < count <= width,
    ensures
        0 <= edge(width, i, count) <= width,
        i < count ==> edge(width, i, count) < edge(width, i + 1, count),
        edge(width, 0, count) == 0,
        edge(width, count, count) == width,
{
    let e = edge(width, i, count);
    assert(0 <= e <= width) by (nonlinear_arith)
        requires
            e == width * i / count,
            0 <= i <= count,
            0 < count <= width,
    ;
    assert(width * 0 / count == 0) by (nonlinear_arith)
        requires
            count > 0,
    ;
    assert(width * count / count == width) by (nonlinear_arith)
        requires
            count > 0,
    ;
    if i < count {
        let f = edge(width, i + 1, count);
        assert(e < f) by (nonlinear_arith)
            requires
                e == width * i / count,
                f == width * (i + 1) / count,
                0 <= i,
                0 < count <= width,
        ;
    }
}

/// The buckets of a view are not empty, follow one another without a gap, and fill
/// the view.
pub proof fn buckets_fill_the_view(
    plan: WaveformPlan,
    retained: Seq<RetainedInterval>,
    edited_duration: u64,
    from: u64,
    to: u64,
    count: usize,
)
    requires
        is_plan(plan, retained, edited_duration, from, to, count),
        count > 0,
    ensures
        plan.buckets@.len() == 0 <==> plan.start_us == plan.end_us,
        plan.buckets@.len() > 0 ==> plan.buckets@[0].0 == plan.start_us
            && plan.buckets@.last().1 == plan.end_us,
        forall|i: int|
            0 <= i < plan.buckets@.len() ==> (#[trigger] plan.buckets@[i]).0 < plan.buckets@[i].1,
        forall|i: int|
            0 <= i < plan.buckets@.len() - 1 ==> (#[trigger] plan.buckets@[i]).1 == plan.buckets@[i
                + 1].0,
{
    let n = plan.buckets@.len() as int;
    let width = plan.end_us - plan.start_us;
    if n > 0 {
        lemma_edge(width, 0, n);
        lemma_edge(width, n - 1, n);
        assert forall|i: int| 0 <= i < n implies (#[trigger] plan.buckets@[i]).0
            < plan.buckets@[i].1 by {
            lemma_edge(width, i, n);
        }
    }
}

/// Plans a waveform query.
pub fn plan_waveform(
    ctx: &WaveformTrackContext,
    start_us: u64,
    end_us: u64,
    bucket_count: usize,
) -> (r: Result<WaveformPlan, String>)
    ensures
        ({
            let fault = query_fault(ctx.track_type, start_us, end_us, bucket_count);
            match r {
                Ok(plan) => {
                    &&& fault is None
                    &&& timeline::retained_fault(ctx.retained@) is None
                    &&& is_plan(
                        plan,
                        ctx.retained@,
                        ctx.edited_duration_us,
                        start_us,
                        end_us,
                        bucket_count,
                    )
                },
                Err(e) => if fault is Some {
                    fault == Some(e@)
                } else {
                    timeline::retained_fault(ctx.retained@) == Some(e@)
                },
            }
        }),
{
    if !(ctx.track_type == TrackType::MicAudio || ctx.track_type == TrackType::SystemAudio) {
        return Err("Track is not audio".to_owned());
    }
    if bucket_count == 0 || bucket_count > MAX_QUERY_BUCKETS {
        return Err("Waveform bucket count must be 1–512".to_owned());
    }
    if start_us >= end_us {
        return Err("Waveform range must be a half-open interval".to_owned());
    }
    let mapper: TimelineMapper = match TimelineMapper::try_new(copy_retained(&ctx.retained)) {
        Ok(m) => m,
        Err(e) => {
            return Err(e);
        },
    };
    let whole: u64 = mapper.total_edited_duration_us();
    let edited: u64 = if whole <= ctx.edited_duration_us {
        whole
    } else {
        ctx.edited_duration_us
    };
    let from: u64 = if start_us <= edited {
        start_us
    } else {
        edited
    };
    let clipped: u64 = if end_us <= edited {
        end_us
    } else {
        edited
    };
    let to: u64 = if clipped >= from {
        clipped
    } else {
        from
    };
    let width: u64 = to - from;
    let count: usize = if (bucket_count as u64) <= width {
        bucket_count
    } else {
        width as usize
    };
    let mut buckets: Vec<(u64, u64)> = Vec::new();
    let mut ranges: Vec<Vec<(u64, u64)>> = Vec::new();
    let mut i: usize = 0;
    while i < count
        invariant
            i <= count <= MAX_QUERY_BUCKETS,
            count <= width,
            width == to - from,
            mapper.wf(),
            buckets@.len() == i,
            ranges@.len() == i,
            forall|k: int|
                0 <= k < i ==> (#[trigger] buckets@[k]).0 == from + edge(
                    width as int,
                    k,
                    count as int,
                ) && buckets@[k].1 == from + edge(width as int, k + 1, count as int),
            forall|k: int|
                0 <= k < i ==> timeline::pairs((#[trigger] ranges@[k])@) == source_ranges(
                    mapper@,
                    0,
                    buckets@[k].0 as int,
                    buckets@[k].1 as int,
                ),
        decreases count - i,
    {
        proof {
            lemma_edge(width as int, i as int, count as int);
            lemma_edge(width as int, i + 1, count as int);
            assert(0 <= width * (i + 1) <= 0xffff_ffff_ffff_ffff * 512) by (nonlinear_arith)
                requires
                    0 <= width <= 0xffff_ffff_ffff_ffff,
                    0 <= i + 1 <= 512,
            ;
            assert(0 <= width * i <= width * (i + 1)) by (nonlinear_arith)
                requires
                    0 <= width,
                    0 <= i,
            ;
        }
        let a: u64 = from + ((width as u128) * (i as u128) / (count as u128)) as u64;
        let b: u64 = from + ((width as u128) * ((i + 1) as u128) / (count as u128)) as u64;
        let under: Vec<(u64, u64)> = edited_range_to_source(&mapper, a, b);
        buckets.push((a, b));
        ranges.push(under);
        i = i + 1;
    }
    let visible: Vec<(u64, u64)> = edited_range_to_source(&mapper, from, to);
    Ok(WaveformPlan { start_us: from, end_us: to, buckets, ranges, visible })
}

fn copy_retained(v: &Vec<RetainedInterval>) -> (r: Vec<RetainedInterval>)
    ensures
        r@ == v@,
{
    crate::project::revision::copy_intervals(v)
}

/// Whether a segment plays in one of the stretches.
pub open spec fn segment_visible(visible: Seq<(u64, u64)>, from: u64, to: u64) -> bool {
    exists|i: int| 0 <= i < visible.len() && (#[trigger] visible[i]).0 < to && from < visible[i].1
}

/// Whether a segment plays in one of the stretches.
pub fn is_segment_visible(visible: &Vec<(u64, u64)>, start_us: u64, end_us: u64) -> (r: bool)
    ensures
        r == segment_visible(visible@, start_us, end_us),
{
    let mut i: usize = 0;
    while i < visible.len()
        invariant
            i <= visible@.len(),
            forall|k: int|
                0 <= k < i ==> !((#[trigger] visible@[k]).0 < end_us && start_us < visible@[k].1),
        decreases visible@.len() - i,
    {
        if visible[i].0 < end_us && start_us < visible[i].1 {
            return true;
        }
        i = i + 1;
    }
    false
}

/// The end of a segment, no later than its samples reach.
pub fn effective_end(start_us: u64, end_us: u64, info: &WavInfo) -> (r: u64)
    requires
        info.wf(),
    ensures
        r == timeline::min(
            end_us as int,
            timeline::min(start_us + info.frame_count * 1_000_000 / (info.sample_rate as int), u64::MAX as int),
        ),
{
    let length: u64 = info.frame_us(info.frame_count);
    proof {
        let n = info.frame_count as int;
        let rate = info.sample_rate as int;
        let align = info.block_align as int;
        assert(n <= n * align) by (nonlinear_arith)
            requires
                n >= 0,
                align >= 1,
        ;
        let q = n * 1_000_000 / rate;
        assert(0 <= q <= n * 1_000_000) by (nonlinear_arith)
            requires
                q == n * 1_000_000 / rate,
                n >= 0,
                rate >= 1,
        ;
        assert(q % 0x1_0000_0000_0000_0000 == q);
    }
    let reach: u64 = if length > u64::MAX - start_us {
        u64::MAX
    } else {
        start_us + length
    };
    if end_us <= reach {
        end_us
    } else {
        reach
    }
}

/// The length of a cached bucket for a stretch of `duration` microseconds: the
/// smallest doubling of the usual one with not too many buckets.
pub open spec fn bucket_length(duration: int, from: int) -> int
    decreases duration - from,
{
    if from <= 0 || duration / from <= MAX_CACHE_BUCKETS {
        from
    } else {
        proof {
            assert(from * 200_000 < duration) by (nonlinear_arith)
                requires
                    duration / from > 200_000,
                    from > 0,
            ;
        }
        bucket_length(duration, 2 * from)
    }
}

/// The length of a cached bucket, as whole sample frames, in microseconds.
pub open spec fn bucket_us_of(rate: u32, duration: int) -> int {
    let d = timeline::max(duration, 1);
    let frames = timeline::max(bucket_length(d, CACHE_BUCKET_US as int) * rate / 1_000_000, 1);
    frames * 1_000_000 / (rate as int)
}

/// The length of a cached bucket, as whole sample frames, in microseconds.
pub fn bucket_us_for(info: &WavInfo, start_us: u64, end_us: u64) -> (r: u64)
    requires
        info.wf(),
    ensures
        r == bucket_us_of(info.sample_rate, timeline::max(end_us - start_us, 0)),
{
    let mut duration: u64 = if end_us > start_us {
        end_us - start_us
    } else {
        0
    };
    if duration == 0 {
        duration = 1;
    }
    let mut bucket_us: u64 = CACHE_BUCKET_US;
    while duration / bucket_us > MAX_CACHE_BUCKETS as u64
        invariant
            CACHE_BUCKET_US <= bucket_us <= 0x1_0000_0000_0000,
            duration >= 1,
            bucket_length(duration as int, CACHE_BUCKET_US as int) == bucket_length(
                duration as int,
                bucket_us as int,
            ),
        decreases duration - bucket_us,
    {
        assert(bucket_us * 200_000 < duration) by (nonlinear_arith)
            requires
                duration / bucket_us > 200_000,
                bucket_us > 0,
        ;
        bucket_us = bucket_us * 2;
    }
    let ghost rate = info.sample_rate as int;
    proof {
        let p = bucket_us * info.sample_rate;
        assert(0 <= p <= 0x1_0000_0000_0000 * 192_000) by (nonlinear_arith)
            requires
                p == bucket_us * info.sample_rate,
                0 <= bucket_us <= 0x1_0000_0000_0000,
                0 <= info.sample_rate <= 192_000,
        ;
        assert(0 <= p / 1_000_000 <= 0x1_0000_0000_0000 * 192_000 / 1_000_000);
        assert((p / 1_000_000) % 0x1_0000_0000_0000_0000 == p / 1_000_000);
    }
    let mut frames: u64 = info.frames_for_us(bucket_us);
    if frames == 0 {
        frames = 1;
    }
    proof {
        let q = frames * 1_000_000 / rate;
        assert(0 <= q <= frames * 1_000_000) by (nonlinear_arith)
            requires
                q == frames * 1_000_000 / rate,
                frames >= 0,
                rate >= 1,
        ;
        assert(q % 0x1_0000_0000_0000_0000 == q || q > u64::MAX);
        assert(q <= 0x1_0000_0000_0000 * 2) by (nonlinear_arith)
            requires
                q == frames * 1_000_000 / rate,
                frames == 1 || frames * 1_000_000 <= bucket_us * rate,
                bucket_us <= 0x1_0000_0000_0000,
                rate >= 1,
        ;
    }
    ((frames as u128) * 1_000_000 / (info.sample_rate as u128)) as u64
}

/// The number of buckets of a stretch, the last one perhaps short.
pub open spec fn bucket_count_of(duration: int, bucket_us: int) -> int {
    timeline::min((duration + bucket_us - 1) / bucket_us, MAX_CACHE_BUCKETS as int)
}

/// The number of buckets of a stretch, the last one perhaps short.
pub fn bucket_count_for(start_us: u64, end_us: u64, bucket_us: u64) -> (r: usize)
    requires
        0 < bucket_us,
        timeline::max(end_us - start_us, 0) + bucket_us - 1 <= u64::MAX,
    ensures
        r == bucket_count_of(timeline::max(end_us - start_us, 0), bucket_us as int),
{
    let duration: u64 = if end_us > start_us {
        end_us - start_us
    } else {
        0
    };
    let n: u64 = (duration + (bucket_us - 1)) / bucket_us;
    if n <= MAX_CACHE_BUCKETS as u64 {
        n as usize
    } else {
        MAX_CACHE_BUCKETS
    }
}

/// How much of the time from `a` up to `b` falls into bucket `idx`, where buckets
/// start at `start`.
pub open spec fn weight_of(start: int, bucket_us: int, idx: int, a: int, b: int) -> int {
    timeline::min(b, start + (idx + 1) * bucket_us) - timeline::max(a, start + idx * bucket_us)
}

/// The buckets into which the time from `a` up to `b` falls, of `len` that start at
/// `start`, each with how much of it.
pub open spec fn weights(start: int, bucket_us: int, len: int, a: int, b: int) -> Seq<(int, int)> {
    let first = (a - start) / bucket_us;
    let last = timeline::min((b - 1 - start) / bucket_us, len - 1);
    if a >= b || last < first {
        Seq::empty()
    } else {
        Seq::new(
            (last - first + 1) as nat,
            |k: int| (first + k, weight_of(start, bucket_us, first + k, a, b)),
        )
    }
}

/// The length of a bucket, of which none is empty.
pub open spec fn bucket_unit(bucket_us: u64) -> int {
    timeline::max(bucket_us as int, 1)
}

/// The buckets of a cached segment into which a stretch of the source falls, each
/// with how much of it.
pub fn bucket_weights(
    source_start_us: u64,
    source_end_us: u64,
    bucket_us: u64,
    len: usize,
    start_us: u64,
    end_us: u64,
) -> (r: Vec<(usize, u64)>)
    requires
        0 < len,
        source_end_us + bucket_unit(bucket_us) <= u64::MAX,
    ensures
        ({
            let a = timeline::max(start_us as int, source_start_us as int);
            let b = timeline::min(end_us as int, source_end_us as int);
            let w = weights(source_start_us as int, bucket_unit(bucket_us), len as int, a, b);
            &&& r@.len() == w.len()
            &&& forall|k: int|
                0 <= k < r@.len() ==> (#[trigger] r@[k]).0 == w[k].0 && r@[k].1 == w[k].1
            &&& forall|k: int| 0 <= k < r@.len() ==> (#[trigger] r@[k]).0 < len
        }),
{
    let bucket_us: u64 = if bucket_us == 0 {
        1
    } else {
        bucket_us
    };
    let mut out: Vec<(usize, u64)> = Vec::new();
    let a: u64 = if start_us >= source_start_us {
        start_us
    } else {
        source_start_us
    };
    let b: u64 = if end_us <= source_end_us {
        end_us
    } else {
        source_end_us
    };
    if a >= b {
        return out;
    }
    let first: u64 = (a - source_start_us) / bucket_us;
    let reach: u64 = (b - 1 - source_start_us) / bucket_us;
    let last: u64 = if reach <= (len - 1) as u64 {
        reach
    } else {
        (len - 1) as u64
    };
    let ghost w = weights(source_start_us as int, bucket_us as int, len as int, a as int, b as int);
    let mut idx: u64 = first;
    while idx <= last
        invariant
            first <= idx <= last + 1 || (last < first && idx == first),
            last < len <= usize::MAX,
            first == (a - source_start_us) / (bucket_us as int),
            reach == (b - 1 - source_start_us) / (bucket_us as int),
            last <= reach,
            last == timeline::min(reach as int, len - 1),
            source_start_us <= a < b <= source_end_us,
            source_end_us + bucket_us <= u64::MAX,
            0 < bucket_us,
            w == weights(
                source_start_us as int,
                bucket_us as int,
                len as int,
                a as int,
                b as int,
            ),
            out@.len() == idx - first,
            forall|k: int|
                0 <= k < out@.len() ==> (#[trigger] out@[k]).0 == w[k].0 && out@[k].1 == w[k].1
                    && out@[k].0 < len,
        decreases last + 1 - idx,
    {
        proof {
            let q = idx as int;
            let g = bucket_us as int;
            let f = first as int;
            let top = reach as int;
            let d = b - 1 - source_start_us;
            let c = a - source_start_us;
            assert(q * g <= top * g <= d) by (nonlinear_arith)
                requires
                    0 <= q <= top,
                    top == d / g,
                    g > 0,
                    d >= 0,
            ;
            assert(c < (q + 1) * g) by (nonlinear_arith)
                requires
                    f <= q,
                    f == c / g,
                    g > 0,
                    c >= 0,
            ;
            assert((q + 1) * g == q * g + g) by (nonlinear_arith);
            assert(q * g >= 0) by (nonlinear_arith)
                requires
                    q >= 0,
                    g >= 0,
            ;
        }
        let from: u64 = source_start_us + idx * bucket_us;
        let to: u64 = from + bucket_us;
        let hi: u64 = if b <= to {
            b
        } else {
            to
        };
        let lo: u64 = if a >= from {
            a
        } else {
            from
        };
        out.push((idx as usize, hi - lo));
        assert(w[idx - first] == (
            idx as int,
            weight_of(source_start_us as int, bucket_us as int, idx as int, a as int, b as int),
        ));
        idx = idx + 1;
    }
    out
}

/// The sum of the first `n` weights.
pub open spec fn weight_sum(w: Seq<(int, int)>, n: nat) -> int
    decreases n,
{
    if n == 0 {
        0
    } else {
        weight_sum(w, (n - 1) as nat) + w[n - 1].1
    }
}

proof fn lemma_weight_sum(start: int, g: int, len: int, a: int, b: int, n: nat)
    requires
        start <= a < b,
        0 < g,
        (b - 1 - start) / g < len,
        n <= weights(start, g, len, a, b).len(),
    ensures
        n > 0 ==> weight_sum(weights(start, g, len, a, b), n) == timeline::min(
            b,
            start + ((a - start) / g + n) * g,
        ) - a,
    decreases n,
{
    let first = (a - start) / g;
    let reach = (b - 1 - start) / g;
    let w = weights(start, g, len, a, b);
    if n > 0 {
        lemma_weight_sum(start, g, len, a, b, (n - 1) as nat);
        let q = first + (n - 1);
        assert(w[n - 1] == (q, weight_of(start, g, q, a, b)));
        assert((q + 1) * g == q * g + g) by (nonlinear_arith);
        assert(q * g <= b - 1 - start) by (nonlinear_arith)
            requires
                q <= reach,
                reach == (b - 1 - start) / g,
                g > 0,
        ;
        assert(first * g <= a - start < (first + 1) * g) by (nonlinear_arith)
            requires
                first == (a - start) / g,
                g > 0,
        ;
        if n > 1 {
            assert((first + 1) * g <= q * g) by (nonlinear_arith)
                requires
                    first + 1 <= q,
                    g > 0,
            ;
        }
        assert(((a - start) / g + n) * g == (q + 1) * g) by {
            assert((a - start) / g + n == q + 1);
        }
        assert(((a - start) / g + ((n - 1) as nat)) * g == q * g) by {
            assert((a - start) / g + ((n - 1) as nat) == q);
        }
        if n == 1 {
            assert(weight_sum(w, 0) == 0);
        }
    }
}

/// No part of a stretch is lost or counted twice: what falls into the buckets is as
/// long as the stretch.
pub proof fn weights_add_up(start: int, bucket_us: int, len: int, a: int, b: int)
    requires
        start <= a < b,
        0 < bucket_us,
        (b - 1 - start) / bucket_us < len,
    ensures
        ({
            let w = weights(start, bucket_us, len, a, b);
            weight_sum(w, w.len()) == b - a
        }),
{
    let g = bucket_us;
    let first = (a - start) / g;
    let reach = (b - 1 - start) / g;
    let w = weights(start, g, len, a, b);
    assert(first <= reach) by (nonlinear_arith)
        requires
            first == (a - start) / g,
            reach == (b - 1 - start) / g,
            a <= b - 1,
            g > 0,
    ;
    lemma_weight_sum(start, g, len, a, b, w.len());
    assert(b - start <= (reach + 1) * g) by (nonlinear_arith)
        requires
            reach == (b - 1 - start) / g,
            g > 0,
    ;
    assert(first + w.len() == reach + 1);
}

/// Where a sample frame belongs.
#[derive(Debug, Clone, Copy, PartialEq, Eq, Structural)]
pub enum FramePlace {
    Bucket(usize),
    /// In none of the buckets.
    Outside,
    /// After the end of the segment.
    Past,
}

/// The bucket of a sample frame of a segment.
pub fn frame_place(
    info: &WavInfo,
    start_us: u64,
    end_us: u64,
    frame_index: u64,
    bucket_us: u64,
    bucket_count: usize,
) -> (r: FramePlace)
    requires
        info.wf(),
        frame_index <= info.frame_count,
        0 < bucket_us,
    ensures
        ({
            let t = frame_index * 1_000_000 / (info.sample_rate as int);
            r == if timeline::min(start_us + t, u64::MAX as int) >= end_us {
                FramePlace::Past
            } else if t / (bucket_us as int) < bucket_count {
                FramePlace::Bucket((t / (bucket_us as int)) as usize)
            } else {
                FramePlace::Outside
            }
        }),
{
    let t: u64 = info.frame_us(frame_index);
    proof {
        let n = frame_index as int;
        let rate = info.sample_rate as int;
        let align = info.block_align as int;
        let count = info.frame_count as int;
        assert(count <= count * align) by (nonlinear_arith)
            requires
                count >= 0,
                align >= 1,
        ;
        let q = n * 1_000_000 / rate;
        assert(0 <= q <= n * 1_000_000) by (nonlinear_arith)
            requires
                q == n * 1_000_000 / rate,
                n >= 0,
                rate >= 1,
        ;
        assert(q % 0x1_0000_0000_0000_0000 == q);
    }
    let at: u64 = if t > u64::MAX - start_us {
        u64::MAX
    } else {
        start_us + t
    };
    if at >= end_us {
        return FramePlace::Past;
    }
    let idx: u64 = (at - start_us) / bucket_us;
    if idx < bucket_count as u64 {
        FramePlace::Bucket(idx as usize)
    } else {
        FramePlace::Outside
    }
}

/// One step of the Fowler-Noll-Vo hash of 64 bits, variant 1a.
pub open spec fn fnv_step(hash: u64, b: u8) -> u64 {
    (hash ^ (b as u64)).wrapping_mul(0x100_0000_01b3)
}

/// The Fowler-Noll-Vo hash of `s`, continued from `hash`.
pub open spec fn fnv_from(hash: u64, s: Seq<u8>) -> u64
    decreases s.len(),
{
    if s.len() == 0 {
        hash
    } else {
        fnv_step(fnv_from(hash, s.drop_last()), s.last())
    }
}

/// The Fowler-Noll-Vo hash of `s`.
pub open spec fn fnv(s: Seq<u8>) -> u64 {
    fnv_from(0xcbf2_9ce4_8422_2325, s)
}

/// Continues a hash.
pub fn fnv1a64_continue(hash: u64, bytes: &[u8]) -> (r: u64)
    ensures
        r == fnv_from(hash, bytes@),
{
    let mut h: u64 = hash;
    let mut i: usize = 0;
    assert(bytes@.take(0) =~= Seq::<u8>::empty());
    while i < bytes.len()
        invariant
            i <= bytes@.len(),
            h == fnv_from(hash, bytes@.take(i as int)),
        decreases bytes@.len() - i,
    {
        assert(bytes@.take(i + 1).drop_last() =~= bytes@.take(i as int));
        h = (h ^ (bytes[i] as u64)).wrapping_mul(0x100_0000_01b3);
        i = i + 1;
    }
    assert(bytes@.take(bytes@.len() as int) =~= bytes@);
    h
}

/// A hash of bytes.
pub fn fnv1a64(bytes: &[u8]) -> (r: u64)
    ensures
        r == fnv(bytes@),
{
    fnv1a64_continue(0xcbf2_9ce4_8422_2325, bytes)
}

/// Hashing piece by piece gives the hash of the whole.
pub proof fn hashing_goes_on(hash: u64, a: Seq<u8>, b: Seq<u8>)
    ensures
        fnv_from(fnv_from(hash, a), b) == fnv_from(hash, a + b),
    decreases b.len(),
{
    if b.len() == 0 {
        assert(a + b =~= a);
    } else {
        hashing_goes_on(hash, a, b.drop_last());
        assert((a + b).drop_last() =~= a + b.drop_last());
        assert((a + b).last() == b.last());
    }
}

/// The start of a file's fingerprint: the hash of its length.
pub fn fingerprint_start(file_len: u64) -> (r: u64)
    ensures
        r == fnv(bytes::le64_bytes(file_len as nat)),
{
    let mut v: Vec<u8> = Vec::new();
    bytes::push_le64(&mut v, file_len);
    assert(v@ =~= bytes::le64_bytes(file_len as nat));
    fnv1a64(v.as_slice())
}

/// A hexadecimal digit in lower case.
pub open spec fn hex_digit_of(d: nat) -> char {
    if d < 10 {
        (48 + d) as char
    } else {
        (87 + d) as char
    }
}

/// The last `width` hexadecimal digits of `n`.
pub open spec fn hex_text(n: nat, width: nat) -> Seq<char>
    decreases width,
{
    if width == 0 {
        Seq::empty()
    } else {
        hex_text(n / 16, (width - 1) as nat).push(hex_digit_of(n % 16))
    }
}

fn hex_char(d: u8) -> (c: char)
    requires
        d < 16,
    ensures
        c == hex_digit_of(d as nat),
{
    if d < 10 {
        (48u8 + d) as char
    } else {
        (87u8 + d) as char
    }
}

fn push_hex(s: &mut String, n: u64, width: u32)
    ensures
        final(s)@ == old(s)@ + hex_text(n as nat, width as nat),
    decreases width,
{
    if width > 0 {
        push_hex(s, n / 16, width - 1);
        s.push(hex_char((n % 16) as u8));
    }
    assert(s@ =~= old(s)@ + hex_text(n as nat, width as nat));
}

/// What a cached segment is known by.
pub open spec fn cache_key(
    relative_path: Seq<char>,
    file_len: nat,
    fingerprint: nat,
    start: nat,
    end: nat,
) -> Seq<char> {
    "v3:max_energy:"@ + relative_path + ":"@ + text::decimal(file_len) + ":"@ + text::decimal(
        fingerprint,
    ) + ":"@ + text::decimal(start) + ":"@ + text::decimal(end) + ":10000"@
}

/// Where a segment is cached.
pub fn cache_path(
    track_id: &str,
    relative_path: &str,
    start_us: u64,
    end_us: u64,
    file_len: u64,
    fingerprint: u64,
) -> (r: Result<String, String>)
    ensures
        match r {
            Ok(path) => paths::safe_id(track_id@) && path@ == "cache/waveforms/"@ + track_id@ + "/"@
                + hex_text(
                fnv(
                    vstd::utf8::encode_utf8(
                        cache_key(
                            relative_path@,
                            file_len as nat,
                            fingerprint as nat,
                            start_us as nat,
                            end_us as nat,
                        ),
                    ),
                ) as nat,
                16,
            ) + ".wf1"@,
            Err(e) => !paths::safe_id(track_id@) && e@ == "Invalid track ID"@,
        },
{
    if !is_safe_track_id(track_id) {
        return Err("Invalid track ID".to_owned());
    }
    let mut key: String = "v3:max_energy:".to_owned();
    key.append(relative_path);
    key.append(":");
    text::push_decimal(&mut key, file_len);
    key.append(":");
    text::push_decimal(&mut key, fingerprint);
    key.append(":");
    text::push_decimal(&mut key, start_us);
    key.append(":");
    text::push_decimal(&mut key, end_us);
    key.append(":10000");
    let hash: u64 = fnv1a64(key.as_str().as_bytes());
    let mut path: String = "cache/waveforms/".to_owned();
    path.append(track_id);
    path.append("/");
    push_hex(&mut path, hash, 16);
    path.append(".wf1");
    Ok(path)
}

/// What was measured of a segment, bucket by bucket.
#[derive(Debug, PartialEq)]
pub struct CachedSegment {
    pub source_start_us: u64,
    pub source_end_us: u64,
    pub sample_rate: u32,
    pub channels: u16,
    pub bucket_us: u64,
    pub peaks: Vec<u32>,
    pub rms: Vec<u32>,
}

/// What was measured of a segment.
pub struct Measured {
    pub start: u64,
    pub end: u64,
    pub rate: u32,
    pub channels: u16,
    pub bucket_us: u64,
    pub peaks: Seq<u32>,
    pub rms: Seq<u32>,
}

impl View for CachedSegment {
    type V = Measured;

    open spec fn view(&self) -> Measured {
        Measured {
            start: self.source_start_us,
            end: self.source_end_us,
            rate: self.sample_rate,
            channels: self.channels,
            bucket_us: self.bucket_us,
            peaks: self.peaks@,
            rms: self.rms@,
        }
    }
}

/// The first 56 bytes of a cache file.
pub open spec fn cache_head(m: Measured, file_len: u64, fingerprint: u64) -> Seq<u8> {
    seq![0x41u8, 0x53, 0x57, 0x46] + bytes::le32_bytes(ANALYSIS_VERSION as nat) + bytes::le64_bytes(
        m.bucket_us as nat,
    ) + bytes::le32_bytes(m.rate as nat) + bytes::le16_bytes(m.channels as nat) + bytes::zeros(2)
        + bytes::le64_bytes(file_len as nat) + bytes::le64_bytes(m.start as nat)
        + bytes::le64_bytes(fingerprint as nat) + bytes::le32_bytes(m.peaks.len()) + bytes::zeros(4)
}

/// The measured values, as bytes.
pub open spec fn cache_body(peaks: Seq<u32>, rms: Seq<u32>, n: nat) -> Seq<u8>
    decreases n,
{
    if n == 0 {
        Seq::empty()
    } else {
        cache_body(peaks, rms, (n - 1) as nat) + bytes::le32_bytes(peaks[n - 1] as nat)
            + bytes::le32_bytes(rms[n - 1] as nat)
    }
}

/// A cache file: its head, a checksum, and the measured values.
pub open spec fn cache_file(m: Measured, file_len: u64, fingerprint: u64) -> Seq<u8> {
    let head = cache_head(m, file_len, fingerprint);
    let body = cache_body(m.peaks, m.rms, m.peaks.len());
    head + bytes::le64_bytes(fnv_from(fnv(head), body) as nat) + body
}

/// Writes a cache file.
pub fn encode_cache(cache: &CachedSegment, file_len: u64, fingerprint: u64) -> (out: Vec<u8>)
    requires
        cache.peaks@.len() == cache.rms@.len(),
        cache.peaks@.len() <= MAX_CACHE_BUCKETS,
    ensures
        out@ == cache_file(cache@, file_len, fingerprint),
{
    let mut out: Vec<u8> = Vec::new();
    out.push(0x41);
    out.push(0x53);
    out.push(0x57);
    out.push(0x46);
    assert(out@ =~= seq![0x41u8, 0x53, 0x57, 0x46]);
    bytes::push_le32(&mut out, ANALYSIS_VERSION);
    bytes::push_le64(&mut out, cache.bucket_us);
    bytes::push_le32(&mut out, cache.sample_rate);
    bytes::push_le16(&mut out, cache.channels);
    bytes::push_zeros(&mut out, 2);
    bytes::push_le64(&mut out, file_len);
    bytes::push_le64(&mut out, cache.source_start_us);
    bytes::push_le64(&mut out, fingerprint);
    bytes::push_le32(&mut out, cache.peaks.len() as u32);
    bytes::push_zeros(&mut out, 4);
    let ghost head = out@;
    assert(head == cache_head(cache@, file_len, fingerprint));
    let mut body: Vec<u8> = Vec::new();
    let mut i: usize = 0;
    assert(body@ =~= cache_body(cache.peaks@, cache.rms@, 0));
    while i < cache.peaks.len()
        invariant
            i <= cache.peaks@.len() == cache.rms@.len(),
            body@ == cache_body(cache.peaks@, cache.rms@, i as nat),
        decreases cache.peaks@.len() - i,
    {
        bytes::push_le32(&mut body, cache.peaks[i]);
        bytes::push_le32(&mut body, cache.rms[i]);
        i = i + 1;
    }
    let checksum: u64 = fnv1a64_continue(fnv1a64(out.as_slice()), body.as_slice());
    bytes::push_le64(&mut out, checksum);
    bytes::push_all(&mut out, body.as_slice());
    out
}

/// The values at one place of each pair in the body of a cache file.
pub open spec fn cached_values(s: Seq<u8>, count: nat, place: int) -> Seq<u32> {
    Seq::new(count, |i: int| bytes::le32(s, CACHE_HEADER_SIZE + i * 8 + place) as u32)
}

/// Whether all values are those of numbers from zero to one.
pub open spec fn loudness(v: Seq<u32>) -> bool {
    forall|i: int| 0 <= i < v.len() ==> layout::from_zero_to(#[trigger] v[i], ONE_BITS)
}

/// Whether a cache file is that of a segment: its version, origin and layout are as
/// expected, and its checksum holds.
pub open spec fn cache_fits(s: Seq<u8>, start: u64, end: u64, file_len: u64, fingerprint: u64) -> bool {
    let bucket_us = bytes::le64(s, 8) as int;
    let count = bytes::le32(s, 48) as int;
    let duration = timeline::max(end - start, 0);
    &&& s.len() >= CACHE_HEADER_SIZE
    &&& s.take(4) == seq![0x41u8, 0x53, 0x57, 0x46]
    &&& bytes::le32(s, 4) == ANALYSIS_VERSION
    &&& bytes::le64(s, 24) == file_len
    &&& bytes::le64(s, 40) == fingerprint
    &&& bytes::le64(s, 32) == start
    &&& 0 < count <= MAX_CACHE_BUCKETS
    &&& bucket_us > 0
    &&& duration + bucket_us - 1 <= u64::MAX
    &&& count == bucket_count_of(duration, bucket_us)
    &&& MIN_SAMPLE_RATE <= bytes::le32(s, 16) <= MAX_SAMPLE_RATE
    &&& 1 <= bytes::le16(s, 20) <= MAX_CHANNELS
    &&& s.len() == CACHE_HEADER_SIZE + count * 8
    &&& bytes::le64(s, 56) == fnv_from(fnv(s.take(56)), s.skip(CACHE_HEADER_SIZE as int))
    &&& loudness(cached_values(s, count as nat, 0))
    &&& loudness(cached_values(s, count as nat, 4))
}

/// What a cache file of a segment says.
pub open spec fn cached(s: Seq<u8>, start: u64, end: u64) -> Measured {
    Measured {
        start,
        end,
        rate: bytes::le32(s, 16) as u32,
        channels: bytes::le16(s, 20) as u16,
        bucket_us: bytes::le64(s, 8) as u64,
        peaks: cached_values(s, bytes::le32(s, 48), 0),
        rms: cached_values(s, bytes::le32(s, 48), 4),
    }
}

fn read_values(data: &[u8], count: usize, place: usize) -> (out: Vec<u32>)
    requires
        place == 0 || place == 4,
        count <= MAX_CACHE_BUCKETS,
        data@.len() == CACHE_HEADER_SIZE + count * 8,
    ensures
        out@ == cached_values(data@, count as nat, place as int),
{
    let mut out: Vec<u32> = Vec::new();
    let mut i: usize = 0;
    while i < count
        invariant
            i <= count <= MAX_CACHE_BUCKETS,
            place == 0 || place == 4,
            data@.len() == CACHE_HEADER_SIZE + count * 8,
            out@.len() == i,
            forall|k: int|
                0 <= k < i ==> #[trigger] out@[k] == bytes::le32(
                    data@,
                    CACHE_HEADER_SIZE + k * 8 + place,
                ),
        decreases count - i,
    {
        out.push(bytes::read_le32(data, CACHE_HEADER_SIZE + i * 8 + place));
        i = i + 1;
    }
    assert(out@ =~= cached_values(data@, count as nat, place as int));
    out
}

fn is_loudness(v: &Vec<u32>) -> (r: bool)
    ensures
        r == loudness(v@),
{
    let mut i: usize = 0;
    while i < v.len()
        invariant
            i <= v@.len(),
            forall|k: int| 0 <= k < i ==> layout::from_zero_to(#[trigger] v@[k], ONE_BITS),
        decreases v@.len() - i,
    {
        if !(v[i] <= ONE_BITS || v[i] == 0x8000_0000) {
            assert(!layout::from_zero_to(v@[i as int], ONE_BITS));
            return false;
        }
        i = i + 1;
    }
    true
}

/// Reads a cache file of a segment, if it is one.
pub fn decode_cache(
    data: &[u8],
    start_us: u64,
    end_us: u64,
    file_len: u64,
    fingerprint: u64,
) -> (r: Option<CachedSegment>)
    ensures
        match r {
            Some(c) => cache_fits(data@, start_us, end_us, file_len, fingerprint) && c@ == cached(
                data@,
                start_us,
                end_us,
            ),
            None => !cache_fits(data@, start_us, end_us, file_len, fingerprint),
        },
{
    let ghost s = data@;
    assert(data@.len() == data.len());
    if data.len() < CACHE_HEADER_SIZE {
        return None;
    }
    assert(s.take(4) =~= seq![0x41u8, 0x53, 0x57, 0x46] <==> s[0] == 0x41 && s[1] == 0x53 && s[2]
        == 0x57 && s[3] == 0x46) by {
        assert(s.take(4)[0] == s[0] && s.take(4)[1] == s[1] && s.take(4)[2] == s[2] && s.take(4)[3]
            == s[3]);
        let magic = seq![0x41u8, 0x53, 0x57, 0x46];
        if s.take(4) =~= magic {
            assert(magic[0] == 0x41 && magic[1] == 0x53 && magic[2] == 0x57 && magic[3] == 0x46);
        }
    }
    if !(data[0] == 0x41 && data[1] == 0x53 && data[2] == 0x57 && data[3] == 0x46) {
        return None;
    }
    let bucket_us: u64 = bytes::read_le64(data, 8);
    let sample_rate: u32 = bytes::read_le32(data, 16);
    let channels: u16 = bytes::read_le16(data, 20);
    let count: u32 = bytes::read_le32(data, 48);
    if bytes::read_le32(data, 4) != ANALYSIS_VERSION || bytes::read_le64(data, 24) != file_len
        || bytes::read_le64(data, 40) != fingerprint || bytes::read_le64(data, 32) != start_us
        || count == 0 || count > MAX_CACHE_BUCKETS as u32 || bucket_us == 0 {
        return None;
    }
    let duration: u64 = if end_us > start_us {
        end_us - start_us
    } else {
        0
    };
    if duration > u64::MAX - (bucket_us - 1) {
        return None;
    }
    if count as usize != bucket_count_for(start_us, end_us, bucket_us) || sample_rate
        < MIN_SAMPLE_RATE || sample_rate > MAX_SAMPLE_RATE || channels < 1 || channels
        > MAX_CHANNELS || data.len() != CACHE_HEADER_SIZE + (count as usize) * 8 {
        return None;
    }
    let head: &[u8] = vstd::slice::slice_subrange(data, 0, 56);
    let body: &[u8] = vstd::slice::slice_subrange(data, 64, data.len());
    assert(head@ =~= s.take(56));
    assert(body@ =~= s.skip(64));
    let checksum: u64 = fnv1a64_continue(fnv1a64(head), body);
    if bytes::read_le64(data, 56) != checksum {
        return None;
    }
    let peaks: Vec<u32> = read_values(data, count as usize, 0);
    let rms: Vec<u32> = read_values(data, count as usize, 4);
    if !is_loudness(&peaks) || !is_loudness(&rms) {
        return None;
    }
    Some(
        CachedSegment {
            source_start_us: start_us,
            source_end_us: end_us,
            sample_rate,
            channels,
            bucket_us,
            peaks,
            rms,
        },
    )
}

proof fn lemma_body_len(peaks: Seq<u32>, rms: Seq<u32>, n: nat)
    ensures
        cache_body(peaks, rms, n).len() == 8 * n,
    decreases n,
{
    if n > 0 {
        lemma_body_len(peaks, rms, (n - 1) as nat);
    }
}

proof fn lemma_body_at(peaks: Seq<u32>, rms: Seq<u32>, n: nat, i: int)
    requires
        0 <= i < n,
    ensures
        cache_body(peaks, rms, n).len() == 8 * n,
        cache_body(peaks, rms, n).subrange(8 * i, 8 * i + 4) == bytes::le32_bytes(peaks[i] as nat),
        cache_body(peaks, rms, n).subrange(8 * i + 4, 8 * i + 8) == bytes::le32_bytes(
            rms[i] as nat,
        ),
    decreases n,
{
    lemma_body_len(peaks, rms, n);
    lemma_body_len(peaks, rms, (n - 1) as nat);
    let before = cache_body(peaks, rms, (n - 1) as nat);
    let all = cache_body(peaks, rms, n);
    if i < n - 1 {
        lemma_body_at(peaks, rms, (n - 1) as nat, i);
        assert(all.subrange(8 * i, 8 * i + 4) =~= before.subrange(8 * i, 8 * i + 4));
        assert(all.subrange(8 * i + 4, 8 * i + 8) =~= before.subrange(8 * i + 4, 8 * i + 8));
    } else {
        assert(all.subrange(8 * i, 8 * i + 4) =~= bytes::le32_bytes(peaks[i] as nat));
        assert(all.subrange(8 * i + 4, 8 * i + 8) =~= bytes::le32_bytes(rms[i] as nat));
    }
}

#[verifier::spinoff_prover]
proof fn lemma_head_parts(m: Measured, file_len: u64, fingerprint: u64)
    ensures
        ({
            let h = cache_head(m, file_len, fingerprint);
            &&& h.len() == 56
            &&& h.take(4) == seq![0x41u8, 0x53, 0x57, 0x46]
            &&& h.subrange(4, 8) == bytes::le32_bytes(ANALYSIS_VERSION as nat)
            &&& h.subrange(8, 16) == bytes::le64_bytes(m.bucket_us as nat)
            &&& h.subrange(16, 20) == bytes::le32_bytes(m.rate as nat)
            &&& h.subrange(20, 22) == bytes::le16_bytes(m.channels as nat)
            &&& h.subrange(24, 32) == bytes::le64_bytes(file_len as nat)
            &&& h.subrange(32, 40) == bytes::le64_bytes(m.start as nat)
            &&& h.subrange(40, 48) == bytes::le64_bytes(fingerprint as nat)
            &&& h.subrange(48, 52) == bytes::le32_bytes(m.peaks.len())
        }),
{
    let h = cache_head(m, file_len, fingerprint);
    assert(h.take(4) =~= seq![0x41u8, 0x53, 0x57, 0x46]);
    assert(h.subrange(4, 8) =~= bytes::le32_bytes(ANALYSIS_VERSION as nat));
    assert(h.subrange(8, 16) =~= bytes::le64_bytes(m.bucket_us as nat));
    assert(h.subrange(16, 20) =~= bytes::le32_bytes(m.rate as nat));
    assert(h.subrange(20, 22) =~= bytes::le16_bytes(m.channels as nat));
    assert(h.subrange(24, 32) =~= bytes::le64_bytes(file_len as nat));
    assert(h.subrange(32, 40) =~= bytes::le64_bytes(m.start as nat));
    assert(h.subrange(40, 48) =~= bytes::le64_bytes(fingerprint as nat));
    assert(h.subrange(48, 52) =~= bytes::le32_bytes(m.peaks.len()));
}

proof fn lemma_prefix_part(s: Seq<u8>, h: Seq<u8>, from: int, to: int)
    requires
        h.len() <= s.len(),
        s.take(h.len() as int) == h,
        0 <= from <= to <= h.len(),
    ensures
        s.subrange(from, to) == h.subrange(from, to),
{
    assert(s.subrange(from, to) =~= s.take(h.len() as int).subrange(from, to));
}

#[verifier::spinoff_prover]
proof fn lemma_head_read(s: Seq<u8>, m: Measured, file_len: u64, fingerprint: u64)
    requires
        s.len() >= 56,
        s.take(56) == cache_head(m, file_len, fingerprint),
        m.peaks.len() <= MAX_CACHE_BUCKETS,
    ensures
        s.take(4) == seq![0x41u8, 0x53, 0x57, 0x46],
        bytes::le32(s, 4) == ANALYSIS_VERSION,
        bytes::le64(s, 8) == m.bucket_us,
        bytes::le32(s, 16) == m.rate,
        bytes::le16(s, 20) == m.channels,
        bytes::le64(s, 24) == file_len,
        bytes::le64(s, 32) == m.start,
        bytes::le64(s, 40) == fingerprint,
        bytes::le32(s, 48) == m.peaks.len(),
{
    let h = cache_head(m, file_len, fingerprint);
    lemma_head_parts(m, file_len, fingerprint);
    assert(s.take(4) =~= s.take(56).take(4));
    lemma_prefix_part(s, h, 4, 8);
    bytes::lemma_le32_at(s, 4, ANALYSIS_VERSION as nat);
    lemma_prefix_part(s, h, 8, 16);
    bytes::lemma_le64_at(s, 8, m.bucket_us as nat);
    lemma_prefix_part(s, h, 16, 20);
    bytes::lemma_le32_at(s, 16, m.rate as nat);
    lemma_prefix_part(s, h, 20, 22);
    bytes::lemma_le16_at(s, 20, m.channels as nat);
    lemma_prefix_part(s, h, 24, 32);
    bytes::lemma_le64_at(s, 24, file_len as nat);
    lemma_prefix_part(s, h, 32, 40);
    bytes::lemma_le64_at(s, 32, m.start as nat);
    lemma_prefix_part(s, h, 40, 48);
    bytes::lemma_le64_at(s, 40, fingerprint as nat);
    lemma_prefix_part(s, h, 48, 52);
    bytes::lemma_le32_at(s, 48, m.peaks.len());
}

/// What is cached of a segment is read back: a file that was written for what was
/// measured says just that, to a reader who knows the same segment and file.
#[verifier::spinoff_prover]
pub proof fn a_cache_is_read_back(m: Measured, file_len: u64, fingerprint: u64)
    requires
        m.peaks.len() == m.rms.len(),
        0 < m.peaks.len() <= MAX_CACHE_BUCKETS,
        0 < m.bucket_us,
        timeline::max(m.end - m.start, 0) + m.bucket_us - 1 <= u64::MAX,
        m.peaks.len() == bucket_count_of(
            timeline::max(m.end - m.start, 0),
            m.bucket_us as int,
        ),
        MIN_SAMPLE_RATE <= m.rate <= MAX_SAMPLE_RATE,
        1 <= m.channels <= MAX_CHANNELS,
        loudness(m.peaks),
        loudness(m.rms),
    ensures
        cache_fits(cache_file(m, file_len, fingerprint), m.start, m.end, file_len, fingerprint),
        cached(cache_file(m, file_len, fingerprint), m.start, m.end) == m,
{
    let s = cache_file(m, file_len, fingerprint);
    let head = cache_head(m, file_len, fingerprint);
    let body = cache_body(m.peaks, m.rms, m.peaks.len());
    let sum = fnv_from(fnv(head), body);
    lemma_body_len(m.peaks, m.rms, m.peaks.len());
    lemma_head_parts(m, file_len, fingerprint);
    assert(s.take(56) =~= head);
    lemma_head_read(s, m, file_len, fingerprint);
    assert(s.subrange(56, 64) =~= bytes::le64_bytes(sum as nat));
    bytes::lemma_le64_at(s, 56, sum as nat);
    assert(s.skip(64) =~= body);
    let n = m.peaks.len();
    assert forall|i: int| 0 <= i < n implies #[trigger] cached_values(s, n, 0)[i] == m.peaks[i] by {
        lemma_body_at(m.peaks, m.rms, n, i);
        let at = CACHE_HEADER_SIZE + i * 8 + 0;
        assert(s.subrange(at, at + 4) =~= body.subrange(8 * i, 8 * i + 4));
        bytes::lemma_le32_at(s, at, m.peaks[i] as nat);
    }
    assert forall|i: int| 0 <= i < n implies #[trigger] cached_values(s, n, 4)[i] == m.rms[i] by {
        lemma_body_at(m.peaks, m.rms, n, i);
        let at = CACHE_HEADER_SIZE + i * 8 + 4;
        assert(s.subrange(at, at + 4) =~= body.subrange(8 * i + 4, 8 * i + 8));
        bytes::lemma_le32_at(s, at, m.rms[i] as nat);
    }
    assert(cached_values(s, n, 0) =~= m.peaks);
    assert(cached_values(s, n, 4) =~= m.rms);
}

/// The most notes that an analysis gives.
pub const MAX_NOTES: usize = 32;

/// `notes` and one more, as long as there is room.
pub open spec fn with_note(notes: Seq<Seq<char>>, note: Seq<char>) -> Seq<Seq<char>> {
    if notes.len() < MAX_NOTES {
        notes.push(note)
    } else {
        notes
    }
}

/// Adds a note, as long as there is room.
pub fn push_diagnostic(notes: &mut Vec<String>, note: String)
    ensures
        paths::texts(final(notes)@) == with_note(paths::texts(old(notes)@), note@),
        old(notes)@.len() <= MAX_NOTES ==> final(notes)@.len() <= MAX_NOTES,
{
    let ghost before = paths::texts(notes@);
    assert(before.len() == notes@.len());
    if notes.len() < MAX_NOTES {
        notes.push(note);
        assert(paths::texts(notes@) =~= before.push(note@));
    }
}

/// Whether the sound of a segment can be read, or why it cannot: its file is of
/// `file_len` bytes, where it is one.
pub open spec fn sound_ready(
    segment: SegmentSummary,
    probes: Seq<PathProbe>,
    file_len: Option<u64>,
) -> Result<bool, Seq<char>> {
    if !segment.available {
        Ok(false)
    } else if paths::path_fault(segment.relative_path@, probes) is Some {
        Err(paths::path_fault(segment.relative_path@, probes).unwrap())
    } else {
        match file_len {
            None => Ok(false),
            Some(n) => if n != segment.size_bytes {
                Err("Size-mismatched audio treated as a gap: "@ + segment.relative_path@)
            } else {
                Ok(true)
            },
        }
    }
}

/// Whether the sound of a segment can be read.
pub fn check_sound(segment: &SegmentSummary, probes: &Vec<PathProbe>, file_len: Option<u64>) -> (r:
    Result<bool, String>)
    requires
        paths::parts(segment.relative_path@).len() <= probes@.len(),
    ensures
        text::told(r) == sound_ready(*segment, probes@, file_len),
{
    if !segment.available {
        return Ok(false);
    }
    match safe_path(segment.relative_path.as_str(), probes) {
        Ok(()) => {},
        Err(e) => {
            return Err(e);
        },
    }
    match file_len {
        None => Ok(false),
        Some(n) => {
            if n != segment.size_bytes {
                let mut t: String = "Size-mismatched audio treated as a gap: ".to_owned();
                t.append(segment.relative_path.as_str());
                return Err(t);
            }
            Ok(true)
        },
    }
}

impl Measured {
    /// The buckets into which a stretch of the source falls, each with how much of it.
    pub open spec fn weights_in(self, span: (u64, u64)) -> Seq<(int, int)> {
        weights(
            self.start as int,
            bucket_unit(self.bucket_us),
            self.peaks.len() as int,
            timeline::max(span.0 as int, self.start as int),
            timeline::min(span.1 as int, self.end as int),
        )
    }

    /// How much of a stretch of the source was measured.
    pub open spec fn weight_in(self, span: (u64, u64)) -> int {
        weight_sum(self.weights_in(span), self.weights_in(span).len())
    }

    /// Whether some part of the stretches was measured.
    pub open spec fn heard_in(self, spans: Seq<(u64, u64)>) -> bool {
        exists|j: int| 0 <= j < spans.len() && #[trigger] self.weight_in(spans[j]) > 0
    }
}

/// No bucket is named that nothing falls into.
proof fn lemma_weights_positive(start: int, g: int, len: int, a: int, b: int, n: nat)
    requires
        start <= a,
        0 < g,
        n <= weights(start, g, len, a, b).len(),
    ensures
        n > 0 ==> weight_sum(weights(start, g, len, a, b), n) > 0,
        n == 0 ==> weight_sum(weights(start, g, len, a, b), n) == 0,
    decreases n,
{
    let w = weights(start, g, len, a, b);
    if n > 0 {
        lemma_weights_positive(start, g, len, a, b, (n - 1) as nat);
        let first = (a - start) / g;
        let reach = (b - 1 - start) / g;
        let q = first + (n - 1);
        assert(w[n - 1] == (q, weight_of(start, g, q, a, b)));
        assert(q * g <= b - 1 - start) by (nonlinear_arith)
            requires
                q <= reach,
                reach == (b - 1 - start) / g,
                g > 0,
        ;
        assert(a - start < (q + 1) * g) by (nonlinear_arith)
            requires
                first <= q,
                first == (a - start) / g,
                g > 0,
        ;
        assert((q + 1) * g == q * g + g) by (nonlinear_arith);
    }
}

/// The stretches of a view in which nothing was measured.
#[derive(Debug)]
pub struct BucketGaps {
    pub gaps: Vec<bool>,
}

impl BucketGaps {
    /// Nothing is measured yet: every bucket is a gap.
    pub fn new(count: usize) -> (r: Self)
        ensures
            r.gaps@ == Seq::new(count as nat, |i: int| true),
    {
        let mut gaps: Vec<bool> = Vec::new();
        while gaps.len() < count
            invariant
                gaps@.len() <= count,
                forall|i: int| 0 <= i < gaps@.len() ==> #[trigger] gaps@[i],
            decreases count - gaps@.len(),
        {
            gaps.push(true);
        }
        assert(gaps@ =~= Seq::new(count as nat, |i: int| true));
        BucketGaps { gaps }
    }

    /// A segment was measured: a bucket stays a gap exactly when nothing of the segment
    /// falls into the stretches of the source that lie under it.
    pub fn measured(&mut self, ranges: &Vec<Vec<(u64, u64)>>, cache: &CachedSegment)
        requires
            old(self).gaps@.len() == ranges@.len(),
            0 < cache.peaks@.len(),
            cache.source_end_us + bucket_unit(cache.bucket_us) <= u64::MAX,
        ensures
            final(self).gaps@.len() == old(self).gaps@.len(),
            forall|i: int|
                0 <= i < ranges@.len() ==> #[trigger] final(self).gaps@[i] == (old(self).gaps@[i]
                    && !cache@.heard_in(ranges@[i]@)),
    {
        let ghost before = self.gaps@;
        let mut i: usize = 0;
        while i < ranges.len()
            invariant
                i <= ranges@.len() == self.gaps@.len() == before.len(),
                0 < cache.peaks@.len(),
                cache.source_end_us + bucket_unit(cache.bucket_us) <= u64::MAX,
                forall|k: int|
                    0 <= k < i ==> #[trigger] self.gaps@[k] == (before[k] && !cache@.heard_in(
                        ranges@[k]@,
                    )),
                forall|k: int| i <= k < before.len() ==> #[trigger] self.gaps@[k] == before[k],
            decreases ranges@.len() - i,
        {
            if cache.is_heard_in(&ranges[i]) {
                self.gaps.set(i, false);
            }
            i = i + 1;
        }
    }
}

impl CachedSegment {
    fn is_heard_in(&self, spans: &Vec<(u64, u64)>) -> (r: bool)
        requires
            0 < self.peaks@.len(),
            self.source_end_us + bucket_unit(self.bucket_us) <= u64::MAX,
        ensures
            r == self@.heard_in(spans@),
    {
        let mut j: usize = 0;
        while j < spans.len()
            invariant
                j <= spans@.len(),
                0 < self.peaks@.len(),
                self.source_end_us + bucket_unit(self.bucket_us) <= u64::MAX,
                forall|k: int| 0 <= k < j ==> #[trigger] self@.weight_in(spans@[k]) <= 0,
            decreases spans@.len() - j,
        {
            let span: (u64, u64) = spans[j];
            let w: Vec<(usize, u64)> = bucket_weights(
                self.source_start_us,
                self.source_end_us,
                self.bucket_us,
                self.peaks.len(),
                span.0,
                span.1,
            );
            proof {
                lemma_weights_positive(
                    self.source_start_us as int,
                    bucket_unit(self.bucket_us),
                    self.peaks@.len() as int,
                    timeline::max(span.0 as int, self.source_start_us as int),
                    timeline::min(span.1 as int, self.source_end_us as int),
                    self@.weights_in(span).len(),
                );
            }
            if w.len() > 0 {
                assert(self@.weight_in(spans@[j as int]) > 0);
                return true;
            }
            j = j + 1;
        }
        false
    }
}

/// Where the buckets of a segment reach to its end, a stretch of the source counts as heard
/// exactly when it overlaps the segment. So what lies before a late segment, and whatever
/// belongs to a segment that is missing, is a gap.
pub proof fn gaps_are_where_nothing_was_measured(m: Measured, span: (u64, u64))
    requires
        m.end - m.start <= m.peaks.len() * bucket_unit(m.bucket_us),
    ensures
        m.weight_in(span) > 0 <==> timeline::max(span.0 as int, m.start as int) < timeline::min(
            span.1 as int,
            m.end as int,
        ),
{
    let start = m.start as int;
    let g = bucket_unit(m.bucket_us);
    let len = m.peaks.len() as int;
    let a = timeline::max(span.0 as int, start);
    let b = timeline::min(span.1 as int, m.end as int);
    lemma_weights_positive(start, g, len, a, b, m.weights_in(span).len());
    if a < b {
        let first = (a - start) / g;
        let reach = (b - 1 - start) / g;
        assert(first <= reach && first < len) by (nonlinear_arith)
            requires
                first == (a - start) / g,
                reach == (b - 1 - start) / g,
                a <= b - 1,
                a - start < len * g,
                0 <= a - start,
                g > 0,
        ;
        assert(m.weights_in(span).len() > 0);
    }
}

/// What is known of the sound in a view while its segments are read: the first
/// segment's rate and channels, and what could not be read.
#[derive(Debug)]
pub struct WaveformProgress {
    pub sample_rate: u32,
    pub channels: u16,
    pub diagnostics: Vec<String>,
}

impl WaveformProgress {
    pub fn new() -> (r: Self)
        ensures
            r.sample_rate == 0,
            r.channels == 0,
            r.diagnostics@.len() == 0,
    {
        WaveformProgress { sample_rate: 0, channels: 0, diagnostics: Vec::new() }
    }

    /// A segment's measured sound is there.
    pub fn measured(&mut self, cache: &CachedSegment)
        ensures
            final(self).diagnostics == old(self).diagnostics,
            if old(self).sample_rate == 0 {
                final(self).sample_rate == cache.sample_rate && final(self).channels
                    == cache.channels
            } else {
                final(self).sample_rate == old(self).sample_rate && final(self).channels
                    == old(self).channels
            },
    {
        if self.sample_rate == 0 {
            self.sample_rate = cache.sample_rate;
            self.channels = cache.channels;
        }
    }

    /// A segment's sound is missing.
    pub fn missing(&mut self, segment: &SegmentSummary)
        ensures
            final(self).sample_rate == old(self).sample_rate,
            final(self).channels == old(self).channels,
            paths::texts(final(self).diagnostics@) == with_note(
                paths::texts(old(self).diagnostics@),
                "Missing or unreadable audio treated as a gap: "@ + segment.relative_path@,
            ),
    {
        let mut t: String = "Missing or unreadable audio treated as a gap: ".to_owned();
        t.append(segment.relative_path.as_str());
        push_diagnostic(&mut self.diagnostics, t);
    }

    /// A segment's sound could not be read, for this reason.
    pub fn failed(&mut self, error: String)
        ensures
            final(self).sample_rate == old(self).sample_rate,
            final(self).channels == old(self).channels,
            paths::texts(final(self).diagnostics@) == with_note(
                paths::texts(old(self).diagnostics@),
                error@,
            ),
    {
        push_diagnostic(&mut self.diagnostics, error);
    }
}

/// A stretch is weighed against just the buckets that it meets, each by the time that the two
/// have in common: a bucket that lies in the stretch counts in full.
pub proof fn weights_are_the_time_in_common(
    start: int,
    bucket_us: int,
    len: int,
    a: int,
    b: int,
    idx: int,
)
    requires
        start <= a,
        0 < bucket_us,
        0 <= idx < len,
    ensures
        ({
            let w = weights(start, bucket_us, len, a, b);
            let from = start + idx * bucket_us;
            let to = start + idx * bucket_us + bucket_us;
            &&& (exists|k: int| 0 <= k < w.len() && (#[trigger] w[k]).0 == idx) <==> a < b && from
                < b && a < to
            &&& forall|k: int|
                0 <= k < w.len() && (#[trigger] w[k]).0 == idx ==> {
                    &&& 0 < w[k].1 <= bucket_us
                    &&& a <= from && to <= b ==> w[k].1 == bucket_us
                    &&& from <= a && b <= to ==> w[k].1 == b - a
                    &&& from <= a && to <= b ==> w[k].1 == to - a
                    &&& a <= from && b <= to ==> w[k].1 == b - from
                }
        }),
{
    let w = weights(start, bucket_us, len, a, b);
    let first = (a - start) / bucket_us;
    let end = (b - 1 - start) / bucket_us;
    let last = timeline::min(end, len - 1);
    let (x, y) = (a - start, b - 1 - start);
    assert((idx + 1) * bucket_us == idx * bucket_us + bucket_us) by (nonlinear_arith);
    assert(first <= idx <==> x < idx * bucket_us + bucket_us) by (nonlinear_arith)
        requires
            first == x / bucket_us,
            bucket_us > 0,
    ;
    assert(idx <= end <==> idx * bucket_us <= y) by (nonlinear_arith)
        requires
            end == y / bucket_us,
            bucket_us > 0,
    ;
    if a < b && first <= idx && idx <= last {
        assert(w[idx - first].0 == idx);
    }
    assert forall|k: int| 0 <= k < w.len() && (#[trigger] w[k]).0 == idx implies w[k].1 == weight_of(
        start,
        bucket_us,
        idx,
        a,
        b,
    ) && first <= idx <= last by {}
}

/// Buckets of the cache are doubled in length until no more than the limit of them are needed,
/// and no further.
pub proof fn buckets_are_as_fine_as_can_be(duration: int, from: int)
    requires
        0 < from,
        0 < duration,
    ensures
        from <= bucket_length(duration, from),
        duration / bucket_length(duration, from) <= 200_000,
        bucket_length(duration, from) == from || (bucket_length(duration, from) % 2 == 0 && duration
            / (bucket_length(duration, from) / 2) > 200_000),
    decreases duration - from,
{
    if duration / from > MAX_CACHE_BUCKETS {
        assert(from * 200_000 < duration) by (nonlinear_arith)
            requires
                duration / from > 200_000,
                from > 0,
        ;
        buckets_are_as_fine_as_can_be(duration, 2 * from);
        if bucket_length(duration, 2 * from) == 2 * from {
            assert((2 * from) / 2 == from);
        }
    }
}

/// There are as many buckets as it takes to hold the duration, and none of them is spare,
/// unless there would be more than are kept.
pub proof fn buckets_hold_the_duration(duration: int, bucket_us: int)
    requires
        0 < bucket_us,
        0 <= duration,
    ensures
        ({
            let n = bucket_count_of(duration, bucket_us);
            &&& 0 <= n <= 200_000
            &&& n < 200_000 ==> duration <= n * bucket_us
            &&& n > 0 ==> (n - 1) * bucket_us < duration
        }),
{
    let x = duration + bucket_us - 1;
    let q = x / bucket_us;
    assert(q * bucket_us <= x < q * bucket_us + bucket_us && 0 <= q) by (nonlinear_arith)
        requires
            q == x / bucket_us,
            bucket_us > 0,
            x >= 0,
    ;
    let n = bucket_count_of(duration, bucket_us);
    assert((n - 1) * bucket_us <= (q - 1) * bucket_us) by (nonlinear_arith)
        requires
            n <= q,
            bucket_us > 0,
    ;
    assert((q - 1) * bucket_us == q * bucket_us - bucket_us) by (nonlinear_arith);
}

/// A bucket of the cache lasts a whole number of frames, at least one, and as many as fit in
/// the length that was chosen for the duration.
pub proof fn buckets_last_whole_frames(rate: u32, duration: int)
    requires
        rate > 0,
        0 < duration,
    ensures
        exists|n: int|
            #![trigger n * 1_000_000]
            n >= 1 && bucket_us_of(rate, duration) == n * 1_000_000 / (rate as int) && (n == 1 || n
                * 1_000_000 <= bucket_length(duration, 10_000) * rate) && bucket_length(
                duration,
                10_000,
            ) * rate < (n + 1) * 1_000_000,
{
    let product = bucket_length(duration, 10_000) * rate;
    let n = timeline::max(product / 1_000_000, 1);
    assert(n * 1_000_000 / (rate as int) == bucket_us_of(rate, duration));
    assert(product < (n + 1) * 1_000_000);
}

/// The buckets of a view are of one length, give or take a microsecond.
pub proof fn buckets_are_even(
    plan: WaveformPlan,
    retained: Seq<RetainedInterval>,
    edited_duration: u64,
    from: u64,
    to: u64,
    count: usize,
    i: int,
)
    requires
        is_plan(plan, retained, edited_duration, from, to, count),
        0 <= i < plan.buckets@.len(),
    ensures
        ({
            let n = plan.buckets@.len() as int;
            let width = plan.end_us - plan.start_us;
            let length = plan.buckets@[i].1 - plan.buckets@[i].0;
            &&& (length - 1) * n < width < (length + 1) * n
            &&& (plan.buckets@[i].0 - plan.start_us) * n <= width * i < (plan.buckets@[i].0
                - plan.start_us + 1) * n
            &&& n <= count
            &&& n == count || n == width
        }),
{
    let n = plan.buckets@.len() as int;
    let width = plan.end_us - plan.start_us;
    let (x, y) = (width * i, width * (i + 1));
    let (p, q) = (x / n, y / n);
    assert(y == x + width) by (nonlinear_arith)
        requires
            x == width * i,
            y == width * (i + 1),
    ;
    assert(p * n <= x < p * n + n && q * n <= y < q * n + n) by (nonlinear_arith)
        requires
            p == x / n,
            q == y / n,
            n > 0,
    ;
    let length = q - p;
    assert(length * n == q * n - p * n) by (nonlinear_arith)
        requires
            length == q - p,
    ;
    assert((length - 1) * n == length * n - n && (length + 1) * n == length * n + n && (p + 1) * n
        == p * n + n) by (nonlinear_arith);
    assert(plan.buckets@[i].0 == plan.start_us + edge(width, i, n));
}

/// What is shown lies in the edit: from the start that is asked for up to the end that is, as
/// far as there is sound.
pub proof fn views_lie_in_the_edit(
    plan: WaveformPlan,
    retained: Seq<RetainedInterval>,
    edited_duration: u64,
    from: u64,
    to: u64,
    count: usize,
)
    requires
        is_plan(plan, retained, edited_duration, from, to, count),
        timeline::ordered(retained),
        from < to,
    ensures
        plan.start_us <= plan.end_us <= edited_duration,
        plan.end_us <= timeline::total(retained),
        from <= edited_duration && from <= timeline::total(retained) ==> plan.start_us == from,
        to <= edited_duration && to <= timeline::total(retained) ==> plan.start_us == from
            && plan.end_us == to,
{
    timeline::edited_duration_is_bounded(retained);
}

/// A segment is seen exactly when some of its time is.
pub proof fn segments_are_visible_in_their_time(visible: Seq<(u64, u64)>, from: u64, to: u64)
    requires
        from < to,
        forall|i: int| 0 <= i < visible.len() ==> (#[trigger] visible[i]).0 < visible[i].1,
    ensures
        segment_visible(visible, from, to) <==> exists|x: int|
            from <= x < to && #[trigger] timeline::in_ranges(timeline::pairs(visible), x),
{
    let pairs = timeline::pairs(visible);
    if segment_visible(visible, from, to) {
        let i = choose|i: int|
            0 <= i < visible.len() && (#[trigger] visible[i]).0 < to && from < visible[i].1;
        let x = timeline::max(from as int, visible[i].0 as int);
        assert(pairs[i].0 <= x < pairs[i].1);
        assert(timeline::in_ranges(pairs, x));
    }
    if exists|x: int| from <= x < to && #[trigger] timeline::in_ranges(pairs, x) {
        let x = choose|x: int| from <= x < to && #[trigger] timeline::in_ranges(pairs, x);
        let i = choose|i: int| 0 <= i < pairs.len() && (#[trigger] pairs[i]).0 <= x < pairs[i].1;
        assert(visible[i].0 < to && from < visible[i].1);
    }
}

/// Notes are kept in their order and never dropped, and no more are taken than there is room
/// for.
pub proof fn notes_are_kept(notes: Seq<Seq<char>>, note: Seq<char>)
    requires
        notes.len() <= 32,
    ensures
        with_note(notes, note).len() <= 32,
        with_note(notes, note).take(notes.len() as int) == notes,
        notes.len() < 32 ==> with_note(notes, note).last() == note && with_note(notes, note).len()
            == notes.len() + 1,
{
    assert(with_note(notes, note).take(notes.len() as int) =~= notes);
}

/// The text of a number has a digit for each place, the last of them for its ones.
pub proof fn hexadecimal_text_is_read_back(n: nat, width: nat)
    requires
        width > 0,
    ensures
        hex_text(n, width).len() == width,
        layout::hex_value(hex_text(n, width).last()) == Some(n % 16),
        hex_text(n, width).drop_last() == hex_text(n / 16, (width - 1) as nat),
    decreases width,
{
    assert(hex_text(n, width).drop_last() =~= hex_text(n / 16, (width - 1) as nat));
    if width > 1 {
        hexadecimal_text_is_read_back(n / 16, (width - 1) as nat);
    }
}

/// Sound is read exactly where the segment can be used, its path is safe, and its file has
/// the size that was recorded.
pub proof fn only_whole_files_are_measured(
    segment: SegmentSummary,
    probes: Seq<PathProbe>,
    file_len: Option<u64>,
)
    ensures
        sound_ready(segment, probes, file_len) == Ok::<bool, Seq<char>>(true)
            <==> segment.available && paths::path_fault(segment.relative_path@, probes) is None
            && file_len == Some(segment.size_bytes),
{
}

/// A cache is taken only for the file that it was made of: one of another length, another
/// fingerprint or another start is not.
pub proof fn caches_of_other_files_are_refused(
    m: Measured,
    file_len: u64,
    fingerprint: u64,
    start: u64,
    end: u64,
    other_len: u64,
    other_print: u64,
)
    requires
        m.peaks.len() == m.rms.len(),
        m.peaks.len() <= MAX_CACHE_BUCKETS,
        cache_fits(cache_file(m, file_len, fingerprint), start, end, other_len, other_print),
    ensures
        other_len == file_len,
        other_print == fingerprint,
        start == m.start,
        m.peaks.len() == bucket_count_of(timeline::max(end - start, 0), m.bucket_us as int),
        loudness(cached_values(cache_file(m, file_len, fingerprint), m.peaks.len(), 0)),
        loudness(cached_values(cache_file(m, file_len, fingerprint), m.peaks.len(), 4)),
{
    let s = cache_file(m, file_len, fingerprint);
    lemma_head_parts(m, file_len, fingerprint);
    assert(s.take(56) =~= cache_head(m, file_len, fingerprint));
    lemma_head_read(s, m, file_len, fingerprint);
}

/// A cache that is taken is whole: its sum is that of its other bytes.
pub proof fn damaged_caches_are_refused(
    s: Seq<u8>,
    start: u64,
    end: u64,
    file_len: u64,
    fingerprint: u64,
)
    requires
        cache_fits(s, start, end, file_len, fingerprint),
    ensures
        bytes::le64(s, 56) == fnv(s.take(56) + s.skip(64)),
        s.len() == 64 + 8 * bytes::le32(s, 48),
{
    hashing_goes_on(0xcbf2_9ce4_8422_2325, s.take(56), s.skip(64));
}

} // verus!
