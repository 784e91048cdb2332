//! The edited timeline: the stretches of the source that an edit retains, played
//! back to back.
use vstd::prelude::*;

verus! {

/// The largest time, in microseconds, that edits and journals may hold.
pub const MAX_SAFE_TIME: u64 = 9_007_199_254_740_991;

pub const MAX_RETAINED_INTERVALS: usize = 10_000;

/// A retained stretch of the source, from its start up to, not including, its end.
#[derive(Debug, Clone, Copy, PartialEq, Eq, Structural)]
pub struct RetainedInterval {
    pub start_us: u64,
    pub end_us: u64,
}

/// The length of a stretch.
pub open spec fn span(r: RetainedInterval) -> int {
    r.end_us - r.start_us
}

/// A stretch of the source, from its bounds.
pub open spec fn stretch(from: int, to: int) -> RetainedInterval {
    RetainedInterval { start_us: from as u64, end_us: to as u64 }
}

/// The length of all stretches together: the edited duration.
pub open spec fn total(s: Seq<RetainedInterval>) -> int
    decreases s.len(),
{
    if s.len() == 0 {
        0
    } else {
        span(s[0]) + total(s.drop_first())
    }
}

/// Stretches that are not empty, in order, apart, and no later than the largest
/// time.
pub open spec fn ordered(s: Seq<RetainedInterval>) -> bool {
    &&& forall|i: int|
        0 <= i < s.len() ==> (#[trigger] s[i]).start_us < s[i].end_us && s[i].end_us
            <= MAX_SAFE_TIME
    &&& forall|i: int, j: int|
        0 <= i < j < s.len() ==> (#[trigger] s[i]).end_us <= (#[trigger] s[j]).start_us
}

/// Why the stretches from `i` on, of which the last one before ends at `previous`,
/// cannot be retained; `None` when they can.
pub open spec fn retained_fault_from(s: Seq<RetainedInterval>, i: int, previous: u64) -> Option<
    Seq<char>,
>
    decreases s.len() - i,
{
    if i >= s.len() {
        None
    } else if s[i].end_us > MAX_SAFE_TIME {
        Some("Retained timestamp exceeds supported precision"@)
    } else if s[i].end_us <= s[i].start_us {
        Some("Retained interval must be a half-open range"@)
    } else if s[i].start_us < previous {
        Some("Retained intervals must be sorted and non-overlapping"@)
    } else {
        retained_fault_from(s, i + 1, s[i].end_us)
    }
}

/// Why stretches cannot be retained; `None` when they can.
pub open spec fn retained_fault(s: Seq<RetainedInterval>) -> Option<Seq<char>> {
    if s.len() > MAX_RETAINED_INTERVALS {
        Some("Too many retained intervals"@)
    } else {
        retained_fault_from(s, 0, 0)
    }
}

/// Checks that stretches can be retained.
pub fn validate_retained(retained: &Vec<RetainedInterval>) -> (r: Result<(), String>)
    ensures
        match r {
            Ok(()) => retained_fault(retained@) is None,
            Err(e) => retained_fault(retained@) == Some(e@),
        },
{
    if retained.len() > MAX_RETAINED_INTERVALS {
        return Err("Too many retained intervals".to_owned());
    }
    let mut previous: u64 = 0;
    let mut i: usize = 0;
    while i < retained.len()
        invariant
            i <= retained@.len() <= MAX_RETAINED_INTERVALS,
            retained_fault_from(retained@, 0, 0) == retained_fault_from(
                retained@,
                i as int,
                previous,
            ),
        decreases retained@.len() - i,
    {
        let interval: RetainedInterval = retained[i];
        if interval.end_us > MAX_SAFE_TIME {
            return Err("Retained timestamp exceeds supported precision".to_owned());
        }
        if interval.end_us <= interval.start_us {
            return Err("Retained interval must be a half-open range".to_owned());
        }
        if interval.start_us < previous {
            return Err("Retained intervals must be sorted and non-overlapping".to_owned());
        }
        previous = interval.end_us;
        i = i + 1;
    }
    Ok(())
}

proof fn lemma_no_fault_from(s: Seq<RetainedInterval>, i: int, previous: u64)
    requires
        0 <= i <= s.len(),
    ensures
        retained_fault_from(s, i, previous) is None <==> {
            &&& ordered(s.skip(i))
            &&& i < s.len() ==> previous <= s[i].start_us
        },
    decreases s.len() - i,
{
    if i < s.len() {
        lemma_no_fault_from(s, i + 1, s[i].end_us);
        let a = s.skip(i);
        let b = s.skip(i + 1);
        assert(a[0] == s[i]);
        assert forall|k: int| 0 <= k < b.len() implies b[k] == a[k + 1] by {}
        if retained_fault_from(s, i, previous) is None {
            assert forall|k: int, j: int| 0 <= k < j < a.len() implies a[k].end_us
                <= a[j].start_us by {
                assert(a[j] == b[j - 1]);
                if k > 0 {
                    assert(a[k] == b[k - 1]);
                } else {
                    assert(b[0].start_us <= b[j - 1].start_us);
                }
            }
            assert forall|k: int| 0 <= k < a.len() implies a[k].start_us < a[k].end_us
                && a[k].end_us <= MAX_SAFE_TIME by {
                if k > 0 {
                    assert(a[k] == b[k - 1]);
                }
            }
        }
        if ordered(a) && previous <= s[i].start_us {
            assert(ordered(b)) by {
                assert forall|k: int, j: int| 0 <= k < j < b.len() implies b[k].end_us
                    <= b[j].start_us by {
                    assert(a[k + 1].end_us <= a[j + 1].start_us);
                }
            }
            if i + 1 < s.len() {
                assert(a[0].end_us <= a[1].start_us);
            }
        }
    }
}

/// Stretches can be retained exactly when there are not too many and they are in
/// order.
pub proof fn retainable_means_ordered(s: Seq<RetainedInterval>)
    ensures
        retained_fault(s) is None <==> s.len() <= MAX_RETAINED_INTERVALS && ordered(s),
{
    lemma_no_fault_from(s, 0, 0);
    assert(s.skip(0) =~= s);
}

/// The source time that plays at edited time `t`, if any does.
pub open spec fn to_source(s: Seq<RetainedInterval>, t: int) -> Option<int>
    decreases s.len(),
{
    if s.len() == 0 {
        None
    } else if t < span(s[0]) {
        Some(s[0].start_us + t)
    } else {
        to_source(s.drop_first(), t - span(s[0]))
    }
}

pub open spec fn min(a: int, b: int) -> int {
    if a <= b {
        a
    } else {
        b
    }
}

pub open spec fn max(a: int, b: int) -> int {
    if a >= b {
        a
    } else {
        b
    }
}

/// What is left of a stretch before edited time `a`, counted from its start.
pub open spec fn kept_before(r: RetainedInterval, a: int) -> Seq<RetainedInterval> {
    if a > 0 {
        seq![stretch(r.start_us as int, r.start_us + min(a, span(r)))]
    } else {
        Seq::empty()
    }
}

/// What is left of a stretch from edited time `b` on, counted from its start.
pub open spec fn kept_after(r: RetainedInterval, b: int) -> Seq<RetainedInterval> {
    if b < span(r) {
        seq![stretch(r.start_us + max(b, 0), r.end_us as int)]
    } else {
        Seq::empty()
    }
}

/// What is left of the stretches without the edited times from `a` up to `b`.
pub open spec fn cut(s: Seq<RetainedInterval>, a: int, b: int) -> Seq<RetainedInterval>
    decreases s.len(),
{
    if s.len() == 0 {
        Seq::empty()
    } else {
        kept_before(s[0], a) + kept_after(s[0], b) + cut(
            s.drop_first(),
            a - span(s[0]),
            b - span(s[0]),
        )
    }
}

/// The edited ranges in which the source times from `a` up to `b` play, when the
/// first stretch starts at edited time `base`.
pub open spec fn edited_ranges(s: Seq<RetainedInterval>, base: int, a: int, b: int) -> Seq<
    (int, int),
>
    decreases s.len(),
{
    if s.len() == 0 {
        Seq::empty()
    } else {
        let lo = max(a, s[0].start_us as int);
        let hi = min(b, s[0].end_us as int);
        let rest = edited_ranges(s.drop_first(), base + span(s[0]), a, b);
        if lo < hi {
            seq![(base + lo - s[0].start_us, base + hi - s[0].start_us)] + rest
        } else {
            rest
        }
    }
}

/// Ranges as integers.
pub open spec fn pairs(v: Seq<(u64, u64)>) -> Seq<(int, int)> {
    v.map_values(|p: (u64, u64)| (p.0 as int, p.1 as int))
}

proof fn lemma_rest_ordered(s: Seq<RetainedInterval>)
    requires
        ordered(s),
        s.len() > 0,
    ensures
        ordered(s.drop_first()),
{
    let b = s.drop_first();
    assert forall|k: int, j: int| 0 <= k < j < b.len() implies b[k].end_us <= b[j].start_us by {
        assert(s[k + 1].end_us <= s[j + 1].start_us);
    }
}

/// Stretches in order are in order without the first ones.
pub proof fn lemma_skip_ordered(s: Seq<RetainedInterval>, i: int)
    requires
        ordered(s),
        0 <= i <= s.len(),
    ensures
        ordered(s.skip(i)),
{
    let b = s.skip(i);
    assert forall|k: int, j: int| 0 <= k < j < b.len() implies b[k].end_us <= b[j].start_us by {
        assert(s[k + i].end_us <= s[j + i].start_us);
    }
}

/// The edited duration is not longer than the source.
pub proof fn edited_duration_is_bounded(s: Seq<RetainedInterval>)
    requires
        ordered(s),
    ensures
        0 <= total(s) <= MAX_SAFE_TIME,
        s.len() > 0 ==> total(s) <= s.last().end_us - s[0].start_us,
    decreases s.len(),
{
    if s.len() > 0 {
        lemma_rest_ordered(s);
        edited_duration_is_bounded(s.drop_first());
        if s.len() > 1 {
            assert(s.drop_first()[0] == s[1]);
            assert(s.drop_first().last() == s.last());
            assert(s[0].end_us <= s[1].start_us);
        }
    }
}

/// Stretches behind others add their length.
pub proof fn lemma_total_add(a: Seq<RetainedInterval>, b: Seq<RetainedInterval>)
    ensures
        total(a + b) == total(a) + total(b),
    decreases a.len(),
{
    if a.len() == 0 {
        assert(a + b =~= b);
    } else {
        assert((a + b).drop_first() =~= a.drop_first() + b);
        lemma_total_add(a.drop_first(), b);
    }
}

proof fn lemma_to_source_add(a: Seq<RetainedInterval>, b: Seq<RetainedInterval>, t: int)
    requires
        forall|i: int| 0 <= i < a.len() ==> span(#[trigger] a[i]) >= 0,
        0 <= t,
    ensures
        to_source(a + b, t) == if t < total(a) {
            to_source(a, t)
        } else {
            to_source(b, t - total(a))
        },
        total(a) >= 0,
    decreases a.len(),
{
    if a.len() == 0 {
        assert(a + b =~= b);
    } else {
        assert((a + b).drop_first() =~= a.drop_first() + b);
        assert forall|i: int| 0 <= i < a.len() - 1 implies span(#[trigger] a.drop_first()[i])
            >= 0 by {
            assert(a.drop_first()[i] == a[i + 1]);
        }
        if t >= span(a[0]) {
            lemma_to_source_add(a.drop_first(), b, t - span(a[0]));
        } else {
            lemma_to_source_add(a.drop_first(), b, 0);
        }
    }
}

/// A source time plays at every edited time before the edited duration, and at no
/// other.
pub proof fn every_edited_time_has_a_source_time(s: Seq<RetainedInterval>, t: int)
    requires
        ordered(s),
        0 <= t,
    ensures
        to_source(s, t) is Some <==> t < total(s),
        to_source(s, t) matches Some(x) ==> exists|i: int|
            0 <= i < s.len() && (#[trigger] s[i]).start_us <= x < s[i].end_us,
    decreases s.len(),
{
    if s.len() > 0 {
        lemma_rest_ordered(s);
        let rest = s.drop_first();
        if t >= span(s[0]) {
            every_edited_time_has_a_source_time(rest, t - span(s[0]));
            if let Some(x) = to_source(s, t) {
                let i = choose|i: int|
                    0 <= i < rest.len() && (#[trigger] rest[i]).start_us <= x < rest[i].end_us;
                assert(s[i + 1] == rest[i]);
            }
        } else {
            edited_duration_is_bounded(rest);
            assert(s[0].start_us <= s[0].start_us + t < s[0].end_us);
        }
    }
}

/// Later edited times play later source times.
pub proof fn edited_time_is_monotonic(s: Seq<RetainedInterval>, t: int, u: int)
    requires
        ordered(s),
        0 <= t < u < total(s),
    ensures
        to_source(s, t)->0 < to_source(s, u)->0,
    decreases s.len(),
{
    if s.len() > 0 {
        lemma_rest_ordered(s);
        let rest = s.drop_first();
        if t >= span(s[0]) {
            edited_time_is_monotonic(rest, t - span(s[0]), u - span(s[0]));
        } else if u >= span(s[0]) {
            every_edited_time_has_a_source_time(rest, u - span(s[0]));
            let x = to_source(s, u)->0;
            let i = choose|i: int|
                0 <= i < rest.len() && (#[trigger] rest[i]).start_us <= x < rest[i].end_us;
            assert(s[i + 1] == rest[i]);
            assert(s[0].end_us <= s[i + 1].start_us);
        }
    }
}

/// The edited duration grows with every stretch by the stretch's own length, and is nothing
/// without stretches.
pub proof fn the_edited_duration_adds_up(s: Seq<RetainedInterval>, r: RetainedInterval)
    ensures
        total(s.push(r)) == total(s) + (r.end_us - r.start_us),
        total(Seq::<RetainedInterval>::empty()) == 0,
{
    assert(s.push(r) =~= s + seq![r]);
    lemma_total_add(s, seq![r]);
    assert(seq![r].drop_first() =~= Seq::<RetainedInterval>::empty());
    reveal_with_fuel(total, 2);
}

/// A stretch plays from where those before it end, at the speed of the source: `x` into the
/// stretch plays `x` behind the length of the stretches before.
pub proof fn a_stretch_plays_behind_those_before(s: Seq<RetainedInterval>, i: int, x: int)
    requires
        ordered(s),
        0 <= i < s.len(),
        0 <= x < s[i].end_us - s[i].start_us,
    ensures
        to_source(s, total(s.take(i)) + x) == Some(s[i].start_us + x),
        0 <= total(s.take(i)),
{
    let a = s.take(i);
    let b = s.skip(i);
    assert(s =~= a + b);
    assert forall|k: int| 0 <= k < a.len() implies span(#[trigger] a[k]) >= 0 by {
        assert(a[k] == s[k]);
    }
    lemma_to_source_add(a, b, 0);
    lemma_to_source_add(a, b, total(a) + x);
    assert(b[0] == s[i]);
}

/// A cut takes the edited times from `a` up to `b` out, and what followed moves up
/// in their place: at every edited time before the cut plays what played there
/// before, and at every later one what played `b - a` later.
pub proof fn a_cut_removes_its_range(s: Seq<RetainedInterval>, a: int, b: int, t: int)
    requires
        ordered(s),
        0 <= a < b <= total(s),
        0 <= t,
    ensures
        to_source(cut(s, a, b), t) == if t < a {
            to_source(s, t)
        } else {
            to_source(s, t + (b - a))
        },
        total(cut(s, a, b)) == total(s) - (b - a),
        ordered(cut(s, a, b)),
{
    lemma_cut(s, a, b, t);
    lemma_cut_ordered(s, a, b);
}

proof fn lemma_cut(s: Seq<RetainedInterval>, a: int, b: int, t: int)
    requires
        ordered(s),
        a < b,
        0 <= t,
    ensures
        to_source(cut(s, a, b), t) == if t < a {
            to_source(s, t)
        } else {
            to_source(s, t + max(b, 0) - max(a, 0))
        },
        total(cut(s, a, b)) == total(s) - (min(max(b, 0), total(s)) - min(max(a, 0), total(s))),
    decreases s.len(),
{
    if s.len() > 0 {
        lemma_rest_ordered(s);
        let rest = s.drop_first();
        let l = span(s[0]);
        edited_duration_is_bounded(rest);
        let head = kept_before(s[0], a) + kept_after(s[0], b);
        let tail = cut(rest, a - l, b - l);
        assert(0 < l);
        let before = if a > 0 {
            min(a, l)
        } else {
            0
        };
        let after = if b < l {
            l - max(b, 0)
        } else {
            0
        };
        assert(total(kept_before(s[0], a)) == before) by {
            reveal_with_fuel(total, 2);
        }
        assert(total(kept_after(s[0], b)) == after) by {
            reveal_with_fuel(total, 2);
        }
        lemma_total_add(kept_before(s[0], a), kept_after(s[0], b));
        lemma_total_add(head, tail);
        assert(cut(s, a, b) == head + tail);
        assert(total(head) == before + after);
        lemma_to_source_add(kept_before(s[0], a), kept_after(s[0], b), t);
        lemma_to_source_add(head, tail, t);
        if t < total(head) {
            lemma_cut(rest, a - l, b - l, 0);
            if t >= before {
                assert(kept_after(s[0], b)[0].start_us == s[0].start_us + max(b, 0));
            }
        } else {
            lemma_cut(rest, a - l, b - l, t - total(head));
        }
    }
}

proof fn lemma_cut_ordered(s: Seq<RetainedInterval>, a: int, b: int)
    requires
        ordered(s),
        a < b,
    ensures
        ordered(cut(s, a, b)),
        s.len() > 0 ==> forall|i: int|
            0 <= i < cut(s, a, b).len() ==> s[0].start_us <= (#[trigger] cut(s, a, b)[i]).start_us,
    decreases s.len(),
{
    if s.len() > 0 {
        lemma_rest_ordered(s);
        let rest = s.drop_first();
        let l = span(s[0]);
        lemma_cut_ordered(rest, a - l, b - l);
        let head = kept_before(s[0], a) + kept_after(s[0], b);
        let tail = cut(rest, a - l, b - l);
        let all = cut(s, a, b);
        assert(all == head + tail);
        assert forall|i: int| 0 <= i < head.len() implies s[0].start_us <= (
        #[trigger] head[i]).start_us < head[i].end_us <= s[0].end_us by {
            if a > 0 && i == 0 {
                assert(head[0] == kept_before(s[0], a)[0]);
            } else {
                assert(head[i] == kept_after(s[0], b)[0]);
            }
        }
        if rest.len() > 0 {
            assert(rest[0] == s[1]);
            assert(s[0].end_us <= s[1].start_us);
        }
        assert forall|i: int| 0 <= i < all.len() implies s[0].start_us <= (
        #[trigger] all[i]).start_us by {
            if i >= head.len() {
                assert(all[i] == tail[i - head.len()]);
            } else {
                assert(all[i] == head[i]);
            }
        }
        assert forall|i: int| 0 <= i < all.len() implies (#[trigger] all[i]).start_us
            < all[i].end_us && all[i].end_us <= MAX_SAFE_TIME by {
            if i >= head.len() {
                assert(all[i] == tail[i - head.len()]);
            } else {
                assert(all[i] == head[i]);
            }
        }
        assert forall|i: int, j: int| 0 <= i < j < all.len() implies (#[trigger] all[i]).end_us <= (
        #[trigger] all[j]).start_us by {
            if i >= head.len() {
                assert(all[i] == tail[i - head.len()] && all[j] == tail[j - head.len()]);
            } else if j >= head.len() {
                assert(all[i] == head[i] && all[j] == tail[j - head.len()]);
            } else {
                assert(all[i] == head[0] && all[j] == head[1]);
                assert(head[0] == kept_before(s[0], a)[0]);
                assert(head[1] == kept_after(s[0], b)[0]);
            }
        }
    }
}

/// Whether `t` lies in one of the ranges.
pub open spec fn in_ranges(r: Seq<(int, int)>, t: int) -> bool {
    exists|i: int| 0 <= i < r.len() && (#[trigger] r[i]).0 <= t < r[i].1
}

/// The edited ranges of a stretch of the source hold exactly the edited times at
/// which it plays.
pub proof fn edited_ranges_are_exact(s: Seq<RetainedInterval>, a: int, b: int, t: int)
    requires
        ordered(s),
        0 <= t,
    ensures
        in_ranges(edited_ranges(s, 0, a, b), t) <==> (to_source(s, t) matches Some(x) && a <= x
            < b),
{
    lemma_ranges(s, 0, a, b, t);
}

proof fn lemma_ranges(s: Seq<RetainedInterval>, base: int, a: int, b: int, t: int)
    requires
        ordered(s),
    ensures
        in_ranges(edited_ranges(s, base, a, b), t) <==> t >= base && (to_source(s, t - base) matches Some(
            x,
        ) && a <= x < b),
    decreases s.len(),
{
    if s.len() > 0 {
        lemma_rest_ordered(s);
        let rest = s.drop_first();
        let l = span(s[0]);
        lemma_ranges(rest, base + l, a, b, t);
        let all = edited_ranges(s, base, a, b);
        let tail = edited_ranges(rest, base + l, a, b);
        let lo = max(a, s[0].start_us as int);
        let hi = min(b, s[0].end_us as int);
        if lo < hi {
            let first = (base + lo - s[0].start_us, base + hi - s[0].start_us);
            assert(all == seq![first] + tail);
            if in_ranges(tail, t) {
                let i = choose|i: int| 0 <= i < tail.len() && (#[trigger] tail[i]).0 <= t < tail[i].1;
                assert(all[i + 1] == tail[i]);
            }
            if in_ranges(all, t) {
                let i = choose|i: int| 0 <= i < all.len() && (#[trigger] all[i]).0 <= t < all[i].1;
                if i > 0 {
                    assert(all[i] == tail[i - 1]);
                }
            }
            if first.0 <= t < first.1 {
                assert(all[0] == first);
            }
        } else {
            assert(all == tail);
        }
    }
}

/// The retained stretches of an edit, in order.
#[derive(Debug)]
pub struct TimelineMapper {
    intervals: Vec<RetainedInterval>,
}

impl View for TimelineMapper {
    type V = Seq<RetainedInterval>;

    closed spec fn view(&self) -> Seq<RetainedInterval> {
        self.intervals@
    }
}

impl TimelineMapper {
    /// The stretches are in order.
    pub open spec fn wf(&self) -> bool {
        ordered(self@)
    }

    /// A timeline of stretches that can be retained.
    pub fn try_new(intervals: Vec<RetainedInterval>) -> (r: Result<TimelineMapper, String>)
        ensures
            match r {
                Ok(m) => retained_fault(intervals@) is None && m@ == intervals@ && m.wf(),
                Err(e) => retained_fault(intervals@) == Some(e@),
            },
    {
        match validate_retained(&intervals) {
            Ok(()) => {
                proof {
                    retainable_means_ordered(intervals@);
                }
                Ok(TimelineMapper { intervals })
            },
            Err(e) => Err(e),
        }
    }

    /// The stretches.
    pub fn intervals(&self) -> (r: &Vec<RetainedInterval>)
        ensures
            r@ == self@,
    {
        &self.intervals
    }

    /// The edited duration.
    pub fn total_edited_duration_us(&self) -> (r: u64)
        requires
            self.wf(),
        ensures
            r == total(self@),
    {
        let mut sum: u64 = 0;
        let mut i: usize = 0;
        assert(self@.skip(0) =~= self@);
        proof {
            edited_duration_is_bounded(self@);
        }
        while i < self.intervals.len()
            invariant
                i <= self@.len(),
                self@ == self.intervals@,
                self.wf(),
                sum + total(self@.skip(i as int)) == total(self@),
                total(self@) <= MAX_SAFE_TIME,
            decreases self@.len() - i,
        {
            proof {
                assert(self@.skip(i as int).drop_first() =~= self@.skip(i + 1));
                lemma_skip_ordered(self@, i + 1);
                edited_duration_is_bounded(self@.skip(i + 1));
            }
            sum = sum + (self.intervals[i].end_us - self.intervals[i].start_us);
            i = i + 1;
        }
        sum
    }

    /// The source time that plays at an edited time.
    pub fn edited_to_source_us(&self, edited_us: u64) -> (r: Option<u64>)
        requires
            self.wf(),
        ensures
            match r {
                Some(x) => to_source(self@, edited_us as int) == Some(x as int),
                None => to_source(self@, edited_us as int) is None,
            },
    {
        let mut left: u64 = edited_us;
        let mut i: usize = 0;
        assert(self@.skip(0) =~= self@);
        while i < self.intervals.len()
            invariant
                i <= self@.len(),
                self@ == self.intervals@,
                self.wf(),
                to_source(self@, edited_us as int) == to_source(self@.skip(i as int), left as int),
            decreases self@.len() - i,
        {
            assert(self@.skip(i as int).drop_first() =~= self@.skip(i + 1));
            let r: RetainedInterval = self.intervals[i];
            let len: u64 = r.end_us - r.start_us;
            if left < len {
                return Some(r.start_us + left);
            }
            left = left - len;
            i = i + 1;
        }
        None
    }

    /// The edited ranges in which a stretch of the source plays.
    pub fn source_range_to_edited(&self, start_us: u64, end_us: u64) -> (r: Vec<(u64, u64)>)
        requires
            self.wf(),
        ensures
            pairs(r@) == edited_ranges(self@, 0, start_us as int, end_us as int),
    {
        let mut out: Vec<(u64, u64)> = Vec::new();
        let mut base: u64 = 0;
        let mut i: usize = 0;
        assert(self@.skip(0) =~= self@);
        assert(pairs(out@) =~= Seq::<(int, int)>::empty());
        proof {
            edited_duration_is_bounded(self@);
        }
        while i < self.intervals.len()
            invariant
                i <= self@.len(),
                self@ == self.intervals@,
                self.wf(),
                base + total(self@.skip(i as int)) == total(self@),
                total(self@) <= MAX_SAFE_TIME,
                edited_ranges(self@, 0, start_us as int, end_us as int) == pairs(out@)
                    + edited_ranges(
                    self@.skip(i as int),
                    base as int,
                    start_us as int,
                    end_us as int,
                ),
            decreases self@.len() - i,
        {
            let ghost here = self@.skip(i as int);
            proof {
                assert(here.drop_first() =~= self@.skip(i + 1));
                lemma_skip_ordered(self@, i + 1);
                edited_duration_is_bounded(self@.skip(i + 1));
            }
            let r: RetainedInterval = self.intervals[i];
            let lo: u64 = if start_us >= r.start_us {
                start_us
            } else {
                r.start_us
            };
            let hi: u64 = if end_us <= r.end_us {
                end_us
            } else {
                r.end_us
            };
            let ghost before = pairs(out@);
            let ghost rest = edited_ranges(
                self@.skip(i + 1),
                base + span(r),
                start_us as int,
                end_us as int,
            );
            if lo < hi {
                let from: u64 = base + (lo - r.start_us);
                let to: u64 = base + (hi - r.start_us);
                out.push((from, to));
                assert(pairs(out@) =~= before.push((from as int, to as int)));
                assert(before + (seq![(from as int, to as int)] + rest) =~= pairs(out@) + rest);
            }
            base = base + (r.end_us - r.start_us);
            i = i + 1;
        }
        assert(pairs(out@) + Seq::<(int, int)>::empty() =~= pairs(out@));
        out
    }

    /// Takes an edited range out of the timeline.
    pub fn ripple_cut_edited(&mut self, start_us: u64, end_us: u64) -> (r: Result<(), String>)
        requires
            old(self).wf(),
        ensures
            final(self).wf(),
            match r {
                Ok(()) => start_us < end_us <= total(old(self)@) && final(self)@ == cut(
                    old(self)@,
                    start_us as int,
                    end_us as int,
                ),
                Err(e) => !(start_us < end_us <= total(old(self)@)) && *final(self) == *old(self)
                    && e@ == "Cut is not a range of the edited timeline"@,
            },
    {
        let whole: u64 = self.total_edited_duration_us();
        if start_us >= end_us || end_us > whole {
            return Err("Cut is not a range of the edited timeline".to_owned());
        }
        let ghost s = self@;
        let ghost a = start_us as int;
        let ghost b = end_us as int;
        let mut out: Vec<RetainedInterval> = Vec::new();
        let mut base: u64 = 0;
        let mut i: usize = 0;
        proof {
            assert(s.skip(0) =~= s);
            assert(out@ + cut(s, a, b) =~= cut(s, a, b));
            edited_duration_is_bounded(s);
        }
        while i < self.intervals.len()
            invariant
                i <= s.len(),
                s == self.intervals@,
                ordered(s),
                a == start_us < b == end_us,
                base + total(s.skip(i as int)) == total(s),
                total(s) <= MAX_SAFE_TIME,
                cut(s, a, b) == out@ + cut(s.skip(i as int), a - base, b - base),
            decreases s.len() - i,
        {
            let ghost here = s.skip(i as int);
            proof {
                assert(here.drop_first() =~= s.skip(i + 1));
                lemma_skip_ordered(s, i + 1);
                edited_duration_is_bounded(s.skip(i + 1));
            }
            let r: RetainedInterval = self.intervals[i];
            let len: u64 = r.end_us - r.start_us;
            let ghost before = out@;
            if start_us > base {
                let keep: u64 = if start_us - base <= len {
                    start_us - base
                } else {
                    len
                };
                out.push(RetainedInterval { start_us: r.start_us, end_us: r.start_us + keep });
            }
            assert(out@ =~= before + kept_before(r, a - base));
            let ghost middle = out@;
            if end_us < base + len {
                let skip: u64 = if end_us >= base {
                    end_us - base
                } else {
                    0
                };
                out.push(RetainedInterval { start_us: r.start_us + skip, end_us: r.end_us });
            }
            assert(out@ =~= middle + kept_after(r, b - base));
            proof {
                let rest = cut(s.skip(i + 1), a - base - len, b - base - len);
                assert(cut(here, a - base, b - base) == kept_before(r, a - base) + kept_after(
                    r,
                    b - base,
                ) + rest);
                assert(before + (kept_before(r, a - base) + kept_after(r, b - base) + rest) =~= out@
                    + rest);
            }
            base = base + len;
            i = i + 1;
        }
        proof {
            assert(out@ + Seq::<RetainedInterval>::empty() =~= out@);
            a_cut_removes_its_range(s, a, b, 0);
        }
        self.intervals = out;
        Ok(())
    }
}

proof fn lemma_retainable_from(s: Seq<RetainedInterval>, i: int, previous: u64)
    requires
        ordered(s),
        0 <= i <= s.len(),
        i < s.len() ==> previous <= s[i].start_us,
    ensures
        retained_fault_from(s, i, previous) is None,
    decreases s.len() - i,
{
    if i < s.len() {
        if i + 1 < s.len() {
            assert(s[i].end_us <= s[i + 1].start_us);
        }
        lemma_retainable_from(s, i + 1, s[i].end_us);
    }
}

/// Stretches in order and apart can be retained, as many as an edit may hold; they may touch
/// each other.
pub proof fn ordered_stretches_can_be_retained(s: Seq<RetainedInterval>)
    requires
        ordered(s),
        s.len() <= MAX_RETAINED_INTERVALS,
    ensures
        retained_fault(s) is None,
{
    lemma_retainable_from(s, 0, 0);
}

} // verus!
