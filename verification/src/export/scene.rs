//! Which pictures of the source are shown at an edited time.
use crate::project::manifest::TrackType;
use crate::project::reader::{SegmentSummary, TrackSummary};
use crate::project::revision::EditDocument;
use crate::text;
use crate::timeline;
use crate::timeline::{RetainedInterval, TimelineMapper};
use vstd::prelude::*;
use vstd::string::*;

verus! {

/// A picture to be read: a segment of a track, and the source time in it.
#[derive(Debug, Clone, Copy, PartialEq, Eq, Structural)]
pub struct LayerPick {
    pub track: usize,
    pub segment: usize,
    pub source_us: u64,
    /// The time within the segment's own file, which begins at zero.
    pub local_us: u64,
}

/// The pictures to be read, in order, and which of them are shown.
#[derive(Debug)]
pub struct LayerPlan {
    pub reads: Vec<LayerPick>,
    pub screen: Option<LayerPick>,
    pub webcam: Option<LayerPick>,
}

/// Whether a segment holds the source at a time.
pub open spec fn holds(s: SegmentSummary, t: int) -> bool {
    s.start_us <= t < s.end_us && s.available
}

/// The first segment from `i` on that holds the source at a time.
pub open spec fn containing_from(s: Seq<SegmentSummary>, t: int, i: int) -> Option<int>
    decreases s.len() - i,
{
    if i < 0 || i >= s.len() {
        None
    } else if holds(s[i], t) {
        Some(i)
    } else {
        containing_from(s, t, i + 1)
    }
}

/// The end of what a segment holds of a stretch before a time.
pub open spec fn held_end(s: SegmentSummary, r: RetainedInterval, t: int) -> int {
    timeline::min(timeline::min(t, r.end_us as int), s.end_us as int)
}

/// Whether a segment holds anything of a stretch before a time.
pub open spec fn held_any(s: SegmentSummary, r: RetainedInterval, t: int) -> bool {
    s.available && held_end(s, r, t) > timeline::max(r.start_us as int, s.start_us as int)
}

/// The last of the first `n` segments that holds anything of a stretch before a time.
pub open spec fn last_held(s: Seq<SegmentSummary>, r: RetainedInterval, t: int, n: int) -> Option<
    int,
>
    decreases n,
{
    if n <= 0 {
        None
    } else if held_any(s[n - 1], r, t) {
        Some(n - 1)
    } else {
        last_held(s, r, t, n - 1)
    }
}

/// The last picture of the first `n` stretches that was retained before a time: the
/// segment, and the source time.
pub open spec fn held_picture(
    s: Seq<SegmentSummary>,
    retained: Seq<RetainedInterval>,
    t: int,
    n: int,
) -> Option<(int, int)>
    decreases n,
{
    if n <= 0 {
        None
    } else {
        match last_held(s, retained[n - 1], t, s.len() as int) {
            Some(j) => Some((j, held_end(s[j], retained[n - 1], t) - 1)),
            None => held_picture(s, retained, t, n - 1),
        }
    }
}

/// The picture of a track at a source time: the segment, and the source time in it. In a
/// gap of the screen the last retained picture stays.
pub open spec fn picture(
    kind: TrackType,
    s: Seq<SegmentSummary>,
    retained: Seq<RetainedInterval>,
    t: int,
) -> Option<(int, int)> {
    match containing_from(s, t, 0) {
        Some(i) => Some((i, t)),
        None => if kind == TrackType::Screen {
            held_picture(s, retained, t, retained.len() as int)
        } else {
            None
        },
    }
}

/// The picture of a track, to be read.
pub open spec fn pick_of(
    tracks: Seq<(TrackSummary, Vec<SegmentSummary>)>,
    retained: Seq<RetainedInterval>,
    t: int,
    i: int,
) -> Option<LayerPick> {
    match picture(tracks[i].0.descriptor.track_type, tracks[i].1@, retained, t) {
        Some(p) => Some(
            LayerPick {
                track: i as usize,
                segment: p.0 as usize,
                source_us: p.1 as u64,
                local_us: (p.1 - tracks[i].1@[p.0].start_us) as u64,
            },
        ),
        None => None,
    }
}

/// Whether a track holds pictures.
pub open spec fn is_picture(t: TrackType) -> bool {
    t == TrackType::Screen || t == TrackType::Webcam
}

/// The pictures of the first `n` tracks, to be read.
pub open spec fn reads_of(
    tracks: Seq<(TrackSummary, Vec<SegmentSummary>)>,
    retained: Seq<RetainedInterval>,
    t: int,
    n: int,
) -> Seq<LayerPick>
    decreases n,
{
    if n <= 0 {
        Seq::empty()
    } else {
        let before = reads_of(tracks, retained, t, n - 1);
        let pick = pick_of(tracks, retained, t, n - 1);
        if is_picture(tracks[n - 1].0.descriptor.track_type) && pick is Some {
            before.push(pick.unwrap())
        } else {
            before
        }
    }
}

/// What is shown of the first `n` tracks that hold one kind of picture: that of the last.
pub open spec fn shown_of(
    tracks: Seq<(TrackSummary, Vec<SegmentSummary>)>,
    retained: Seq<RetainedInterval>,
    t: int,
    kind: TrackType,
    n: int,
) -> Option<LayerPick>
    decreases n,
{
    if n <= 0 {
        None
    } else if tracks[n - 1].0.descriptor.track_type == kind {
        pick_of(tracks, retained, t, n - 1)
    } else {
        shown_of(tracks, retained, t, kind, n - 1)
    }
}

/// Finds the first segment that holds the source at a time.
fn find_containing(s: &Vec<SegmentSummary>, t: u64) -> (r: Option<usize>)
    ensures
        match r {
            Some(i) => i < s@.len() && containing_from(s@, t as int, 0) == Some(i as int) && holds(
                s@[i as int],
                t as int,
            ),
            None => containing_from(s@, t as int, 0) is None,
        },
{
    let mut i: usize = 0;
    while i < s.len()
        invariant
            i <= s@.len(),
            containing_from(s@, t as int, 0) == containing_from(s@, t as int, i as int),
        decreases s@.len() - i,
    {
        if s[i].start_us <= t && t < s[i].end_us && s[i].available {
            return Some(i);
        }
        i = i + 1;
    }
    None
}

fn smaller(a: u64, b: u64) -> (r: u64)
    ensures
        r == timeline::min(a as int, b as int),
{
    if a <= b {
        a
    } else {
        b
    }
}

fn larger(a: u64, b: u64) -> (r: u64)
    ensures
        r == timeline::max(a as int, b as int),
{
    if a >= b {
        a
    } else {
        b
    }
}

/// Finds the last segment that holds anything of a stretch before a time.
fn find_last_held(s: &Vec<SegmentSummary>, r: RetainedInterval, t: u64) -> (found: Option<
    (usize, u64),
>)
    ensures
        match found {
            Some(p) => {
                &&& p.0 < s@.len()
                &&& last_held(s@, r, t as int, s@.len() as int) == Some(p.0 as int)
                &&& held_any(s@[p.0 as int], r, t as int)
                &&& p.1 == held_end(s@[p.0 as int], r, t as int) - 1
            },
            None => last_held(s@, r, t as int, s@.len() as int) is None,
        },
{
    let mut n: usize = s.len();
    while n > 0
        invariant
            n <= s@.len(),
            last_held(s@, r, t as int, s@.len() as int) == last_held(s@, r, t as int, n as int),
        decreases n,
    {
        let e: &SegmentSummary = &s[n - 1];
        let end: u64 = smaller(smaller(t, r.end_us), e.end_us);
        if e.available && end > larger(r.start_us, e.start_us) {
            return Some((n - 1, end - 1));
        }
        n = n - 1;
    }
    None
}

/// Finds the last picture that was retained before a time.
fn find_held(s: &Vec<SegmentSummary>, retained: &Vec<RetainedInterval>, t: u64) -> (found: Option<
    (usize, u64),
>)
    ensures
        match found {
            Some(p) => {
                &&& p.0 < s@.len()
                &&& held_picture(s@, retained@, t as int, retained@.len() as int) == Some(
                    (p.0 as int, p.1 as int),
                )
                &&& s@[p.0 as int].start_us <= p.1
            },
            None => held_picture(s@, retained@, t as int, retained@.len() as int) is None,
        },
{
    let mut n: usize = retained.len();
    while n > 0
        invariant
            n <= retained@.len(),
            held_picture(s@, retained@, t as int, retained@.len() as int) == held_picture(
                s@,
                retained@,
                t as int,
                n as int,
            ),
        decreases n,
    {
        match find_last_held(s, retained[n - 1], t) {
            Some(p) => {
                return Some(p);
            },
            None => {},
        }
        n = n - 1;
    }
    None
}

/// Finds the picture of a track.
fn find_picture(
    tracks: &Vec<(TrackSummary, Vec<SegmentSummary>)>,
    retained: &Vec<RetainedInterval>,
    t: u64,
    i: usize,
) -> (r: Option<LayerPick>)
    requires
        i < tracks@.len(),
    ensures
        r == pick_of(tracks@, retained@, t as int, i as int),
{
    let s: &Vec<SegmentSummary> = &tracks[i].1;
    let found: Option<(usize, u64)> = match find_containing(s, t) {
        Some(k) => Some((k, t)),
        None => if tracks[i].0.descriptor.track_type == TrackType::Screen {
            find_held(s, retained, t)
        } else {
            None
        },
    };
    match found {
        Some(p) => {
            let local_us: u64 = p.1 - s[p.0].start_us;
            Some(LayerPick { track: i, segment: p.0, source_us: p.1, local_us })
        },
        None => None,
    }
}

/// Why nothing is shown at an edited time; `None` when something may be.
pub open spec fn scene_fault(retained: Seq<RetainedInterval>, tracks: nat, edited: int) -> Option<
    Seq<char>,
> {
    if timeline::retained_fault(retained) is Some {
        timeline::retained_fault(retained)
    } else if tracks > 0 && edited >= timeline::total(retained) {
        Some("The exclusive edited end is not a video sample"@)
    } else {
        None
    }
}

/// Chooses the pictures that are shown at an edited time.
pub fn scene_at(
    document: &EditDocument,
    tracks: &Vec<(TrackSummary, Vec<SegmentSummary>)>,
    edited_us: u64,
) -> (r: Result<LayerPlan, String>)
    ensures
        match r {
            Ok(plan) => {
                let retained = document@.retained;
                let t = timeline::to_source(retained, edited_us as int).unwrap_or(0);
                &&& scene_fault(retained, tracks@.len(), edited_us as int) is None
                &&& plan.reads@ == reads_of(tracks@, retained, t, tracks@.len() as int)
                &&& plan.screen == shown_of(
                    tracks@,
                    retained,
                    t,
                    TrackType::Screen,
                    tracks@.len() as int,
                )
                &&& plan.webcam == shown_of(
                    tracks@,
                    retained,
                    t,
                    TrackType::Webcam,
                    tracks@.len() as int,
                )
            },
            Err(e) => scene_fault(document@.retained, tracks@.len(), edited_us as int) == Some(e@),
        },
{
    let mapper: TimelineMapper = match document.mapper() {
        Ok(m) => m,
        Err(e) => {
            return Err(e);
        },
    };
    let duration: u64 = mapper.total_edited_duration_us();
    let found: Option<u64> = mapper.edited_to_source_us(edited_us);
    if tracks.len() > 0 && edited_us >= duration {
        return Err("The exclusive edited end is not a video sample".to_owned());
    }
    proof {
        timeline::every_edited_time_has_a_source_time(document@.retained, edited_us as int);
    }
    let t: u64 = match found {
        Some(x) => x,
        None => 0,
    };
    let retained: &Vec<RetainedInterval> = &document.retained_intervals;
    let mut reads: Vec<LayerPick> = Vec::new();
    let mut screen: Option<LayerPick> = None;
    let mut webcam: Option<LayerPick> = None;
    let mut i: usize = 0;
    while i < tracks.len()
        invariant
            i <= tracks@.len(),
            retained@ == document@.retained,
            reads@ == reads_of(tracks@, retained@, t as int, i as int),
            screen == shown_of(tracks@, retained@, t as int, TrackType::Screen, i as int),
            webcam == shown_of(tracks@, retained@, t as int, TrackType::Webcam, i as int),
        decreases tracks@.len() - i,
    {
        let kind: TrackType = tracks[i].0.descriptor.track_type;
        if kind == TrackType::Screen || kind == TrackType::Webcam {
            let pick: Option<LayerPick> = find_picture(tracks, retained, t, i);
            match pick {
                Some(p) => {
                    reads.push(p);
                },
                None => {},
            }
            if kind == TrackType::Screen {
                screen = pick;
            } else {
                webcam = pick;
            }
        }
        i = i + 1;
    }
    Ok(LayerPlan { reads, screen, webcam })
}

/// What is told when a picture could not be read.
pub fn decode_message(relative_path: &str, local_us: u64, error: &str) -> (r: String)
    ensures
        r@ == relative_path@ + " at local "@ + text::decimal(local_us as nat) + "us: "@ + error@,
{
    let mut r: String = relative_path.to_owned();
    r.append(" at local ");
    text::push_decimal(&mut r, local_us);
    r.append("us: ");
    r.append(error);
    r
}

proof fn lemma_containing(s: Seq<SegmentSummary>, t: int, i: int)
    requires
        0 <= i,
    ensures
        containing_from(s, t, i) matches Some(j) ==> i <= j < s.len() && holds(s[j], t),
    decreases s.len() - i,
{
    if i < s.len() && !holds(s[i], t) {
        lemma_containing(s, t, i + 1);
    }
}

proof fn lemma_last_held(s: Seq<SegmentSummary>, r: RetainedInterval, t: int, n: int)
    requires
        n <= s.len(),
    ensures
        last_held(s, r, t, n) matches Some(j) ==> 0 <= j < n && held_any(s[j], r, t),
    decreases n,
{
    if n > 0 && !held_any(s[n - 1], r, t) {
        lemma_last_held(s, r, t, n - 1);
    }
}

/// Every picture that is shown lies in an available segment, no later than the time that
/// is shown.
pub proof fn pictures_are_not_ahead(
    kind: TrackType,
    s: Seq<SegmentSummary>,
    retained: Seq<RetainedInterval>,
    t: int,
)
    ensures
        picture(kind, s, retained, t) matches Some(p) ==> {
            &&& 0 <= p.0 < s.len()
            &&& holds(s[p.0], p.1)
            &&& p.1 <= t
        },
{
    lemma_containing(s, t, 0);
    if containing_from(s, t, 0) is None && kind == TrackType::Screen {
        lemma_held_picture(s, retained, t, retained.len() as int);
    }
}

proof fn lemma_held_picture(
    s: Seq<SegmentSummary>,
    retained: Seq<RetainedInterval>,
    t: int,
    n: int,
)
    requires
        n <= retained.len(),
    ensures
        held_picture(s, retained, t, n) matches Some(p) ==> {
            &&& 0 <= p.0 < s.len()
            &&& holds(s[p.0], p.1)
            &&& p.1 < t
            &&& exists|k: int|
                0 <= k < n && (#[trigger] retained[k]).start_us <= p.1 < retained[k].end_us
        },
    decreases n,
{
    if n > 0 {
        lemma_last_held(s, retained[n - 1], t, s.len() as int);
        match last_held(s, retained[n - 1], t, s.len() as int) {
            Some(j) => {
                let p = held_end(s[j], retained[n - 1], t) - 1;
                assert(retained[n - 1].start_us <= p < retained[n - 1].end_us);
            },
            None => {
                lemma_held_picture(s, retained, t, n - 1);
            },
        }
    }
}

/// In a gap of the screen, what stays is a picture that the edit retains.
pub proof fn gaps_hold_retained_pictures(
    s: Seq<SegmentSummary>,
    retained: Seq<RetainedInterval>,
    t: int,
)
    requires
        containing_from(s, t, 0) is None,
    ensures
        picture(TrackType::Screen, s, retained, t) matches Some(p) ==> exists|k: int|
            0 <= k < retained.len() && (#[trigger] retained[k]).start_us <= p.1
                < retained[k].end_us,
{
    lemma_held_picture(s, retained, t, retained.len() as int);
}

proof fn lemma_first_containing(s: Seq<SegmentSummary>, t: int, i: int, k: int)
    requires
        0 <= i <= k < s.len(),
        holds(s[k], t),
    ensures
        containing_from(s, t, i) matches Some(j) && i <= j <= k && forall|n: int|
            i <= n < j ==> !holds(#[trigger] s[n], t),
    decreases k - i,
{
    if !holds(s[i], t) {
        lemma_first_containing(s, t, i + 1, k);
    }
}

proof fn lemma_none_containing(s: Seq<SegmentSummary>, t: int, i: int)
    requires
        0 <= i,
        forall|n: int| i <= n < s.len() ==> !holds(#[trigger] s[n], t),
    ensures
        containing_from(s, t, i) is None,
    decreases s.len() - i,
{
    if i < s.len() {
        lemma_none_containing(s, t, i + 1);
    }
}

/// Where an available segment of a track covers a source time, the picture that is read is
/// the one of that very time: it lies in the first such segment, as far from its start as
/// the time is. So it is for the webcam as it is for the screen.
pub proof fn covered_times_show_themselves(
    tracks: Seq<(TrackSummary, Vec<SegmentSummary>)>,
    retained: Seq<RetainedInterval>,
    t: int,
    i: int,
    k: int,
)
    requires
        0 <= i < tracks.len() <= usize::MAX,
        0 <= k < tracks[i].1@.len() <= usize::MAX,
        tracks[i].1@[k].available,
        tracks[i].1@[k].start_us <= t < tracks[i].1@[k].end_us,
    ensures
        pick_of(tracks, retained, t, i) matches Some(p) && {
            let segments = tracks[i].1@;
            let segment = segments[p.segment as int];
            &&& p.track == i
            &&& p.segment <= k
            &&& segment.available
            &&& segment.start_us <= t < segment.end_us
            &&& p.source_us == t
            &&& p.local_us == t - segment.start_us
            &&& forall|n: int|
                0 <= n < p.segment ==> !((#[trigger] segments[n]).available && segments[n].start_us
                    <= t < segments[n].end_us)
        },
{
    let segments = tracks[i].1@;
    assert(holds(segments[k], t));
    lemma_first_containing(segments, t, 0, k);
    let j = containing_from(segments, t, 0).unwrap();
    lemma_containing(segments, t, 0);
    assert(t <= u64::MAX);
    assert forall|n: int| 0 <= n < j implies !((#[trigger] segments[n]).available
        && segments[n].start_us <= t < segments[n].end_us) by {
        assert(!holds(segments[n], t));
    }
}

/// Where no available segment covers a source time, the webcam shows nothing.
pub proof fn webcams_show_nothing_in_gaps(
    tracks: Seq<(TrackSummary, Vec<SegmentSummary>)>,
    retained: Seq<RetainedInterval>,
    t: int,
    i: int,
)
    requires
        0 <= i < tracks.len(),
        tracks[i].0.descriptor.track_type == TrackType::Webcam,
        forall|k: int|
            0 <= k < tracks[i].1@.len() ==> !((#[trigger] tracks[i].1@[k]).available
                && tracks[i].1@[k].start_us <= t < tracks[i].1@[k].end_us),
    ensures
        pick_of(tracks, retained, t, i) is None,
{
    let segments = tracks[i].1@;
    assert forall|n: int| 0 <= n < segments.len() implies !holds(#[trigger] segments[n], t) by {
        assert(!(segments[n].available && segments[n].start_us <= t < segments[n].end_us));
    }
    lemma_none_containing(segments, t, 0);
}

proof fn lemma_last_held_found(s: Seq<SegmentSummary>, r: RetainedInterval, t: int, n: int, k: int)
    requires
        0 <= k < n <= s.len(),
        held_any(s[k], r, t),
    ensures
        last_held(s, r, t, n) matches Some(j) && k <= j < n && held_any(s[j], r, t),
    decreases n,
{
    if !held_any(s[n - 1], r, t) {
        lemma_last_held_found(s, r, t, n - 1, k);
    }
}

proof fn lemma_held_latest(
    s: Seq<SegmentSummary>,
    retained: Seq<RetainedInterval>,
    t: int,
    n: int,
    m: int,
    k: int,
    x: int,
)
    requires
        timeline::ordered(retained),
        forall|a: int, b: int|
            0 <= a < b < s.len() && (#[trigger] s[a]).available && (#[trigger] s[b]).available
                ==> s[a].end_us <= s[b].start_us,
        0 <= m < n <= retained.len(),
        0 <= k < s.len(),
        x < t,
        retained[m].start_us <= x < retained[m].end_us,
        s[k].available,
        s[k].start_us <= x < s[k].end_us,
    ensures
        held_picture(s, retained, t, n) matches Some(p) && x <= p.1,
    decreases n,
{
    let r = retained[n - 1];
    if m == n - 1 {
        assert(held_any(s[k], r, t));
        lemma_last_held_found(s, r, t, s.len() as int, k);
        let j = last_held(s, r, t, s.len() as int).unwrap();
        if j > k {
            assert(s[k].end_us <= s[j].start_us);
        }
    } else {
        lemma_last_held(s, r, t, s.len() as int);
        assert(retained[m].end_us <= retained[n - 1].start_us);
        match last_held(s, r, t, s.len() as int) {
            Some(j) => {},
            None => {
                lemma_held_latest(s, retained, t, n - 1, m, k, x);
            },
        }
    }
}

/// In a gap of the screen the picture that stays is the latest there is: it lies in an
/// available segment and in what is retained, before the time that is shown, and no retained
/// and available time between the two is passed over. Where there is one before, one stays.
pub proof fn gaps_hold_the_latest_picture(
    tracks: Seq<(TrackSummary, Vec<SegmentSummary>)>,
    retained: Seq<RetainedInterval>,
    t: int,
    i: int,
    m: int,
    k: int,
    x: int,
)
    requires
        0 <= i < tracks.len() <= usize::MAX,
        tracks[i].1@.len() <= usize::MAX,
        tracks[i].0.descriptor.track_type == TrackType::Screen,
        timeline::ordered(retained),
        forall|a: int, b: int|
            0 <= a < b < tracks[i].1@.len() && (#[trigger] tracks[i].1@[a]).available && (
            #[trigger] tracks[i].1@[b]).available ==> tracks[i].1@[a].end_us
                <= tracks[i].1@[b].start_us,
        forall|n: int|
            0 <= n < tracks[i].1@.len() ==> !((#[trigger] tracks[i].1@[n]).available
                && tracks[i].1@[n].start_us <= t < tracks[i].1@[n].end_us),
        0 <= m < retained.len(),
        0 <= k < tracks[i].1@.len(),
        x < t,
        retained[m].start_us <= x < retained[m].end_us,
        tracks[i].1@[k].available,
        tracks[i].1@[k].start_us <= x < tracks[i].1@[k].end_us,
    ensures
        pick_of(tracks, retained, t, i) matches Some(p) && {
            let segments = tracks[i].1@;
            let segment = segments[p.segment as int];
            &&& p.track == i
            &&& p.segment < segments.len()
            &&& x <= p.source_us < t
            &&& segment.available
            &&& segment.start_us <= p.source_us < segment.end_us
            &&& p.local_us == p.source_us - segment.start_us
            &&& exists|n: int|
                0 <= n < retained.len() && (#[trigger] retained[n]).start_us <= p.source_us
                    < retained[n].end_us
        },
{
    let segments = tracks[i].1@;
    assert forall|n: int| 0 <= n < segments.len() implies !holds(#[trigger] segments[n], t) by {
        assert(!(segments[n].available && segments[n].start_us <= t < segments[n].end_us));
    }
    lemma_none_containing(segments, t, 0);
    lemma_held_latest(segments, retained, t, retained.len() as int, m, k, x);
    lemma_held_picture(segments, retained, t, retained.len() as int);
}

/// Of several tracks of a kind the last one is shown, and it shows its own picture.
pub proof fn the_last_track_of_a_kind_is_shown(
    tracks: Seq<(TrackSummary, Vec<SegmentSummary>)>,
    retained: Seq<RetainedInterval>,
    t: int,
    kind: TrackType,
    n: int,
    i: int,
)
    requires
        0 <= i < n <= tracks.len(),
        tracks[i].0.descriptor.track_type == kind,
        forall|j: int|
            i < j < n ==> (#[trigger] tracks[j]).0.descriptor.track_type != kind,
    ensures
        shown_of(tracks, retained, t, kind, n) == pick_of(tracks, retained, t, i),
    decreases n,
{
    if i < n - 1 {
        assert(tracks[n - 1].0.descriptor.track_type != kind);
        the_last_track_of_a_kind_is_shown(tracks, retained, t, kind, n - 1, i);
    }
}

/// Without a track of a kind nothing of the kind is shown.
pub proof fn what_is_not_recorded_is_not_shown(
    tracks: Seq<(TrackSummary, Vec<SegmentSummary>)>,
    retained: Seq<RetainedInterval>,
    t: int,
    kind: TrackType,
    n: int,
)
    requires
        0 <= n <= tracks.len(),
        forall|j: int| 0 <= j < n ==> (#[trigger] tracks[j]).0.descriptor.track_type != kind,
    ensures
        shown_of(tracks, retained, t, kind, n) is None,
    decreases n,
{
    if n > 0 {
        assert(tracks[n - 1].0.descriptor.track_type != kind);
        what_is_not_recorded_is_not_shown(tracks, retained, t, kind, n - 1);
    }
}

/// What is read are the pictures of the screen and webcam tracks, all of them and no others.
pub proof fn every_picture_track_is_read(
    tracks: Seq<(TrackSummary, Vec<SegmentSummary>)>,
    retained: Seq<RetainedInterval>,
    t: int,
    n: int,
    p: LayerPick,
)
    requires
        0 <= n <= tracks.len(),
    ensures
        reads_of(tracks, retained, t, n).contains(p) <==> exists|i: int|
            0 <= i < n && ((#[trigger] tracks[i]).0.descriptor.track_type == TrackType::Screen
                || tracks[i].0.descriptor.track_type == TrackType::Webcam) && pick_of(
                tracks,
                retained,
                t,
                i,
            ) == Some(p),
    decreases n,
{
    let reads = reads_of(tracks, retained, t, n);
    if n > 0 {
        every_picture_track_is_read(tracks, retained, t, n - 1, p);
        let before = reads_of(tracks, retained, t, n - 1);
        if reads.contains(p) {
            let a = choose|a: int| 0 <= a < reads.len() && reads[a] == p;
            if a < before.len() {
                assert(before[a] == p);
                assert(before.contains(p));
            } else {
                assert(pick_of(tracks, retained, t, n - 1) == Some(p));
                assert(tracks[n - 1] == tracks[n - 1]);
            }
        }
        if before.contains(p) {
            let a = choose|a: int| 0 <= a < before.len() && before[a] == p;
            assert(reads[a] == p);
        }
        if is_picture(tracks[n - 1].0.descriptor.track_type) && pick_of(
            tracks,
            retained,
            t,
            n - 1,
        ) == Some(p) {
            assert(reads.last() == p);
        }
    }
}

} // verus!
