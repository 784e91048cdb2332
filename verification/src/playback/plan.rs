//! What is to be decoded of each track at an edited time.
use crate::paths;
use crate::project::reader::{SegmentSummary, TrackSummary};
use vstd::prelude::*;
use vstd::string::*;

verus! {

pub const MAX_PLAN_TRACKS: usize = 16;

/// What is to be decoded of a track.
#[derive(Debug, PartialEq)]
pub struct TrackDecodePlan {
    pub track_id: String,
    pub generation: u64,
    pub edited_us: u64,
    pub source_us: Option<u64>,
    pub gap: bool,
    pub ended: bool,
    pub relative_path: Option<String>,
    pub keyframe_source_us: Option<u64>,
    pub decode_to_source_us: Option<u64>,
}

/// A plan, with its texts as characters.
pub struct Plan {
    pub track_id: Seq<char>,
    pub generation: u64,
    pub edited_us: u64,
    pub source_us: Option<u64>,
    pub gap: bool,
    pub ended: bool,
    pub path: Option<Seq<char>>,
    pub keyframe_us: Option<u64>,
    pub decode_to_us: Option<u64>,
}

impl View for TrackDecodePlan {
    type V = Plan;

    open spec fn view(&self) -> Plan {
        Plan {
            track_id: self.track_id@,
            generation: self.generation,
            edited_us: self.edited_us,
            source_us: self.source_us,
            gap: self.gap,
            ended: self.ended,
            path: match self.relative_path {
                Some(p) => Some(p@),
                None => None,
            },
            keyframe_us: self.keyframe_source_us,
            decode_to_us: self.decode_to_source_us,
        }
    }
}

/// Whether a segment covers a source time.
pub open spec fn covers(s: SegmentSummary, t: u64) -> bool {
    s.start_us <= t < s.end_us
}

/// The first segment from `i` on that covers a source time.
pub open spec fn covering_from(s: Seq<SegmentSummary>, t: u64, i: int) -> Option<int>
    decreases s.len() - i,
{
    if i < 0 || i >= s.len() {
        None
    } else if covers(s[i], t) {
        Some(i)
    } else {
        covering_from(s, t, i + 1)
    }
}

/// Whether a segment can be decoded from its start; unless it is known otherwise, it can.
pub open spec fn starts_fresh(s: SegmentSummary) -> bool {
    s.is_keyframe_start.unwrap_or(true)
}

/// Where decoding has to start for a source time, of the segments from `i` on, when
/// those before give `known`.
pub open spec fn keyframe_from(s: Seq<SegmentSummary>, t: u64, i: int, known: Option<u64>) -> Option<
    u64,
>
    decreases s.len() - i,
{
    if i < 0 || i >= s.len() || s[i].start_us > t {
        known
    } else if starts_fresh(s[i]) || (known is None && covers(s[i], t)) {
        keyframe_from(s, t, i + 1, Some(s[i].start_us))
    } else {
        keyframe_from(s, t, i + 1, known)
    }
}

/// Where decoding has to start for a source time.
fn preceding_keyframe(segments: &Vec<SegmentSummary>, source_us: u64) -> (r: Option<u64>)
    ensures
        r == keyframe_from(segments@, source_us, 0, None),
{
    let mut keyframe: Option<u64> = None;
    let mut i: usize = 0;
    while i < segments.len()
        invariant
            i <= segments@.len(),
            keyframe_from(segments@, source_us, 0, None) == keyframe_from(
                segments@,
                source_us,
                i as int,
                keyframe,
            ),
        decreases segments@.len() - i,
    {
        let s: &SegmentSummary = &segments[i];
        if s.start_us > source_us {
            return keyframe;
        }
        let fresh: bool = match s.is_keyframe_start {
            Some(k) => k,
            None => true,
        };
        if fresh {
            keyframe = Some(s.start_us);
        } else if source_us < s.end_us && keyframe.is_none() {
            keyframe = Some(s.start_us);
        }
        i = i + 1;
    }
    keyframe
}

/// What is to be decoded of a track at an edited time, which plays `source`.
pub open spec fn plan_of(
    track_id: Seq<char>,
    generation: u64,
    edited_us: u64,
    source: Option<u64>,
    ended: bool,
    s: Seq<SegmentSummary>,
) -> Plan {
    let nothing = Plan {
        track_id,
        generation,
        edited_us,
        source_us: source,
        gap: true,
        ended: false,
        path: None,
        keyframe_us: None,
        decode_to_us: None,
    };
    if ended || source is None {
        Plan { source_us: None, gap: !ended, ended, ..nothing }
    } else {
        let t = source.unwrap();
        match covering_from(s, t, 0) {
            None => nothing,
            Some(i) => if s[i].available {
                Plan {
                    gap: false,
                    path: Some(s[i].relative_path@),
                    keyframe_us: keyframe_from(s, t, 0, None),
                    decode_to_us: source,
                    ..nothing
                }
            } else {
                Plan { path: Some(s[i].relative_path@), ..nothing }
            },
        }
    }
}

fn find_covering(s: &Vec<SegmentSummary>, t: u64) -> (r: Option<usize>)
    ensures
        match r {
            Some(i) => i < s@.len() && covering_from(s@, t, 0) == Some(i as int),
            None => covering_from(s@, t, 0) is None,
        },
{
    let mut i: usize = 0;
    while i < s.len()
        invariant
            i <= s@.len(),
            covering_from(s@, t, 0) == covering_from(s@, t, i as int),
        decreases s@.len() - i,
    {
        if s[i].start_us <= t && t < s[i].end_us {
            return Some(i);
        }
        i = i + 1;
    }
    None
}

/// Plans what is to be decoded of a track.
pub fn plan_for_track(
    track_id: &str,
    generation: u64,
    edited_us: u64,
    source_us: Option<u64>,
    ended: bool,
    segments: &Vec<SegmentSummary>,
) -> (r: TrackDecodePlan)
    ensures
        r@ == plan_of(track_id@, generation, edited_us, source_us, ended, segments@),
{
    let mut plan = TrackDecodePlan {
        track_id: track_id.to_owned(),
        generation,
        edited_us,
        source_us,
        gap: true,
        ended: false,
        relative_path: None,
        keyframe_source_us: None,
        decode_to_source_us: None,
    };
    let t: u64 = match source_us {
        Some(t) => t,
        None => 0,
    };
    if ended || source_us.is_none() {
        plan.source_us = None;
        plan.gap = !ended;
        plan.ended = ended;
        return plan;
    }
    match find_covering(segments, t) {
        None => plan,
        Some(i) => {
            plan.relative_path = Some(segments[i].relative_path.clone());
            if segments[i].available {
                plan.gap = false;
                plan.keyframe_source_us = preceding_keyframe(segments, t);
                plan.decode_to_source_us = Some(t);
            }
            plan
        },
    }
}

/// Plans, with their texts as characters.
pub open spec fn plans(v: Seq<TrackDecodePlan>) -> Seq<Plan> {
    v.map_values(|p: TrackDecodePlan| p@)
}

/// What is to be decoded of the first tracks.
pub open spec fn plans_of(
    tracks: Seq<(TrackSummary, Vec<SegmentSummary>)>,
    generation: u64,
    edited_us: u64,
    source: Option<u64>,
    ended: bool,
) -> Seq<Plan> {
    Seq::new(
        if tracks.len() < MAX_PLAN_TRACKS {
            tracks.len()
        } else {
            MAX_PLAN_TRACKS as nat
        },
        |i: int|
            plan_of(
                tracks[i].0.descriptor.id@,
                generation,
                edited_us,
                source,
                ended,
                tracks[i].1@,
            ),
    )
}

/// Plans what is to be decoded of the first tracks.
pub fn plan_tracks(
    tracks: &Vec<(TrackSummary, Vec<SegmentSummary>)>,
    generation: u64,
    edited_us: u64,
    source_us: Option<u64>,
    ended: bool,
) -> (r: Vec<TrackDecodePlan>)
    ensures
        plans(r@) == plans_of(tracks@, generation, edited_us, source_us, ended),
{
    let ghost want = plans_of(tracks@, generation, edited_us, source_us, ended);
    let mut out: Vec<TrackDecodePlan> = Vec::new();
    let mut i: usize = 0;
    while i < tracks.len() && i < MAX_PLAN_TRACKS
        invariant
            i <= tracks@.len(),
            i <= MAX_PLAN_TRACKS,
            want == plans_of(tracks@, generation, edited_us, source_us, ended),
            plans(out@) == want.take(i as int),
        decreases tracks@.len() - i,
    {
        let ghost before = plans(out@);
        out.push(
            plan_for_track(
                tracks[i].0.descriptor.id.as_str(),
                generation,
                edited_us,
                source_us,
                ended,
                &tracks[i].1,
            ),
        );
        i = i + 1;
        assert(plans(out@) =~= before.push(want[i - 1]));
        assert(want.take(i as int) =~= before.push(want[i - 1]));
    }
    assert(want.take(want.len() as int) =~= want);
    out
}

/// What is told of the gaps in the first `n` plans.
pub open spec fn gap_notes(p: Seq<Plan>, n: int) -> Seq<Seq<char>>
    decreases n,
{
    if n <= 0 {
        Seq::empty()
    } else if p[n - 1].gap && !p[n - 1].ended {
        gap_notes(p, n - 1).push("Gap on track "@ + p[n - 1].track_id)
    } else {
        gap_notes(p, n - 1)
    }
}

/// Tells of the gaps.
pub fn notes_of(v: &Vec<TrackDecodePlan>) -> (r: Vec<String>)
    ensures
        paths::texts(r@) == gap_notes(plans(v@), v@.len() as int),
{
    let mut out: Vec<String> = Vec::new();
    let mut i: usize = 0;
    assert(paths::texts(out@) =~= Seq::<Seq<char>>::empty());
    while i < v.len()
        invariant
            i <= v@.len(),
            paths::texts(out@) == gap_notes(plans(v@), i as int),
        decreases v@.len() - i,
    {
        let ghost before = paths::texts(out@);
        assert(plans(v@)[i as int] == v@[i as int]@);
        if v[i].gap && !v[i].ended {
            let mut note: String = "Gap on track ".to_owned();
            note.append(v[i].track_id.as_str());
            out.push(note);
            assert(paths::texts(out@) =~= before.push(note@));
        }
        i = i + 1;
    }
    out
}

proof fn lemma_keyframe(s: Seq<SegmentSummary>, t: u64, i: int, known: Option<u64>)
    requires
        0 <= i,
        known matches Some(k) ==> k <= t,
    ensures
        keyframe_from(s, t, i, known) matches Some(k) ==> k <= t,
        known is Some ==> keyframe_from(s, t, i, known) is Some,
    decreases s.len() - i,
{
    if i < s.len() && s[i].start_us <= t {
        if starts_fresh(s[i]) || (known is None && covers(s[i], t)) {
            lemma_keyframe(s, t, i + 1, Some(s[i].start_us));
        } else {
            lemma_keyframe(s, t, i + 1, known);
        }
    }
}

proof fn lemma_keyframe_found(s: Seq<SegmentSummary>, t: u64, i: int, j: int, known: Option<u64>)
    requires
        0 <= i <= j < s.len(),
        covers(s[j], t),
        forall|a: int, b: int|
            0 <= a < b < s.len() ==> (#[trigger] s[a]).start_us <= (#[trigger] s[b]).start_us,
        known matches Some(k) ==> k <= t,
    ensures
        keyframe_from(s, t, i, known) is Some,
    decreases j - i,
{
    assert(s[i].start_us <= s[j].start_us);
    let next = if starts_fresh(s[i]) || (known is None && covers(s[i], t)) {
        Some(s[i].start_us)
    } else {
        known
    };
    if i < j {
        lemma_keyframe_found(s, t, i + 1, j, next);
    } else {
        lemma_keyframe(s, t, i + 1, next);
    }
}

proof fn lemma_covering(s: Seq<SegmentSummary>, t: u64, i: int)
    requires
        0 <= i,
    ensures
        covering_from(s, t, i) matches Some(j) ==> i <= j < s.len() && covers(s[j], t),
    decreases s.len() - i,
{
    if i < s.len() && !covers(s[i], t) {
        lemma_covering(s, t, i + 1);
    }
}

/// What is decoded starts at a keyframe, no later than the time that is wanted.
pub proof fn decoding_starts_at_a_keyframe(
    track_id: Seq<char>,
    generation: u64,
    edited_us: u64,
    source: Option<u64>,
    ended: bool,
    s: Seq<SegmentSummary>,
)
    requires
        forall|a: int, b: int|
            0 <= a < b < s.len() ==> (#[trigger] s[a]).start_us <= (#[trigger] s[b]).start_us,
    ensures
        plan_of(track_id, generation, edited_us, source, ended, s).decode_to_us matches Some(
            t,
        ) ==> plan_of(track_id, generation, edited_us, source, ended, s).keyframe_us matches Some(
            k,
        ) && k <= t,
{
    if !ended && source is Some {
        let t = source.unwrap();
        lemma_covering(s, t, 0);
        match covering_from(s, t, 0) {
            Some(j) => {
                lemma_keyframe_found(s, t, 0, j, None);
                lemma_keyframe(s, t, 0, None);
            },
            None => {},
        }
    }
}

/// The exclusive end of the edit is not a decode request.
pub proof fn the_end_is_not_decoded(
    track_id: Seq<char>,
    generation: u64,
    edited_us: u64,
    source: Option<u64>,
    s: Seq<SegmentSummary>,
)
    ensures
        plan_of(track_id, generation, edited_us, source, true, s).decode_to_us is None,
        plan_of(track_id, generation, edited_us, source, true, s).path is None,
{
}

proof fn lemma_first_covering(s: Seq<SegmentSummary>, t: u64, i: int)
    requires
        0 <= i,
    ensures
        match covering_from(s, t, i) {
            Some(k) => i <= k < s.len() && s[k].start_us <= t < s[k].end_us && forall|j: int|
                i <= j < k ==> !((#[trigger] s[j]).start_us <= t < s[j].end_us),
            None => forall|j: int|
                i <= j < s.len() ==> !((#[trigger] s[j]).start_us <= t < s[j].end_us),
        },
    decreases s.len() - i,
{
    if i < s.len() && !covers(s[i], t) {
        lemma_first_covering(s, t, i + 1);
    }
}

/// What plays at a time is decoded from the first segment that covers it, up to that time.
/// Where that segment is not available it is only named, and where there is none nothing is:
/// both are gaps.
pub proof fn what_covers_a_time_is_decoded(
    track_id: Seq<char>,
    generation: u64,
    edited_us: u64,
    t: u64,
    s: Seq<SegmentSummary>,
    k: int,
)
    requires
        0 <= k < s.len(),
        s[k].start_us <= t < s[k].end_us,
        forall|j: int| 0 <= j < k ==> !((#[trigger] s[j]).start_us <= t < s[j].end_us),
    ensures
        ({
            let p = plan_of(track_id, generation, edited_us, Some(t), false, s);
            &&& p.track_id == track_id
            &&& p.generation == generation
            &&& p.edited_us == edited_us
            &&& p.source_us == Some(t)
            &&& !p.ended
            &&& p.path == Some(s[k].relative_path@)
            &&& p.gap == !s[k].available
            &&& s[k].available ==> p.decode_to_us == Some(t)
            &&& !s[k].available ==> p.decode_to_us is None && p.keyframe_us is None
        }),
{
    lemma_first_covering(s, t, 0);
}

/// Where no segment covers what plays, or nothing plays, there is a gap and nothing to
/// decode; at the end there is nothing to decode either, but no gap.
pub proof fn uncovered_times_are_gaps(
    track_id: Seq<char>,
    generation: u64,
    edited_us: u64,
    source: Option<u64>,
    ended: bool,
    s: Seq<SegmentSummary>,
)
    requires
        forall|j: int|
            0 <= j < s.len() ==> !(source matches Some(t) && (#[trigger] s[j]).start_us <= t
                < s[j].end_us),
    ensures
        ({
            let p = plan_of(track_id, generation, edited_us, source, ended, s);
            &&& p.track_id == track_id
            &&& p.generation == generation
            &&& p.edited_us == edited_us
            &&& p.ended == ended
            &&& p.gap == !ended
            &&& p.path is None
            &&& p.keyframe_us is None
            &&& p.decode_to_us is None
            &&& p.source_us == if ended {
                None
            } else {
                source
            }
        }),
{
    if let Some(t) = source {
        lemma_first_covering(s, t, 0);
    }
}

proof fn lemma_nearest_keyframe(s: Seq<SegmentSummary>, t: u64, i: int, known: Option<u64>)
    requires
        0 <= i,
        forall|a: int, b: int|
            0 <= a < b < s.len() ==> (#[trigger] s[a]).start_us <= (#[trigger] s[b]).start_us,
    ensures
        forall|j: int|
            i <= j < s.len() && (#[trigger] s[j]).start_us <= t && s[j].is_keyframe_start != Some(
                false,
            ) ==> (keyframe_from(s, t, i, known) matches Some(k) && s[j].start_us <= k <= t),
        keyframe_from(s, t, i, known) matches Some(k) ==> known == Some(k) || exists|j: int|
            i <= j < s.len() && (#[trigger] s[j]).start_us == k <= t && (s[j].is_keyframe_start
                != Some(false) || t < s[j].end_us),
        known is Some && (forall|j: int|
            i <= j < s.len() && (#[trigger] s[j]).start_us <= t ==> s[j].is_keyframe_start == Some(
                false,
            )) ==> keyframe_from(s, t, i, known) == known,
    decreases s.len() - i,
{
    if i < s.len() && s[i].start_us <= t {
        let next = if starts_fresh(s[i]) || (known is None && covers(s[i], t)) {
            Some(s[i].start_us)
        } else {
            known
        };
        lemma_nearest_keyframe(s, t, i + 1, next);
        assert(keyframe_from(s, t, i, known) == keyframe_from(s, t, i + 1, next));
        let r = keyframe_from(s, t, i + 1, next);
        if starts_fresh(s[i]) {
            if exists|j: int|
                i < j < s.len() && (#[trigger] s[j]).start_us <= t && s[j].is_keyframe_start
                    != Some(false) {
                let j = choose|j: int|
                    i < j < s.len() && (#[trigger] s[j]).start_us <= t && s[j].is_keyframe_start
                        != Some(false);
                assert(s[i].start_us <= s[j].start_us);
            } else {
                assert(r == next);
            }
        }
        if r is Some && next == r && next != known {
            assert(s[i].start_us == r->0);
        }
    } else if i < s.len() {
        assert forall|j: int| i <= j < s.len() implies (#[trigger] s[j]).start_us > t by {
            if i < j {
                assert(s[i].start_us <= s[j].start_us);
            }
        }
    }
}

/// Decoding starts at the nearest keyframe before what plays: at the latest segment that
/// starts by then and does not need the one before it. Only where there is none it starts
/// with a segment that holds what plays.
pub proof fn decoding_starts_at_the_nearest_keyframe(
    track_id: Seq<char>,
    generation: u64,
    edited_us: u64,
    t: u64,
    s: Seq<SegmentSummary>,
    k: int,
)
    requires
        forall|a: int, b: int|
            0 <= a < b < s.len() ==> (#[trigger] s[a]).start_us <= (#[trigger] s[b]).start_us,
        0 <= k < s.len(),
        s[k].start_us <= t < s[k].end_us,
        forall|j: int| 0 <= j < k ==> !((#[trigger] s[j]).start_us <= t < s[j].end_us),
        s[k].available,
    ensures
        plan_of(track_id, generation, edited_us, Some(t), false, s).keyframe_us matches Some(from)
            && from <= t && (forall|j: int|
            0 <= j < s.len() && (#[trigger] s[j]).start_us <= t && s[j].is_keyframe_start != Some(
                false,
            ) ==> s[j].start_us <= from) && (exists|j: int|
            0 <= j < s.len() && (#[trigger] s[j]).start_us == from && (s[j].is_keyframe_start
                != Some(false) || t < s[j].end_us)),
{
    lemma_first_covering(s, t, 0);
    lemma_nearest_keyframe(s, t, 0, None);
    decoding_starts_at_a_keyframe(track_id, generation, edited_us, Some(t), false, s);
}

/// Every track gets a plan of its own, in their order, up to as many as are planned.
pub proof fn every_track_is_planned(
    tracks: Seq<(TrackSummary, Vec<SegmentSummary>)>,
    generation: u64,
    edited_us: u64,
    source: Option<u64>,
    ended: bool,
    i: int,
)
    requires
        0 <= i < tracks.len(),
        i < 16,
    ensures
        ({
            let p = plans_of(tracks, generation, edited_us, source, ended);
            &&& p.len() <= 16
            &&& tracks.len() <= 16 ==> p.len() == tracks.len()
            &&& tracks.len() > 16 ==> p.len() == 16
            &&& p[i] == plan_of(
                tracks[i].0.descriptor.id@,
                generation,
                edited_us,
                source,
                ended,
                tracks[i].1@,
            )
        }),
{
}

/// Each gap is noted under the name of its track, and nothing else is.
pub proof fn gaps_are_noted(p: Seq<Plan>, n: int, note: Seq<char>)
    requires
        0 <= n <= p.len(),
    ensures
        gap_notes(p, n).contains(note) <==> exists|i: int|
            0 <= i < n && (#[trigger] p[i]).gap && !p[i].ended && note == "Gap on track "@
                + p[i].track_id,
    decreases n,
{
    if n > 0 {
        gaps_are_noted(p, n - 1, note);
        let before = gap_notes(p, n - 1);
        let all = gap_notes(p, n);
        if before.contains(note) {
            let i = choose|i: int| 0 <= i < before.len() && before[i] == note;
            assert(all[i] == note);
        }
        if all.contains(note) {
            let i = choose|i: int| 0 <= i < all.len() && all[i] == note;
            if i < before.len() {
                assert(before[i] == note);
            } else {
                assert(p[n - 1].gap);
            }
        }
        if p[n - 1].gap && !p[n - 1].ended && note == "Gap on track "@ + p[n - 1].track_id {
            assert(all[all.len() - 1] == note);
        }
    }
}

} // verus!
