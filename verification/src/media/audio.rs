//! Mixing the sound of an edit: which segments are heard in which output frames.
//! Resampling and gain are applied to what is planned here.
use crate::project::manifest::TrackType;
use crate::project::reader::{SegmentSummary, TrackSummary};
use crate::project::revision::EditDocument;
use crate::timeline;
use crate::timeline::RetainedInterval;
use vstd::prelude::*;

verus! {

pub const SAMPLE_RATE: u32 = 48_000;

pub const CHANNELS: u16 = 2;

pub const CHUNK_FRAMES: usize = 4_800;

/// A retained stretch on the edited timeline, and whether its sound is faded in and
/// out: where the source is cut.
#[derive(Debug, Clone, Copy, PartialEq, Eq, Structural)]
pub struct Span {
    pub edited_start: u64,
    pub edited_end: u64,
    pub source_start: u64,
    pub source_end: u64,
    pub fade_in: bool,
    pub fade_out: bool,
}

/// The first output frame at or after a time.
pub open spec fn ceil_frame_of(us: int) -> int {
    (us * 48_000 + 999_999) / 1_000_000
}

/// The first output frame at or after a time.
pub fn ceil_frame(us: u64) -> (r: u64)
    requires
        us <= timeline::MAX_SAFE_TIME,
    ensures
        r == ceil_frame_of(us as int),
{
    (((us as u128) * 48_000 + 999_999) / 1_000_000) as u64
}

/// The edited time at which stretch `i` starts.
pub open spec fn edited_at(s: Seq<RetainedInterval>, i: int) -> int {
    timeline::total(s.take(i))
}

/// Stretch `i` on the edited timeline.
pub open spec fn span_of(s: Seq<RetainedInterval>, i: int) -> Span {
    Span {
        edited_start: edited_at(s, i) as u64,
        edited_end: edited_at(s, i + 1) as u64,
        source_start: s[i].start_us,
        source_end: s[i].end_us,
        fade_in: i > 0 && s[i - 1].end_us != s[i].start_us,
        fade_out: i + 1 < s.len() && s[i].end_us != s[i + 1].start_us,
    }
}

proof fn lemma_edited_at(s: Seq<RetainedInterval>, i: int)
    requires
        timeline::ordered(s),
        0 <= i < s.len(),
    ensures
        edited_at(s, i + 1) == edited_at(s, i) + timeline::span(s[i]),
        0 <= edited_at(s, i) <= edited_at(s, i + 1) <= timeline::total(s)
            <= timeline::MAX_SAFE_TIME,
{
    assert(s.take(i + 1) =~= s.take(i) + seq![s[i]]);
    timeline::lemma_total_add(s.take(i), seq![s[i]]);
    assert(timeline::total(seq![s[i]]) == timeline::span(s[i])) by {
        reveal_with_fuel(timeline::total, 2);
    }
    assert(s =~= s.take(i + 1) + s.skip(i + 1));
    timeline::lemma_total_add(s.take(i + 1), s.skip(i + 1));
    timeline::lemma_skip_ordered(s, i + 1);
    timeline::edited_duration_is_bounded(s.skip(i + 1));
    timeline::edited_duration_is_bounded(s);
    lemma_take_nonneg(s, i);
}

proof fn lemma_take_nonneg(s: Seq<RetainedInterval>, i: int)
    requires
        timeline::ordered(s),
        0 <= i <= s.len(),
    ensures
        0 <= timeline::total(s.take(i)),
{
    let t = s.take(i);
    assert forall|a: int, b: int| 0 <= a < b < t.len() implies (#[trigger] t[a]).end_us <= (
    #[trigger] t[b]).start_us by {
        assert(s[a].end_us <= s[b].start_us);
    }
    timeline::edited_duration_is_bounded(t);
}

/// Output frames of a stretch in which a segment is heard.
#[derive(Debug, Clone, Copy, PartialEq, Eq, Structural)]
pub struct MixPiece {
    pub track: usize,
    pub segment: usize,
    pub from: u64,
    pub to: u64,
}

/// Output frames of one stretch, and what is heard in them.
#[derive(Debug)]
pub struct MixPart {
    pub span: usize,
    pub from: u64,
    pub to: u64,
    pub pieces: Vec<MixPiece>,
}

/// What is heard in some output frames.
#[derive(Debug)]
pub struct MixPlan {
    pub frames: usize,
    pub parts: Vec<MixPart>,
}

/// The output frames in which a segment is heard in a stretch, whatever is asked
/// for; none when the first is not before the second.
pub open spec fn heard_in(span: Span, s: SegmentSummary) -> (int, int) {
    let from = timeline::max(span.source_start as int, s.start_us as int);
    let to = timeline::min(span.source_end as int, s.end_us as int);
    if !s.available || to <= from {
        (0, 0)
    } else {
        (
            ceil_frame_of(span.edited_start + from - span.source_start),
            ceil_frame_of(span.edited_start + to - span.source_start),
        )
    }
}

/// Of the output frames from `a` up to `b`, those in which a segment is heard in a
/// stretch.
pub open spec fn piece_of(span: Span, s: SegmentSummary, a: int, b: int) -> Option<(int, int)> {
    let h = heard_in(span, s);
    let lo = timeline::max(a, h.0);
    let hi = timeline::min(b, h.1);
    if lo < hi {
        Some((lo, hi))
    } else {
        None
    }
}

/// The pieces of the first `n` segments of track `t`.
pub open spec fn track_pieces(
    span: Span,
    segments: Seq<SegmentSummary>,
    t: int,
    a: int,
    b: int,
    n: nat,
) -> Seq<MixPiece>
    decreases n,
{
    if n == 0 {
        Seq::empty()
    } else {
        let before = track_pieces(span, segments, t, a, b, (n - 1) as nat);
        match piece_of(span, segments[n - 1], a, b) {
            Some(p) => before.push(
                MixPiece {
                    track: t as usize,
                    segment: (n - 1) as usize,
                    from: p.0 as u64,
                    to: p.1 as u64,
                },
            ),
            None => before,
        }
    }
}

/// The pieces of the first `n` tracks.
pub open spec fn all_pieces(
    span: Span,
    tracks: Seq<Vec<SegmentSummary>>,
    a: int,
    b: int,
    n: nat,
) -> Seq<MixPiece>
    decreases n,
{
    if n == 0 {
        Seq::empty()
    } else {
        all_pieces(span, tracks, a, b, (n - 1) as nat) + track_pieces(
            span,
            tracks[n - 1]@,
            n - 1,
            a,
            b,
            tracks[n - 1]@.len(),
        )
    }
}

/// A part of a plan.
pub struct Part {
    pub span: int,
    pub from: int,
    pub to: int,
    pub pieces: Seq<MixPiece>,
}

impl View for MixPart {
    type V = Part;

    open spec fn view(&self) -> Part {
        Part {
            span: self.span as int,
            from: self.from as int,
            to: self.to as int,
            pieces: self.pieces@,
        }
    }
}

/// Of the output frames from `start` up to `end`, those of stretch `i`.
pub open spec fn part_range(s: Seq<RetainedInterval>, i: int, start: int, end: int) -> (int, int) {
    (
        timeline::max(start, ceil_frame_of(edited_at(s, i))),
        timeline::min(end, ceil_frame_of(edited_at(s, i + 1))),
    )
}

/// The parts of the first `n` stretches.
pub open spec fn parts_of(
    s: Seq<RetainedInterval>,
    tracks: Seq<Vec<SegmentSummary>>,
    start: int,
    end: int,
    n: nat,
) -> Seq<Part>
    decreases n,
{
    if n == 0 {
        Seq::empty()
    } else {
        let before = parts_of(s, tracks, start, end, (n - 1) as nat);
        let r = part_range(s, n - 1, start, end);
        if r.0 < r.1 {
            before.push(
                Part {
                    span: n - 1,
                    from: r.0,
                    to: r.1,
                    pieces: all_pieces(span_of(s, n - 1), tracks, r.0, r.1, tracks.len()),
                },
            )
        } else {
            before
        }
    }
}

/// Parts as what they hold.
pub open spec fn parts_view(v: Seq<MixPart>) -> Seq<Part> {
    v.map_values(|p: MixPart| p@)
}

/// The sound of an edit.
#[derive(Debug)]
pub struct AudioMixer {
    pub retained: Vec<RetainedInterval>,
    pub spans: Vec<Span>,
    pub tracks: Vec<Vec<SegmentSummary>>,
    pub total_frames: u64,
}

/// Whether a track holds sound.
pub open spec fn is_sound(t: TrackType) -> bool {
    t == TrackType::MicAudio || t == TrackType::SystemAudio
}

/// The segments of the first `n` tracks that hold sound.
pub open spec fn sound_tracks(tracks: Seq<(TrackSummary, Vec<SegmentSummary>)>, n: nat) -> Seq<
    Seq<SegmentSummary>,
>
    decreases n,
{
    if n == 0 {
        Seq::empty()
    } else {
        let before = sound_tracks(tracks, (n - 1) as nat);
        if is_sound(tracks[n - 1].0.descriptor.track_type) {
            before.push(tracks[n - 1].1@)
        } else {
            before
        }
    }
}

/// Segments of each track.
pub open spec fn segment_lists(v: Seq<Vec<SegmentSummary>>) -> Seq<Seq<SegmentSummary>> {
    v.map_values(|e: Vec<SegmentSummary>| e@)
}

/// Copies segments.
pub fn copy_segments(v: &Vec<SegmentSummary>) -> (r: Vec<SegmentSummary>)
    ensures
        r@ == v@,
{
    let mut out: Vec<SegmentSummary> = Vec::new();
    let mut i: usize = 0;
    while i < v.len()
        invariant
            i <= v@.len(),
            out@ == v@.take(i as int),
        decreases v@.len() - i,
    {
        out.push(v[i].clone());
        i = i + 1;
        assert(v@.take(i as int) =~= v@.take(i - 1).push(v@[i - 1]));
    }
    assert(v@.take(v@.len() as int) =~= v@);
    out
}

impl AudioMixer {
    /// The stretches are in order, and stand on the edited timeline.
    pub open spec fn wf(&self) -> bool {
        &&& timeline::ordered(self.retained@)
        &&& self.spans@.len() == self.retained@.len()
        &&& forall|i: int|
            0 <= i < self.spans@.len() ==> #[trigger] self.spans@[i] == span_of(self.retained@, i)
        &&& self.total_frames == timeline::total(self.retained@) * 48_000 / 1_000_000
    }

    /// The sound of an edit of these tracks.
    pub fn new(
        document: &EditDocument,
        tracks: &Vec<(TrackSummary, Vec<SegmentSummary>)>,
    ) -> (r: Result<AudioMixer, String>)
        ensures
            match r {
                Ok(m) => {
                    &&& timeline::retained_fault(document@.retained) is None
                    &&& m.wf()
                    &&& m.retained@ == document@.retained
                    &&& segment_lists(m.tracks@) == sound_tracks(tracks@, tracks@.len())
                },
                Err(e) => timeline::retained_fault(document@.retained) == Some(e@),
            },
    {
        let duration: u64 = match document.edited_duration_us() {
            Ok(d) => d,
            Err(e) => {
                return Err(e);
            },
        };
        let v: &Vec<RetainedInterval> = &document.retained_intervals;
        let ghost s = v@;
        proof {
            timeline::retainable_means_ordered(s);
            timeline::edited_duration_is_bounded(s);
            assert(s.take(0) =~= Seq::<RetainedInterval>::empty());
        }
        let mut spans: Vec<Span> = Vec::new();
        let mut cursor: u64 = 0;
        let mut i: usize = 0;
        while i < v.len()
            invariant
                i <= v@.len(),
                s == v@,
                timeline::ordered(s),
                cursor == edited_at(s, i as int),
                spans@.len() == i,
                forall|k: int| 0 <= k < i ==> #[trigger] spans@[k] == span_of(s, k),
            decreases v@.len() - i,
        {
            proof {
                lemma_edited_at(s, i as int);
            }
            let r: RetainedInterval = v[i];
            let end: u64 = cursor + (r.end_us - r.start_us);
            spans.push(
                Span {
                    edited_start: cursor,
                    edited_end: end,
                    source_start: r.start_us,
                    source_end: r.end_us,
                    fade_in: i > 0 && v[i - 1].end_us != r.start_us,
                    fade_out: i + 1 < v.len() && r.end_us != v[i + 1].start_us,
                },
            );
            cursor = end;
            i = i + 1;
        }
        let mut lists: Vec<Vec<SegmentSummary>> = Vec::new();
        let mut t: usize = 0;
        assert(segment_lists(lists@) =~= Seq::<Seq<SegmentSummary>>::empty());
        while t < tracks.len()
            invariant
                t <= tracks@.len(),
                segment_lists(lists@) == sound_tracks(tracks@, t as nat),
            decreases tracks@.len() - t,
        {
            let kind: TrackType = tracks[t].0.descriptor.track_type;
            if kind == TrackType::MicAudio || kind == TrackType::SystemAudio {
                let ghost before = segment_lists(lists@);
                lists.push(copy_segments(&tracks[t].1));
                assert(segment_lists(lists@) =~= before.push(tracks@[t as int].1@));
            }
            t = t + 1;
        }
        let total_frames: u64 = ((duration as u128) * 48_000 / 1_000_000) as u64;
        Ok(
            AudioMixer {
                retained: crate::project::revision::copy_intervals(v),
                spans,
                tracks: lists,
                total_frames,
            },
        )
    }

    /// Whether some segment can be heard.
    pub open spec fn audible(&self) -> bool {
        exists|t: int, i: int|
            0 <= t < self.tracks@.len() && 0 <= i < self.tracks@[t]@.len() && (
            #[trigger] self.tracks@[t]@[i]).available
    }

    /// Whether some segment can be heard.
    pub fn has_audio(&self) -> (r: bool)
        ensures
            r == self.audible(),
    {
        let mut t: usize = 0;
        while t < self.tracks.len()
            invariant
                t <= self.tracks@.len(),
                forall|a: int, i: int|
                    0 <= a < t && 0 <= i < self.tracks@[a]@.len() ==> !(
                    #[trigger] self.tracks@[a]@[i]).available,
            decreases self.tracks@.len() - t,
        {
            let v: &Vec<SegmentSummary> = &self.tracks[t];
            let mut i: usize = 0;
            while i < v.len()
                invariant
                    i <= v@.len(),
                    t < self.tracks@.len(),
                    v@ == self.tracks@[t as int]@,
                    forall|k: int|
                        0 <= k < i ==> !(#[trigger] self.tracks@[t as int]@[k]).available,
                decreases v@.len() - i,
            {
                if v[i].available {
                    assert(self.tracks@[t as int]@[i as int].available);
                    return true;
                }
                i = i + 1;
            }
            t = t + 1;
        }
        false
    }

    fn add_pieces(
        &self,
        span: &Span,
        track: usize,
        a: u64,
        b: u64,
        out: &mut Vec<MixPiece>,
    )
        requires
            track < self.tracks@.len(),
            span.source_start < span.source_end <= timeline::MAX_SAFE_TIME,
            span.edited_end <= timeline::MAX_SAFE_TIME,
            span.edited_start + (span.source_end - span.source_start) == span.edited_end,
        ensures
            final(out)@ == old(out)@ + track_pieces(
                *span,
                self.tracks@[track as int]@,
                track as int,
                a as int,
                b as int,
                self.tracks@[track as int]@.len(),
            ),
    {
        let v: &Vec<SegmentSummary> = &self.tracks[track];
        let mut i: usize = 0;
        assert(out@ + Seq::<MixPiece>::empty() =~= out@);
        while i < v.len()
            invariant
                i <= v@.len(),
                v@ == self.tracks@[track as int]@,
                span.source_start < span.source_end <= timeline::MAX_SAFE_TIME,
                span.edited_end <= timeline::MAX_SAFE_TIME,
                span.edited_start + (span.source_end - span.source_start) == span.edited_end,
                out@ == old(out)@ + track_pieces(
                    *span,
                    v@,
                    track as int,
                    a as int,
                    b as int,
                    i as nat,
                ),
            decreases v@.len() - i,
        {
            let ghost before = track_pieces(
                *span,
                v@,
                track as int,
                a as int,
                b as int,
                i as nat,
            );
            let s: &SegmentSummary = &v[i];
            let from: u64 = if span.source_start >= s.start_us {
                span.source_start
            } else {
                s.start_us
            };
            let to: u64 = if span.source_end <= s.end_us {
                span.source_end
            } else {
                s.end_us
            };
            if s.available && to > from {
                let first: u64 = ceil_frame(span.edited_start + (from - span.source_start));
                let last: u64 = ceil_frame(span.edited_start + (to - span.source_start));
                let lo: u64 = if a >= first {
                    a
                } else {
                    first
                };
                let hi: u64 = if b <= last {
                    b
                } else {
                    last
                };
                if lo < hi {
                    let piece = MixPiece { track, segment: i, from: lo, to: hi };
                    out.push(piece);
                    assert(out@ =~= old(out)@ + before.push(piece));
                }
            }
            i = i + 1;
        }
    }

    /// What is heard in at most `count` output frames from `start` on.
    pub fn plan_frames(&self, start: u64, count: usize) -> (r: Result<MixPlan, String>)
        requires
            self.wf(),
        ensures
            match r {
                Ok(plan) => {
                    &&& count <= CHUNK_FRAMES
                    &&& plan.frames == if start >= self.total_frames {
                        0
                    } else {
                        timeline::min(count as int, self.total_frames - start)
                    }
                    &&& parts_view(plan.parts@) == parts_of(
                        self.retained@,
                        self.tracks@,
                        start as int,
                        start + plan.frames,
                        self.retained@.len(),
                    )
                },
                Err(e) => count > CHUNK_FRAMES && e@ == "Audio request exceeds chunk limit"@,
            },
    {
        if count > CHUNK_FRAMES {
            return Err("Audio request exceeds chunk limit".to_owned());
        }
        let rest: u64 = if start >= self.total_frames {
            0
        } else {
            self.total_frames - start
        };
        let frames: usize = if (count as u64) <= rest {
            count
        } else {
            rest as usize
        };
        let end: u64 = start + (frames as u64);
        let mut parts: Vec<MixPart> = Vec::new();
        let ghost s = self.retained@;
        let mut i: usize = 0;
        assert(parts_view(parts@) =~= Seq::<Part>::empty());
        while i < self.spans.len()
            invariant
                i <= self.spans@.len(),
                self.wf(),
                s == self.retained@,
                end == start + frames,
                parts_view(parts@) == parts_of(
                    s,
                    self.tracks@,
                    start as int,
                    end as int,
                    i as nat,
                ),
            decreases self.spans@.len() - i,
        {
            proof {
                lemma_edited_at(s, i as int);
                assert(s[i as int].start_us < s[i as int].end_us <= timeline::MAX_SAFE_TIME);
            }
            let span: Span = self.spans[i];
            let first: u64 = ceil_frame(span.edited_start);
            let last: u64 = ceil_frame(span.edited_end);
            let a: u64 = if start >= first {
                start
            } else {
                first
            };
            let b: u64 = if end <= last {
                end
            } else {
                last
            };
            if a < b {
                let mut pieces: Vec<MixPiece> = Vec::new();
                let mut t: usize = 0;
                while t < self.tracks.len()
                    invariant
                        t <= self.tracks@.len(),
                        span.source_start < span.source_end <= timeline::MAX_SAFE_TIME,
                        span.edited_end <= timeline::MAX_SAFE_TIME,
                        span.edited_start + (span.source_end - span.source_start)
                            == span.edited_end,
                        pieces@ == all_pieces(
                            span,
                            self.tracks@,
                            a as int,
                            b as int,
                            t as nat,
                        ),
                    decreases self.tracks@.len() - t,
                {
                    self.add_pieces(&span, t, a, b, &mut pieces);
                    t = t + 1;
                }
                let ghost before = parts_view(parts@);
                let part = MixPart { span: i, from: a, to: b, pieces };
                parts.push(part);
                assert(parts_view(parts@) =~= before.push(part@));
            }
            i = i + 1;
        }
        Ok(MixPlan { frames, parts })
    }
}

/// In which frames a segment is heard does not depend on how they are asked for: a
/// frame of a chunk is in its piece exactly when the segment is heard in it at all.
pub proof fn pieces_do_not_depend_on_chunks(
    span: Span,
    s: SegmentSummary,
    a: int,
    b: int,
    frame: int,
)
    requires
        a <= frame < b,
    ensures
        (piece_of(span, s, a, b) matches Some(p) && p.0 <= frame < p.1) <==> heard_in(span, s).0
            <= frame < heard_in(span, s).1,
{
}

proof fn lemma_ceil_monotonic(x: int, y: int)
    requires
        x <= y,
    ensures
        ceil_frame_of(x) <= ceil_frame_of(y),
{
}

proof fn lemma_frame_has_span(s: Seq<RetainedInterval>, n: int, frame: int) -> (i: int)
    requires
        timeline::ordered(s),
        0 <= n <= s.len(),
        0 <= frame < ceil_frame_of(edited_at(s, n)),
    ensures
        0 <= i < n,
        ceil_frame_of(edited_at(s, i)) <= frame < ceil_frame_of(edited_at(s, i + 1)),
    decreases n,
{
    if n == 0 {
        assert(s.take(0) =~= Seq::<RetainedInterval>::empty());
        assert(false);
        0
    } else if frame >= ceil_frame_of(edited_at(s, n - 1)) {
        n - 1
    } else {
        lemma_frame_has_span(s, n - 1, frame)
    }
}

/// Every output frame belongs to a stretch.
pub proof fn every_frame_has_a_stretch(s: Seq<RetainedInterval>, frame: int) -> (i: int)
    requires
        timeline::ordered(s),
        0 <= frame < timeline::total(s) * 48_000 / 1_000_000,
    ensures
        0 <= i < s.len(),
        ceil_frame_of(edited_at(s, i)) <= frame < ceil_frame_of(edited_at(s, i + 1)),
{
    assert(s.take(s.len() as int) =~= s);
    lemma_frame_has_span(s, s.len() as int, frame)
}

/// No output frame belongs to two stretches.
pub proof fn no_frame_has_two_stretches(s: Seq<RetainedInterval>, frame: int, i: int, j: int)
    requires
        timeline::ordered(s),
        0 <= i < s.len(),
        0 <= j < s.len(),
        ceil_frame_of(edited_at(s, i)) <= frame < ceil_frame_of(edited_at(s, i + 1)),
        ceil_frame_of(edited_at(s, j)) <= frame < ceil_frame_of(edited_at(s, j + 1)),
    ensures
        i == j,
{
    if i < j {
        lemma_edited_grows(s, i + 1, j);
        lemma_ceil_monotonic(edited_at(s, i + 1), edited_at(s, j));
    } else if j < i {
        lemma_edited_grows(s, j + 1, i);
        lemma_ceil_monotonic(edited_at(s, j + 1), edited_at(s, i));
    }
}

proof fn lemma_edited_grows(s: Seq<RetainedInterval>, i: int, j: int)
    requires
        timeline::ordered(s),
        0 <= i <= j <= s.len(),
    ensures
        edited_at(s, i) <= edited_at(s, j),
    decreases j - i,
{
    if i < j {
        lemma_edited_grows(s, i, j - 1);
        lemma_edited_at(s, j - 1);
    }
}

/// Whether a frame lies in a piece of segment `k` of track `t`.
pub open spec fn heard_at(pieces: Seq<MixPiece>, t: int, k: int, frame: int) -> bool {
    exists|i: int|
        0 <= i < pieces.len() && (#[trigger] pieces[i]).track == t && pieces[i].segment == k
            && pieces[i].from <= frame < pieces[i].to
}

proof fn lemma_frame_time(us: int, frame: int)
    ensures
        ceil_frame_of(us) <= frame <==> us <= frame * 1_000_000 / 48_000,
{
}

proof fn lemma_track_pieces(
    span: Span,
    segments: Seq<SegmentSummary>,
    track: int,
    a: int,
    b: int,
    n: nat,
    t: int,
    k: int,
    frame: int,
)
    requires
        n <= segments.len() <= usize::MAX,
        0 <= track <= usize::MAX,
        span.edited_start <= timeline::MAX_SAFE_TIME,
        span.source_end <= timeline::MAX_SAFE_TIME,
        0 <= a <= frame < b <= u64::MAX,
    ensures
        heard_at(track_pieces(span, segments, track, a, b, n), t, k, frame) <==> t == track && 0
            <= k < n && heard_in(span, segments[k]).0 <= frame < heard_in(span, segments[k]).1,
    decreases n,
{
    let all = track_pieces(span, segments, track, a, b, n);
    if n > 0 {
        let before = track_pieces(span, segments, track, a, b, (n - 1) as nat);
        lemma_track_pieces(span, segments, track, a, b, (n - 1) as nat, t, k, frame);
        match piece_of(span, segments[n - 1], a, b) {
            Some(p) => {
                if heard_at(before, t, k, frame) {
                    let i = choose|i: int|
                        0 <= i < before.len() && (#[trigger] before[i]).track == t
                            && before[i].segment == k && before[i].from <= frame < before[i].to;
                    assert(all[i] == before[i]);
                }
                if heard_at(all, t, k, frame) {
                    let i = choose|i: int|
                        0 <= i < all.len() && (#[trigger] all[i]).track == t && all[i].segment == k
                            && all[i].from <= frame < all[i].to;
                    if i < before.len() {
                        assert(all[i] == before[i]);
                    }
                }
                assert(all[before.len() as int].segment == n - 1);
            },
            None => {},
        }
    }
}

proof fn lemma_all_pieces(
    span: Span,
    tracks: Seq<Vec<SegmentSummary>>,
    a: int,
    b: int,
    n: nat,
    t: int,
    k: int,
    frame: int,
)
    requires
        n <= tracks.len() <= usize::MAX,
        forall|i: int| 0 <= i < tracks.len() ==> (#[trigger] tracks[i])@.len() <= usize::MAX,
        span.edited_start <= timeline::MAX_SAFE_TIME,
        span.source_end <= timeline::MAX_SAFE_TIME,
        0 <= a <= frame < b <= u64::MAX,
    ensures
        heard_at(all_pieces(span, tracks, a, b, n), t, k, frame) <==> 0 <= t < n && 0 <= k
            < tracks[t]@.len() && heard_in(span, tracks[t]@[k]).0 <= frame < heard_in(
            span,
            tracks[t]@[k],
        ).1,
    decreases n,
{
    if n > 0 {
        let all = all_pieces(span, tracks, a, b, n);
        let before = all_pieces(span, tracks, a, b, (n - 1) as nat);
        let last = track_pieces(span, tracks[n - 1]@, n - 1, a, b, tracks[n - 1]@.len());
        lemma_all_pieces(span, tracks, a, b, (n - 1) as nat, t, k, frame);
        lemma_track_pieces(
            span,
            tracks[n - 1]@,
            n - 1,
            a,
            b,
            tracks[n - 1]@.len(),
            t,
            k,
            frame,
        );
        if heard_at(before, t, k, frame) {
            let i = choose|i: int|
                0 <= i < before.len() && (#[trigger] before[i]).track == t && before[i].segment == k
                    && before[i].from <= frame < before[i].to;
            assert(all[i] == before[i]);
        }
        if heard_at(last, t, k, frame) {
            let i = choose|i: int|
                0 <= i < last.len() && (#[trigger] last[i]).track == t && last[i].segment == k
                    && last[i].from <= frame < last[i].to;
            assert(all[i + before.len()] == last[i]);
        }
        if heard_at(all, t, k, frame) {
            let i = choose|i: int|
                0 <= i < all.len() && (#[trigger] all[i]).track == t && all[i].segment == k
                    && all[i].from <= frame < all[i].to;
            if i < before.len() {
                assert(all[i] == before[i]);
            } else {
                assert(all[i] == last[i - before.len()]);
            }
        }
    }
}

proof fn lemma_parts(
    s: Seq<RetainedInterval>,
    tracks: Seq<Vec<SegmentSummary>>,
    start: int,
    end: int,
    n: nat,
    i: int,
    frame: int,
) -> (p: int)
    requires
        timeline::ordered(s),
        0 <= i < n <= s.len(),
        start <= frame < end,
        ceil_frame_of(edited_at(s, i)) <= frame < ceil_frame_of(edited_at(s, i + 1)),
    ensures
        0 <= p < parts_of(s, tracks, start, end, n).len(),
        ({
            let part = parts_of(s, tracks, start, end, n)[p];
            let r = part_range(s, i, start, end);
            &&& part.span == i
            &&& part.from == r.0 <= frame < r.1 == part.to
            &&& part.pieces == all_pieces(span_of(s, i), tracks, r.0, r.1, tracks.len())
        }),
    decreases n,
{
    if i == n - 1 {
        parts_of(s, tracks, start, end, n).len() - 1
    } else {
        lemma_parts(s, tracks, start, end, (n - 1) as nat, i, frame)
    }
}

proof fn lemma_part(
    s: Seq<RetainedInterval>,
    tracks: Seq<Vec<SegmentSummary>>,
    start: int,
    end: int,
    n: nat,
    p: int,
)
    requires
        timeline::ordered(s),
        n <= s.len(),
        0 <= p < parts_of(s, tracks, start, end, n).len(),
    ensures
        ({
            let part = parts_of(s, tracks, start, end, n)[p];
            let r = part_range(s, part.span, start, end);
            &&& 0 <= part.span < n
            &&& part.from == r.0 < r.1 == part.to
            &&& part.pieces == all_pieces(span_of(s, part.span), tracks, r.0, r.1, tracks.len())
            &&& forall|q: int|
                0 <= q < p ==> (#[trigger] parts_of(s, tracks, start, end, n)[q]).span < part.span
        }),
    decreases n,
{
    if n > 0 {
        let before = parts_of(s, tracks, start, end, (n - 1) as nat);
        let all = parts_of(s, tracks, start, end, n);
        if p < before.len() {
            lemma_part(s, tracks, start, end, (n - 1) as nat, p);
            assert(all[p] == before[p]);
            assert forall|q: int| 0 <= q < p implies (#[trigger] all[q]).span < all[p].span by {
                assert(all[q] == before[q]);
            }
        } else {
            assert forall|q: int| 0 <= q < p implies (#[trigger] all[q]).span < all[p].span by {
                assert(all[q] == before[q]);
                lemma_part(s, tracks, start, end, (n - 1) as nat, q);
            }
        }
    }
}

/// A segment is heard exactly while it plays: each frame that is asked for, in time, lies in
/// one part of the plan, and in a piece of an available segment there just when the segment
/// holds the source time that plays at the frame's edited time. The part names the stretch
/// that holds this source time.
pub proof fn segments_are_heard_while_they_play(
    s: Seq<RetainedInterval>,
    tracks: Seq<Vec<SegmentSummary>>,
    start: int,
    end: int,
    frame: int,
    t: int,
    k: int,
) -> (p: int)
    requires
        timeline::ordered(s),
        tracks.len() <= usize::MAX,
        forall|i: int| 0 <= i < tracks.len() ==> (#[trigger] tracks[i])@.len() <= usize::MAX,
        0 <= t < tracks.len(),
        0 <= k < tracks[t]@.len(),
        0 <= start <= frame < end <= timeline::total(s) * 48_000 / 1_000_000,
    ensures
        ({
            let parts = parts_of(s, tracks, start, end, s.len());
            let segment = tracks[t]@[k];
            &&& 0 <= p < parts.len()
            &&& parts[p].from <= frame < parts[p].to
            &&& forall|q: int|
                0 <= q < parts.len() && q != p ==> !((#[trigger] parts[q]).from <= frame
                    < parts[q].to)
            &&& timeline::to_source(s, frame * 1_000_000 / 48_000) matches Some(x) && {
                &&& 0 <= parts[p].span < s.len()
                &&& s[parts[p].span].start_us <= x < s[parts[p].span].end_us
                &&& (exists|i: int|
                    0 <= i < parts[p].pieces.len() && (#[trigger] parts[p].pieces[i]).track == t
                        && parts[p].pieces[i].segment == k && parts[p].pieces[i].from <= frame
                        < parts[p].pieces[i].to) <==> segment.available && segment.start_us <= x
                    < segment.end_us
            }
        }),
{
    let e = frame * 1_000_000 / 48_000;
    let i = every_frame_has_a_stretch(s, frame);
    lemma_edited_at(s, i);
    lemma_frame_time(edited_at(s, i), frame);
    lemma_frame_time(edited_at(s, i + 1), frame);
    timeline::a_stretch_plays_behind_those_before(s, i, e - edited_at(s, i));
    let x = s[i].start_us + e - edited_at(s, i);
    let p = lemma_parts(s, tracks, start, end, s.len(), i, frame);
    let parts = parts_of(s, tracks, start, end, s.len());
    let span = span_of(s, i);
    let r = part_range(s, i, start, end);
    let segment = tracks[t]@[k];
    timeline::edited_duration_is_bounded(s);
    lemma_all_pieces(span, tracks, r.0, r.1, tracks.len(), t, k, frame);
    let from = timeline::max(span.source_start as int, segment.start_us as int);
    let to = timeline::min(span.source_end as int, segment.end_us as int);
    lemma_frame_time(span.edited_start + from - span.source_start, frame);
    lemma_frame_time(span.edited_start + to - span.source_start, frame);
    assert(heard_at(parts[p].pieces, t, k, frame) <==> segment.available && segment.start_us <= x
        < segment.end_us);
    assert forall|q: int| 0 <= q < parts.len() && q != p implies !((#[trigger] parts[q]).from
        <= frame < parts[q].to) by {
        lemma_part(s, tracks, start, end, s.len(), q);
        lemma_part(s, tracks, start, end, s.len(), p);
        if parts[q].from <= frame < parts[q].to {
            no_frame_has_two_stretches(s, frame, parts[q].span, i);
        }
    }
    p
}

/// Sound is faded in where the edit jumps in the source, and nowhere else: at the start of a
/// stretch whose first source time does not follow what plays just before it. It is faded
/// out where the next stretch fades in.
pub proof fn sound_fades_at_cuts(s: Seq<RetainedInterval>, i: int)
    requires
        timeline::ordered(s),
        0 <= i < s.len(),
    ensures
        ({
            let at = span_of(s, i).edited_start as int;
            &&& span_of(s, i).fade_in <==> at > 0 && timeline::to_source(s, at)
                != Some(timeline::to_source(s, at - 1).unwrap() + 1)
            &&& span_of(s, i).fade_out <==> i + 1 < s.len() && span_of(s, i + 1).fade_in
        }),
{
    lemma_edited_at(s, i);
    timeline::a_stretch_plays_behind_those_before(s, i, 0);
    if i > 0 {
        lemma_edited_at(s, i - 1);
        timeline::a_stretch_plays_behind_those_before(
            s,
            i - 1,
            s[i - 1].end_us - s[i - 1].start_us - 1,
        );
    } else {
        assert(s.take(0) =~= Seq::<RetainedInterval>::empty());
    }
}

/// On the edited timeline each stretch lasts as long as in the source, and starts where the
/// one before it ends.
pub proof fn stretches_follow_each_other(s: Seq<RetainedInterval>, i: int)
    requires
        timeline::ordered(s),
        0 <= i < s.len(),
    ensures
        span_of(s, i).edited_end - span_of(s, i).edited_start == s[i].end_us - s[i].start_us,
        span_of(s, i).source_start == s[i].start_us,
        span_of(s, i).source_end == s[i].end_us,
        i == 0 ==> span_of(s, i).edited_start == 0,
        i > 0 ==> span_of(s, i).edited_start == span_of(s, i - 1).edited_end,
        i == s.len() - 1 ==> span_of(s, i).edited_end == timeline::total(s),
{
    lemma_edited_at(s, i);
    assert(s.take(0) =~= Seq::<RetainedInterval>::empty());
    assert(s.take(s.len() as int) =~= s);
}

/// What is mixed are the tracks of microphone and system sound, all of them and no others.
pub proof fn only_sound_is_mixed(
    tracks: Seq<(TrackSummary, Vec<SegmentSummary>)>,
    n: nat,
    s: Seq<SegmentSummary>,
)
    requires
        n <= tracks.len(),
    ensures
        sound_tracks(tracks, n).contains(s) <==> exists|i: int|
            0 <= i < n && ((#[trigger] tracks[i]).0.descriptor.track_type == TrackType::MicAudio
                || tracks[i].0.descriptor.track_type == TrackType::SystemAudio) && tracks[i].1@ == s,
    decreases n,
{
    if n > 0 {
        only_sound_is_mixed(tracks, (n - 1) as nat, s);
        let before = sound_tracks(tracks, (n - 1) as nat);
        let all = sound_tracks(tracks, n);
        if before.contains(s) {
            let i = choose|i: int| 0 <= i < before.len() && before[i] == s;
            assert(all[i] == s);
        }
        if all.contains(s) {
            let i = choose|i: int| 0 <= i < all.len() && all[i] == s;
            if i < before.len() {
                assert(before[i] == s);
            } else {
                assert(tracks[n - 1].1@ == s);
            }
        }
        if is_sound(tracks[n - 1].0.descriptor.track_type) && tracks[n - 1].1@ == s {
            assert(all[all.len() - 1] == s);
        }
    }
}

} // verus!
