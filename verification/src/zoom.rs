//! Zoom keyframes of an edit. Positions and scales are double-precision bit
//! patterns.
use crate::paths;
use crate::sorting;
use crate::sorting::Ranked;
use crate::text;
use crate::timeline;
use crate::timeline::{RetainedInterval, TimelineMapper};
use vstd::prelude::*;

verus! {

/// How a keyframe came to be.
#[derive(Debug, Clone, Copy, PartialEq, Eq, Structural)]
pub enum ZoomSource {
    Generated,
    Manual,
}

/// How many keyframes, and how many dismissed suggestions, an edit may hold.
#[derive(Debug, Clone, Copy, PartialEq, Eq, Structural)]
pub struct ZoomLimits {
    pub max_zooms: usize,
    pub max_dismissed: usize,
}

/// A suggested zoom.
#[derive(Debug, PartialEq)]
pub struct ZoomSuggestion {
    pub id: String,
    pub source_start_us: u64,
    pub source_end_us: u64,
    pub center_x: u64,
    pub center_y: u64,
    pub scale: u64,
    pub transition_us: u64,
    pub origin: String,
    pub contributing_event_seqs: Vec<u64>,
    pub edited_ranges: Vec<(u64, u64)>,
}

/// A zoom of an edit.
#[derive(Debug, PartialEq)]
pub struct ZoomKeyframe {
    pub id: String,
    pub source_start_us: u64,
    pub source_end_us: u64,
    pub center_x: u64,
    pub center_y: u64,
    pub scale: u64,
    pub transition_us: u64,
    pub origin: String,
    pub contributing_event_seqs: Vec<u64>,
    pub source: ZoomSource,
    pub edited_ranges: Vec<(u64, u64)>,
}

/// What a suggestion or a keyframe says, but for how it came to be.
pub struct Zoom {
    pub id: Seq<char>,
    pub start: u64,
    pub end: u64,
    pub center_x: u64,
    pub center_y: u64,
    pub scale: u64,
    pub transition: u64,
    pub origin: Seq<char>,
    pub seqs: Seq<u64>,
    pub ranges: Seq<(u64, u64)>,
}

/// What a keyframe says.
pub struct Keyframe {
    pub zoom: Zoom,
    pub source: ZoomSource,
}

impl View for ZoomSuggestion {
    type V = Zoom;

    open spec fn view(&self) -> Zoom {
        Zoom {
            id: self.id@,
            start: self.source_start_us,
            end: self.source_end_us,
            center_x: self.center_x,
            center_y: self.center_y,
            scale: self.scale,
            transition: self.transition_us,
            origin: self.origin@,
            seqs: self.contributing_event_seqs@,
            ranges: self.edited_ranges@,
        }
    }
}

impl View for ZoomKeyframe {
    type V = Keyframe;

    open spec fn view(&self) -> Keyframe {
        Keyframe {
            zoom: Zoom {
                id: self.id@,
                start: self.source_start_us,
                end: self.source_end_us,
                center_x: self.center_x,
                center_y: self.center_y,
                scale: self.scale,
                transition: self.transition_us,
                origin: self.origin@,
                seqs: self.contributing_event_seqs@,
                ranges: self.edited_ranges@,
            },
            source: self.source,
        }
    }
}

/// Keyframes as what they say.
pub open spec fn keyframes(v: Seq<ZoomKeyframe>) -> Seq<Keyframe> {
    v.map_values(|z: ZoomKeyframe| z@)
}

/// Suggestions as what they say.
pub open spec fn suggestions(v: Seq<ZoomSuggestion>) -> Seq<Zoom> {
    v.map_values(|z: ZoomSuggestion| z@)
}

/// Whether a keyframe of `z` has the identifier `id`.
pub open spec fn has_zoom(z: Seq<Keyframe>, id: Seq<char>) -> bool {
    exists|i: int| 0 <= i < z.len() && (#[trigger] z[i]).zoom.id == id
}

fn copy_seqs(v: &Vec<u64>) -> (r: Vec<u64>)
    ensures
        r@ == v@,
{
    let mut out: Vec<u64> = Vec::new();
    let mut i: usize = 0;
    while i < v.len()
        invariant
            i <= v@.len(),
            out@ == v@.take(i as int),
        decreases v@.len() - i,
    {
        out.push(v[i]);
        i = i + 1;
        assert(v@.take(i as int) =~= v@.take(i - 1).push(v@[i - 1]));
    }
    assert(v@.take(v@.len() as int) =~= v@);
    out
}

fn copy_ranges(v: &Vec<(u64, u64)>) -> (r: Vec<(u64, u64)>)
    ensures
        r@ == v@,
{
    let mut out: Vec<(u64, u64)> = Vec::new();
    let mut i: usize = 0;
    while i < v.len()
        invariant
            i <= v@.len(),
            out@ == v@.take(i as int),
        decreases v@.len() - i,
    {
        out.push(v[i]);
        i = i + 1;
        assert(v@.take(i as int) =~= v@.take(i - 1).push(v@[i - 1]));
    }
    assert(v@.take(v@.len() as int) =~= v@);
    out
}

impl Clone for ZoomKeyframe {
    fn clone(&self) -> (r: Self)
        ensures
            r@ == self@,
    {
        ZoomKeyframe {
            id: self.id.clone(),
            source_start_us: self.source_start_us,
            source_end_us: self.source_end_us,
            center_x: self.center_x,
            center_y: self.center_y,
            scale: self.scale,
            transition_us: self.transition_us,
            origin: self.origin.clone(),
            contributing_event_seqs: copy_seqs(&self.contributing_event_seqs),
            source: self.source,
            edited_ranges: copy_ranges(&self.edited_ranges),
        }
    }
}

impl ZoomKeyframe {
    /// A keyframe of what a suggestion says.
    pub fn from_suggestion(suggestion: &ZoomSuggestion, source: ZoomSource) -> (r: ZoomKeyframe)
        ensures
            r@ == (Keyframe { zoom: suggestion@, source }),
    {
        ZoomKeyframe {
            id: suggestion.id.clone(),
            source_start_us: suggestion.source_start_us,
            source_end_us: suggestion.source_end_us,
            center_x: suggestion.center_x,
            center_y: suggestion.center_y,
            scale: suggestion.scale,
            transition_us: suggestion.transition_us,
            origin: suggestion.origin.clone(),
            contributing_event_seqs: copy_seqs(&suggestion.contributing_event_seqs),
            source,
            edited_ranges: copy_ranges(&suggestion.edited_ranges),
        }
    }

    /// What the keyframe says, as a suggestion.
    pub fn as_suggestion(&self) -> (r: ZoomSuggestion)
        ensures
            r@ == self@.zoom,
    {
        ZoomSuggestion {
            id: self.id.clone(),
            source_start_us: self.source_start_us,
            source_end_us: self.source_end_us,
            center_x: self.center_x,
            center_y: self.center_y,
            scale: self.scale,
            transition_us: self.transition_us,
            origin: self.origin.clone(),
            contributing_event_seqs: copy_seqs(&self.contributing_event_seqs),
            edited_ranges: copy_ranges(&self.edited_ranges),
        }
    }
}

/// Copies keyframes.
pub fn copy_keyframes(v: &Vec<ZoomKeyframe>) -> (r: Vec<ZoomKeyframe>)
    ensures
        keyframes(r@) == keyframes(v@),
{
    let mut out: Vec<ZoomKeyframe> = Vec::new();
    let mut i: usize = 0;
    while i < v.len()
        invariant
            i <= v@.len(),
            keyframes(out@) == keyframes(v@).take(i as int),
        decreases v@.len() - i,
    {
        let ghost before = keyframes(out@);
        out.push(v[i].clone());
        i = i + 1;
        assert(keyframes(out@) =~= before.push(v@[i - 1]@));
        assert(keyframes(v@).take(i as int) =~= before.push(v@[i - 1]@));
    }
    assert(keyframes(v@).take(v@.len() as int) =~= keyframes(v@));
    out
}

/// Keyframes are ordered by their start in the source, then by their identifier.
impl Ranked for ZoomKeyframe {
    open spec fn le(self, other: Self) -> bool {
        self.source_start_us < other.source_start_us || (self.source_start_us
            == other.source_start_us && text::lex_le(self.id@, other.id@))
    }

    fn comes_before(&self, other: &Self) -> (r: bool) {
        !(other.source_start_us < self.source_start_us || (other.source_start_us
            == self.source_start_us && text::str_le(other.id.as_str(), self.id.as_str())))
    }

    proof fn le_total(a: Self, b: Self) {
        text::lex_le_is_total(a.id@, b.id@);
    }

    proof fn le_transitive(a: Self, b: Self, c: Self) {
        if a.source_start_us == b.source_start_us && b.source_start_us == c.source_start_us {
            text::lex_le_is_transitive(a.id@, b.id@, c.id@);
        }
    }
}

/// Whether a keyframe comes no later than another.
pub open spec fn keyframe_le(a: Keyframe, b: Keyframe) -> bool {
    a.zoom.start < b.zoom.start || (a.zoom.start == b.zoom.start && text::lex_le(
        a.zoom.id,
        b.zoom.id,
    ))
}

/// Whether `p` lists every position of `z` once, in the order of the keyframes
/// there, and those of equal ones in their own order.
pub open spec fn keyframe_order(z: Seq<Keyframe>, p: Seq<int>) -> bool {
    &&& p.len() == z.len()
    &&& forall|i: int| 0 <= i < p.len() ==> 0 <= #[trigger] p[i] < z.len()
    &&& forall|i: int, j: int|
        0 <= i < j < p.len() ==> #[trigger] p[i] != #[trigger] p[j] && keyframe_le(z[p[i]], z[p[j]])
            && (keyframe_le(z[p[j]], z[p[i]]) ==> p[i] < p[j])
}

/// Whether `out` holds the keyframes of `z` in their order, equal ones as they were.
pub open spec fn sorted_keyframes(z: Seq<Keyframe>, out: Seq<Keyframe>) -> bool {
    exists|p: Seq<int>| keyframe_order(z, p) && out == #[trigger] sorting::gather(z, p)
}

/// Sorts keyframes.
pub fn sort_keyframes(v: Vec<ZoomKeyframe>) -> (r: Vec<ZoomKeyframe>)
    ensures
        sorted_keyframes(keyframes(v@), keyframes(r@)),
{
    let ghost s = v@;
    let r = sorting::sort_stable(v);
    proof {
        let p = choose|p: Seq<int>|
            sorting::stable_order(s, p) && r@ == #[trigger] sorting::gather(s, p);
        let z = keyframes(s);
        assert forall|i: int, j: int| 0 <= i < j < p.len() implies #[trigger] p[i]
            != #[trigger] p[j] && keyframe_le(z[p[i]], z[p[j]]) && (keyframe_le(z[p[j]], z[p[i]])
            ==> p[i] < p[j]) by {
            assert(sorting::may_precede(s, p[i], p[j]));
        }
        assert(keyframe_order(z, p));
        assert(keyframes(r@) =~= sorting::gather(z, p));
    }
    r
}

/// A keyframe with the edited ranges in which it plays.
pub open spec fn attached(k: Keyframe, retained: Seq<RetainedInterval>, out: Keyframe) -> bool {
    &&& out == (Keyframe { zoom: Zoom { ranges: out.zoom.ranges, ..k.zoom }, ..k })
    &&& timeline::pairs(out.zoom.ranges) == timeline::edited_ranges(
        retained,
        0,
        k.zoom.start as int,
        k.zoom.end as int,
    )
}

/// Keyframes with the edited ranges in which they play.
pub open spec fn all_attached(
    z: Seq<Keyframe>,
    retained: Seq<RetainedInterval>,
    out: Seq<Keyframe>,
) -> bool {
    &&& out.len() == z.len()
    &&& forall|i: int| 0 <= i < z.len() ==> attached(z[i], retained, #[trigger] out[i])
}

/// Gives each keyframe the edited ranges in which it plays.
pub fn attach_zoom_edited_ranges(
    zooms: &Vec<ZoomKeyframe>,
    mapper: &TimelineMapper,
) -> (r: Vec<ZoomKeyframe>)
    requires
        mapper.wf(),
    ensures
        all_attached(keyframes(zooms@), mapper@, keyframes(r@)),
{
    let mut out: Vec<ZoomKeyframe> = Vec::new();
    let mut i: usize = 0;
    while i < zooms.len()
        invariant
            i <= zooms@.len(),
            out@.len() == i,
            mapper.wf(),
            forall|k: int|
                0 <= k < i ==> attached(zooms@[k]@, mapper@, #[trigger] keyframes(out@)[k]),
        decreases zooms@.len() - i,
    {
        let mut z: ZoomKeyframe = zooms[i].clone();
        z.edited_ranges = mapper.source_range_to_edited(z.source_start_us, z.source_end_us);
        let ghost before = keyframes(out@);
        let ghost k = z@;
        out.push(z);
        assert(keyframes(out@) =~= before.push(k));
        i = i + 1;
    }
    assert forall|k: int| 0 <= k < zooms@.len() implies attached(
        keyframes(zooms@)[k],
        mapper@,
        #[trigger] keyframes(out@)[k],
    ) by {}
    out
}

/// Whether some keyframe has the identifier `id`.
pub fn contains_zoom(zooms: &Vec<ZoomKeyframe>, id: &str) -> (r: bool)
    ensures
        r == has_zoom(keyframes(zooms@), id@),
{
    let mut i: usize = 0;
    while i < zooms.len()
        invariant
            i <= zooms@.len(),
            forall|k: int| 0 <= k < i ==> (#[trigger] keyframes(zooms@)[k]).zoom.id != id@,
        decreases zooms@.len() - i,
    {
        assert(keyframes(zooms@)[i as int] == zooms@[i as int]@);
        if text::str_eq(zooms[i].id.as_str(), id) {
            return true;
        }
        i = i + 1;
    }
    false
}

/// Whether `id` is one of the texts.
pub fn contains_text(v: &Vec<String>, id: &str) -> (r: bool)
    ensures
        r == paths::texts(v@).contains(id@),
{
    let mut i: usize = 0;
    while i < v.len()
        invariant
            i <= v@.len(),
            forall|k: int| 0 <= k < i ==> #[trigger] paths::texts(v@)[k] != id@,
        decreases v@.len() - i,
    {
        assert(paths::texts(v@)[i as int] == v@[i as int]@);
        if text::str_eq(v[i].as_str(), id) {
            return true;
        }
        i = i + 1;
    }
    false
}

} // verus!
