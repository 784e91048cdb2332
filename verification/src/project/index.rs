//! Building the index of a project: which segments its tracks have, which of them
//! can be used, and which stretches of the source were recorded.
use crate::paths;
use crate::paths::{is_safe_track_id, safe_path, segment_belongs_to_track, PathProbe};
use crate::project::journal::JournalRecord;
use crate::project::manifest;
use crate::project::manifest::{PauseInterval, ProjectManifest, TrackDescriptor};
use crate::project::reader;
use crate::project::reader::{
    record_segment,
    SegmentSummary,
    MAX_DIAGNOSTICS,
    MAX_PAUSES,
    MAX_TRACKS,
};
use crate::sorting;
use crate::text;
use crate::timeline;
use crate::timeline::{RetainedInterval, MAX_SAFE_TIME};
use vstd::prelude::*;
use vstd::string::*;

verus! {

/// What has been found in a project so far: the segments of each track, how long
/// the source is, the number of the last record, and what is to be told.
pub struct Index {
    pub entries: Seq<Seq<SegmentSummary>>,
    pub duration: u64,
    pub last_seq: Option<u64>,
    pub notes: Seq<Seq<char>>,
}

/// Segments of each track.
pub open spec fn lists(v: Seq<Vec<SegmentSummary>>) -> Seq<Seq<SegmentSummary>> {
    v.map_values(|e: Vec<SegmentSummary>| e@)
}

/// `notes` and one more, as long as there is room.
pub open spec fn noted(notes: Seq<Seq<char>>, note: Seq<char>) -> Seq<Seq<char>> {
    if notes.len() < MAX_DIAGNOSTICS {
        notes.push(note)
    } else {
        notes
    }
}

/// Adds a note, as long as there is room.
pub fn add_note(notes: &mut Vec<String>, note: String)
    ensures
        paths::texts(final(notes)@) == noted(paths::texts(old(notes)@), note@),
{
    let ghost before = paths::texts(notes@);
    assert(before.len() == notes@.len());
    if notes.len() < MAX_DIAGNOSTICS {
        notes.push(note);
        assert(paths::texts(notes@) =~= before.push(note@));
    }
}

/// The position of a track.
pub fn track_index(tracks: &Vec<TrackDescriptor>, id: &str) -> (r: Option<usize>)
    ensures
        match r {
            Some(i) => i < tracks@.len() && manifest::find_track(tracks@, id@, 0) == Some(i as int),
            None => manifest::find_track(tracks@, id@, 0) is None,
        },
{
    let mut i: usize = 0;
    while i < tracks.len()
        invariant
            i <= tracks@.len(),
            manifest::find_track(tracks@, id@, 0) == manifest::find_track(tracks@, id@, i as int),
        decreases tracks@.len() - i,
    {
        if text::str_eq(tracks[i].id.as_str(), id) {
            return Some(i);
        }
        i = i + 1;
    }
    None
}

/// Why the tracks from `i` on cannot be indexed; `None` when they can.
pub open spec fn tracks_fault(
    tracks: Seq<TrackDescriptor>,
    probes: Seq<Vec<PathProbe>>,
    i: int,
) -> Option<Seq<char>>
    decreases tracks.len() - i,
{
    if i >= tracks.len() {
        None
    } else if !paths::safe_id(tracks[i].id@) {
        Some("Invalid track ID"@)
    } else if paths::path_fault(tracks[i].relative_path@, probes[i]@) is Some {
        paths::path_fault(tracks[i].relative_path@, probes[i]@)
    } else if manifest::find_track(tracks, tracks[i].id@, 0) != Some(i) {
        Some("Duplicate or empty track ID"@)
    } else {
        tracks_fault(tracks, probes, i + 1)
    }
}

/// Why a manifest cannot be indexed; `None` when it can.
pub open spec fn manifest_fault(m: ProjectManifest, probes: Seq<Vec<PathProbe>>) -> Option<
    Seq<char>,
> {
    if m.fault() is Some {
        Some(m.fault().unwrap().text())
    } else if m.tracks@.len() > MAX_TRACKS || m.pause_intervals@.len() > MAX_PAUSES || m.duration_us
        > MAX_SAFE_TIME {
        Some("Project exceeds metadata limits"@)
    } else {
        tracks_fault(m.tracks@, probes, 0)
    }
}

/// Whether every path of the tracks has been looked at.
pub open spec fn probed(tracks: Seq<TrackDescriptor>, probes: Seq<Vec<PathProbe>>) -> bool {
    &&& tracks.len() <= probes.len()
    &&& forall|i: int|
        0 <= i < tracks.len() ==> paths::parts((#[trigger] tracks[i]).relative_path@).len()
            <= probes[i]@.len()
}

/// Whether some segment has the given path.
pub open spec fn known_path(entries: Seq<Seq<SegmentSummary>>, path: Seq<char>) -> bool {
    exists|t: int, i: int|
        0 <= t < entries.len() && 0 <= i < entries[t].len() && (
        #[trigger] entries[t][i]).relative_path@ == path
}

/// Why a segment cannot be taken in; `None` when it can.
pub open spec fn segment_fault(
    tracks: Seq<TrackDescriptor>,
    entries: Seq<Seq<SegmentSummary>>,
    s: SegmentSummary,
    probes: Seq<PathProbe>,
) -> Option<Seq<char>> {
    if paths::path_fault(s.relative_path@, probes) is Some {
        paths::path_fault(s.relative_path@, probes)
    } else if manifest::find_track(tracks, s.track_id@, 0) is None {
        Some("Segment references unknown track"@)
    } else if paths::belonging_fault(s.track_id@, s.relative_path@) is Some {
        paths::belonging_fault(s.track_id@, s.relative_path@)
    } else if s.start_us >= s.end_us || s.end_us > MAX_SAFE_TIME {
        Some("Invalid segment time interval"@)
    } else if known_path(entries, s.relative_path@) {
        Some("Conflicting duplicate segment: "@ + s.relative_path@)
    } else {
        None
    }
}

/// A segment as it was found: it can be used when its file is there, not empty, and
/// of the committed size.
pub open spec fn as_found(s: SegmentSummary, found: Option<u64>) -> SegmentSummary {
    SegmentSummary { available: found == Some(s.size_bytes) && s.size_bytes > 0, ..s }
}

/// The index after a segment.
pub open spec fn with_segment(
    ix: Index,
    track: int,
    s: SegmentSummary,
    found: Option<u64>,
) -> Index {
    Index {
        entries: ix.entries.update(track, ix.entries[track].push(as_found(s, found))),
        duration: if s.end_us > ix.duration {
            s.end_us
        } else {
            ix.duration
        },
        notes: if as_found(s, found).available {
            ix.notes
        } else {
            noted(ix.notes, "Missing or size-mismatched media: "@ + s.relative_path@)
        },
        ..ix
    }
}

/// The index after a record of the journal, or why it cannot be taken in. A file of
/// `found` bytes stands where the record's segment should.
pub open spec fn with_record(
    tracks: Seq<TrackDescriptor>,
    ix: Index,
    record: JournalRecord,
    probes: Seq<PathProbe>,
    found: Option<u64>,
) -> Result<Index, Seq<char>> {
    let next = Index { last_seq: Some(record.number()), ..ix };
    if ix.last_seq is Some && record.number() <= ix.last_seq.unwrap() {
        Err("Journal sequence is not increasing"@)
    } else {
        match reader::segment_of(record) {
            None => Ok(next),
            Some(s) => match segment_fault(tracks, ix.entries, s, probes) {
                Some(e) => Err(e),
                None => Ok(
                    with_segment(
                        next,
                        manifest::find_track(tracks, s.track_id@, 0).unwrap(),
                        s,
                        found,
                    ),
                ),
            },
        }
    }
}

/// The index of a project while its journal is read.
#[derive(Debug)]
pub struct ProjectIndex {
    pub manifest: ProjectManifest,
    pub entries: Vec<Vec<SegmentSummary>>,
    pub duration: u64,
    pub last_seq: Option<u64>,
    pub diagnostics: Vec<String>,
}

impl View for ProjectIndex {
    type V = Index;

    open spec fn view(&self) -> Index {
        Index {
            entries: lists(self.entries@),
            duration: self.duration,
            last_seq: self.last_seq,
            notes: paths::texts(self.diagnostics@),
        }
    }
}

fn has_path(entries: &Vec<Vec<SegmentSummary>>, path: &str) -> (r: bool)
    ensures
        r == known_path(lists(entries@), path@),
{
    let ghost l = lists(entries@);
    let mut t: usize = 0;
    while t < entries.len()
        invariant
            t <= entries@.len(),
            l == lists(entries@),
            forall|a: int, i: int|
                0 <= a < t && 0 <= i < l[a].len() ==> (#[trigger] l[a][i]).relative_path@ != path@,
        decreases entries@.len() - t,
    {
        let e: &Vec<SegmentSummary> = &entries[t];
        assert(l[t as int] == e@);
        let mut i: usize = 0;
        while i < e.len()
            invariant
                i <= e@.len(),
                t < entries@.len(),
                l == lists(entries@),
                l[t as int] == e@,
                forall|k: int| 0 <= k < i ==> (#[trigger] l[t as int][k]).relative_path@ != path@,
            decreases e@.len() - i,
        {
            if text::str_eq(e[i].relative_path.as_str(), path) {
                assert(l[t as int][i as int].relative_path@ == path@);
                return true;
            }
            i = i + 1;
        }
        t = t + 1;
    }
    false
}

/// Checks that a manifest can be indexed.
pub fn check_manifest(m: &ProjectManifest, probes: &Vec<Vec<PathProbe>>) -> (r: Result<(), String>)
    requires
        probed(m.tracks@, probes@),
    ensures
        match r {
            Ok(()) => manifest_fault(*m, probes@) is None,
            Err(e) => manifest_fault(*m, probes@) == Some(e@),
        },
{
    match m.validate() {
        Ok(()) => {},
        Err(e) => {
            return Err(e.message());
        },
    }
    if m.tracks.len() > MAX_TRACKS || m.pause_intervals.len() > MAX_PAUSES || m.duration_us
        > MAX_SAFE_TIME {
        return Err("Project exceeds metadata limits".to_owned());
    }
    let mut i: usize = 0;
    while i < m.tracks.len()
        invariant
            i <= m.tracks@.len(),
            probed(m.tracks@, probes@),
            manifest_fault(*m, probes@) == tracks_fault(m.tracks@, probes@, i as int),
        decreases m.tracks@.len() - i,
    {
        let track: &TrackDescriptor = &m.tracks[i];
        if !is_safe_track_id(track.id.as_str()) {
            return Err("Invalid track ID".to_owned());
        }
        match safe_path(track.relative_path.as_str(), &probes[i]) {
            Ok(()) => {},
            Err(e) => {
                return Err(e);
            },
        }
        let first: bool = match track_index(&m.tracks, track.id.as_str()) {
            Some(k) => k == i,
            None => false,
        };
        if !first {
            return Err("Duplicate or empty track ID".to_owned());
        }
        i = i + 1;
    }
    Ok(())
}

impl ProjectIndex {
    /// There is a list of segments for each track, and the duration is one that times can
    /// reach.
    pub open spec fn wf(&self) -> bool {
        &&& self.entries@.len() == self.manifest.tracks@.len()
        &&& self.duration <= MAX_SAFE_TIME
    }

    /// The index of a manifest, without segments.
    pub fn begin(manifest: ProjectManifest, probes: &Vec<Vec<PathProbe>>) -> (r: Result<
        ProjectIndex,
        String,
    >)
        requires
            probed(manifest.tracks@, probes@),
        ensures
            match r {
                Ok(ix) => {
                    &&& manifest_fault(manifest, probes@) is None
                    &&& ix.wf()
                    &&& ix.manifest == manifest
                    &&& ix@ == (Index {
                        entries: Seq::new(
                            manifest.tracks@.len(),
                            |i: int| Seq::<SegmentSummary>::empty(),
                        ),
                        duration: manifest.duration_us,
                        last_seq: None,
                        notes: Seq::empty(),
                    })
                },
                Err(e) => manifest_fault(manifest, probes@) == Some(e@),
            },
    {
        match check_manifest(&manifest, probes) {
            Ok(()) => {},
            Err(e) => {
                return Err(e);
            },
        }
        let mut entries: Vec<Vec<SegmentSummary>> = Vec::new();
        let mut i: usize = 0;
        while i < manifest.tracks.len()
            invariant
                i <= manifest.tracks@.len(),
                entries@.len() == i,
                forall|k: int|
                    0 <= k < i ==> (#[trigger] entries@[k])@ == Seq::<SegmentSummary>::empty(),
            decreases manifest.tracks@.len() - i,
        {
            entries.push(Vec::new());
            i = i + 1;
        }
        let duration: u64 = manifest.duration_us;
        let ix = ProjectIndex {
            manifest,
            entries,
            duration,
            last_seq: None,
            diagnostics: Vec::new(),
        };
        assert(ix@.entries =~= Seq::new(
            manifest.tracks@.len(),
            |i: int| Seq::<SegmentSummary>::empty(),
        ));
        assert(ix@.notes =~= Seq::<Seq<char>>::empty());
        Ok(ix)
    }

    /// Notes that the journal's last line was cut off.
    pub fn journal_incomplete(&mut self)
        requires
            old(self).wf(),
        ensures
            final(self).wf(),
            final(self).manifest == old(self).manifest,
            final(self)@ == (Index {
                notes: old(self)@.notes.push(
                    "Incomplete final journal line ignored; source was not repaired"@,
                ),
                ..old(self)@
            }),
    {
        let ghost before = self@.notes;
        self.diagnostics.push(
            "Incomplete final journal line ignored; source was not repaired".to_owned(),
        );
        assert(self@.notes =~= before.push(
            "Incomplete final journal line ignored; source was not repaired"@,
        ));
    }

    /// Notes that there is no journal.
    pub fn journal_missing(&mut self)
        requires
            old(self).wf(),
        ensures
            final(self).wf(),
            final(self).manifest == old(self).manifest,
            final(self)@ == (Index {
                notes: old(self)@.notes.push("No journal found; no committed media indexed"@),
                ..old(self)@
            }),
    {
        let ghost before = self@.notes;
        self.diagnostics.push("No journal found; no committed media indexed".to_owned());
        assert(self@.notes =~= before.push("No journal found; no committed media indexed"@));
    }

    /// Takes a record of the journal in. A file of `found` bytes stands where the
    /// record's segment should.
    pub fn add_record(
        &mut self,
        record: &JournalRecord,
        probes: &Vec<PathProbe>,
        found: Option<u64>,
    ) -> (r: Result<(), String>)
        requires
            old(self).wf(),
            reader::segment_of(*record) matches Some(s) ==> paths::parts(s.relative_path@).len()
                <= probes@.len(),
        ensures
            final(self).wf(),
            final(self).manifest == old(self).manifest,
            ({
                let next = with_record(
                    old(self).manifest.tracks@,
                    old(self)@,
                    *record,
                    probes@,
                    found,
                );
                match r {
                    Ok(()) => next == Ok::<Index, Seq<char>>(final(self)@),
                    Err(e) => next == Err::<Index, Seq<char>>(e@),
                }
            }),
    {
        let ghost before = self@;
        let seq: u64 = record.seq();
        match self.last_seq {
            Some(last) => {
                if seq <= last {
                    return Err("Journal sequence is not increasing".to_owned());
                }
            },
            None => {},
        }
        self.last_seq = Some(seq);
        let mut segment: SegmentSummary = match record_segment(record) {
            None => {
                return Ok(());
            },
            Some(s) => s,
        };
        let ghost s = segment;
        match safe_path(segment.relative_path.as_str(), probes) {
            Ok(()) => {},
            Err(e) => {
                return Err(e);
            },
        }
        let track: usize = match track_index(&self.manifest.tracks, segment.track_id.as_str()) {
            Some(t) => t,
            None => {
                return Err("Segment references unknown track".to_owned());
            },
        };
        match segment_belongs_to_track(segment.track_id.as_str(), segment.relative_path.as_str()) {
            Ok(()) => {},
            Err(e) => {
                return Err(e);
            },
        }
        if segment.start_us >= segment.end_us || segment.end_us > MAX_SAFE_TIME {
            return Err("Invalid segment time interval".to_owned());
        }
        if has_path(&self.entries, segment.relative_path.as_str()) {
            let mut t: String = "Conflicting duplicate segment: ".to_owned();
            t.append(segment.relative_path.as_str());
            return Err(t);
        }
        if segment.end_us > self.duration {
            self.duration = segment.end_us;
        }
        segment.available = match found {
            Some(len) => len == segment.size_bytes && len > 0,
            None => false,
        };
        assert(segment == as_found(s, found));
        if !segment.available {
            let mut t: String = "Missing or size-mismatched media: ".to_owned();
            t.append(segment.relative_path.as_str());
            add_note(&mut self.diagnostics, t);
        }
        let ghost lists_before = lists(self.entries@);
        self.entries[track].push(segment);
        assert(lists(self.entries@) =~= lists_before.update(
            track as int,
            lists_before[track as int].push(segment),
        ));
        Ok(())
    }
}

/// `e` with segment `k` out of use.
pub open spec fn lost(e: Seq<SegmentSummary>, k: int) -> Seq<SegmentSummary> {
    e.update(k, SegmentSummary { available: false, ..e[k] })
}

/// The segments `e`, and the notes, after those from `i` on have been held against
/// the one before that ends last, `top`, at `top_end`. Where two overlap, both are
/// out of use.
pub open spec fn marked(
    e: Seq<SegmentSummary>,
    i: int,
    top_end: u64,
    top: int,
    notes: Seq<Seq<char>>,
) -> (Seq<SegmentSummary>, Seq<Seq<char>>)
    decreases e.len() - i,
{
    if i < 0 || i >= e.len() || top < 0 || top >= e.len() {
        (e, notes)
    } else {
        let hit = e[i].start_us < top_end;
        let e1 = if hit {
            lost(lost(e, i), top)
        } else {
            e
        };
        let n1 = if hit {
            noted(notes, "Overlapping segment: "@ + e[i].relative_path@)
        } else {
            notes
        };
        if e[i].end_us > top_end {
            marked(e1, i + 1, e[i].end_us, i, n1)
        } else {
            marked(e1, i + 1, top_end, top, n1)
        }
    }
}

/// The segments of every track from `t` on, with those that overlap out of use, and
/// the notes.
pub open spec fn all_marked(
    entries: Seq<Seq<SegmentSummary>>,
    t: int,
    notes: Seq<Seq<char>>,
) -> (Seq<Seq<SegmentSummary>>, Seq<Seq<char>>)
    decreases entries.len() - t,
{
    if t < 0 || t >= entries.len() {
        (entries, notes)
    } else {
        let m = marked(entries[t], 0, 0, 0, notes);
        all_marked(entries.update(t, m.0), t + 1, m.1)
    }
}

/// The number of segments that can be used.
pub open spec fn usable(e: Seq<SegmentSummary>) -> nat
    decreases e.len(),
{
    if e.len() == 0 {
        0
    } else {
        usable(e.drop_last()) + if e.last().available {
            1nat
        } else {
            0
        }
    }
}

/// Whether each list of `out` is one of `entries` in order.
pub open spec fn all_sorted(
    entries: Seq<Seq<SegmentSummary>>,
    out: Seq<Seq<SegmentSummary>>,
) -> bool {
    &&& out.len() == entries.len()
    &&& forall|t: int|
        0 <= t < entries.len() ==> sorting::is_sorting_of(entries[t], #[trigger] out[t])
}

/// Sorts the segments of each track.
pub fn sort_all(entries: Vec<Vec<SegmentSummary>>) -> (out: Vec<Vec<SegmentSummary>>)
    ensures
        all_sorted(lists(entries@), lists(out@)),
{
    let ghost l = lists(entries@);
    let mut left: Vec<Vec<SegmentSummary>> = entries;
    let mut out: Vec<Vec<SegmentSummary>> = Vec::new();
    assert(entries@.skip(0) =~= entries@);
    while left.len() > 0
        invariant
            left@ == entries@.skip(out@.len() as int),
            out@.len() <= entries@.len(),
            l == lists(entries@),
            forall|t: int|
                0 <= t < out@.len() ==> sorting::is_sorting_of(l[t], #[trigger] lists(out@)[t]),
        decreases left@.len(),
    {
        let ghost n = out@.len() as int;
        let e: Vec<SegmentSummary> = left.remove(0);
        assert(e@ == l[n]);
        let sorted: Vec<SegmentSummary> = sorting::sort_stable(e);
        let ghost before = lists(out@);
        out.push(sorted);
        assert(lists(out@) =~= before.push(sorted@));
        assert(left@ =~= entries@.skip(n + 1));
    }
    out
}

fn mark_overlaps(e: Vec<SegmentSummary>, notes: &mut Vec<String>) -> (out: Vec<SegmentSummary>)
    ensures
        (out@, paths::texts(final(notes)@)) == marked(e@, 0, 0, 0, paths::texts(old(notes)@)),
{
    let ghost start = marked(e@, 0, 0, 0, paths::texts(notes@));
    let mut v: Vec<SegmentSummary> = e;
    let mut top_end: u64 = 0;
    let mut top: usize = 0;
    let mut i: usize = 0;
    while i < v.len()
        invariant
            i <= v@.len(),
            top <= i,
            i == 0 ==> top_end == 0,
            start == marked(e@, 0, 0, 0, paths::texts(old(notes)@)),
            start == marked(v@, i as int, top_end, top as int, paths::texts(notes@)),
        decreases v@.len() - i,
    {
        let start_us: u64 = v[i].start_us;
        let end_us: u64 = v[i].end_us;
        if start_us < top_end {
            let mut t: String = "Overlapping segment: ".to_owned();
            t.append(v[i].relative_path.as_str());
            add_note(notes, t);
            let mut a: SegmentSummary = v[i].clone();
            a.available = false;
            v.set(i, a);
            let mut b: SegmentSummary = v[top].clone();
            b.available = false;
            v.set(top, b);
        }
        if end_us > top_end {
            top_end = end_us;
            top = i;
        }
        i = i + 1;
    }
    v
}

/// Puts the segments of each track that overlap out of use.
pub fn mark_all(entries: Vec<Vec<SegmentSummary>>, notes: &mut Vec<String>) -> (out: Vec<
    Vec<SegmentSummary>,
>)
    ensures
        (lists(out@), paths::texts(final(notes)@)) == all_marked(
            lists(entries@),
            0,
            paths::texts(old(notes)@),
        ),
{
    let ghost l = lists(entries@);
    let ghost start = all_marked(l, 0, paths::texts(notes@));
    let mut left: Vec<Vec<SegmentSummary>> = entries;
    let mut out: Vec<Vec<SegmentSummary>> = Vec::new();
    assert(entries@.skip(0) =~= entries@);
    assert(lists(out@) + l.skip(0) =~= l);
    while left.len() > 0
        invariant
            left@ == entries@.skip(out@.len() as int),
            out@.len() <= entries@.len(),
            l == lists(entries@),
            start == all_marked(l, 0, paths::texts(old(notes)@)),
            start == all_marked(
                lists(out@) + l.skip(out@.len() as int),
                out@.len() as int,
                paths::texts(notes@),
            ),
        decreases left@.len(),
    {
        let ghost n = out@.len() as int;
        let ghost here = lists(out@) + l.skip(n);
        let e: Vec<SegmentSummary> = left.remove(0);
        assert(e@ == l[n]);
        assert(here[n] == e@);
        let ghost before = lists(out@);
        let m: Vec<SegmentSummary> = mark_overlaps(e, notes);
        out.push(m);
        assert(lists(out@) =~= before.push(m@));
        assert(lists(out@) + l.skip(n + 1) =~= here.update(n, m@));
        assert(left@ =~= entries@.skip(n + 1));
    }
    assert(lists(out@) + l.skip(l.len() as int) =~= lists(out@));
    out
}

/// The number of segments that can be used.
pub fn count_usable(e: &Vec<SegmentSummary>) -> (n: usize)
    ensures
        n == usable(e@),
        n <= e@.len(),
{
    let mut n: usize = 0;
    let mut i: usize = 0;
    assert(e@.take(0) =~= Seq::<SegmentSummary>::empty());
    while i < e.len()
        invariant
            n <= i <= e@.len(),
            n == usable(e@.take(i as int)),
        decreases e@.len() - i,
    {
        assert(e@.take(i + 1).drop_last() =~= e@.take(i as int));
        if e[i].available {
            n = n + 1;
        }
        i = i + 1;
    }
    assert(e@.take(e@.len() as int) =~= e@);
    n
}

proof fn lemma_marked(
    e: Seq<SegmentSummary>,
    i: int,
    top_end: u64,
    top: int,
    notes: Seq<Seq<char>>,
)
    requires
        0 <= i <= e.len(),
        0 <= top < e.len() || e.len() == 0,
        top <= i,
        i == 0 ==> top_end == 0,
        forall|k: int| 0 <= k < i ==> (#[trigger] e[k]).end_us <= top_end,
    ensures
        ({
            let out = marked(e, i, top_end, top, notes).0;
            &&& out.len() == e.len()
            &&& forall|k: int|
                0 <= k < e.len() ==> (#[trigger] out[k]).start_us == e[k].start_us && out[k].end_us
                    == e[k].end_us && (out[k].available ==> e[k].available)
            &&& forall|k: int|
                i <= k < e.len() && (#[trigger] out[k]).available ==> e[k].start_us >= top_end
            &&& forall|a: int, b: int|
                0 <= a < b < e.len() && i <= b && (#[trigger] out[b]).available ==> (
                #[trigger] out[a]).end_us <= out[b].start_us
        }),
    decreases e.len() - i,
{
    if i < e.len() {
        let hit = e[i].start_us < top_end;
        let e1 = if hit {
            lost(lost(e, i), top)
        } else {
            e
        };
        let n1 = if hit {
            noted(notes, "Overlapping segment: "@ + e[i].relative_path@)
        } else {
            notes
        };
        let (t1, k1) = if e[i].end_us > top_end {
            (e[i].end_us, i)
        } else {
            (top_end, top)
        };
        assert forall|k: int| 0 <= k < i + 1 implies (#[trigger] e1[k]).end_us <= t1 by {
            if k < i {
                assert(e[k].end_us <= top_end);
            }
        }
        lemma_marked(e1, i + 1, t1, k1, n1);
        let out = marked(e, i, top_end, top, notes).0;
        assert(out == marked(e1, i + 1, t1, k1, n1).0);
        assert forall|a: int, b: int|
            0 <= a < b < e.len() && i <= b && (#[trigger] out[b]).available implies (
        #[trigger] out[a]).end_us <= out[b].start_us by {
            if b == i {
                assert(!hit);
                assert(e[a].end_us <= top_end);
            }
        }
    }
}

/// Segments of a track that can be used do not overlap: each ends before the next
/// one starts.
pub proof fn usable_segments_are_apart(e: Seq<SegmentSummary>, notes: Seq<Seq<char>>)
    ensures
        ({
            let out = marked(e, 0, 0, 0, notes).0;
            &&& out.len() == e.len()
            &&& forall|a: int, b: int|
                0 <= a < b < e.len() && (#[trigger] out[b]).available ==> (
                #[trigger] out[a]).end_us <= out[b].start_us
        }),
{
    if e.len() > 0 {
        lemma_marked(e, 0, 0, 0, notes);
    }
}

/// The stretches of the source before `duration` that are in none of the pauses from
/// `i` on, which are in order, after what ends at `cursor`; `None` when the pauses
/// overlap or reach too far.
pub open spec fn recorded(p: Seq<PauseInterval>, i: int, cursor: u64, duration: u64) -> Option<
    Seq<RetainedInterval>,
>
    decreases p.len() - i,
{
    if i >= p.len() {
        if cursor < duration {
            Some(seq![RetainedInterval { start_us: cursor, end_us: duration }])
        } else {
            Some(Seq::empty())
        }
    } else if p[i].start_us < cursor || p[i].start_us >= p[i].end_us || p[i].end_us > duration {
        None
    } else {
        match recorded(p, i + 1, p[i].end_us, duration) {
            None => None,
            Some(rest) => if cursor < p[i].start_us {
                Some(
                    seq![RetainedInterval { start_us: cursor, end_us: p[i].start_us }] + rest,
                )
            } else {
                Some(rest)
            },
        }
    }
}

/// The stretches of the source that were recorded, between the pauses.
pub fn recorded_intervals(pauses: Vec<PauseInterval>, duration: u64) -> (r: Result<
    Vec<RetainedInterval>,
    String,
>)
    ensures
        exists|p: Seq<PauseInterval>| #[trigger]
            sorting::is_sorting_of(pauses@, p) && match r {
                Ok(v) => recorded(p, 0, 0, duration) == Some(v@),
                Err(e) => recorded(p, 0, 0, duration) is None && e@
                    == "Invalid or overlapping pause intervals"@,
            },
{
    let sorted: Vec<PauseInterval> = sorting::sort_stable(pauses);
    let ghost p = sorted@;
    assert(sorting::is_sorting_of(pauses@, p));
    let mut out: Vec<RetainedInterval> = Vec::new();
    let mut cursor: u64 = 0;
    let mut i: usize = 0;
    while i < sorted.len()
        invariant
            i <= sorted@.len(),
            p == sorted@,
            sorting::is_sorting_of(pauses@, p),
            match recorded(p, i as int, cursor, duration) {
                Some(rest) => recorded(p, 0, 0, duration) == Some(out@ + rest),
                None => recorded(p, 0, 0, duration) is None,
            },
        decreases sorted@.len() - i,
    {
        let pause: PauseInterval = sorted[i];
        if pause.start_us < cursor || pause.start_us >= pause.end_us || pause.end_us > duration {
            return Err("Invalid or overlapping pause intervals".to_owned());
        }
        let ghost before = out@;
        if cursor < pause.start_us {
            let piece = RetainedInterval { start_us: cursor, end_us: pause.start_us };
            out.push(piece);
            proof {
                match recorded(p, i + 1, pause.end_us, duration) {
                    Some(rest) => {
                        assert(before + (seq![piece] + rest) =~= out@ + rest);
                    },
                    None => {},
                }
            }
        }
        cursor = pause.end_us;
        i = i + 1;
    }
    let ghost before = out@;
    if cursor < duration {
        out.push(RetainedInterval { start_us: cursor, end_us: duration });
    }
    assert(out@ =~= before + recorded(p, p.len() as int, cursor, duration).unwrap());
    Ok(out)
}

/// Whether source time `x` lies in one of the stretches.
pub open spec fn covers(s: Seq<RetainedInterval>, x: int) -> bool {
    exists|i: int| 0 <= i < s.len() && (#[trigger] s[i]).start_us <= x < s[i].end_us
}

/// Whether source time `x` lies in one of the pauses from `i` on.
pub open spec fn paused(p: Seq<PauseInterval>, i: int, x: int) -> bool {
    exists|k: int| i <= k < p.len() && (#[trigger] p[k]).start_us <= x < p[k].end_us
}

proof fn lemma_recorded(p: Seq<PauseInterval>, i: int, cursor: u64, duration: u64)
    requires
        0 <= i <= p.len(),
        recorded(p, i, cursor, duration) is Some,
    ensures
        ({
            let s = recorded(p, i, cursor, duration).unwrap();
            &&& forall|k: int|
                0 <= k < s.len() ==> cursor <= (#[trigger] s[k]).start_us < s[k].end_us <= duration
            &&& forall|a: int, b: int|
                0 <= a < b < s.len() ==> (#[trigger] s[a]).end_us <= (#[trigger] s[b]).start_us
            &&& forall|x: int| #[trigger] covers(s, x) <==> cursor <= x < duration && !paused(p, i, x)
            &&& forall|x: int| #[trigger] paused(p, i, x) ==> cursor <= x
            &&& s.len() <= p.len() - i + 1
        }),
    decreases p.len() - i,
{
    let s = recorded(p, i, cursor, duration).unwrap();
    if i >= p.len() {
        assert forall|x: int| #[trigger] covers(s, x) <==> cursor <= x < duration && !paused(
            p,
            i,
            x,
        ) by {
            if cursor <= x < duration {
                assert(s[0].start_us <= x < s[0].end_us);
            }
        }
    } else {
        let rest = recorded(p, i + 1, p[i].end_us, duration).unwrap();
        lemma_recorded(p, i + 1, p[i].end_us, duration);
        let head = RetainedInterval { start_us: cursor, end_us: p[i].start_us };
        assert forall|x: int| #[trigger] paused(p, i, x) <==> (p[i].start_us <= x < p[i].end_us
            || paused(p, i + 1, x)) by {
            if paused(p, i, x) {
                let k = choose|k: int|
                    i <= k < p.len() && (#[trigger] p[k]).start_us <= x < p[k].end_us;
                if k > i {
                    assert(paused(p, i + 1, x));
                }
            }
        }
        if cursor < p[i].start_us {
            assert(s == seq![head] + rest);
            assert forall|x: int| #[trigger] covers(s, x) <==> (cursor <= x < p[i].start_us
                || covers(rest, x)) by {
                if covers(s, x) {
                    let k = choose|k: int|
                        0 <= k < s.len() && (#[trigger] s[k]).start_us <= x < s[k].end_us;
                    if k > 0 {
                        assert(rest[k - 1] == s[k]);
                    }
                }
                if covers(rest, x) {
                    let k = choose|k: int|
                        0 <= k < rest.len() && (#[trigger] rest[k]).start_us <= x < rest[k].end_us;
                    assert(s[k + 1] == rest[k]);
                }
                if cursor <= x < p[i].start_us {
                    assert(s[0] == head);
                }
            }
            assert forall|a: int, b: int| 0 <= a < b < s.len() implies (#[trigger] s[a]).end_us <= (
            #[trigger] s[b]).start_us by {
                assert(s[b] == rest[b - 1]);
                if a > 0 {
                    assert(s[a] == rest[a - 1]);
                }
            }
            assert forall|a: int| 0 <= a < s.len() implies (#[trigger] s[a]).start_us < s[a].end_us
                && s[a].end_us <= duration && cursor <= s[a].start_us by {
                if a > 0 {
                    assert(s[a] == rest[a - 1]);
                }
            }
        }
    }
}

/// What was recorded is all of the source but its pauses, in order.
pub proof fn recorded_is_all_but_the_pauses(p: Seq<PauseInterval>, duration: u64)
    requires
        recorded(p, 0, 0, duration) is Some,
    ensures
        duration <= MAX_SAFE_TIME ==> timeline::ordered(recorded(p, 0, 0, duration).unwrap()),
        forall|a: int, b: int|
            0 <= a < b < recorded(p, 0, 0, duration).unwrap().len() ==> (#[trigger] recorded(
                p,
                0,
                0,
                duration,
            ).unwrap()[a]).end_us <= (#[trigger] recorded(p, 0, 0, duration).unwrap()[b]).start_us,
        forall|x: int|
            #[trigger] covers(recorded(p, 0, 0, duration).unwrap(), x) <==> 0 <= x < duration
                && !paused(p, 0, x),
{
    lemma_recorded(p, 0, 0, duration);
}

proof fn lemma_marked_len(
    e: Seq<SegmentSummary>,
    i: int,
    top_end: u64,
    top: int,
    notes: Seq<Seq<char>>,
)
    ensures
        marked(e, i, top_end, top, notes).0.len() == e.len(),
    decreases e.len() - i,
{
    if 0 <= i < e.len() && 0 <= top < e.len() {
        let hit = e[i].start_us < top_end;
        let e1 = if hit {
            lost(lost(e, i), top)
        } else {
            e
        };
        let n1 = if hit {
            noted(notes, "Overlapping segment: "@ + e[i].relative_path@)
        } else {
            notes
        };
        if e[i].end_us > top_end {
            lemma_marked_len(e1, i + 1, e[i].end_us, i, n1);
        } else {
            lemma_marked_len(e1, i + 1, top_end, top, n1);
        }
    }
}

/// Putting segments out of use drops none of them.
pub proof fn marking_keeps_the_lists(
    entries: Seq<Seq<SegmentSummary>>,
    t: int,
    notes: Seq<Seq<char>>,
)
    ensures
        all_marked(entries, t, notes).0.len() == entries.len(),
        forall|k: int|
            0 <= k < entries.len() ==> (#[trigger] all_marked(entries, t, notes).0[k]).len()
                == entries[k].len(),
    decreases entries.len() - t,
{
    if 0 <= t < entries.len() {
        let m = marked(entries[t], 0, 0, 0, notes);
        lemma_marked_len(entries[t], 0, 0, 0, notes);
        marking_keeps_the_lists(entries.update(t, m.0), t + 1, m.1);
    }
}

/// Whether two stretches of time have a moment in common.
pub open spec fn meet(a: SegmentSummary, b: SegmentSummary) -> bool {
    a.start_us < b.end_us && b.start_us < a.end_us
}

proof fn lemma_marked_exact(
    e: Seq<SegmentSummary>,
    i: int,
    top_end: u64,
    top: int,
    notes: Seq<Seq<char>>,
)
    requires
        0 <= i <= e.len(),
        i == 0 ==> top_end == 0 && top == 0,
        i > 0 ==> 0 <= top < i && top_end == e[top].end_us,
        forall|k: int| 0 <= k < e.len() ==> (#[trigger] e[k]).start_us < e[k].end_us,
        forall|a: int, b: int|
            0 <= a < b < e.len() ==> (#[trigger] e[a]).start_us <= (#[trigger] e[b]).start_us,
        forall|k: int|
            0 <= k < i && k != top && (#[trigger] e[k]).available ==> e[k].end_us
                <= e[top].start_us,
    ensures
        ({
            let out = marked(e, i, top_end, top, notes).0;
            &&& out.len() == e.len()
            &&& forall|k: int|
                0 <= k < e.len() ==> #[trigger] out[k] == (SegmentSummary {
                    available: out[k].available,
                    ..e[k]
                })
            &&& forall|k: int|
                0 <= k < i ==> ((#[trigger] out[k]).available <==> e[k].available && forall|j: int|
                    i <= j < e.len() ==> !meet(#[trigger] e[j], e[k]))
            &&& forall|k: int|
                i <= k < e.len() ==> ((#[trigger] out[k]).available <==> e[k].available
                    && e[k].start_us >= top_end && forall|j: int|
                    i <= j < e.len() && j != k ==> !meet(#[trigger] e[j], e[k]))
        }),
    decreases e.len() - i,
{
    if i < e.len() {
        let hit = e[i].start_us < top_end;
        let e1 = if hit {
            lost(lost(e, i), top)
        } else {
            e
        };
        let n1 = if hit {
            noted(notes, "Overlapping segment: "@ + e[i].relative_path@)
        } else {
            notes
        };
        let (t1, k1) = if e[i].end_us > top_end {
            (e[i].end_us, i)
        } else {
            (top_end, top)
        };
        assert(e1.len() == e.len());
        assert forall|k: int| 0 <= k < e.len() implies #[trigger] e1[k] == (SegmentSummary {
            available: e[k].available && !(hit && (k == i || k == top)),
            ..e[k]
        }) by {}
        assert forall|k: int| 0 <= k < e.len() implies (#[trigger] e1[k]).start_us < e1[k].end_us by {
            assert(e[k].start_us < e[k].end_us);
        }
        assert forall|a: int, b: int| 0 <= a < b < e.len() implies (#[trigger] e1[a]).start_us <= (
        #[trigger] e1[b]).start_us by {
            assert(e[a].start_us <= e[b].start_us);
        }
        assert forall|k: int| 0 <= k < i + 1 && k != k1 && (
        #[trigger] e1[k]).available implies e1[k].end_us <= e1[k1].start_us by {
            assert(e[k].available);
            if k < i && k != top {
                assert(e[k].end_us <= e[top].start_us);
                assert(e[top].start_us <= e[i].start_us);
            }
        }
        lemma_marked_exact(e1, i + 1, t1, k1, n1);
        let out = marked(e, i, top_end, top, notes).0;
        assert(out == marked(e1, i + 1, t1, k1, n1).0);
        assert forall|j: int, k: int| 0 <= j < e.len() && 0 <= k < e.len() implies meet(
            #[trigger] e1[j],
            #[trigger] e1[k],
        ) == meet(e[j], e[k]) by {}
        assert forall|k: int| 0 <= k < i implies ((#[trigger] out[k]).available <==> e[k].available
            && forall|j: int| i <= j < e.len() ==> !meet(#[trigger] e[j], e[k])) by {
            if k == top {
                assert(meet(e[i], e[k]) == hit);
            } else if e[k].available {
                assert(e[k].end_us <= e[top].start_us);
                assert(e[top].start_us <= e[i].start_us);
                assert(!meet(e[i], e[k]));
            }
            if forall|j: int| i <= j < e.len() ==> !meet(#[trigger] e[j], e[k]) {
                assert(!meet(e[i], e[k]));
                assert forall|j: int| i + 1 <= j < e.len() implies !meet(
                    #[trigger] e1[j],
                    e1[k],
                ) by {
                    assert(!meet(e[j], e[k]));
                }
            }
            if out[k].available {
                assert forall|j: int| i <= j < e.len() implies !meet(#[trigger] e[j], e[k]) by {
                    if j > i {
                        assert(!meet(e1[j], e1[k]));
                    }
                }
            }
        }
        assert forall|k: int| i <= k < e.len() implies ((#[trigger] out[k]).available
            <==> e[k].available && e[k].start_us >= top_end && forall|j: int|
            i <= j < e.len() && j != k ==> !meet(#[trigger] e[j], e[k])) by {
            if k > i {
                assert(e[i].start_us <= e[k].start_us);
                assert(meet(e[i], e[k]) == (e[k].start_us < e[i].end_us));
            }
            if e[k].available && e[k].start_us >= top_end && forall|j: int|
                i <= j < e.len() && j != k ==> !meet(#[trigger] e[j], e[k]) {
                if k > i {
                    assert(!meet(e[i], e[k]));
                }
                assert forall|j: int| i + 1 <= j < e.len() && j != k implies !meet(
                    #[trigger] e1[j],
                    e1[k],
                ) by {
                    assert(!meet(e[j], e[k]));
                }
            }
            if out[k].available {
                assert forall|j: int| i <= j < e.len() && j != k implies !meet(
                    #[trigger] e[j],
                    e[k],
                ) by {
                    if j > i {
                        assert(!meet(e1[j], e1[k]));
                    }
                }
            }
        }
    }
}

/// Of segments in order, those are put out of use that have a moment in common with another,
/// all of them and no others. Nothing else about them changes.
pub proof fn overlapping_segments_are_put_out_of_use(
    e: Seq<SegmentSummary>,
    notes: Seq<Seq<char>>,
    k: int,
)
    requires
        forall|i: int| 0 <= i < e.len() ==> (#[trigger] e[i]).start_us < e[i].end_us,
        forall|a: int, b: int|
            0 <= a < b < e.len() ==> (#[trigger] e[a]).start_us <= (#[trigger] e[b]).start_us,
        0 <= k < e.len(),
    ensures
        ({
            let out = marked(e, 0, 0, 0, notes).0;
            &&& out.len() == e.len()
            &&& out[k] == (SegmentSummary { available: out[k].available, ..e[k] })
            &&& out[k].available <==> e[k].available && forall|j: int|
                0 <= j < e.len() && j != k ==> (#[trigger] e[j]).end_us <= e[k].start_us
                    || e[k].end_us <= e[j].start_us
        }),
{
    lemma_marked_exact(e, 0, 0, 0, notes);
    let out = marked(e, 0, 0, 0, notes).0;
    if out[k].available {
        assert forall|j: int| 0 <= j < e.len() && j != k implies (#[trigger] e[j]).end_us
            <= e[k].start_us || e[k].end_us <= e[j].start_us by {
            assert(!meet(e[j], e[k]));
        }
    }
    if e[k].available && forall|j: int|
        0 <= j < e.len() && j != k ==> (#[trigger] e[j]).end_us <= e[k].start_us || e[k].end_us
            <= e[j].start_us {
        assert forall|j: int| 0 <= j < e.len() && j != k implies !meet(#[trigger] e[j], e[k]) by {}
    }
}

proof fn lemma_all_marked(
    entries: Seq<Seq<SegmentSummary>>,
    t: int,
    notes: Seq<Seq<char>>,
    k: int,
) -> (n: Seq<Seq<char>>)
    requires
        0 <= t <= entries.len(),
        0 <= k < entries.len(),
    ensures
        all_marked(entries, t, notes).0.len() == entries.len(),
        all_marked(entries, t, notes).0[k] == if k < t {
            entries[k]
        } else {
            marked(entries[k], 0, 0, 0, n).0
        },
    decreases entries.len() - t,
{
    if t < entries.len() {
        let m = marked(entries[t], 0, 0, 0, notes);
        let n = lemma_all_marked(entries.update(t, m.0), t + 1, m.1, k);
        if k == t {
            notes
        } else {
            n
        }
    } else {
        notes
    }
}

/// On every track the segments that have a moment in common with another of that track are
/// put out of use, and no others: tracks do not meet each other.
pub proof fn every_track_is_searched_for_overlaps(
    entries: Seq<Seq<SegmentSummary>>,
    notes: Seq<Seq<char>>,
    t: int,
    k: int,
)
    requires
        0 <= t < entries.len(),
        0 <= k < entries[t].len(),
        forall|i: int|
            0 <= i < entries[t].len() ==> (#[trigger] entries[t][i]).start_us
                < entries[t][i].end_us,
        forall|a: int, b: int|
            0 <= a < b < entries[t].len() ==> (#[trigger] entries[t][a]).start_us <= (
            #[trigger] entries[t][b]).start_us,
    ensures
        ({
            let out = all_marked(entries, 0, notes).0[t];
            &&& out.len() == entries[t].len()
            &&& out[k] == (SegmentSummary { available: out[k].available, ..entries[t][k] })
            &&& out[k].available <==> entries[t][k].available && forall|j: int|
                0 <= j < entries[t].len() && j != k ==> (#[trigger] entries[t][j]).end_us
                    <= entries[t][k].start_us || entries[t][k].end_us <= entries[t][j].start_us
        }),
{
    let n = lemma_all_marked(entries, 0, notes, t);
    overlapping_segments_are_put_out_of_use(entries[t], n, k);
}

/// A segment that is recorded is listed once, last on its own track and on no other, with
/// all that was recorded of it. It can be used just when its file was found with the size
/// that was recorded. The project lasts as long as its last segment.
pub proof fn recorded_segments_are_listed(
    tracks: Seq<TrackDescriptor>,
    ix: Index,
    record: JournalRecord,
    probes: Seq<PathProbe>,
    found: Option<u64>,
    t: int,
)
    requires
        ix.entries.len() == tracks.len(),
        0 <= t < tracks.len(),
        with_record(tracks, ix, record, probes, found) is Ok,
        reader::segment_of(record) is Some,
        manifest::find_track(tracks, reader::segment_of(record)->0.track_id@, 0) matches Some(k)
            ==> 0 <= k < tracks.len(),
    ensures
        ({
            let s = reader::segment_of(record)->0;
            let own = manifest::find_track(tracks, s.track_id@, 0)->0;
            let after = with_record(tracks, ix, record, probes, found)->Ok_0;
            let listed = after.entries[own][after.entries[own].len() - 1];
            &&& manifest::find_track(tracks, s.track_id@, 0) is Some
            &&& after.entries.len() == ix.entries.len()
            &&& after.entries[own].len() == ix.entries[own].len() + 1
            &&& after.entries[own].drop_last() == ix.entries[own]
            &&& listed.track_id == s.track_id
            &&& listed.relative_path == s.relative_path
            &&& listed.start_us == s.start_us
            &&& listed.end_us == s.end_us
            &&& listed.size_bytes == s.size_bytes
            &&& listed.is_keyframe_start == s.is_keyframe_start
            &&& listed.available <==> found == Some(s.size_bytes) && s.size_bytes > 0
            &&& t != own ==> after.entries[t] == ix.entries[t]
            &&& after.duration >= ix.duration && after.duration >= s.end_us
            &&& after.duration == ix.duration || after.duration == s.end_us
            &&& after.last_seq == Some(record.number())
            &&& ix.last_seq matches Some(n) ==> n < record.number()
            &&& s.start_us < s.end_us
            &&& !known_path(ix.entries, s.relative_path@)
            &&& listed.available ==> after.notes == ix.notes
        }),
{
    let s = reader::segment_of(record)->0;
    let own = manifest::find_track(tracks, s.track_id@, 0)->0;
    let after = with_record(tracks, ix, record, probes, found)->Ok_0;
    assert(after.entries[own].drop_last() =~= ix.entries[own]);
}

/// Segments that can be used are counted, each once.
pub proof fn usable_segments_are_counted(e: Seq<SegmentSummary>)
    ensures
        usable(e) == e.filter(|s: SegmentSummary| s.available).len(),
    decreases e.len(),
{
    reveal(Seq::filter);
    if e.len() > 0 {
        usable_segments_are_counted(e.drop_last());
    }
}

/// A segment is listed exactly where its path is safe and new, its track is known and holds
/// it, and it lasts some time within what a project can hold.
pub proof fn sound_segments_are_listed(
    tracks: Seq<TrackDescriptor>,
    entries: Seq<Seq<SegmentSummary>>,
    s: SegmentSummary,
    probes: Seq<PathProbe>,
)
    ensures
        segment_fault(tracks, entries, s, probes) is None <==> {
            &&& paths::path_fault(s.relative_path@, probes) is None
            &&& paths::belonging_fault(s.track_id@, s.relative_path@) is None
            &&& s.start_us < s.end_us <= MAX_SAFE_TIME
            &&& exists|i: int| 0 <= i < tracks.len() && (#[trigger] tracks[i]).id@ == s.track_id@
            &&& forall|t: int, i: int|
                0 <= t < entries.len() && 0 <= i < entries[t].len() ==> (
                #[trigger] entries[t][i]).relative_path@ != s.relative_path@
        },
{
    manifest::tracks_are_found_by_identifier(tracks, s.track_id@);
    if let Some(i) = manifest::find_track(tracks, s.track_id@, 0) {
        assert(tracks[i].id@ == s.track_id@);
    }
}

proof fn lemma_tracks_fault(tracks: Seq<TrackDescriptor>, probes: Seq<Vec<PathProbe>>, i: int)
    requires
        0 <= i,
        tracks_fault(tracks, probes, i) is None,
    ensures
        forall|k: int|
            i <= k < tracks.len() ==> paths::safe_id((#[trigger] tracks[k]).id@)
                && paths::path_fault(tracks[k].relative_path@, probes[k]@) is None
                && manifest::find_track(tracks, tracks[k].id@, 0) == Some(k),
    decreases tracks.len() - i,
{
    if i < tracks.len() {
        lemma_tracks_fault(tracks, probes, i + 1);
    }
}

/// A project that can be opened has tracks with safe names and paths, of which no two have
/// the same name.
pub proof fn tracks_are_told_apart(m: ProjectManifest, probes: Seq<Vec<PathProbe>>, i: int, j: int)
    requires
        manifest_fault(m, probes) is None,
        0 <= i < j < m.tracks@.len(),
    ensures
        m.tracks@[i].id@ != m.tracks@[j].id@,
        paths::safe_id(m.tracks@[i].id@),
        paths::path_fault(m.tracks@[i].relative_path@, probes[i]@) is None,
        m.fault() is None,
        m.tracks@.len() <= MAX_TRACKS,
        m.duration_us <= MAX_SAFE_TIME,
{
    lemma_tracks_fault(m.tracks@, probes, 0);
    let tracks = m.tracks@;
    assert(manifest::find_track(tracks, tracks[j].id@, 0) == Some(j));
    manifest::tracks_are_found_by_identifier(tracks, tracks[j].id@);
    assert(tracks[i].id@ != tracks[j].id@);
}

proof fn lemma_recordable(p: Seq<PauseInterval>, i: int, cursor: u64, duration: u64)
    requires
        0 <= i <= p.len(),
        forall|k: int|
            i <= k < p.len() ==> (#[trigger] p[k]).start_us < p[k].end_us && p[k].end_us <= duration,
        forall|k: int|
            i < k < p.len() ==> p[k - 1].end_us <= (#[trigger] p[k]).start_us,
        i < p.len() ==> cursor <= p[i].start_us,
    ensures
        recorded(p, i, cursor, duration) is Some,
    decreases p.len() - i,
{
    if i < p.len() {
        if i + 1 < p.len() {
            assert(p[i + 1 - 1].end_us <= p[i + 1].start_us);
        }
        lemma_recordable(p, i + 1, p[i].end_us, duration);
    }
}

/// What was recorded can be told wherever the pauses last some time, lie in the recording and
/// do not reach into each other, in whatever order they were written down.
pub proof fn separate_pauses_can_be_taken_out(
    pauses: Seq<PauseInterval>,
    p: Seq<PauseInterval>,
    duration: u64,
)
    requires
        sorting::is_sorting_of(pauses, p),
        forall|i: int|
            0 <= i < pauses.len() ==> (#[trigger] pauses[i]).start_us < pauses[i].end_us
                && pauses[i].end_us <= duration,
        forall|i: int, j: int|
            0 <= i < pauses.len() && 0 <= j < pauses.len() && i != j ==> (
            #[trigger] pauses[i]).end_us <= (#[trigger] pauses[j]).start_us || pauses[j].end_us
                <= pauses[i].start_us,
    ensures
        recorded(p, 0, 0, duration) is Some,
{
    sorting::sorting_keeps_every_item(pauses, p);
    let q = choose|q: Seq<int>|
        sorting::stable_order(pauses, q) && p == #[trigger] sorting::gather(pauses, q);
    assert forall|k: int| 0 <= k < p.len() implies (#[trigger] p[k]).start_us < p[k].end_us
        && p[k].end_us <= duration by {
        assert(pauses[q[k]] == p[k]);
    }
    assert forall|k: int| 0 < k < p.len() implies p[k - 1].end_us <= (
    #[trigger] p[k]).start_us by {
        let (a, b) = (q[k - 1], q[k]);
        assert(a != b);
        assert(pauses[a] == p[k - 1] && pauses[b] == p[k]);
        assert(sorting::Ranked::le(p[k - 1], p[k]));
    }
    lemma_recordable(p, 0, 0, duration);
}

} // verus!
