//! An opened project: its manifest, its committed segments, and its edit. Opening
//! reads within limits and repairs nothing.
use crate::ids;
use crate::paths;
use crate::project::index;
use crate::project::index::{
    add_note,
    count_usable,
    mark_all,
    recorded_intervals,
    sort_all,
    track_index,
    ProjectIndex,
};
use crate::project::journal;
use crate::project::journal::JournalRecord;
use crate::project::layout::EditLayout;
use crate::project::manifest;
use crate::project::manifest::{copy_pauses, PauseInterval, ProjectManifest, TrackDescriptor};
use crate::project::names;
use crate::project::revision;
use crate::project::revision::{
    copy_intervals,
    copy_texts,
    Change,
    EditDocument,
    EditHistory,
    PendingEdit,
};
use crate::sorting;
use crate::sorting::Ranked;
use crate::text;
use crate::timeline;
use crate::timeline::{RetainedInterval, TimelineMapper};
use crate::zoom;
use crate::zoom::{attach_zoom_edited_ranges, copy_keyframes, ZoomKeyframe};
use vstd::prelude::*;
use vstd::string::*;

verus! {

pub const MANIFEST_LIMIT: u64 = 1_048_576;

pub const JOURNAL_LIMIT: u64 = 33_554_432;

pub const LINE_LIMIT: u64 = 65_536;

pub const RECORD_LIMIT: usize = 100_000;

pub const MAX_TRACKS: usize = 64;

pub const MAX_PAUSES: usize = 10_000;

pub const MAX_DIAGNOSTICS: usize = 256;

pub const MAX_PAGE: usize = 256;

/// A committed segment of a track.
#[derive(Debug, PartialEq)]
pub struct SegmentSummary {
    pub track_id: String,
    pub relative_path: String,
    pub start_us: u64,
    pub end_us: u64,
    pub size_bytes: u64,
    pub media_timescale: u32,
    pub media_start_value: i64,
    pub host_anchor_us: i64,
    pub is_keyframe_start: Option<bool>,
    pub available: bool,
}

impl Clone for SegmentSummary {
    fn clone(&self) -> (r: Self)
        ensures
            r == *self,
    {
        SegmentSummary {
            track_id: self.track_id.clone(),
            relative_path: self.relative_path.clone(),
            start_us: self.start_us,
            end_us: self.end_us,
            size_bytes: self.size_bytes,
            media_timescale: self.media_timescale,
            media_start_value: self.media_start_value,
            host_anchor_us: self.host_anchor_us,
            is_keyframe_start: self.is_keyframe_start,
            available: self.available,
        }
    }
}

/// Segments are ordered by their start, then by their end.
impl Ranked for SegmentSummary {
    open spec fn le(self, other: Self) -> bool {
        self.start_us < other.start_us || (self.start_us == other.start_us && self.end_us
            <= other.end_us)
    }

    fn comes_before(&self, other: &Self) -> (r: bool) {
        self.start_us < other.start_us || (self.start_us == other.start_us && self.end_us
            < other.end_us)
    }

    proof fn le_total(a: Self, b: Self) {
    }

    proof fn le_transitive(a: Self, b: Self, c: Self) {
    }
}

/// Pauses are ordered by their start.
impl Ranked for PauseInterval {
    open spec fn le(self, other: Self) -> bool {
        self.start_us <= other.start_us
    }

    fn comes_before(&self, other: &Self) -> (r: bool) {
        self.start_us < other.start_us
    }

    proof fn le_total(a: Self, b: Self) {
    }

    proof fn le_transitive(a: Self, b: Self, c: Self) {
    }
}

/// A track and how many segments it has.
#[derive(Debug, PartialEq)]
pub struct TrackSummary {
    pub descriptor: TrackDescriptor,
    pub segment_count: usize,
    pub available_segment_count: usize,
}

impl Clone for TrackSummary {
    fn clone(&self) -> (r: Self)
        ensures
            r == *self,
    {
        TrackSummary {
            descriptor: self.descriptor.clone(),
            segment_count: self.segment_count,
            available_segment_count: self.available_segment_count,
        }
    }
}

/// The segment that a record commits, if it does, taken as available.
pub open spec fn segment_of(record: JournalRecord) -> Option<SegmentSummary> {
    match record {
        JournalRecord::SegmentCommitted {
            seq: _,
            track_id,
            relative_path,
            start_us,
            end_us,
            size_bytes,
            is_keyframe_start,
            media_timescale,
            media_start_value,
            host_anchor_us,
        } => Some(
            SegmentSummary {
                track_id,
                relative_path,
                start_us,
                end_us,
                size_bytes,
                media_timescale,
                media_start_value,
                host_anchor_us,
                is_keyframe_start: Some(is_keyframe_start),
                available: true,
            },
        ),
        JournalRecord::UnindexedSegmentRecovered {
            seq: _,
            track_id,
            relative_path,
            start_us,
            end_us,
            size_bytes,
            media_timescale,
            media_start_value,
            host_anchor_us,
        } => Some(
            SegmentSummary {
                track_id,
                relative_path,
                start_us,
                end_us,
                size_bytes,
                media_timescale,
                media_start_value,
                host_anchor_us,
                is_keyframe_start: None,
                available: true,
            },
        ),
        _ => None,
    }
}

/// The segment that a record commits, if it does.
pub fn record_segment(record: &JournalRecord) -> (r: Option<SegmentSummary>)
    ensures
        r == segment_of(*record),
{
    match record {
        JournalRecord::SegmentCommitted {
            seq: _,
            track_id,
            relative_path,
            start_us,
            end_us,
            size_bytes,
            is_keyframe_start,
            media_timescale,
            media_start_value,
            host_anchor_us,
        } => Some(
            SegmentSummary {
                track_id: track_id.clone(),
                relative_path: relative_path.clone(),
                start_us: *start_us,
                end_us: *end_us,
                size_bytes: *size_bytes,
                media_timescale: *media_timescale,
                media_start_value: *media_start_value,
                host_anchor_us: *host_anchor_us,
                is_keyframe_start: Some(*is_keyframe_start),
                available: true,
            },
        ),
        JournalRecord::UnindexedSegmentRecovered {
            seq: _,
            track_id,
            relative_path,
            start_us,
            end_us,
            size_bytes,
            media_timescale,
            media_start_value,
            host_anchor_us,
        } => Some(
            SegmentSummary {
                track_id: track_id.clone(),
                relative_path: relative_path.clone(),
                start_us: *start_us,
                end_us: *end_us,
                size_bytes: *size_bytes,
                media_timescale: *media_timescale,
                media_start_value: *media_start_value,
                host_anchor_us: *host_anchor_us,
                is_keyframe_start: None,
                available: true,
            },
        ),
        _ => None,
    }
}

/// What the file system says of a project's directory.
#[derive(Debug, PartialEq, Eq)]
pub enum RootLook {
    /// It could not be looked at, and why.
    Failed(String),
    Directory,
    /// Something else: a file, or a symbolic link.
    Other,
}

/// Why a path cannot be opened as a project; `None` when it can.
pub open spec fn root_fault(path: Seq<char>, look: RootLook) -> Option<Seq<char>> {
    if !paths::absolute(path) || paths::climbs(path) {
        Some("Choose an absolute project directory without traversal"@)
    } else {
        match look {
            RootLook::Failed(e) => Some(e@),
            RootLook::Directory => None,
            RootLook::Other => Some("Expected a project directory, not a symlink"@),
        }
    }
}

/// Checks that a path can be opened as a project.
pub fn check_root(path: &str, look: &RootLook) -> (r: Result<(), String>)
    ensures
        match r {
            Ok(()) => root_fault(path@, *look) is None,
            Err(e) => root_fault(path@, *look) == Some(e@),
        },
{
    if !paths::is_absolute(path) || paths::has_parent_part(path) {
        return Err("Choose an absolute project directory without traversal".to_owned());
    }
    match look {
        RootLook::Failed(e) => Err(e.clone()),
        RootLook::Directory => Ok(()),
        RootLook::Other => Err("Expected a project directory, not a symlink".to_owned()),
    }
}

/// Checks that nobody writes to a project: it could be leased, and holds no lock
/// file.
pub fn check_unlocked(leased: bool, has_lock_file: bool) -> (r: Result<(), String>)
    ensures
        match r {
            Ok(()) => leased && !has_lock_file,
            Err(e) => if !leased {
                e@ == "Project is in use by a writer"@
            } else {
                has_lock_file && e@
                    == "Project has a writer lock; close recording or recover it first"@
            },
        },
{
    if !leased {
        return Err("Project is in use by a writer".to_owned());
    }
    if has_lock_file {
        return Err("Project has a writer lock; close recording or recover it first".to_owned());
    }
    Ok(())
}

/// Checks how many bytes were read of a file that may have at most `limit`.
pub fn bounded_read(len: u64, limit: u64) -> (r: Result<(), String>)
    ensures
        match r {
            Ok(()) => len <= limit,
            Err(e) => len > limit && e@ == "Project metadata exceeds size limit"@,
        },
{
    if len > limit {
        return Err("Project metadata exceeds size limit".to_owned());
    }
    Ok(())
}

/// Checks that a journal is a file that is not too long.
pub fn check_journal_file(is_file: bool, len: u64) -> (r: Result<(), String>)
    ensures
        match r {
            Ok(()) => is_file && len <= JOURNAL_LIMIT,
            Err(e) => (!is_file || len > JOURNAL_LIMIT) && e@
                == "Journal exceeds size limit or is not a file"@,
        },
{
    if !is_file || len > JOURNAL_LIMIT {
        return Err("Journal exceeds size limit or is not a file".to_owned());
    }
    Ok(())
}

/// White space of ASCII: space, tab, line feed, form feed and carriage return.
pub open spec fn ascii_blank(b: u8) -> bool {
    b == 32 || b == 9 || b == 10 || b == 12 || b == 13
}

/// Whether `s[from..to]` is white space only.
pub open spec fn blank_line(s: Seq<u8>, from: int, to: int) -> bool {
    forall|i: int| from <= i < to ==> ascii_blank(#[trigger] s[i])
}

fn is_blank_line(data: &[u8], from: usize, to: usize) -> (r: bool)
    requires
        from <= to <= data@.len(),
    ensures
        r == blank_line(data@, from as int, to as int),
{
    let mut i: usize = from;
    while i < to
        invariant
            from <= i <= to <= data@.len(),
            forall|k: int| from <= k < i ==> ascii_blank(#[trigger] data@[k]),
        decreases to - i,
    {
        let b: u8 = data[i];
        if !(b == 32 || b == 9 || b == 10 || b == 12 || b == 13) {
            assert(!ascii_blank(data@[i as int]));
            return false;
        }
        i = i + 1;
    }
    true
}

/// How far a journal has been read: up to which byte, and how many lines.
#[derive(Debug, Clone, Copy, PartialEq, Eq, Structural)]
pub struct JournalScan {
    pub at: usize,
    pub lines: usize,
}

/// What follows in a journal.
pub enum NextLine {
    /// The bytes from the first up to, not including, the second, as the line of
    /// this number, counted from 1.
    Line(int, int, int),
    End,
    TooLong,
}

/// What follows in a journal after `at` bytes and `lines` lines: the next line that
/// is not blank. A line that is too long, too many lines and too many bytes stop
/// the reading.
pub open spec fn next_line(s: Seq<u8>, at: int, lines: int) -> NextLine
    decreases s.len() - at,
    when 0 <= at
    via next_line_decreases
{
    let end = journal::line_end(s, at);
    if at >= s.len() {
        NextLine::End
    } else if end - at > LINE_LIMIT || end > JOURNAL_LIMIT || lines >= RECORD_LIMIT {
        NextLine::TooLong
    } else if blank_line(s, at, end) {
        next_line(s, end, lines + 1)
    } else {
        NextLine::Line(at, end, lines + 1)
    }
}

#[via_fn]
proof fn next_line_decreases(s: Seq<u8>, at: int, lines: int) {
    journal::lemma_line_end(s, at);
}

/// A line of a journal.
#[derive(Debug, Clone, Copy, PartialEq, Eq, Structural)]
pub struct JournalLine {
    pub start: usize,
    pub end: usize,
    pub number: usize,
}

impl JournalScan {
    /// The scan stands in the journal.
    pub open spec fn wf(self, data: Seq<u8>) -> bool {
        self.at <= data.len() && self.lines <= RECORD_LIMIT
    }

    /// The start of a journal.
    pub fn start() -> (r: JournalScan)
        ensures
            r.at == 0,
            r.lines == 0,
    {
        JournalScan { at: 0, lines: 0 }
    }

    /// The next line that is not blank, if any is left.
    pub fn next(&mut self, data: &[u8]) -> (r: Result<Option<JournalLine>, String>)
        requires
            old(self).wf(data@),
        ensures
            final(self).wf(data@),
            match r {
                Ok(Some(line)) => {
                    &&& next_line(data@, old(self).at as int, old(self).lines as int)
                        == NextLine::Line(line.start as int, line.end as int, line.number as int)
                    &&& line.start < line.end <= data@.len()
                    &&& final(self).at == line.end
                    &&& final(self).lines == line.number
                },
                Ok(None) => next_line(data@, old(self).at as int, old(self).lines as int)
                    == NextLine::End,
                Err(e) => next_line(data@, old(self).at as int, old(self).lines as int)
                    == NextLine::TooLong && e@ == "Journal record limit exceeded"@,
            },
    {
        let ghost start = next_line(data@, self.at as int, self.lines as int);
        while self.at < data.len()
            invariant
                self.wf(data@),
                start == next_line(data@, old(self).at as int, old(self).lines as int),
                start == next_line(data@, self.at as int, self.lines as int),
            decreases data@.len() - self.at,
        {
            let from: usize = self.at;
            let end: usize = journal::find_line_end(data, from);
            if (end - from) as u64 > LINE_LIMIT || end as u64 > JOURNAL_LIMIT || self.lines
                >= RECORD_LIMIT {
                return Err("Journal record limit exceeded".to_owned());
            }
            self.at = end;
            self.lines = self.lines + 1;
            if !is_blank_line(data, from, end) {
                return Ok(Some(JournalLine { start: from, end, number: self.lines }));
            }
        }
        Ok(None)
    }
}

/// What became of a line of the journal.
#[derive(Debug)]
pub enum ParsedLine {
    Record(JournalRecord),
    /// It ends before its record does.
    Incomplete(String),
    Corrupt(String),
}

/// What to do after a line of the journal.
#[derive(Debug)]
pub enum LineStep {
    Add(JournalRecord),
    /// The journal ends here.
    Stop,
}

/// The message for a line that cannot be read.
pub open spec fn corrupt_line(number: nat, e: Seq<char>) -> Seq<char> {
    "Corrupt journal line "@ + text::decimal(number) + ": "@ + e
}

/// Decides what to do with a line of the journal. Only a last line without a line
/// feed may be incomplete.
pub fn judge_line(parsed: ParsedLine, ends_with_line_feed: bool, number: usize) -> (r: Result<
    LineStep,
    String,
>)
    ensures
        match parsed {
            ParsedLine::Record(record) => r == Ok::<LineStep, String>(LineStep::Add(record)),
            ParsedLine::Incomplete(e) => if ends_with_line_feed {
                r matches Err(m) && m@ == corrupt_line(number as nat, e@)
            } else {
                r == Ok::<LineStep, String>(LineStep::Stop)
            },
            ParsedLine::Corrupt(e) => r matches Err(m) && m@ == corrupt_line(number as nat, e@),
        },
{
    match parsed {
        ParsedLine::Record(record) => Ok(LineStep::Add(record)),
        ParsedLine::Incomplete(e) => {
            if ends_with_line_feed {
                Err(corrupt_message(number, e.as_str()))
            } else {
                Ok(LineStep::Stop)
            }
        },
        ParsedLine::Corrupt(e) => Err(corrupt_message(number, e.as_str())),
    }
}

fn corrupt_message(number: usize, e: &str) -> (t: String)
    ensures
        t@ == corrupt_line(number as nat, e@),
{
    let mut t: String = "Corrupt journal line ".to_owned();
    text::push_decimal(&mut t, number as u64);
    t.append(": ");
    t.append(e);
    t
}

/// What is shown of an opened project.
#[derive(Debug, PartialEq)]
pub struct OpenedProject {
    pub project_handle: String,
    pub revision: u64,
    pub manifest: ProjectManifest,
    pub source_duration_us: u64,
    pub edited_duration_us: u64,
    pub retained_intervals: Vec<RetainedInterval>,
    pub tracks: Vec<TrackSummary>,
    pub diagnostics: Vec<String>,
    pub preview_available: bool,
    pub undo_available: bool,
    pub redo_available: bool,
    pub zooms: Vec<ZoomKeyframe>,
    pub dismissed_zoom_ids: Vec<String>,
    pub layout: EditLayout,
    pub project_path: Option<String>,
}

/// Some of the segments of a track, and where the next ones start.
#[derive(Debug, PartialEq)]
pub struct SegmentPage {
    pub segments: Vec<SegmentSummary>,
    pub next_offset: Option<usize>,
}

/// An opened project. Its segments are listed in the order of its tracks.
#[derive(Debug)]
pub struct ProjectReader {
    pub summary: OpenedProject,
    pub segments: Vec<Vec<SegmentSummary>>,
    pub root: String,
    pub history: EditHistory,
}

/// What was found where the edit is stored.
pub enum Stored {
    Nothing,
    Edit(revision::Edit),
    Failed(Seq<char>),
}

/// What was found where the edit is stored.
pub open spec fn stored(loaded: Result<Option<EditDocument>, String>) -> Stored {
    match loaded {
        Ok(Some(d)) => Stored::Edit(d@),
        Ok(None) => Stored::Nothing,
        Err(e) => Stored::Failed(e@),
    }
}

/// Whether a stretch ends after `duration`.
pub open spec fn reaches_past(s: Seq<RetainedInterval>, duration: u64) -> bool {
    exists|i: int| 0 <= i < s.len() && (#[trigger] s[i]).end_us > duration
}

fn has_late_end(s: &Vec<RetainedInterval>, duration: u64) -> (r: bool)
    ensures
        r == reaches_past(s@, duration),
{
    let mut i: usize = 0;
    while i < s.len()
        invariant
            i <= s@.len(),
            forall|k: int| 0 <= k < i ==> (#[trigger] s@[k]).end_us <= duration,
        decreases s@.len() - i,
    {
        if s[i].end_us > duration {
            return true;
        }
        i = i + 1;
    }
    false
}

/// Why a project cannot be opened, where `p` are its pauses in order; `None` when it
/// can.
pub open spec fn opening_fault(
    p: Seq<PauseInterval>,
    duration: u64,
    found: Stored,
) -> Option<Seq<char>> {
    match index::recorded(p, 0, 0, duration) {
        None => Some("Invalid or overlapping pause intervals"@),
        Some(base) => if timeline::retained_fault(base) is Some {
            timeline::retained_fault(base)
        } else {
            match found {
                Stored::Edit(d) => if reaches_past(d.retained, duration) {
                    Some("Edit interval exceeds source duration"@)
                } else {
                    timeline::retained_fault(d.retained)
                },
                _ => None,
            }
        },
    }
}

/// What is shown of an edit's history, where `before` was shown as its duration.
pub open spec fn shows(s: OpenedProject, h: revision::Timeline, before: u64) -> bool {
    let fine = timeline::retained_fault(h.current.retained) is None;
    &&& s.revision == h.current.revision
    &&& s.retained_intervals@ == h.current.retained
    &&& s.edited_duration_us == if fine {
        timeline::total(h.current.retained)
    } else {
        before as int
    }
    &&& s.undo_available == h.allows(Change::Undo)
    &&& s.redo_available == h.allows(Change::Redo)
    &&& if fine {
        zoom::all_attached(h.current.zooms, h.current.retained, zoom::keyframes(s.zooms@))
    } else {
        zoom::keyframes(s.zooms@) == h.current.zooms
    }
    &&& paths::texts(s.dismissed_zoom_ids@) == h.current.dismissed
    &&& s.layout == h.current.layout
}

/// What is shown of a project, but for its edit.
pub open spec fn same_source(a: OpenedProject, b: OpenedProject) -> bool {
    &&& a.project_handle == b.project_handle
    &&& a.manifest == b.manifest
    &&& a.source_duration_us == b.source_duration_us
    &&& a.tracks == b.tracks
    &&& a.diagnostics == b.diagnostics
    &&& a.preview_available == b.preview_available
    &&& a.project_path == b.project_path
}

/// What is shown of a track with these segments.
pub open spec fn track_shown(
    t: TrackSummary,
    descriptor: TrackDescriptor,
    e: Seq<SegmentSummary>,
) -> bool {
    &&& t.descriptor == descriptor
    &&& t.segment_count == e.len()
    &&& t.available_segment_count == index::usable(e)
}

/// What is shown of tracks with these segments.
pub open spec fn tracks_shown(
    v: Seq<TrackSummary>,
    tracks: Seq<TrackDescriptor>,
    entries: Seq<Seq<SegmentSummary>>,
) -> bool {
    &&& v.len() == tracks.len()
    &&& forall|i: int|
        0 <= i < v.len() ==> track_shown(#[trigger] v[i], tracks[i], entries[i])
}

fn summarize(tracks: &Vec<TrackDescriptor>, entries: &Vec<Vec<SegmentSummary>>) -> (v: Vec<
    TrackSummary,
>)
    requires
        tracks@.len() == entries@.len(),
    ensures
        tracks_shown(v@, tracks@, index::lists(entries@)),
{
    let mut v: Vec<TrackSummary> = Vec::new();
    let mut i: usize = 0;
    while i < tracks.len()
        invariant
            i <= tracks@.len() == entries@.len(),
            v@.len() == i,
            forall|k: int|
                0 <= k < i ==> track_shown(
                    #[trigger] v@[k],
                    tracks@[k],
                    index::lists(entries@)[k],
                ),
        decreases tracks@.len() - i,
    {
        let e: &Vec<SegmentSummary> = &entries[i];
        assert(index::lists(entries@)[i as int] == e@);
        v.push(
            TrackSummary {
                descriptor: tracks[i].clone(),
                segment_count: e.len(),
                available_segment_count: count_usable(e),
            },
        );
        i = i + 1;
    }
    v
}

/// Whether a reader is that of a project with the index `ix`, where `l` are its
/// segments in order, `p` its pauses in order, and `found` what was stored.
pub open spec fn is_opened(
    r: ProjectReader,
    ix: ProjectIndex,
    l: Seq<Seq<SegmentSummary>>,
    p: Seq<PauseInterval>,
    found: Stored,
    root: Seq<char>,
) -> bool {
    let marked = index::all_marked(l, 0, ix@.notes);
    let base = index::recorded(p, 0, 0, ix.duration).unwrap();
    &&& index::lists(r.segments@) == marked.0
    &&& paths::texts(r.summary.diagnostics@) == match found {
        Stored::Failed(e) => index::noted(marked.1, "Edit document ignored: "@ + e),
        _ => marked.1,
    }
    &&& match found {
        Stored::Edit(d) => r.history@.current == d,
        _ => revision::first_edit(r.history@.current, base),
    }
    &&& r.history@.undo == Seq::<revision::Edit>::empty()
    &&& r.history@.redo == Seq::<revision::Edit>::empty()
    &&& shows(r.summary, r.history@, 0)
    &&& ids::is_id(r.summary.project_handle@)
    &&& r.summary.manifest == ix.manifest
    &&& r.summary.source_duration_us == ix.duration
    &&& tracks_shown(r.summary.tracks@, ix.manifest.tracks@, marked.0)
    &&& !r.summary.preview_available
    &&& r.root@ == root
    &&& r.summary.project_path matches Some(path) && path@ == root
}

impl ProjectReader {
    /// There is a list of segments for each track, and the history is bounded.
    pub open spec fn wf(&self) -> bool {
        &&& self.segments@.len() == self.summary.manifest.tracks@.len()
        &&& self.history@.wf()
    }

    /// Opens a project whose journal has been read into an index, and whose stored
    /// edit has been looked for.
    pub fn open(
        ix: ProjectIndex,
        loaded: Result<Option<EditDocument>, String>,
        root: String,
    ) -> (r: Result<ProjectReader, String>)
        requires
            ix.wf(),
        ensures
            exists|l: Seq<Seq<SegmentSummary>>, p: Seq<PauseInterval>|
                #![trigger index::all_sorted(ix@.entries, l), sorting::is_sorting_of(ix.manifest.pause_intervals@, p)]
                {
                    &&& index::all_sorted(ix@.entries, l)
                    &&& sorting::is_sorting_of(ix.manifest.pause_intervals@, p)
                    &&& match r {
                        Ok(reader) => {
                            &&& opening_fault(p, ix.duration, stored(loaded)) is None
                            &&& reader.wf()
                            &&& is_opened(reader, ix, l, p, stored(loaded), root@)
                        },
                        Err(e) => opening_fault(p, ix.duration, stored(loaded)) == Some(e@),
                    }
                },
    {
        let ghost whole = ix;
        let mut notes: Vec<String> = copy_texts(&ix.diagnostics);
        let sorted: Vec<Vec<SegmentSummary>> = sort_all(ix.entries);
        let ghost l = index::lists(sorted@);
        assert(index::all_sorted(whole@.entries, l));
        let ghost marked = index::all_marked(l, 0, whole@.notes);
        proof {
            index::marking_keeps_the_lists(l, 0, whole@.notes);
        }
        let segments: Vec<Vec<SegmentSummary>> = mark_all(sorted, &mut notes);
        assert(segments@.len() == index::lists(segments@).len());
        let tracks: Vec<TrackSummary> = summarize(&ix.manifest.tracks, &segments);
        let retained: Vec<RetainedInterval> = match recorded_intervals(
            copy_pauses(&ix.manifest.pause_intervals),
            ix.duration,
        ) {
            Ok(v) => v,
            Err(e) => {
                return Err(e);
            },
        };
        let ghost p = choose|p: Seq<PauseInterval>| #[trigger]
            sorting::is_sorting_of(ix.manifest.pause_intervals@, p) && index::recorded(
                p,
                0,
                0,
                ix.duration,
            ) == Some(retained@);
        assert(sorting::is_sorting_of(whole.manifest.pause_intervals@, p));
        let mut document: EditDocument = match EditDocument::from_retained(retained) {
            Ok(d) => d,
            Err(e) => {
                return Err(e);
            },
        };
        match loaded {
            Ok(Some(d)) => {
                if has_late_end(&d.retained_intervals, ix.duration) {
                    return Err("Edit interval exceeds source duration".to_owned());
                }
                document = d;
            },
            Ok(None) => {},
            Err(e) => {
                let mut t: String = "Edit document ignored: ".to_owned();
                t.append(e.as_str());
                add_note(&mut notes, t);
            },
        }
        let edited_duration_us: u64 = match document.edited_duration_us() {
            Ok(d) => d,
            Err(e) => {
                return Err(e);
            },
        };
        let mapper: TimelineMapper = match document.mapper() {
            Ok(m) => m,
            Err(e) => {
                return Err(e);
            },
        };
        let zooms: Vec<ZoomKeyframe> = attach_zoom_edited_ranges(&document.zooms, &mapper);
        let summary = OpenedProject {
            project_handle: ids::new_id(),
            revision: document.revision,
            manifest: ix.manifest,
            source_duration_us: ix.duration,
            edited_duration_us,
            retained_intervals: copy_intervals(&document.retained_intervals),
            tracks,
            diagnostics: notes,
            preview_available: false,
            undo_available: false,
            redo_available: false,
            zooms,
            dismissed_zoom_ids: copy_texts(&document.dismissed_zoom_ids),
            layout: document.layout.clone(),
            project_path: Some(root.clone()),
        };
        let history = EditHistory::new(document);
        Ok(ProjectReader { summary, segments, root, history })
    }

    /// The project's directory.
    pub fn root(&self) -> (r: &str)
        ensures
            r@ == self.root@,
    {
        self.root.as_str()
    }

    /// The edit and its history.
    pub fn history(&self) -> (r: &EditHistory)
        ensures
            *r == self.history,
    {
        &self.history
    }

    /// The segments of a track.
    pub fn segments_for(&self, track_id: &str) -> (r: Option<&Vec<SegmentSummary>>)
        requires
            self.wf(),
        ensures
            match r {
                Some(v) => manifest::find_track(self.summary.manifest.tracks@, track_id@, 0) matches Some(
                    i,
                ) && *v == self.segments@[i],
                None => manifest::find_track(self.summary.manifest.tracks@, track_id@, 0) is None,
            },
    {
        match track_index(&self.summary.manifest.tracks, track_id) {
            Some(i) => Some(&self.segments[i]),
            None => None,
        }
    }

    /// At most `limit` segments of a track, from `offset` on.
    pub fn page(&self, track_id: &str, offset: usize, limit: usize) -> (r: Result<
        SegmentPage,
        String,
    >)
        requires
            self.wf(),
        ensures
            ({
                let at = manifest::find_track(self.summary.manifest.tracks@, track_id@, 0);
                let e = self.segments@[at.unwrap()]@;
                let end = if offset + limit < e.len() {
                    offset + limit
                } else {
                    e.len() as int
                };
                match r {
                    Ok(page) => {
                        &&& 0 < limit <= MAX_PAGE
                        &&& at is Some
                        &&& offset <= e.len()
                        &&& page.segments@ == e.subrange(offset as int, end)
                        &&& page.next_offset == if end < e.len() {
                            Some(end as usize)
                        } else {
                            None
                        }
                    },
                    Err(m) => if limit == 0 || limit > MAX_PAGE {
                        m@ == "Page limit must be 1–256"@
                    } else if at is None {
                        m@ == "Unknown track"@
                    } else {
                        offset > e.len() && m@ == "Invalid page offset"@
                    },
                }
            }),
    {
        if limit == 0 || limit > MAX_PAGE {
            return Err("Page limit must be 1–256".to_owned());
        }
        let e: &Vec<SegmentSummary> = match self.segments_for(track_id) {
            Some(v) => v,
            None => {
                return Err("Unknown track".to_owned());
            },
        };
        if offset > e.len() {
            return Err("Invalid page offset".to_owned());
        }
        let end: usize = if e.len() - offset > limit {
            offset + limit
        } else {
            e.len()
        };
        let mut segments: Vec<SegmentSummary> = Vec::new();
        let mut i: usize = offset;
        while i < end
            invariant
                offset <= i <= end <= e@.len(),
                segments@ == e@.subrange(offset as int, i as int),
            decreases end - i,
        {
            segments.push(e[i].clone());
            i = i + 1;
            assert(e@.subrange(offset as int, i as int) =~= e@.subrange(
                offset as int,
                i - 1,
            ).push(e@[i - 1]));
        }
        let next_offset: Option<usize> = if end < e.len() {
            Some(end)
        } else {
            None
        };
        Ok(SegmentPage { segments, next_offset })
    }

    /// Makes a saved edit the current one, and shows it.
    pub fn saved(&mut self, pending: PendingEdit)
        requires
            old(self).wf(),
            old(self).history@.allows(pending.change),
        ensures
            final(self).wf(),
            final(self).history@ == old(self).history@.changed(
                pending.change,
                pending.document@,
            ),
            same_source(final(self).summary, old(self).summary),
            shows(
                final(self).summary,
                final(self).history@,
                old(self).summary.edited_duration_us,
            ),
            final(self).segments == old(self).segments,
            final(self).root == old(self).root,
    {
        self.history.saved(pending);
        self.sync_summary();
    }

    fn sync_summary(&mut self)
        requires
            old(self).wf(),
        ensures
            final(self).wf(),
            final(self).history == old(self).history,
            same_source(final(self).summary, old(self).summary),
            shows(
                final(self).summary,
                final(self).history@,
                old(self).summary.edited_duration_us,
            ),
            final(self).segments == old(self).segments,
            final(self).root == old(self).root,
    {
        let current: &EditDocument = self.history.current();
        let revision: u64 = current.revision;
        let retained = copy_intervals(&current.retained_intervals);
        let dismissed = copy_texts(&current.dismissed_zoom_ids);
        let layout = current.layout.clone();
        let mut duration: u64 = self.summary.edited_duration_us;
        let mut zooms: Vec<ZoomKeyframe> = copy_keyframes(&current.zooms);
        match current.mapper() {
            Ok(mapper) => {
                duration = mapper.total_edited_duration_us();
                zooms = attach_zoom_edited_ranges(&current.zooms, &mapper);
            },
            Err(_) => {},
        }
        let undo_available: bool = self.history.undo_available();
        let redo_available: bool = self.history.redo_available();
        self.summary.revision = revision;
        self.summary.retained_intervals = retained;
        self.summary.edited_duration_us = duration;
        self.summary.undo_available = undo_available;
        self.summary.redo_available = redo_available;
        self.summary.zooms = zooms;
        self.summary.dismissed_zoom_ids = dismissed;
        self.summary.layout = layout;
    }

    /// The manifest under another name; `None` when that is its name.
    pub fn rename_project(&self, new_name: &str) -> (r: Result<Option<ProjectManifest>, String>)
        ensures
            match names::shown_name(new_name@) {
                None => r matches Err(e) && e@ == "Project name cannot be empty"@,
                Some(name) => r matches Ok(m) && match m {
                    None => self.summary.manifest.project_name@ == name,
                    Some(m) => {
                        &&& self.summary.manifest.project_name@ != name
                        &&& m.project_name@ == name
                        &&& manifest::same_manifest(
                            m,
                            ProjectManifest {
                                project_name: m.project_name,
                                ..self.summary.manifest
                            },
                        )
                    },
                },
            },
    {
        let name: String = match names::typed_name(new_name) {
            None => {
                return Err("Project name cannot be empty".to_owned());
            },
            Some(n) => n,
        };
        if text::str_eq(name.as_str(), self.summary.manifest.project_name.as_str()) {
            return Ok(None);
        }
        let mut m: ProjectManifest = self.summary.manifest.clone();
        m.project_name = name;
        Ok(Some(m))
    }

    /// Takes a saved manifest over.
    pub fn renamed(&mut self, m: ProjectManifest)
        requires
            old(self).wf(),
            m.tracks@.len() == old(self).summary.manifest.tracks@.len(),
        ensures
            final(self).wf(),
            final(self).summary == (OpenedProject { manifest: m, ..old(self).summary }),
            final(self).segments == old(self).segments,
            final(self).root == old(self).root,
            final(self).history == old(self).history,
    {
        self.summary.manifest = m;
    }
}

/// The next line of a journal is the first that is not blank: all before it is, it ends
/// behind its line feed, and it is numbered with the blank lines. At the end there is nothing
/// left but blanks.
pub proof fn blank_lines_are_passed_over(s: Seq<u8>, at: int, lines: int)
    requires
        0 <= at <= s.len(),
    ensures
        match next_line(s, at, lines) {
            NextLine::Line(from, to, number) => {
                &&& at <= from < to <= s.len()
                &&& blank_line(s, at, from)
                &&& !blank_line(s, from, to)
                &&& from == at || s[from - 1] == 10
                &&& s[to - 1] == 10 || to == s.len()
                &&& forall|i: int| from <= i < to - 1 ==> #[trigger] s[i] != 10
                &&& to - from <= 65_536
                &&& lines < number <= 100_000
                &&& from == at ==> number == lines + 1
            },
            NextLine::End => blank_line(s, at, s.len() as int),
            NextLine::TooLong => true,
        },
    decreases s.len() - at,
{
    if at < s.len() {
        let end = journal::line_end(s, at);
        journal::lines_end_at_line_feeds(s, at);
        if !(end - at > LINE_LIMIT || end > JOURNAL_LIMIT || lines >= RECORD_LIMIT) && blank_line(
            s,
            at,
            end,
        ) {
            blank_lines_are_passed_over(s, end, lines + 1);
            let next = next_line(s, end, lines + 1);
            assert(next_line(s, at, lines) == next);
            let stop = match next {
                NextLine::Line(from, _, _) => from,
                _ => s.len() as int,
            };
            if !(next is TooLong) {
                assert forall|i: int| at <= i < stop implies ascii_blank(#[trigger] s[i]) by {}
            }
        }
    }
}

/// A project can be opened where what was recorded can be told, and its stored edit retains
/// only what was.
pub proof fn edits_stay_in_what_was_recorded(p: Seq<PauseInterval>, duration: u64, d: revision::Edit)
    requires
        opening_fault(p, duration, Stored::Edit(d)) is None,
    ensures
        index::recorded(p, 0, 0, duration) is Some,
        timeline::retained_fault(d.retained) is None,
        forall|i: int| 0 <= i < d.retained.len() ==> (#[trigger] d.retained[i]).end_us <= duration,
{
}

/// What is shown of an opened project is its current edit: its revision, what it retains and
/// how long that plays, its layout, its keyframes where they play and what it dismissed, and
/// whether there is something to undo or to redo.
pub proof fn the_current_edit_is_shown(
    s: OpenedProject,
    h: revision::Timeline,
    before: u64,
    i: int,
    t: int,
)
    requires
        shows(s, h, before),
        timeline::retained_fault(h.current.retained) is None,
        0 <= i < h.current.zooms.len(),
        0 <= t,
    ensures
        s.revision == h.current.revision,
        s.retained_intervals@ == h.current.retained,
        s.edited_duration_us == timeline::total(h.current.retained),
        s.layout == h.current.layout,
        paths::texts(s.dismissed_zoom_ids@) == h.current.dismissed,
        s.undo_available <==> h.undo.len() > 0,
        s.redo_available <==> h.redo.len() > 0,
        s.zooms@.len() == h.current.zooms.len(),
        s.zooms@[i].id@ == h.current.zooms[i].zoom.id,
        s.zooms@[i].source_start_us == h.current.zooms[i].zoom.start,
        s.zooms@[i].source_end_us == h.current.zooms[i].zoom.end,
        s.zooms@[i].center_x == h.current.zooms[i].zoom.center_x,
        s.zooms@[i].center_y == h.current.zooms[i].zoom.center_y,
        s.zooms@[i].scale == h.current.zooms[i].zoom.scale,
        s.zooms@[i].transition_us == h.current.zooms[i].zoom.transition,
        timeline::in_ranges(timeline::pairs(s.zooms@[i].edited_ranges@), t)
            <==> (timeline::to_source(h.current.retained, t) matches Some(x)
            && h.current.zooms[i].zoom.start <= x < h.current.zooms[i].zoom.end),
{
    timeline::retainable_means_ordered(h.current.retained);
    let k = zoom::keyframes(s.zooms@);
    assert(zoom::attached(h.current.zooms[i], h.current.retained, k[i]));
    assert(k[i] == s.zooms@[i]@);
    timeline::edited_ranges_are_exact(
        h.current.retained,
        h.current.zooms[i].zoom.start as int,
        h.current.zooms[i].zoom.end as int,
        t,
    );
}

/// An opened project goes on with its stored edit, or else starts with all that was recorded,
/// without its pauses. Nothing can be undone or redone yet.
pub proof fn projects_open_with_what_was_recorded(
    r: ProjectReader,
    ix: ProjectIndex,
    l: Seq<Seq<SegmentSummary>>,
    p: Seq<PauseInterval>,
    found: Stored,
    root: Seq<char>,
    x: int,
)
    requires
        is_opened(r, ix, l, p, found, root),
        opening_fault(p, ix.duration, found) is None,
    ensures
        r.history@.undo.len() == 0,
        r.history@.redo.len() == 0,
        found matches Stored::Edit(d) ==> r.history@.current == d,
        !(found is Edit) ==> {
            &&& r.history@.current.revision == 0
            &&& r.history@.current.zooms.len() == 0
            &&& r.history@.current.dismissed.len() == 0
            &&& index::covers(r.history@.current.retained, x) <==> 0 <= x < ix.duration && forall|
                k: int,
            |
                0 <= k < p.len() ==> !((#[trigger] p[k]).start_us <= x < p[k].end_us)
        },
        r.summary.revision == r.history@.current.revision,
        r.summary.retained_intervals@ == r.history@.current.retained,
        r.summary.source_duration_us == ix.duration,
        r.summary.manifest == ix.manifest,
        r.root@ == root,
{
    index::recorded_is_all_but_the_pauses(p, ix.duration);
    let base = index::recorded(p, 0, 0, ix.duration)->0;
    assert(index::covers(base, x) <==> 0 <= x < ix.duration && !index::paused(p, 0, x));
}

/// A track shows how many segments it has and how many of them can be used.
pub proof fn tracks_show_their_segments(
    v: Seq<TrackSummary>,
    tracks: Seq<TrackDescriptor>,
    entries: Seq<Seq<SegmentSummary>>,
    i: int,
)
    requires
        tracks_shown(v, tracks, entries),
        0 <= i < tracks.len(),
    ensures
        v.len() == tracks.len(),
        v[i].descriptor == tracks[i],
        v[i].segment_count == entries[i].len(),
        v[i].available_segment_count == entries[i].filter(|s: SegmentSummary| s.available).len(),
{
    assert(track_shown(v[i], tracks[i], entries[i]));
    index::usable_segments_are_counted(entries[i]);
}

} // verus!
