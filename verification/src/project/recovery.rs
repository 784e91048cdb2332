//! Recovering a project after a crash: what its journal still holds, which committed
//! files the journal has not seen, and the manifest that follows.
use crate::paths;
use crate::project::index;
use crate::project::journal::JournalRecord;
use crate::project::layout;
use crate::project::layout::file_extension;
use crate::project::manifest;
use crate::project::manifest::{
    copy_pauses,
    PauseInterval,
    ProjectManifest,
    TrackDescriptor,
    TrackType,
};
use crate::project::media_validator::MediaValidationInfo;
use crate::project::reader;
use crate::text;
use crate::timeline;
use crate::zoom::contains_text;
use vstd::prelude::*;
use vstd::string::*;

verus! {

/// Why a project could not be recovered.
#[derive(Debug, PartialEq)]
pub enum RecoveryError {
    Io(String),
    Lock(String),
    MissingProjectDir(String),
    Manifest(String),
    Journal(String),
    InvalidPath(String),
}

impl RecoveryError {
    /// The message for people.
    pub open spec fn text(self) -> Seq<char> {
        match self {
            RecoveryError::Io(e) => "IO error: "@ + e@,
            RecoveryError::Lock(e) => "Lock error: "@ + e@,
            RecoveryError::MissingProjectDir(p) => "Project directory does not exist: "@ + p@,
            RecoveryError::Manifest(e) => "Manifest error: "@ + e@,
            RecoveryError::Journal(e) => "Journal error: "@ + e@,
            RecoveryError::InvalidPath(e) => "Invalid path in project: "@ + e@,
        }
    }

    /// The message for people.
    pub fn message(&self) -> (t: String)
        ensures
            t@ == self.text(),
    {
        match self {
            RecoveryError::Io(e) => joined("IO error: ", e.as_str()),
            RecoveryError::Lock(e) => joined("Lock error: ", e.as_str()),
            RecoveryError::MissingProjectDir(p) => joined(
                "Project directory does not exist: ",
                p.as_str(),
            ),
            RecoveryError::Manifest(e) => joined("Manifest error: ", e.as_str()),
            RecoveryError::Journal(e) => joined("Journal error: ", e.as_str()),
            RecoveryError::InvalidPath(e) => joined("Invalid path in project: ", e.as_str()),
        }
    }
}

fn joined(a: &str, b: &str) -> (t: String)
    ensures
        t@ == a@ + b@,
{
    let mut t: String = a.to_owned();
    t.append(b);
    t
}

/// What was found of a track.
#[derive(Debug, PartialEq)]
pub struct TrackRecoveryReport {
    pub track_id: String,
    pub valid_segments: usize,
    pub unindexed_recovered_segments: usize,
    pub missing_segments: usize,
    pub total_recoverable_bytes: u64,
    pub max_timestamp_us: u64,
}

impl Clone for TrackRecoveryReport {
    fn clone(&self) -> (r: Self)
        ensures
            r == *self,
    {
        TrackRecoveryReport {
            track_id: self.track_id.clone(),
            valid_segments: self.valid_segments,
            unindexed_recovered_segments: self.unindexed_recovered_segments,
            missing_segments: self.missing_segments,
            total_recoverable_bytes: self.total_recoverable_bytes,
            max_timestamp_us: self.max_timestamp_us,
        }
    }
}

/// A file that the journal had not seen.
#[derive(Debug, PartialEq)]
pub struct RecoveredSegment {
    pub track_id: String,
    pub track_type: TrackType,
    pub relative_path: String,
    pub start_us: u64,
    pub end_us: u64,
    pub size_bytes: u64,
    pub media_timescale: u32,
    pub media_start_value: i64,
    pub host_anchor_us: i64,
}

/// Whether `part` occurs in `s`.
pub open spec fn has_part(s: Seq<char>, part: Seq<char>) -> bool {
    exists|i: int|
        0 <= i && i + part.len() <= s.len() && #[trigger] s.subrange(i, i + part.len()) == part
}

/// Whether `part` occurs in `s`.
pub fn contains_str(s: &str, part: &str) -> (r: bool)
    ensures
        r == has_part(s@, part@),
{
    let v = text::to_chars(s);
    let w = text::to_chars(part);
    let mut i: usize = 0;
    while i <= v.len() && v.len() - i >= w.len()
        invariant
            i <= v@.len() + 1,
            v@ == s@,
            w@ == part@,
            forall|k: int|
                0 <= k < i && k + part@.len() <= s@.len() ==> #[trigger] s@.subrange(
                    k,
                    k + part@.len(),
                ) != part@,
        decreases v@.len() + 1 - i,
    {
        let here = text::from_chars(&v, i, i + w.len());
        if text::str_eq(here.as_str(), part) {
            assert(s@.subrange(i as int, i + part@.len()) == part@);
            return true;
        }
        if i == v.len() {
            return false;
        }
        i = i + 1;
    }
    false
}

/// What a track records, from its name or a path of it.
pub open spec fn type_from(id: Seq<char>, path: Seq<char>) -> TrackType {
    if has_part(id, "webcam"@) || has_part(path, "webcam"@) {
        TrackType::Webcam
    } else if has_part(id, "screen"@) || has_part(path, "screen"@) {
        TrackType::Screen
    } else if has_part(id, "system"@) || has_part(path, "system"@) {
        TrackType::SystemAudio
    } else {
        TrackType::MicAudio
    }
}

/// What a track records, from its name or a path of it.
pub fn determine_track_type(track_id: &str, relative_path: &str) -> (r: TrackType)
    ensures
        r == type_from(track_id@, relative_path@),
{
    if contains_str(track_id, "webcam") || contains_str(relative_path, "webcam") {
        TrackType::Webcam
    } else if contains_str(track_id, "screen") || contains_str(relative_path, "screen") {
        TrackType::Screen
    } else if contains_str(track_id, "system") || contains_str(relative_path, "system") {
        TrackType::SystemAudio
    } else {
        TrackType::MicAudio
    }
}

/// What a file in a track's directory is.
#[derive(Debug, PartialEq)]
pub enum FoundFile {
    /// A committed segment, at this path.
    Committed(String),
    /// A segment that was being written, and the path under which it can be
    /// committed.
    Unfinished(String),
    Other,
}

/// The same, with its path as characters.
pub enum FileSort {
    Committed(Seq<char>),
    Unfinished(Seq<char>),
    Other,
}

impl View for FoundFile {
    type V = FileSort;

    open spec fn view(&self) -> FileSort {
        match self {
            FoundFile::Committed(p) => FileSort::Committed(p@),
            FoundFile::Unfinished(p) => FileSort::Unfinished(p@),
            FoundFile::Other => FileSort::Other,
        }
    }
}

/// What a file in a track's directory is, by its name.
pub open spec fn file_sort(track: Seq<char>, name: Seq<char>) -> FileSort {
    let ext = text::lowered(layout::extension(name));
    let base = name.take(name.len() - 4);
    let dir = "media/"@ + track + "/"@;
    if ext == "mp4"@ || ext == "wav"@ {
        FileSort::Committed(dir + name)
    } else if text::has_suffix(name, ".tmp"@) && (text::has_suffix(base, ".mp4"@)
        || text::has_suffix(base, ".wav"@)) {
        FileSort::Unfinished(dir + base)
    } else {
        FileSort::Other
    }
}

/// What a file in a track's directory is, by its name.
pub fn sort_file(track: &str, name: &str) -> (r: FoundFile)
    ensures
        r@ == file_sort(track@, name@),
{
    let mut path: String = "media/".to_owned();
    path.append(track);
    path.append("/");
    let ext = text::to_ascii_lowercase(file_extension(name).as_str());
    if text::str_eq(ext.as_str(), "mp4") || text::str_eq(ext.as_str(), "wav") {
        path.append(name);
        return FoundFile::Committed(path);
    }
    if text::ends_with(name, ".tmp") {
        proof {
            reveal_strlit(".tmp");
        }
        let v = text::to_chars(name);
        let base = text::from_chars(&v, 0, v.len() - 4);
        assert(base@ =~= name@.take(name@.len() - 4));
        if text::ends_with(base.as_str(), ".mp4") || text::ends_with(base.as_str(), ".wav") {
            path.append(base.as_str());
            return FoundFile::Unfinished(path);
        }
    }
    FoundFile::Other
}

/// What was found of a track, as numbers and characters.
pub struct TrackFound {
    pub id: Seq<char>,
    pub valid: nat,
    pub unindexed: nat,
    pub missing: nat,
    pub bytes: nat,
    /// The end of the last segment.
    pub reach: u64,
}

impl View for TrackRecoveryReport {
    type V = TrackFound;

    open spec fn view(&self) -> TrackFound {
        TrackFound {
            id: self.track_id@,
            valid: self.valid_segments as nat,
            unindexed: self.unindexed_recovered_segments as nat,
            missing: self.missing_segments as nat,
            bytes: self.total_recoverable_bytes as nat,
            reach: self.max_timestamp_us,
        }
    }
}

/// What was found of each track.
pub open spec fn found_tracks(reports: Seq<TrackRecoveryReport>) -> Seq<TrackFound> {
    reports.map_values(|r: TrackRecoveryReport| r@)
}

/// The position of a track, from `i` on.
pub open spec fn track_at(t: Seq<TrackFound>, id: Seq<char>, i: int) -> Option<int>
    decreases t.len() - i,
{
    if i >= t.len() {
        None
    } else if t[i].id == id {
        Some(i)
    } else {
        track_at(t, id, i + 1)
    }
}

/// What was found of a track: nothing, where it is not among them.
pub open spec fn found_of(t: Seq<TrackFound>, id: Seq<char>) -> TrackFound {
    match track_at(t, id, 0) {
        Some(i) => t[i],
        None => TrackFound { id, valid: 0, unindexed: 0, missing: 0, bytes: 0, reach: 0 },
    }
}

/// The tracks with `f` in place of what was found of its track before, or behind them.
pub open spec fn with_track(t: Seq<TrackFound>, f: TrackFound) -> Seq<TrackFound> {
    match track_at(t, f.id, 0) {
        Some(i) => t.update(i, f),
        None => t.push(f),
    }
}

proof fn lemma_track_at(t: Seq<TrackFound>, id: Seq<char>, i: int)
    requires
        0 <= i,
    ensures
        track_at(t, id, i) matches Some(k) ==> i <= k < t.len() && t[k].id == id,
        track_at(t, id, i) is None ==> forall|k: int| i <= k < t.len() ==> (#[trigger] t[k]).id != id,
    decreases t.len() - i,
{
    if i < t.len() && t[i].id != id {
        lemma_track_at(t, id, i + 1);
    }
}

/// What has been recovered so far.
#[derive(Debug)]
pub struct RecoveryEngine {
    /// One for each track, in the order in which they were found.
    pub reports: Vec<TrackRecoveryReport>,
    /// The paths that the journal holds.
    pub indexed: Vec<String>,
    pub duration_us: u64,
    pub pauses: Vec<PauseInterval>,
    pub recovered: Vec<RecoveredSegment>,
}

/// Whether a report has room for one more segment of `bytes` bytes.
pub open spec fn has_room(r: TrackRecoveryReport, bytes: u64) -> bool {
    &&& r.valid_segments < usize::MAX
    &&& r.unindexed_recovered_segments < usize::MAX
    &&& r.missing_segments < usize::MAX
    &&& r.total_recoverable_bytes + bytes <= u64::MAX
}

/// A track after a committed segment: one that is there, with `bytes` bytes, or one that
/// is missing.
pub open spec fn with_indexed(f: TrackFound, found: Option<u64>, end_us: u64) -> TrackFound {
    match found {
        Some(bytes) => TrackFound {
            valid: f.valid + 1,
            bytes: f.bytes + bytes as nat,
            reach: later_of(end_us, f.reach),
            ..f
        },
        None => TrackFound { missing: f.missing + 1, ..f },
    }
}

/// Where a file that the journal had not seen starts: where its media says, or after
/// what was found of its track.
pub open spec fn unindexed_start(f: TrackFound, media_start: u64) -> u64 {
    if media_start > 0 {
        media_start
    } else {
        f.reach
    }
}

/// A track after a file that the journal had not seen.
pub open spec fn with_unindexed(
    f: TrackFound,
    media_start: u64,
    duration: u64,
    bytes: u64,
) -> TrackFound {
    TrackFound {
        unindexed: f.unindexed + 1,
        bytes: f.bytes + bytes as nat,
        reach: (unindexed_start(f, media_start) + duration) as u64,
        ..f
    }
}

pub open spec fn later_of(a: u64, b: u64) -> u64 {
    if a > b {
        a
    } else {
        b
    }
}

impl RecoveryEngine {
    /// Each track has one report, and what is recoverable reaches to the end of every
    /// track.
    pub open spec fn wf(&self) -> bool {
        &&& forall|i: int|
            0 <= i < self.reports@.len() ==> (#[trigger] self.reports@[i]).max_timestamp_us
                <= self.duration_us
        &&& forall|i: int, j: int|
            0 <= i < j < self.reports@.len() ==> (#[trigger] self.reports@[i]).track_id@ != (
            #[trigger] self.reports@[j]).track_id@
        &&& forall|i: int|
            0 <= i < self.recovered@.len() ==> (#[trigger] self.recovered@[i]).end_us
                <= self.duration_us
    }

    /// Nothing yet.
    pub fn new() -> (r: Self)
        ensures
            r.wf(),
            r.reports@.len() == 0,
            r.indexed@.len() == 0,
            r.duration_us == 0,
            r.pauses@.len() == 0,
            r.recovered@.len() == 0,
    {
        RecoveryEngine {
            reports: Vec::new(),
            indexed: Vec::new(),
            duration_us: 0,
            pauses: Vec::new(),
            recovered: Vec::new(),
        }
    }

    /// The position of a track's report, which is made where there is none.
    fn report_of(&mut self, track_id: &str) -> (i: usize)
        requires
            old(self).wf(),
        ensures
            final(self).wf(),
            i < final(self).reports@.len(),
            final(self).reports@[i as int]@ == found_of(found_tracks(old(self).reports@), track_id@),
            match track_at(found_tracks(old(self).reports@), track_id@, 0) {
                Some(k) => i == k && *final(self) == *old(self),
                None => {
                    &&& i == old(self).reports@.len()
                    &&& final(self).reports@ == old(self).reports@.push(
                        final(self).reports@[i as int],
                    )
                    &&& *final(self) == (RecoveryEngine { reports: final(self).reports, ..*old(self) })
                },
            },
    {
        let ghost t = found_tracks(self.reports@);
        let mut i: usize = 0;
        proof {
            lemma_track_at(t, track_id@, 0);
        }
        while i < self.reports.len()
            invariant
                i <= self.reports@.len(),
                *self == *old(self),
                self.wf(),
                t == found_tracks(self.reports@),
                track_at(t, track_id@, 0) == track_at(t, track_id@, i as int),
            decreases self.reports@.len() - i,
        {
            assert(t[i as int] == self.reports@[i as int]@);
            if text::str_eq(self.reports[i].track_id.as_str(), track_id) {
                return i;
            }
            i = i + 1;
        }
        proof {
            assert forall|k: int| 0 <= k < self.reports@.len() implies (
            #[trigger] self.reports@[k]).track_id@ != track_id@ by {
                assert(t[k].id == self.reports@[k].track_id@);
            }
        }
        self.reports.push(
            TrackRecoveryReport {
                track_id: track_id.to_owned(),
                valid_segments: 0,
                unindexed_recovered_segments: 0,
                missing_segments: 0,
                total_recoverable_bytes: 0,
                max_timestamp_us: 0,
            },
        );
        i
    }

    /// Puts a track's new report in the place of its old one.
    fn set_report(&mut self, i: usize, r: TrackRecoveryReport, Ghost(before): Ghost<Seq<TrackFound>>)
        requires
            old(self).wf(),
            i < old(self).reports@.len(),
            r.track_id@ == old(self).reports@[i as int].track_id@,
            r.max_timestamp_us <= old(self).duration_us,
            match track_at(before, r.track_id@, 0) {
                Some(k) => i == k && found_tracks(old(self).reports@) == before,
                None => i == before.len() && found_tracks(old(self).reports@).len() == i + 1
                    && found_tracks(old(self).reports@).take(i as int) == before,
            },
        ensures
            final(self).wf(),
            found_tracks(final(self).reports@) == with_track(before, r@),
            *final(self) == (RecoveryEngine { reports: final(self).reports, ..*old(self) }),
    {
        let ghost mid = self.reports@;
        self.reports.set(i, r);
        proof {
            assert(found_tracks(self.reports@) =~= found_tracks(mid).update(i as int, r@));
            if track_at(before, r.track_id@, 0) is None {
                assert(found_tracks(self.reports@) =~= before.push(r@)) by {
                    assert forall|k: int| 0 <= k < i implies found_tracks(self.reports@)[k]
                        == #[trigger] before[k] by {
                        assert(found_tracks(mid).take(i as int)[k] == before[k]);
                    }
                }
            }
            assert forall|a: int, b: int| 0 <= a < b < self.reports@.len() implies (
            #[trigger] self.reports@[a]).track_id@ != (#[trigger] self.reports@[b]).track_id@ by {
                assert(mid[a].track_id@ != mid[b].track_id@);
            }
        }
    }

    /// Takes a committed segment of the journal in. Its file has `found` bytes, where
    /// it is there, long enough, and holds valid media.
    pub fn add_committed(
        &mut self,
        track_id: &str,
        relative_path: &str,
        end_us: u64,
        found: Option<u64>,
    )
        requires
            old(self).wf(),
            forall|i: int|
                0 <= i < old(self).reports@.len() ==> has_room(
                    #[trigger] old(self).reports@[i],
                    found.unwrap_or(0),
                ),
        ensures
            final(self).wf(),
            final(self).pauses == old(self).pauses,
            final(self).recovered == old(self).recovered,
            paths::texts(final(self).indexed@) == paths::texts(old(self).indexed@).push(
                relative_path@,
            ),
            final(self).duration_us == if found is Some {
                later_of(end_us, old(self).duration_us)
            } else {
                old(self).duration_us
            },
            found_tracks(final(self).reports@) == with_track(
                found_tracks(old(self).reports@),
                with_indexed(found_of(found_tracks(old(self).reports@), track_id@), found, end_us),
            ),
    {
        let ghost before = found_tracks(self.reports@);
        let ghost paths_before = paths::texts(self.indexed@);
        self.indexed.push(relative_path.to_owned());
        assert(paths::texts(self.indexed@) =~= paths_before.push(relative_path@));
        let i: usize = self.report_of(track_id);
        proof {
            lemma_track_at(before, track_id@, 0);
            assert(found_tracks(self.reports@).take(before.len() as int) =~= before);
        }
        let ghost was = self.reports@[i as int]@;
        let mut r: TrackRecoveryReport = self.reports[i].clone();
        match found {
            Some(bytes) => {
                r.valid_segments = r.valid_segments + 1;
                r.total_recoverable_bytes = r.total_recoverable_bytes + bytes;
                if end_us > r.max_timestamp_us {
                    r.max_timestamp_us = end_us;
                }
                if end_us > self.duration_us {
                    self.duration_us = end_us;
                }
            },
            None => {
                r.missing_segments = r.missing_segments + 1;
            },
        }
        assert(r@ == with_indexed(was, found, end_us));
        assert(before.len() == found_tracks(self.reports@).len() ==> found_tracks(self.reports@)
            == before);
        self.set_report(i, r, Ghost(before));
    }

    /// Takes a pause of the journal in.
    pub fn add_pause(&mut self, start_us: u64, end_us: u64)
        requires
            old(self).wf(),
        ensures
            final(self).wf(),
            final(self).pauses@ == old(self).pauses@.push(PauseInterval { start_us, end_us }),
            *final(self) == (RecoveryEngine { pauses: final(self).pauses, ..*old(self) }),
    {
        self.pauses.push(PauseInterval { start_us, end_us });
    }

    /// Whether the journal holds a path.
    pub fn is_indexed(&self, relative_path: &str) -> (r: bool)
        ensures
            r == paths::texts(self.indexed@).contains(relative_path@),
    {
        contains_text(&self.indexed, relative_path)
    }

    /// Takes a file with valid media in that the journal had not seen.
    pub fn add_unindexed(
        &mut self,
        track_id: &str,
        track_type: TrackType,
        relative_path: &str,
        info: &MediaValidationInfo,
    )
        requires
            old(self).wf(),
            info.start_us + info.duration_us <= u64::MAX,
            forall|i: int|
                0 <= i < old(self).reports@.len() ==> has_room(
                    #[trigger] old(self).reports@[i],
                    info.size_bytes,
                ) && old(self).reports@[i].max_timestamp_us + info.duration_us <= u64::MAX,
        ensures
            final(self).wf(),
            final(self).pauses == old(self).pauses,
            final(self).indexed == old(self).indexed,
            ({
                let tracks = found_tracks(old(self).reports@);
                let was = found_of(tracks, track_id@);
                let now = with_unindexed(was, info.start_us, info.duration_us, info.size_bytes);
                &&& found_tracks(final(self).reports@) == with_track(tracks, now)
                &&& final(self).duration_us == later_of(now.reach, old(self).duration_us)
                &&& final(self).recovered@.len() == old(self).recovered@.len() + 1
                &&& final(self).recovered@.drop_last() == old(self).recovered@
                &&& is_recovered(
                    final(self).recovered@.last(),
                    track_id@,
                    track_type,
                    relative_path@,
                    unindexed_start(was, info.start_us),
                    now.reach,
                    *info,
                )
            }),
    {
        let ghost before = found_tracks(self.reports@);
        let ghost segments = self.recovered@;
        let i: usize = self.report_of(track_id);
        proof {
            lemma_track_at(before, track_id@, 0);
            assert(found_tracks(self.reports@).take(before.len() as int) =~= before);
        }
        let ghost was = self.reports@[i as int]@;
        let mut r: TrackRecoveryReport = self.reports[i].clone();
        r.unindexed_recovered_segments = r.unindexed_recovered_segments + 1;
        r.total_recoverable_bytes = r.total_recoverable_bytes + info.size_bytes;
        let start_us: u64 = if info.start_us > 0 {
            info.start_us
        } else {
            r.max_timestamp_us
        };
        let end_us: u64 = start_us + info.duration_us;
        r.max_timestamp_us = end_us;
        if end_us > self.duration_us {
            self.duration_us = end_us;
        }
        assert(r@ == with_unindexed(was, info.start_us, info.duration_us, info.size_bytes));
        assert(before.len() == found_tracks(self.reports@).len() ==> found_tracks(self.reports@)
            == before);
        self.set_report(i, r, Ghost(before));
        let segment = RecoveredSegment {
            track_id: track_id.to_owned(),
            track_type,
            relative_path: relative_path.to_owned(),
            start_us,
            end_us,
            size_bytes: info.size_bytes,
            media_timescale: info.media_timescale,
            media_start_value: info.media_start_value,
            host_anchor_us: info.host_anchor_us,
        };
        self.recovered.push(segment);
        assert(self.recovered@.drop_last() =~= segments);
    }
}

/// Whether `s` is the recovered segment of a file.
pub open spec fn is_recovered(
    s: RecoveredSegment,
    track: Seq<char>,
    track_type: TrackType,
    path: Seq<char>,
    start_us: u64,
    end_us: u64,
    info: MediaValidationInfo,
) -> bool {
    &&& s.track_id@ == track
    &&& s.track_type == track_type
    &&& s.relative_path@ == path
    &&& s.start_us == start_us
    &&& s.end_us == end_us
    &&& s.size_bytes == info.size_bytes
    &&& s.media_timescale == info.media_timescale
    &&& s.media_start_value == info.media_start_value
    &&& s.host_anchor_us == info.host_anchor_us
}

/// What becomes of a file in a track's directory.
#[derive(Debug, Clone, Copy, PartialEq, Eq, Structural)]
pub enum FileStep {
    /// It stays as it is.
    Leave,
    /// It is a committed segment that the journal had not seen, and is taken in.
    Take,
    /// It was not finished, and is removed: it cannot be used, or its place is taken.
    Remove,
    /// It was not finished, takes the place of a committed segment, and is taken in.
    Publish,
}

/// What becomes of a file, where the journal holds the paths `indexed`.
pub open spec fn file_step(
    file: FileSort,
    indexed: Seq<Seq<char>>,
    in_root: bool,
    valid: bool,
    place_taken: bool,
) -> FileStep {
    match file {
        FileSort::Committed(path) => if in_root && !indexed.contains(path) && valid {
            FileStep::Take
        } else {
            FileStep::Leave
        },
        FileSort::Unfinished(_) => if !in_root {
            FileStep::Leave
        } else if valid && !place_taken {
            FileStep::Publish
        } else {
            FileStep::Remove
        },
        FileSort::Other => FileStep::Leave,
    }
}

impl RecoveryEngine {
    /// Decides what becomes of a file: whether its path lies in the project, whether it
    /// holds valid media, and whether its place is taken, has been looked at.
    pub fn judge_file(&self, file: &FoundFile, in_root: bool, valid: bool, place_taken: bool) -> (r:
        FileStep)
        ensures
            r == file_step(file@, paths::texts(self.indexed@), in_root, valid, place_taken),
    {
        match file {
            FoundFile::Committed(path) => {
                if in_root && valid && !self.is_indexed(path.as_str()) {
                    FileStep::Take
                } else {
                    FileStep::Leave
                }
            },
            FoundFile::Unfinished(_) => {
                if !in_root {
                    FileStep::Leave
                } else if valid && !place_taken {
                    FileStep::Publish
                } else {
                    FileStep::Remove
                }
            },
            FoundFile::Other => FileStep::Leave,
        }
    }
}

/// A recovery removes nothing that was committed, replaces nothing that is there, and
/// takes in only valid media in the project.
pub proof fn recovery_destroys_nothing_committed(
    file: FileSort,
    indexed: Seq<Seq<char>>,
    in_root: bool,
    valid: bool,
    place_taken: bool,
)
    ensures
        ({
            let step = file_step(file, indexed, in_root, valid, place_taken);
            &&& step == FileStep::Remove ==> file is Unfinished && (!valid || place_taken)
            &&& step == FileStep::Publish ==> file is Unfinished && !place_taken
            &&& step == FileStep::Take || step == FileStep::Publish ==> valid && in_root
        }),
{
}

/// A file is taken in once: when its path is in the journal, it is left as it is.
pub proof fn indexed_files_are_left(path: Seq<char>, indexed: Seq<Seq<char>>, valid: bool)
    requires
        indexed.contains(path),
    ensures
        file_step(FileSort::Committed(path), indexed, true, valid, true) == FileStep::Leave,
{
}

/// Whether `m` is the manifest that a recovery starts from, without one on disk.
pub open spec fn is_baseline(m: ProjectManifest, folder_name: Seq<char>) -> bool {
    &&& m.version == manifest::CURRENT_VERSION
    &&& m.session_id@ == "recovered-session"@
    &&& m.project_name@ == folder_name
    &&& m.tracks@.len() == 0
    &&& m.pause_intervals@.len() == 0
    &&& m.duration_us == 0
    &&& m.active_duration_us == 0
    &&& m.gaps_total == 0
    &&& m.source_geometry is None
    &&& m.cursor_mode is None
}

/// The manifest that a recovery starts from: the stored one, if it is valid, or a new one
/// that is named like the folder.
pub fn baseline_manifest(stored: Option<ProjectManifest>, folder_name: &str) -> (r: Result<
    ProjectManifest,
    RecoveryError,
>)
    ensures
        match stored {
            Some(m) => match m.fault() {
                None => r == Ok::<ProjectManifest, RecoveryError>(m),
                Some(fault) => r matches Err(RecoveryError::Manifest(e)) && e@
                    == "Validation error: "@ + fault.text(),
            },
            None => r matches Ok(m) && is_baseline(m, folder_name@),
        },
{
    match stored {
        Some(m) => match m.validate() {
            Ok(()) => Ok(m),
            Err(fault) => Err(
                RecoveryError::Manifest(joined("Validation error: ", fault.message().as_str())),
            ),
        },
        None => Ok(ProjectManifest::new("recovered-session".to_owned(), folder_name.to_owned())),
    }
}

/// The bytes of a committed segment's file, where it can be used: it is as long as
/// was committed, not empty, and holds valid media.
pub fn usable_bytes(file_len: Option<u64>, size_bytes: u64, valid: bool) -> (r: Option<u64>)
    ensures
        r == match file_len {
            Some(n) => if n >= size_bytes && n > 0 && valid {
                Some(n)
            } else {
                None
            },
            None => None,
        },
{
    match file_len {
        Some(n) => if n >= size_bytes && n > 0 && valid {
            Some(n)
        } else {
            None
        },
        None => None,
    }
}

impl RecoveryEngine {
    /// Takes a record of the journal in. Where it commits a segment, its path has been
    /// held against the project's root, and its file has `found` usable bytes.
    pub fn add_record(
        &mut self,
        record: &JournalRecord,
        path_check: Result<(), String>,
        found: Option<u64>,
    ) -> (r: Result<(), RecoveryError>)
        requires
            old(self).wf(),
            forall|i: int|
                0 <= i < old(self).reports@.len() ==> has_room(
                    #[trigger] old(self).reports@[i],
                    found.unwrap_or(0),
                ),
        ensures
            final(self).wf(),
            match *record {
                JournalRecord::SegmentCommitted { track_id, relative_path, end_us, .. } => {
                    match path_check {
                        Err(e) => r == Err::<(), RecoveryError>(RecoveryError::InvalidPath(e))
                            && *final(self) == *old(self),
                        Ok(()) => {
                            &&& r is Ok
                            &&& final(self).pauses == old(self).pauses
                            &&& final(self).recovered == old(self).recovered
                            &&& paths::texts(final(self).indexed@) == paths::texts(
                                old(self).indexed@,
                            ).push(relative_path@)
                            &&& final(self).duration_us == if found is Some {
                                later_of(end_us, old(self).duration_us)
                            } else {
                                old(self).duration_us
                            }
                            &&& found_tracks(final(self).reports@) == with_track(
                                found_tracks(old(self).reports@),
                                with_indexed(
                                    found_of(found_tracks(old(self).reports@), track_id@),
                                    found,
                                    end_us,
                                ),
                            )
                        },
                    }
                },
                JournalRecord::PauseEnded { seq: _, start_us, end_us } => {
                    &&& r is Ok
                    &&& final(self).pauses@ == old(self).pauses@.push(
                        PauseInterval { start_us, end_us },
                    )
                    &&& *final(self) == (RecoveryEngine { pauses: final(self).pauses, ..*old(self) })
                },
                _ => r is Ok && *final(self) == *old(self),
            },
    {
        match record {
            JournalRecord::SegmentCommitted { track_id, relative_path, end_us, .. } => {
                match path_check {
                    Err(e) => Err(RecoveryError::InvalidPath(e)),
                    Ok(()) => {
                        self.add_committed(
                            track_id.as_str(),
                            relative_path.as_str(),
                            *end_us,
                            found,
                        );
                        Ok(())
                    },
                }
            },
            JournalRecord::PauseEnded { seq: _, start_us, end_us } => {
                self.add_pause(*start_us, *end_us);
                Ok(())
            },
            _ => Ok(()),
        }
    }

    /// The records with which the recovered files go into the journal.
    pub fn index_records(&self) -> (out: Vec<JournalRecord>)
        ensures
            out@.len() == self.recovered@.len(),
            forall|i: int|
                0 <= i < out@.len() ==> #[trigger] out@[i] == recovered_record(self.recovered@[i]),
    {
        let mut out: Vec<JournalRecord> = Vec::new();
        let mut i: usize = 0;
        while i < self.recovered.len()
            invariant
                i <= self.recovered@.len(),
                out@.len() == i,
                forall|k: int|
                    0 <= k < i ==> #[trigger] out@[k] == recovered_record(self.recovered@[k]),
            decreases self.recovered@.len() - i,
        {
            let s: &RecoveredSegment = &self.recovered[i];
            out.push(
                JournalRecord::UnindexedSegmentRecovered {
                    seq: 0,
                    track_id: s.track_id.clone(),
                    relative_path: s.relative_path.clone(),
                    start_us: s.start_us,
                    end_us: s.end_us,
                    size_bytes: s.size_bytes,
                    media_timescale: s.media_timescale,
                    media_start_value: s.media_start_value,
                    host_anchor_us: s.host_anchor_us,
                },
            );
            i = i + 1;
        }
        out
    }
}

/// What was found of a journal's record: whether its path lies in the project, and the
/// usable bytes of its file, where it commits a segment.
#[derive(Debug)]
pub struct RecordLook {
    pub path_check: Result<(), String>,
    pub found: Option<u64>,
}

/// Whether a record commits a segment.
pub open spec fn commits(r: JournalRecord) -> bool {
    r is SegmentCommitted
}

/// The pauses that ended in the first `n` records, in order.
pub open spec fn ended_pauses(records: Seq<JournalRecord>, n: nat) -> Seq<PauseInterval>
    decreases n,
{
    if n == 0 {
        Seq::empty()
    } else {
        let before = ended_pauses(records, (n - 1) as nat);
        match records[n - 1] {
            JournalRecord::PauseEnded { seq: _, start_us, end_us } => before.push(
                PauseInterval { start_us, end_us },
            ),
            _ => before,
        }
    }
}

/// The paths of the segments that the first `n` records commit, in order.
pub open spec fn committed_paths(records: Seq<JournalRecord>, n: nat) -> Seq<Seq<char>>
    decreases n,
{
    if n == 0 {
        Seq::empty()
    } else {
        let before = committed_paths(records, (n - 1) as nat);
        match records[n - 1] {
            JournalRecord::SegmentCommitted { relative_path, .. } => before.push(relative_path@),
            _ => before,
        }
    }
}

/// What the first `n` records and their files say of each track.
pub open spec fn journal_tracks(
    records: Seq<JournalRecord>,
    looks: Seq<RecordLook>,
    n: nat,
) -> Seq<TrackFound>
    decreases n,
{
    if n == 0 {
        Seq::empty()
    } else {
        let before = journal_tracks(records, looks, (n - 1) as nat);
        match records[n - 1] {
            JournalRecord::SegmentCommitted { track_id, end_us, .. } => with_track(
                before,
                with_indexed(found_of(before, track_id@), looks[n - 1].found, end_us),
            ),
            _ => before,
        }
    }
}

/// The end of the last segment that the first `n` records commit and that is there.
pub open spec fn journal_reach(
    records: Seq<JournalRecord>,
    looks: Seq<RecordLook>,
    n: nat,
) -> u64
    decreases n,
{
    if n == 0 {
        0
    } else {
        let before = journal_reach(records, looks, (n - 1) as nat);
        match records[n - 1] {
            JournalRecord::SegmentCommitted { end_us, .. } => if looks[n - 1].found is Some {
                later_of(end_us, before)
            } else {
                before
            },
            _ => before,
        }
    }
}

/// The usable bytes of the first `n` records' files.
pub open spec fn found_bytes(looks: Seq<RecordLook>, n: nat) -> nat
    decreases n,
{
    if n == 0 {
        0
    } else {
        found_bytes(looks, (n - 1) as nat) + looks[n - 1].found.unwrap_or(0) as nat
    }
}

proof fn lemma_found_bytes(looks: Seq<RecordLook>, n: nat, m: nat)
    requires
        n <= m,
    ensures
        found_bytes(looks, n) <= found_bytes(looks, m),
    decreases m,
{
    if n < m {
        lemma_found_bytes(looks, n, (m - 1) as nat);
    }
}

/// The first record from `i` on whose path does not lie in the project.
pub open spec fn first_stray(
    records: Seq<JournalRecord>,
    looks: Seq<RecordLook>,
    i: int,
) -> Option<int>
    decreases records.len() - i,
{
    if i >= records.len() {
        None
    } else if commits(records[i]) && looks[i].path_check is Err {
        Some(i)
    } else {
        first_stray(records, looks, i + 1)
    }
}

/// Whether no track of `t` has more than `segments` segments of a kind, or more than
/// `bytes` bytes.
spec fn at_most(t: Seq<TrackFound>, segments: nat, bytes: nat) -> bool {
    forall|k: int|
        0 <= k < t.len() ==> (#[trigger] t[k]).valid <= segments && t[k].missing <= segments
            && t[k].unindexed == 0 && t[k].bytes <= bytes
}

proof fn lemma_at_most(records: Seq<JournalRecord>, looks: Seq<RecordLook>, n: nat)
    ensures
        at_most(journal_tracks(records, looks, n), n, found_bytes(looks, n)),
    decreases n,
{
    if n > 0 {
        let m = (n - 1) as nat;
        lemma_at_most(records, looks, m);
        let before = journal_tracks(records, looks, m);
        match records[n - 1] {
            JournalRecord::SegmentCommitted { track_id, .. } => {
                lemma_track_at(before, track_id@, 0);
            },
            _ => {},
        }
    }
}

impl RecoveryEngine {
    /// Takes a whole journal in, whose records have been looked at: the files of each
    /// track, the paths that are known, and the pauses. A path that leaves the project
    /// ends the recovery.
    pub fn read_journal(records: &Vec<JournalRecord>, looks: &Vec<RecordLook>) -> (r: Result<
        RecoveryEngine,
        RecoveryError,
    >)
        requires
            records@.len() == looks@.len(),
            found_bytes(looks@, looks@.len()) <= u64::MAX,
        ensures
            match r {
                Ok(e) => {
                    &&& first_stray(records@, looks@, 0) is None
                    &&& e.wf()
                    &&& found_tracks(e.reports@) == journal_tracks(
                        records@,
                        looks@,
                        records@.len(),
                    )
                    &&& paths::texts(e.indexed@) == committed_paths(records@, records@.len())
                    &&& e.pauses@ == ended_pauses(records@, records@.len())
                    &&& e.duration_us == journal_reach(records@, looks@, records@.len())
                    &&& e.recovered@.len() == 0
                },
                Err(e) => first_stray(records@, looks@, 0) matches Some(i)
                    && looks@[i].path_check matches Err(why) && (
                e matches RecoveryError::InvalidPath(said) && said@ == why@),
            },
    {
        let mut e = RecoveryEngine::new();
        let mut i: usize = 0;
        assert(found_tracks(e.reports@) =~= Seq::<TrackFound>::empty());
        assert(paths::texts(e.indexed@) =~= Seq::<Seq<char>>::empty());
        assert(e.pauses@ =~= Seq::<PauseInterval>::empty());
        while i < records.len()
            invariant
                i <= records@.len() == looks@.len(),
                found_bytes(looks@, looks@.len()) <= u64::MAX,
                first_stray(records@, looks@, 0) == first_stray(records@, looks@, i as int),
                e.wf(),
                found_tracks(e.reports@) == journal_tracks(records@, looks@, i as nat),
                paths::texts(e.indexed@) == committed_paths(records@, i as nat),
                e.pauses@ == ended_pauses(records@, i as nat),
                e.duration_us == journal_reach(records@, looks@, i as nat),
                e.recovered@.len() == 0,
            decreases records@.len() - i,
        {
            proof {
                lemma_at_most(records@, looks@, i as nat);
                lemma_found_bytes(looks@, (i + 1) as nat, looks@.len());
                let t = journal_tracks(records@, looks@, i as nat);
                assert forall|k: int| 0 <= k < e.reports@.len() implies has_room(
                    #[trigger] e.reports@[k],
                    looks@[i as int].found.unwrap_or(0),
                ) by {
                    assert(found_tracks(e.reports@)[k] == e.reports@[k]@);
                    assert(t[k].valid <= i);
                }
            }
            let check: Result<(), String> = match &looks[i].path_check {
                Ok(()) => Ok(()),
                Err(why) => Err(why.clone()),
            };
            match e.add_record(&records[i], check, looks[i].found) {
                Ok(()) => {},
                Err(fault) => {
                    return Err(fault);
                },
            }
            i = i + 1;
        }
        Ok(e)
    }
}

/// The record with which a recovered file goes into the journal.
pub open spec fn recovered_record(s: RecoveredSegment) -> JournalRecord {
    JournalRecord::UnindexedSegmentRecovered {
        seq: 0,
        track_id: s.track_id,
        relative_path: s.relative_path,
        start_us: s.start_us,
        end_us: s.end_us,
        size_bytes: s.size_bytes,
        media_timescale: s.media_timescale,
        media_start_value: s.media_start_value,
        host_anchor_us: s.host_anchor_us,
    }
}

/// The length of all pauses together.
pub open spec fn paused_us(p: Seq<PauseInterval>, n: nat) -> int
    decreases n,
{
    if n == 0 {
        0
    } else {
        paused_us(p, (n - 1) as nat) + if p[n - 1].end_us >= p[n - 1].start_us {
            p[n - 1].end_us - p[n - 1].start_us
        } else {
            0
        }
    }
}

proof fn lemma_paused_grows(p: Seq<PauseInterval>, n: nat, m: nat)
    requires
        n <= m,
    ensures
        0 <= paused_us(p, n) <= paused_us(p, m),
    decreases m,
{
    if n < m {
        lemma_paused_grows(p, n, (m - 1) as nat);
    } else if n > 0 {
        lemma_paused_grows(p, (n - 1) as nat, (n - 1) as nat);
    }
}

/// Whether `t` describes the track of a recovered segment.
pub open spec fn describes(t: TrackDescriptor, s: RecoveredSegment) -> bool {
    let video = s.track_type == TrackType::Screen || s.track_type == TrackType::Webcam;
    let screen = s.track_type == TrackType::Screen;
    &&& t.id == s.track_id
    &&& t.track_type == s.track_type
    &&& t.codec@ == if video {
        "h264"@
    } else {
        "pcm"@
    }
    &&& t.relative_path == s.relative_path
    &&& t.width == if screen {
        Some(1920u32)
    } else {
        None
    }
    &&& t.height == if screen {
        Some(1080u32)
    } else {
        None
    }
    &&& t.fps == if screen {
        Some(30u32)
    } else {
        None
    }
    &&& t.sample_rate == if video {
        None
    } else {
        Some(48_000u32)
    }
    &&& t.channels == if s.track_type == TrackType::MicAudio {
        Some(1u16)
    } else if s.track_type == TrackType::SystemAudio {
        Some(2u16)
    } else {
        None
    }
    &&& t.gaps_total == 0
    &&& t.media_timescale == if s.media_timescale > 0 {
        Some(s.media_timescale)
    } else {
        None
    }
}

/// The description of a recovered segment's track.
pub fn describe(s: &RecoveredSegment) -> (t: TrackDescriptor)
    ensures
        describes(t, *s),
{
    let screen: bool = s.track_type == TrackType::Screen;
    let video: bool = screen || s.track_type == TrackType::Webcam;
    TrackDescriptor {
        id: s.track_id.clone(),
        track_type: s.track_type,
        codec: if video {
            "h264".to_owned()
        } else {
            "pcm".to_owned()
        },
        relative_path: s.relative_path.clone(),
        width: if screen {
            Some(1920)
        } else {
            None
        },
        height: if screen {
            Some(1080)
        } else {
            None
        },
        fps: if screen {
            Some(30)
        } else {
            None
        },
        sample_rate: if video {
            None
        } else {
            Some(48_000)
        },
        channels: if s.track_type == TrackType::MicAudio {
            Some(1)
        } else if s.track_type == TrackType::SystemAudio {
            Some(2)
        } else {
            None
        },
        gaps_total: 0,
        media_timescale: if s.media_timescale > 0 {
            Some(s.media_timescale)
        } else {
            None
        },
    }
}

/// Whether `after` are the tracks `before`, with a description for a segment whose
/// track has none.
pub open spec fn registered_one(
    before: Seq<TrackDescriptor>,
    s: RecoveredSegment,
    after: Seq<TrackDescriptor>,
) -> bool {
    match manifest::find_track(before, s.track_id@, 0) {
        Some(_) => after == before,
        None => after.len() == before.len() + 1 && after.drop_last() == before && describes(
            after.last(),
            s,
        ),
    }
}

/// Whether `after` are the tracks `before`, with a description for each of the first
/// `n` segments whose track has none.
pub open spec fn registered(
    before: Seq<TrackDescriptor>,
    s: Seq<RecoveredSegment>,
    n: nat,
    after: Seq<TrackDescriptor>,
) -> bool
    decreases n,
{
    if n == 0 {
        after == before
    } else {
        exists|mid: Seq<TrackDescriptor>|
            registered(before, s, (n - 1) as nat, mid) && #[trigger] registered_one(
                mid,
                s[n - 1],
                after,
            )
    }
}

proof fn lemma_find_track_kept(a: Seq<TrackDescriptor>, b: Seq<TrackDescriptor>, id: Seq<char>, i: int)
    requires
        a.len() <= b.len(),
        b.take(a.len() as int) == a,
        0 <= i,
    ensures
        manifest::find_track(a, id, i) is Some ==> manifest::find_track(b, id, i) is Some,
    decreases a.len() - i,
{
    if i < a.len() {
        assert(a[i] == b.take(a.len() as int)[i]);
        lemma_find_track_kept(a, b, id, i + 1);
    }
}

proof fn lemma_find_last(a: Seq<TrackDescriptor>, id: Seq<char>, i: int)
    requires
        a.len() > 0,
        a.last().id@ == id,
        0 <= i < a.len(),
    ensures
        manifest::find_track(a, id, i) is Some,
    decreases a.len() - i,
{
    if a[i].id@ != id {
        lemma_find_last(a, id, i + 1);
    }
}

/// After a recovery every recovered segment's track is in the manifest, and no track
/// that was there is lost.
pub proof fn recovered_tracks_are_registered(
    before: Seq<TrackDescriptor>,
    s: Seq<RecoveredSegment>,
    n: nat,
    after: Seq<TrackDescriptor>,
)
    requires
        registered(before, s, n, after),
        n <= s.len(),
    ensures
        before.len() <= after.len(),
        after.take(before.len() as int) == before,
        forall|i: int|
            0 <= i < n ==> manifest::find_track(after, (#[trigger] s[i]).track_id@, 0) is Some,
    decreases n,
{
    if n == 0 {
        assert(after.take(before.len() as int) =~= before);
    } else {
        let mid = choose|mid: Seq<TrackDescriptor>|
            registered(before, s, (n - 1) as nat, mid) && #[trigger] registered_one(
                mid,
                s[n - 1],
                after,
            );
        recovered_tracks_are_registered(before, s, (n - 1) as nat, mid);
        assert(after.take(mid.len() as int) =~= mid);
        assert(after.take(before.len() as int) =~= mid.take(before.len() as int));
        assert forall|i: int| 0 <= i < n implies manifest::find_track(
            after,
            (#[trigger] s[i]).track_id@,
            0,
        ) is Some by {
            if i < n - 1 {
                lemma_find_track_kept(mid, after, s[i].track_id@, 0);
            } else if manifest::find_track(mid, s[n - 1].track_id@, 0) is None {
                lemma_find_last(after, s[n - 1].track_id@, 0);
            }
        }
    }
}

/// What a recovery found.
#[derive(Debug)]
pub struct ProjectRecoveryReport {
    pub session_id: String,
    pub total_journal_entries: usize,
    pub track_reports: Vec<TrackRecoveryReport>,
    pub recoverable_duration_us: u64,
    pub active_duration_us: u64,
    pub pause_intervals: Vec<PauseInterval>,
    pub recovered_manifest: ProjectManifest,
}

fn has_track(tracks: &Vec<TrackDescriptor>, id: &str) -> (r: bool)
    ensures
        r == (manifest::find_track(tracks@, id@, 0) is Some),
{
    let mut i: usize = 0;
    while i < tracks.len()
        invariant
            i <= tracks@.len(),
            manifest::find_track(tracks@, id@, 0) == manifest::find_track(tracks@, id@, i as int),
        decreases tracks@.len() - i,
    {
        if text::str_eq(tracks[i].id.as_str(), id) {
            return true;
        }
        i = i + 1;
    }
    false
}

fn register(tracks: &mut Vec<TrackDescriptor>, segments: &Vec<RecoveredSegment>)
    ensures
        registered(old(tracks)@, segments@, segments@.len(), final(tracks)@),
{
    let mut i: usize = 0;
    while i < segments.len()
        invariant
            i <= segments@.len(),
            registered(old(tracks)@, segments@, i as nat, tracks@),
        decreases segments@.len() - i,
    {
        let ghost mid = tracks@;
        if !has_track(tracks, segments[i].track_id.as_str()) {
            tracks.push(describe(&segments[i]));
            assert(tracks@.drop_last() =~= mid);
        }
        proof {
            let n = (i + 1) as nat;
            assert(registered(old(tracks)@, segments@, (n - 1) as nat, mid));
            assert(registered_one(mid, segments@[n - 1], tracks@));
            assert(registered(old(tracks)@, segments@, n, tracks@));
        }
        i = i + 1;
    }
}

impl RecoveryEngine {
    /// What was found, and the manifest that follows, where the journal held
    /// `journal_entries` records.
    pub fn finish(self, manifest: ProjectManifest, journal_entries: usize) -> (r:
        ProjectRecoveryReport)
        requires
            self.wf(),
            paused_us(self.pauses@, self.pauses@.len()) <= u64::MAX,
            journal_entries + self.recovered@.len() <= usize::MAX,
        ensures
            ({
                let paused = paused_us(self.pauses@, self.pauses@.len());
                let m = r.recovered_manifest;
                &&& r.session_id == manifest.session_id
                &&& r.total_journal_entries == journal_entries + self.recovered@.len()
                &&& r.track_reports == self.reports
                &&& r.recoverable_duration_us == self.duration_us
                &&& r.active_duration_us == if self.duration_us >= paused {
                    self.duration_us - paused
                } else {
                    0
                }
                &&& r.pause_intervals@ == self.pauses@
                &&& m == (ProjectManifest {
                    duration_us: self.duration_us,
                    active_duration_us: r.active_duration_us,
                    pause_intervals: m.pause_intervals,
                    tracks: m.tracks,
                    ..manifest
                })
                &&& m.pause_intervals@ == self.pauses@
                &&& registered(manifest.tracks@, self.recovered@, self.recovered@.len(), m.tracks@)
            }),
    {
        let mut paused: u64 = 0;
        let mut i: usize = 0;
        while i < self.pauses.len()
            invariant
                i <= self.pauses@.len(),
                paused_us(self.pauses@, self.pauses@.len()) <= u64::MAX,
                paused == paused_us(self.pauses@, i as nat),
            decreases self.pauses@.len() - i,
        {
            proof {
                lemma_paused_grows(self.pauses@, (i + 1) as nat, self.pauses@.len());
            }
            let p: PauseInterval = self.pauses[i];
            if p.end_us >= p.start_us {
                paused = paused + (p.end_us - p.start_us);
            }
            i = i + 1;
        }
        let active_duration_us: u64 = if self.duration_us >= paused {
            self.duration_us - paused
        } else {
            0
        };
        let session_id: String = manifest.session_id.clone();
        let mut m: ProjectManifest = manifest;
        m.duration_us = self.duration_us;
        m.active_duration_us = active_duration_us;
        m.pause_intervals = copy_pauses(&self.pauses);
        register(&mut m.tracks, &self.recovered);
        ProjectRecoveryReport {
            session_id,
            total_journal_entries: journal_entries + self.recovered.len(),
            track_reports: self.reports,
            recoverable_duration_us: self.duration_us,
            active_duration_us,
            pause_intervals: self.pauses,
            recovered_manifest: m,
        }
    }
}

/// A committed file is taken in under its own path, and an unfinished one under the path that
/// it would have without its last extension.
pub proof fn files_are_taken_in_at_their_place(track: Seq<char>, name: Seq<char>)
    ensures
        file_sort(track, name) matches FileSort::Committed(p) ==> p == "media/"@ + track + "/"@
            + name,
        file_sort(track, name) matches FileSort::Unfinished(p) ==> p + ".tmp"@ == "media/"@ + track
            + "/"@ + name && (text::has_suffix(p, ".mp4"@) || text::has_suffix(p, ".wav"@)),
{
    reveal_strlit(".tmp");
    reveal_strlit(".mp4");
    reveal_strlit(".wav");
    if let FileSort::Unfinished(p) = file_sort(track, name) {
        let base = name.take(name.len() - 4);
        let dir = "media/"@ + track + "/"@;
        assert(name.skip(name.len() - 4) =~= ".tmp"@);
        assert(name =~= base + name.skip(name.len() - 4));
        assert(p + ".tmp"@ =~= dir + name);
        assert(p.skip(p.len() - 4) =~= base.skip(base.len() - 4));
    }
}

/// Each file that is found is dealt with in one way: a committed one is taken in where the
/// journal does not know it and it can be used; an unfinished one takes its place where it
/// can be used and the place is free, and goes otherwise; nothing outside the project is
/// touched.
pub proof fn every_file_is_dealt_with(
    file: FileSort,
    indexed: Seq<Seq<char>>,
    in_root: bool,
    valid: bool,
    place_taken: bool,
)
    ensures
        ({
            let step = file_step(file, indexed, in_root, valid, place_taken);
            &&& step == FileStep::Take <==> (file matches FileSort::Committed(p) && in_root && valid
                && !indexed.contains(p))
            &&& step == FileStep::Publish <==> file is Unfinished && in_root && valid
                && !place_taken
            &&& step == FileStep::Remove <==> file is Unfinished && in_root && (!valid
                || place_taken)
        }),
{
}

proof fn lemma_first_track(t: Seq<TrackFound>, id: Seq<char>, i: int)
    requires
        0 <= i,
    ensures
        match track_at(t, id, i) {
            Some(k) => i <= k < t.len() && t[k].id == id && forall|j: int|
                i <= j < k ==> (#[trigger] t[j]).id != id,
            None => forall|j: int| i <= j < t.len() ==> (#[trigger] t[j]).id != id,
        },
    decreases t.len() - i,
{
    if i < t.len() && t[i].id != id {
        lemma_first_track(t, id, i + 1);
    }
}

/// What was found of a track replaces what was known of it, and of no other track.
pub proof fn findings_are_kept_by_track(t: Seq<TrackFound>, f: TrackFound, id: Seq<char>)
    ensures
        found_of(with_track(t, f), f.id) == f,
        id != f.id ==> found_of(with_track(t, f), id) == found_of(t, id),
        with_track(t, f).len() >= t.len(),
        found_of(t, id).id == id,
{
    lemma_first_track(t, f.id, 0);
    lemma_first_track(t, id, 0);
    let after = with_track(t, f);
    lemma_first_track(after, f.id, 0);
    lemma_first_track(after, id, 0);
    if let Some(k) = track_at(t, f.id, 0) {
        assert(after[k] == f);
        let j = track_at(after, f.id, 0)->0;
        if j < k {
            assert(t[j].id != f.id);
        }
    } else {
        assert(after[t.len() as int] == f);
    }
    if id != f.id {
        match track_at(t, id, 0) {
            Some(k) => {
                assert(after[k] == t[k]);
                let j = track_at(after, id, 0)->0;
                if j < k {
                    assert(t[j].id != id);
                    assert(after[j].id != id);
                } else if k < j {
                    assert(after[k].id != id);
                }
            },
            None => {
                if let Some(j) = track_at(after, id, 0) {
                    if j < t.len() {
                        assert(t[j].id != id);
                    }
                }
            },
        }
    }
}

/// Each committed segment of the journal counts once for its own track and for no other: as
/// found, with the bytes that were found and up to its end, or as missing. Other records
/// count for none.
pub proof fn committed_segments_are_counted(
    records: Seq<JournalRecord>,
    looks: Seq<RecordLook>,
    n: nat,
    id: Seq<char>,
)
    requires
        n < records.len() == looks.len(),
    ensures
        ({
            let was = found_of(journal_tracks(records, looks, n), id);
            let now = found_of(journal_tracks(records, looks, n + 1), id);
            match records[n as int] {
                JournalRecord::SegmentCommitted { track_id, end_us, .. } => if track_id@ == id {
                    &&& now.unindexed == was.unindexed
                    &&& looks[n as int].found matches Some(bytes) ==> now.valid == was.valid + 1
                        && now.missing == was.missing && now.bytes == was.bytes + bytes && now.reach
                        >= was.reach && now.reach >= end_us && (now.reach == was.reach || now.reach
                        == end_us)
                    &&& looks[n as int].found is None ==> now.valid == was.valid && now.missing
                        == was.missing + 1 && now.bytes == was.bytes && now.reach == was.reach
                } else {
                    now == was
                },
                _ => now == was,
            }
        }),
        found_of(journal_tracks(records, looks, 0), id) == (TrackFound {
            id,
            valid: 0,
            unindexed: 0,
            missing: 0,
            bytes: 0,
            reach: 0,
        }),
{
    let before = journal_tracks(records, looks, n);
    assert((n + 1 - 1) as nat == n);
    if let JournalRecord::SegmentCommitted { track_id, end_us, .. } = records[n as int] {
        let f = with_indexed(found_of(before, track_id@), looks[n as int].found, end_us);
        findings_are_kept_by_track(before, f, id);
        findings_are_kept_by_track(before, f, track_id@);
    }
}

/// The journal reaches as far as the last committed segment that was found, and no further.
pub proof fn the_journal_reaches_its_last_segment(
    records: Seq<JournalRecord>,
    looks: Seq<RecordLook>,
    n: nat,
)
    requires
        n <= records.len() == looks.len(),
    ensures
        forall|i: int|
            0 <= i < n && (#[trigger] looks[i]).found is Some && records[i] is SegmentCommitted
                ==> records[i]->SegmentCommitted_end_us <= journal_reach(records, looks, n),
        journal_reach(records, looks, n) == 0 || exists|i: int|
            0 <= i < n && (#[trigger] looks[i]).found is Some && records[i] is SegmentCommitted
                && records[i]->SegmentCommitted_end_us == journal_reach(records, looks, n),
    decreases n,
{
    if n > 0 {
        the_journal_reaches_its_last_segment(records, looks, (n - 1) as nat);
        let before = journal_reach(records, looks, (n - 1) as nat);
        let now = journal_reach(records, looks, n);
        if now == before {
            if before != 0 {
                let i = choose|i: int|
                    0 <= i < n - 1 && (#[trigger] looks[i]).found is Some
                        && records[i] is SegmentCommitted && records[i]->SegmentCommitted_end_us
                        == before;
                assert(looks[i].found is Some);
            }
        } else {
            assert(looks[n - 1].found is Some);
        }
    }
}

/// A segment that the journal had not seen starts where its own times say, or else where its
/// track ends so far, and its track then ends with it.
pub proof fn unseen_segments_follow_their_track(
    f: TrackFound,
    media_start: u64,
    duration: u64,
    bytes: u64,
)
    requires
        media_start + duration <= u64::MAX,
        f.reach + duration <= u64::MAX,
    ensures
        ({
            let now = with_unindexed(f, media_start, duration, bytes);
            let start = unindexed_start(f, media_start);
            &&& media_start > 0 ==> start == media_start
            &&& media_start == 0 ==> start == f.reach
            &&& now.reach == start + duration
            &&& now.unindexed == f.unindexed + 1
            &&& now.bytes == f.bytes + bytes
            &&& now.valid == f.valid
            &&& now.missing == f.missing
            &&& now.id == f.id
        }),
{
}

/// The journal knows the paths of the segments that it committed, and no others.
pub proof fn committed_paths_are_known(records: Seq<JournalRecord>, n: nat, path: Seq<char>)
    requires
        n <= records.len(),
    ensures
        committed_paths(records, n).contains(path) <==> exists|i: int|
            0 <= i < n && (#[trigger] records[i]) is SegmentCommitted
                && records[i]->SegmentCommitted_relative_path@ == path,
    decreases n,
{
    if n > 0 {
        committed_paths_are_known(records, (n - 1) as nat, path);
        let before = committed_paths(records, (n - 1) as nat);
        let all = committed_paths(records, n);
        if before.contains(path) {
            let i = choose|i: int| 0 <= i < before.len() && before[i] == path;
            assert(all[i] == path);
        }
        if all.contains(path) {
            let i = choose|i: int| 0 <= i < all.len() && all[i] == path;
            if i < before.len() {
                assert(before[i] == path);
            } else {
                assert(records[n - 1] is SegmentCommitted);
            }
        }
        if records[n - 1] is SegmentCommitted && records[n - 1]->SegmentCommitted_relative_path@
            == path {
            assert(all[all.len() - 1] == path);
        }
    }
}

/// The pauses are those that the journal saw end, and no others.
pub proof fn pauses_are_those_that_ended(records: Seq<JournalRecord>, n: nat, p: PauseInterval)
    requires
        n <= records.len(),
    ensures
        ended_pauses(records, n).contains(p) <==> exists|i: int|
            0 <= i < n && (#[trigger] records[i]) is PauseEnded && records[i]->PauseEnded_start_us
                == p.start_us && records[i]->PauseEnded_end_us == p.end_us,
    decreases n,
{
    if n > 0 {
        pauses_are_those_that_ended(records, (n - 1) as nat, p);
        let before = ended_pauses(records, (n - 1) as nat);
        let all = ended_pauses(records, n);
        if before.contains(p) {
            let i = choose|i: int| 0 <= i < before.len() && before[i] == p;
            assert(all[i] == p);
        }
        if all.contains(p) {
            let i = choose|i: int| 0 <= i < all.len() && all[i] == p;
            if i < before.len() {
                assert(before[i] == p);
            } else {
                assert(records[n - 1] is PauseEnded);
            }
        }
        if records[n - 1] is PauseEnded && records[n - 1]->PauseEnded_start_us == p.start_us
            && records[n - 1]->PauseEnded_end_us == p.end_us {
            assert(all[all.len() - 1] == p);
        }
    }
}

proof fn lemma_active(p: Seq<PauseInterval>, i: int, cursor: u64, duration: u64)
    requires
        0 <= i <= p.len(),
        cursor <= duration,
        index::recorded(p, i, cursor, duration) is Some,
    ensures
        timeline::total(index::recorded(p, i, cursor, duration)->0) == duration - cursor - (
        paused_us(p, p.len()) - paused_us(p, i as nat)),
    decreases p.len() - i,
{
    let r = index::recorded(p, i, cursor, duration)->0;
    reveal_with_fuel(timeline::total, 2);
    if i < p.len() {
        lemma_active(p, i + 1, p[i].end_us, duration);
        let rest = index::recorded(p, i + 1, p[i].end_us, duration)->0;
        assert(((i + 1) - 1) as nat == i as nat);
        assert(paused_us(p, (i + 1) as nat) == paused_us(p, i as nat) + (p[i].end_us
            - p[i].start_us));
        if cursor < p[i].start_us {
            assert(r.drop_first() =~= rest);
        }
    } else if cursor < duration {
        assert(r.drop_first() =~= Seq::<timeline::RetainedInterval>::empty());
    }
}

/// The active duration is that of what was recorded: the whole without the pauses.
pub proof fn the_active_duration_is_what_was_recorded(p: Seq<PauseInterval>, duration: u64)
    requires
        index::recorded(p, 0, 0, duration) is Some,
    ensures
        timeline::total(index::recorded(p, 0, 0, duration)->0) == duration - paused_us(p, p.len()),
{
    lemma_active(p, 0, 0, duration);
}

/// A recovered segment is written to the journal as it was found, so that it is listed from
/// then on.
pub proof fn recovered_segments_are_listed(s: RecoveredSegment)
    ensures
        reader::segment_of(recovered_record(s)) matches Some(listed) && {
            &&& listed.track_id == s.track_id
            &&& listed.relative_path == s.relative_path
            &&& listed.start_us == s.start_us
            &&& listed.end_us == s.end_us
            &&& listed.size_bytes == s.size_bytes
            &&& listed.media_timescale == s.media_timescale
            &&& listed.media_start_value == s.media_start_value
            &&& listed.host_anchor_us == s.host_anchor_us
        },
{
}

/// What is recovered is the file that was found, from its start to its end, and its track is
/// described by it.
pub proof fn recovered_segments_are_described(
    s: RecoveredSegment,
    track: Seq<char>,
    track_type: TrackType,
    path: Seq<char>,
    start_us: u64,
    end_us: u64,
    info: MediaValidationInfo,
    t: TrackDescriptor,
)
    requires
        is_recovered(s, track, track_type, path, start_us, end_us, info),
        describes(t, s),
    ensures
        s.track_id@ == track,
        s.relative_path@ == path,
        s.start_us == start_us,
        s.end_us == end_us,
        s.size_bytes == info.size_bytes,
        s.media_timescale == info.media_timescale,
        s.media_start_value == info.media_start_value,
        t.id@ == track,
        t.track_type == track_type,
        t.relative_path@ == path,
        t.gaps_total == 0,
        t.sample_rate is Some <==> track_type == TrackType::MicAudio || track_type
            == TrackType::SystemAudio,
        t.fps is Some <==> track_type == TrackType::Screen,
        info.media_timescale > 0 ==> t.media_timescale == Some(info.media_timescale),
{
}

} // verus!
