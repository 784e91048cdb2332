//! The project manifest: what was recorded, on which tracks, with which pauses.
use crate::capture::SourceGeometry;
use crate::paths;
use crate::text;
use vstd::prelude::*;
use vstd::string::*;

verus! {

/// What a track records.
#[derive(Debug, Clone, Copy, PartialEq, Eq, Structural)]
pub enum TrackType {
    Screen,
    Webcam,
    SystemAudio,
    MicAudio,
}

/// A recorded track.
#[derive(Debug, PartialEq)]
pub struct TrackDescriptor {
    pub id: String,
    pub track_type: TrackType,
    pub codec: String,
    pub relative_path: String,
    pub width: Option<u32>,
    pub height: Option<u32>,
    pub fps: Option<u32>,
    pub sample_rate: Option<u32>,
    pub channels: Option<u16>,
    /// Timeline gaps observed on this track.
    pub gaps_total: u64,
    /// Ticks per second of the track's media clock.
    pub media_timescale: Option<u32>,
}

impl Clone for TrackDescriptor {
    fn clone(&self) -> (r: Self)
        ensures
            r == *self,
    {
        TrackDescriptor {
            id: self.id.clone(),
            track_type: self.track_type,
            codec: self.codec.clone(),
            relative_path: self.relative_path.clone(),
            width: self.width,
            height: self.height,
            fps: self.fps,
            sample_rate: self.sample_rate,
            channels: self.channels,
            gaps_total: self.gaps_total,
            media_timescale: self.media_timescale,
        }
    }
}

/// A stretch of source time in which the recording was paused.
#[derive(Debug, Clone, Copy, PartialEq, Eq, Structural)]
pub struct PauseInterval {
    pub start_us: u64,
    pub end_us: u64,
}

#[derive(Debug, PartialEq)]
pub struct ProjectManifest {
    pub version: u32,
    pub session_id: String,
    pub project_name: String,
    pub created_at: String,
    pub duration_us: u64,
    pub active_duration_us: u64,
    pub pause_intervals: Vec<PauseInterval>,
    /// Timeline gaps observed on all tracks.
    pub gaps_total: u64,
    /// The most recent placement of the source; `None` until there is one.
    pub source_geometry: Option<SourceGeometry>,
    /// Unknown in old bundles.
    pub cursor_mode: Option<String>,
    pub tracks: Vec<TrackDescriptor>,
}

/// Whether two manifests say the same.
pub open spec fn same_manifest(a: ProjectManifest, b: ProjectManifest) -> bool {
    &&& a.version == b.version
    &&& a.session_id == b.session_id
    &&& a.project_name == b.project_name
    &&& a.created_at == b.created_at
    &&& a.duration_us == b.duration_us
    &&& a.active_duration_us == b.active_duration_us
    &&& a.pause_intervals@ == b.pause_intervals@
    &&& a.gaps_total == b.gaps_total
    &&& a.source_geometry == b.source_geometry
    &&& a.cursor_mode == b.cursor_mode
    &&& a.tracks@ == b.tracks@
}

/// Copies pauses.
pub fn copy_pauses(v: &Vec<PauseInterval>) -> (r: Vec<PauseInterval>)
    ensures
        r@ == v@,
{
    let mut out: Vec<PauseInterval> = Vec::new();
    let mut i: usize = 0;
    while i < v.len()
        invariant
            i <= v@.len(),
            out@ == v@.take(i as int),
        decreases v@.len() - i,
    {
        out.push(v[i]);
        i = i + 1;
        assert(v@.take(i as int) =~= v@.take(i - 1).push(v@[i - 1]));
    }
    assert(v@.take(v@.len() as int) =~= v@);
    out
}

fn copy_tracks(v: &Vec<TrackDescriptor>) -> (r: Vec<TrackDescriptor>)
    ensures
        r@ == v@,
{
    let mut out: Vec<TrackDescriptor> = Vec::new();
    let mut i: usize = 0;
    while i < v.len()
        invariant
            i <= v@.len(),
            out@ == v@.take(i as int),
        decreases v@.len() - i,
    {
        out.push(v[i].clone());
        i = i + 1;
        assert(v@.take(i as int) =~= v@.take(i - 1).push(v@[i - 1]));
    }
    assert(v@.take(v@.len() as int) =~= v@);
    out
}

impl Clone for ProjectManifest {
    fn clone(&self) -> (r: Self)
        ensures
            same_manifest(r, *self),
    {
        ProjectManifest {
            version: self.version,
            session_id: self.session_id.clone(),
            project_name: self.project_name.clone(),
            created_at: self.created_at.clone(),
            duration_us: self.duration_us,
            active_duration_us: self.active_duration_us,
            pause_intervals: copy_pauses(&self.pause_intervals),
            gaps_total: self.gaps_total,
            source_geometry: self.source_geometry,
            cursor_mode: match &self.cursor_mode {
                Some(m) => Some(m.clone()),
                None => None,
            },
            tracks: copy_tracks(&self.tracks),
        }
    }
}

#[derive(Debug, PartialEq)]
pub enum ManifestError {
    UnsupportedVersion(u32),
    /// A path that is absolute or climbs.
    InvalidTrackPath(String),
    PathEscapesRoot(String),
    InvalidMetadata,
    Serde(String),
    Io(String),
}

impl ManifestError {
    /// The message for people.
    pub open spec fn text(self) -> Seq<char> {
        match self {
            ManifestError::UnsupportedVersion(v) => "Unsupported manifest version: "@
                + text::decimal(v as nat),
            ManifestError::InvalidTrackPath(p) => "Invalid track path: "@ + p@
                + " (traversal or absolute path detected)"@,
            ManifestError::PathEscapesRoot(p) => "Path escapes project directory root: "@ + p@,
            ManifestError::InvalidMetadata => "Empty session ID or project name"@,
            ManifestError::Serde(e) => "Serialization error: "@ + e@,
            ManifestError::Io(e) => "IO error: "@ + e@,
        }
    }

    /// The message for people.
    pub fn message(&self) -> (t: String)
        ensures
            t@ == self.text(),
    {
        match self {
            ManifestError::UnsupportedVersion(v) => {
                let mut t: String = "Unsupported manifest version: ".to_owned();
                text::push_decimal(&mut t, *v as u64);
                t
            },
            ManifestError::InvalidTrackPath(p) => {
                let mut t: String = "Invalid track path: ".to_owned();
                t.append(p.as_str());
                t.append(" (traversal or absolute path detected)");
                t
            },
            ManifestError::PathEscapesRoot(p) => {
                let mut t: String = "Path escapes project directory root: ".to_owned();
                t.append(p.as_str());
                t
            },
            ManifestError::InvalidMetadata => "Empty session ID or project name".to_owned(),
            ManifestError::Serde(e) => {
                let mut t: String = "Serialization error: ".to_owned();
                t.append(e.as_str());
                t
            },
            ManifestError::Io(e) => {
                let mut t: String = "IO error: ".to_owned();
                t.append(e.as_str());
                t
            },
        }
    }
}

/// Whether `t` can be a timestamp of RFC 3339 in universal time: a date, a time to the
/// second at least, and the offset zero.
pub open spec fn utc_timestamp(t: Seq<char>) -> bool {
    &&& t.len() >= 25
    &&& text::has_suffix(t, "+00:00"@)
}

/// `chrono::Utc::now().to_rfc3339()` writes the wall clock as a timestamp of RFC
/// 3339, with the offset of universal time. Which one it is, is left to the clock.
#[verifier::external_body]
fn utc_now_rfc3339() -> (t: String)
    ensures
        utc_timestamp(t@),
{
    chrono::Utc::now().to_rfc3339()
}

/// The sum of the gap counters of `tracks`.
pub open spec fn track_gaps(tracks: Seq<TrackDescriptor>) -> nat
    decreases tracks.len(),
{
    if tracks.len() == 0 {
        0
    } else {
        track_gaps(tracks.drop_last()) + tracks.last().gaps_total as nat
    }
}

/// The first track with the given identifier.
pub open spec fn find_track(tracks: Seq<TrackDescriptor>, id: Seq<char>, from: int) -> Option<int>
    decreases tracks.len() - from,
{
    if from >= tracks.len() {
        None
    } else if tracks[from].id@ == id {
        Some(from)
    } else {
        find_track(tracks, id, from + 1)
    }
}

/// One more, saturating.
pub open spec fn one_more(n: u64) -> u64 {
    if n < u64::MAX {
        (n + 1) as u64
    } else {
        u64::MAX
    }
}

/// `tracks` with one more gap on the first track with the given identifier.
pub open spec fn with_gap(tracks: Seq<TrackDescriptor>, id: Seq<char>) -> Seq<TrackDescriptor> {
    match find_track(tracks, id, 0) {
        None => tracks,
        Some(i) => tracks.update(
            i,
            (TrackDescriptor { gaps_total: one_more(tracks[i].gaps_total), ..tracks[i] }),
        ),
    }
}

/// Whether a track's path is absolute or climbs.
pub open spec fn bad_path(path: Seq<char>) -> bool {
    paths::absolute(path) || paths::climbs(path)
}

/// The first track from `from` on whose path is absolute or climbs.
pub open spec fn first_bad_path(tracks: Seq<TrackDescriptor>, from: int) -> Option<int>
    decreases tracks.len() - from,
{
    if from >= tracks.len() {
        None
    } else if bad_path(tracks[from].relative_path@) {
        Some(from)
    } else {
        first_bad_path(tracks, from + 1)
    }
}

/// The version of the manifests that are written.
pub const CURRENT_VERSION: u32 = 1;

impl ProjectManifest {
    /// Why the manifest cannot be used; `None` when it can.
    pub open spec fn fault(self) -> Option<ManifestError> {
        if self.version != CURRENT_VERSION {
            Some(ManifestError::UnsupportedVersion(self.version))
        } else if text::trimmed(self.session_id@).len() == 0 || text::trimmed(
            self.project_name@,
        ).len() == 0 {
            Some(ManifestError::InvalidMetadata)
        } else {
            match first_bad_path(self.tracks@, 0) {
                Some(i) => Some(ManifestError::InvalidTrackPath(self.tracks@[i].relative_path)),
                None => None,
            }
        }
    }

    /// A manifest of nothing yet.
    pub fn new_at(session_id: String, project_name: String, created_at: String) -> (m: Self)
        ensures
            m.version == CURRENT_VERSION,
            m.session_id == session_id,
            m.project_name == project_name,
            m.created_at == created_at,
            m.duration_us == 0,
            m.active_duration_us == 0,
            m.pause_intervals@.len() == 0,
            m.gaps_total == 0,
            m.source_geometry is None,
            m.cursor_mode is None,
            m.tracks@.len() == 0,
    {
        ProjectManifest {
            version: CURRENT_VERSION,
            session_id,
            project_name,
            created_at,
            duration_us: 0,
            active_duration_us: 0,
            pause_intervals: Vec::new(),
            gaps_total: 0,
            source_geometry: None,
            cursor_mode: None,
            tracks: Vec::new(),
        }
    }

    /// A manifest of nothing yet, created now.
    pub fn new(session_id: String, project_name: String) -> (m: Self)
        ensures
            m.version == CURRENT_VERSION,
            m.session_id == session_id,
            m.project_name == project_name,
            utc_timestamp(m.created_at@),
            m.duration_us == 0,
            m.active_duration_us == 0,
            m.pause_intervals@.len() == 0,
            m.gaps_total == 0,
            m.source_geometry is None,
            m.cursor_mode is None,
            m.tracks@.len() == 0,
    {
        let created_at: String = utc_now_rfc3339();
        Self::new_at(session_id, project_name, created_at)
    }

    /// The sum of the tracks' gap counters.
    pub fn gaps_total_from_tracks(&self) -> (n: u64)
        requires
            track_gaps(self.tracks@) <= u64::MAX,
        ensures
            n == track_gaps(self.tracks@),
    {
        let mut n: u64 = 0;
        let mut i: usize = 0;
        assert(self.tracks@.take(0) =~= Seq::<TrackDescriptor>::empty());
        while i < self.tracks.len()
            invariant
                i <= self.tracks@.len(),
                track_gaps(self.tracks@) <= u64::MAX,
                n == track_gaps(self.tracks@.take(i as int)),
            decreases self.tracks@.len() - i,
        {
            proof {
                assert(self.tracks@.take(i + 1).drop_last() =~= self.tracks@.take(i as int));
                lemma_track_gaps_prefix(self.tracks@, i + 1);
            }
            n = n + self.tracks[i].gaps_total;
            i = i + 1;
        }
        assert(self.tracks@.take(self.tracks@.len() as int) =~= self.tracks@);
        n
    }

    /// Counts a gap on the first track with the given identifier, and in all.
    /// Returns the new total.
    pub fn record_gap(&mut self, track_id: &str) -> (n: u64)
        ensures
            n == one_more(old(self).gaps_total),
            final(self).gaps_total == n,
            final(self).tracks@ == with_gap(old(self).tracks@, track_id@),
            final(self).version == old(self).version,
            final(self).session_id == old(self).session_id,
            final(self).project_name == old(self).project_name,
            final(self).created_at == old(self).created_at,
            final(self).duration_us == old(self).duration_us,
            final(self).active_duration_us == old(self).active_duration_us,
            final(self).pause_intervals == old(self).pause_intervals,
            final(self).source_geometry == old(self).source_geometry,
            final(self).cursor_mode == old(self).cursor_mode,
    {
        let mut i: usize = 0;
        while i < self.tracks.len() && !text::str_eq(self.tracks[i].id.as_str(), track_id)
            invariant
                i <= self.tracks@.len(),
                *self == *old(self),
                find_track(self.tracks@, track_id@, 0) == find_track(
                    self.tracks@,
                    track_id@,
                    i as int,
                ),
            ensures
                i <= self.tracks@.len(),
                *self == *old(self),
                find_track(self.tracks@, track_id@, 0) == if i < self.tracks@.len() {
                    Some(i as int)
                } else {
                    None
                },
            decreases self.tracks@.len() - i,
        {
            i = i + 1;
        }
        if i < self.tracks.len() {
            let mut track: TrackDescriptor = self.tracks[i].clone();
            track.gaps_total = track.gaps_total.saturating_add(1);
            self.tracks.set(i, track);
        }
        self.gaps_total = self.gaps_total.saturating_add(1);
        self.gaps_total
    }

    /// Checks the version, the names and the tracks' paths.
    pub fn validate(&self) -> (r: Result<(), ManifestError>)
        ensures
            match r {
                Ok(()) => self.fault() is None,
                Err(e) => self.fault() == Some(e),
            },
    {
        if self.version != CURRENT_VERSION {
            return Err(ManifestError::UnsupportedVersion(self.version));
        }
        if text::trim(self.session_id.as_str()).as_str().is_empty() || text::trim(
            self.project_name.as_str(),
        ).as_str().is_empty() {
            return Err(ManifestError::InvalidMetadata);
        }
        let mut i: usize = 0;
        while i < self.tracks.len()
            invariant
                i <= self.tracks@.len(),
                self.version == CURRENT_VERSION,
                text::trimmed(self.session_id@).len() > 0,
                text::trimmed(self.project_name@).len() > 0,
                first_bad_path(self.tracks@, 0) == first_bad_path(self.tracks@, i as int),
            decreases self.tracks@.len() - i,
        {
            let path: &String = &self.tracks[i].relative_path;
            if paths::is_absolute(path.as_str()) || paths::has_parent_part(path.as_str()) {
                return Err(ManifestError::InvalidTrackPath(path.clone()));
            }
            i = i + 1;
        }
        Ok(())
    }

    /// Checks that a path stays within the project's root, also through symbolic
    /// links. `root` is the root's canonical path, or why there is none; `found` is
    /// what the joined path leads to, or why that cannot be told. Returns the joined
    /// path, canonical where it exists.
    pub fn validate_path_in_root(
        root: Result<String, String>,
        relative_path: &str,
        found: Result<NearestPath, String>,
    ) -> (r: Result<String, ManifestError>)
        ensures
            match root {
                Err(e) => r == Err::<String, ManifestError>(ManifestError::Io(e)),
                Ok(root) => if bad_path(relative_path@) {
                    r matches Err(ManifestError::InvalidTrackPath(p)) && p@ == relative_path@
                } else {
                    match found {
                        Err(e) => r == Err::<String, ManifestError>(ManifestError::Io(e)),
                        Ok(near) => if paths::lies_in(near.canonical@, root@) {
                            r matches Ok(p) && p@ == near.leads_to(root@, relative_path@)
                        } else {
                            r matches Err(ManifestError::PathEscapesRoot(p)) && p@ == relative_path@
                        },
                    }
                },
            },
    {
        let root: String = match root {
            Ok(root) => root,
            Err(e) => {
                return Err(ManifestError::Io(e));
            },
        };
        if paths::is_absolute(relative_path) || paths::has_parent_part(relative_path) {
            return Err(ManifestError::InvalidTrackPath(relative_path.to_owned()));
        }
        let near: NearestPath = match found {
            Ok(near) => near,
            Err(e) => {
                return Err(ManifestError::Io(e));
            },
        };
        if !paths::starts_with_path(near.canonical.as_str(), root.as_str()) {
            return Err(ManifestError::PathEscapesRoot(relative_path.to_owned()));
        }
        if near.whole {
            Ok(near.canonical)
        } else {
            Ok(paths::join(root.as_str(), relative_path))
        }
    }
}

/// What a path leads to: the canonical path of the longest stretch of it that is there,
/// and whether that is the whole path.
#[derive(Debug, PartialEq)]
pub struct NearestPath {
    pub canonical: String,
    pub whole: bool,
}

impl NearestPath {
    /// The path below `root`, canonical where it exists.
    pub open spec fn leads_to(self, root: Seq<char>, relative: Seq<char>) -> Seq<char> {
        if self.whole {
            self.canonical@
        } else {
            paths::joined(root, relative)
        }
    }
}

/// A path that is accepted lies in the project's root, whether it exists or not, and so
/// does whatever is there of it.
pub proof fn accepted_paths_stay_in_root(root: Seq<char>, relative: Seq<char>, near: NearestPath)
    requires
        root.len() > 0,
        !bad_path(relative),
        paths::lies_in(near.canonical@, root),
    ensures
        paths::lies_in(near.leads_to(root, relative), root),
{
    paths::joined_paths_stay_below(root, relative);
}

proof fn lemma_track_gaps_prefix(tracks: Seq<TrackDescriptor>, n: int)
    requires
        0 <= n <= tracks.len(),
    ensures
        track_gaps(tracks.take(n)) <= track_gaps(tracks),
    decreases tracks.len() - n,
{
    if n < tracks.len() {
        lemma_track_gaps_prefix(tracks, n + 1);
        assert(tracks.take(n + 1).drop_last() =~= tracks.take(n));
    } else {
        assert(tracks.take(n) =~= tracks);
    }
}

/// Counting a gap on a known track raises the sum of the tracks' counters by one,
/// until that track's counter saturates; on an unknown track the sum stays.
pub proof fn counted_gaps_add_up(tracks: Seq<TrackDescriptor>, id: Seq<char>)
    ensures
        track_gaps(with_gap(tracks, id)) == track_gaps(tracks) + match find_track(tracks, id, 0) {
            Some(i) if tracks[i].gaps_total < u64::MAX => 1nat,
            _ => 0nat,
        },
{
    lemma_find_track_range(tracks, id, 0);
    match find_track(tracks, id, 0) {
        Some(i) => {
            lemma_track_gaps_update(
                tracks,
                i,
                (TrackDescriptor { gaps_total: one_more(tracks[i].gaps_total), ..tracks[i] }),
            );
        },
        None => {},
    }
}

proof fn lemma_find_track_range(tracks: Seq<TrackDescriptor>, id: Seq<char>, from: int)
    requires
        0 <= from,
    ensures
        find_track(tracks, id, from) matches Some(i) ==> from <= i < tracks.len(),
    decreases tracks.len() - from,
{
    if from < tracks.len() {
        lemma_find_track_range(tracks, id, from + 1);
    }
}

proof fn lemma_track_gaps_update(tracks: Seq<TrackDescriptor>, i: int, t: TrackDescriptor)
    requires
        0 <= i < tracks.len(),
    ensures
        track_gaps(tracks.update(i, t)) == track_gaps(tracks) - tracks[i].gaps_total
            + t.gaps_total,
    decreases tracks.len(),
{
    let u = tracks.update(i, t);
    if i == tracks.len() - 1 {
        assert(u.drop_last() =~= tracks.drop_last());
    } else {
        lemma_track_gaps_update(tracks.drop_last(), i, t);
        assert(u.drop_last() =~= tracks.drop_last().update(i, t));
    }
}

proof fn lemma_first_with_id(tracks: Seq<TrackDescriptor>, id: Seq<char>, from: int)
    requires
        0 <= from,
    ensures
        match find_track(tracks, id, from) {
            Some(i) => from <= i < tracks.len() && tracks[i].id@ == id && forall|j: int|
                from <= j < i ==> (#[trigger] tracks[j]).id@ != id,
            None => forall|j: int| from <= j < tracks.len() ==> (#[trigger] tracks[j]).id@ != id,
        },
    decreases tracks.len() - from,
{
    if from < tracks.len() && tracks[from].id@ != id {
        lemma_first_with_id(tracks, id, from + 1);
    }
}

/// A track is found by its identifier, the first of those that have it, and is missed only
/// where none has it.
pub proof fn tracks_are_found_by_identifier(tracks: Seq<TrackDescriptor>, id: Seq<char>)
    ensures
        match find_track(tracks, id, 0) {
            Some(i) => 0 <= i < tracks.len() && tracks[i].id@ == id && forall|j: int|
                0 <= j < i ==> (#[trigger] tracks[j]).id@ != id,
            None => forall|j: int| 0 <= j < tracks.len() ==> (#[trigger] tracks[j]).id@ != id,
        },
{
    lemma_first_with_id(tracks, id, 0);
}

/// A gap counts for the track that it was seen on and for no other, and changes nothing else
/// of it.
pub proof fn gaps_count_for_their_track(tracks: Seq<TrackDescriptor>, id: Seq<char>, i: int)
    requires
        0 <= i < tracks.len(),
    ensures
        with_gap(tracks, id).len() == tracks.len(),
        ({
            let own = tracks[i].id@ == id && forall|j: int|
                0 <= j < i ==> (#[trigger] tracks[j]).id@ != id;
            let after = with_gap(tracks, id)[i];
            &&& !own ==> after == tracks[i]
            &&& own && tracks[i].gaps_total < u64::MAX ==> after.gaps_total == tracks[i].gaps_total
                + 1
            &&& after == (TrackDescriptor { gaps_total: after.gaps_total, ..tracks[i] })
        }),
{
    lemma_first_with_id(tracks, id, 0);
}

proof fn lemma_first_bad_path(tracks: Seq<TrackDescriptor>, from: int)
    requires
        0 <= from,
    ensures
        match first_bad_path(tracks, from) {
            Some(i) => from <= i < tracks.len() && bad_path(tracks[i].relative_path@),
            None => forall|j: int|
                from <= j < tracks.len() ==> !bad_path((#[trigger] tracks[j]).relative_path@),
        },
    decreases tracks.len() - from,
{
    if from < tracks.len() && !bad_path(tracks[from].relative_path@) {
        lemma_first_bad_path(tracks, from + 1);
    }
}

/// A manifest stands exactly where its version is known, its session and its project have
/// names, and no path of a track leaves the project.
pub proof fn sound_manifests_stand(m: ProjectManifest)
    ensures
        m.fault() is None <==> m.version == 1 && text::trimmed(m.session_id@).len() > 0
            && text::trimmed(m.project_name@).len() > 0 && forall|i: int|
            0 <= i < m.tracks@.len() ==> !paths::absolute((#[trigger] m.tracks@[i]).relative_path@)
                && !paths::climbs(m.tracks@[i].relative_path@),
{
    lemma_first_bad_path(m.tracks@, 0);
    if let Some(i) = first_bad_path(m.tracks@, 0) {
        assert(bad_path(m.tracks@[i].relative_path@));
    } else {
        assert forall|i: int| 0 <= i < m.tracks@.len() implies !paths::absolute(
            (#[trigger] m.tracks@[i]).relative_path@,
        ) && !paths::climbs(m.tracks@[i].relative_path@) by {
            assert(!bad_path(m.tracks@[i].relative_path@));
        }
    }
}

} // verus!
