//! What the application decides before it acts on a request: which project is meant, where
//! new ones go, and which requests are out of date.
use crate::export::ExportStatus;
use crate::media::audio::copy_segments;
use crate::media::{
    interop_status, MediaInteropStatus, CONCURRENT_ENCODER_LIMIT, COPIES_COMPOSITE, COPIES_DECODE,
    COPIES_ENCODE,
};
use crate::paths;
use crate::playback;
use crate::playback::preview::PreviewOwner;
use crate::playback::{PlaybackState, PlaybackStatus};
use crate::project::layout;
use crate::project::layout::{file_extension, EditLayout};
use crate::project::reader::{ProjectReader, SegmentSummary, TrackSummary};
use crate::project::revision::copy_intervals;
use crate::project::waveform::WaveformTrackContext;
use crate::text;
use crate::zoom;
use crate::zoom::{contains_text, contains_zoom, ZoomKeyframe, ZoomSuggestion};
use vstd::prelude::*;
use vstd::string::*;

pub mod edits;

verus! {

/// The title of the window.
pub open spec fn title_of(project_name: Option<Seq<char>>) -> Seq<char> {
    match project_name {
        Some(name) => if text::trimmed(name).len() == 0 {
            "AeroShoot"@
        } else {
            "AeroShoot \u{2014} "@ + text::trimmed(name)
        },
        None => "AeroShoot"@,
    }
}

/// The title of the window, with the name of the project if one is open.
pub fn window_title_for_project(project_name: Option<&str>) -> (r: String)
    ensures
        r@ == title_of(
            match project_name {
                Some(n) => Some(n@),
                None => None,
            },
        ),
{
    match project_name {
        Some(n) => {
            let name = text::trim(n);
            if name.as_str().is_empty() {
                "AeroShoot".to_owned()
            } else {
                let mut r: String = "AeroShoot \u{2014} ".to_owned();
                r.append(name.as_str());
                r
            }
        },
        None => "AeroShoot".to_owned(),
    }
}

/// The user's documents folder, by `dirs::document_dir`. Nothing is said of it: it rests
/// on the machine.
#[verifier::external_body]
fn document_dir() -> (r: Option<String>) {
    dirs::document_dir().map(|p| p.to_string_lossy().into_owned())
}

/// The user's home folder, by `dirs::home_dir`. Nothing is said of it: it rests on the
/// machine.
#[verifier::external_body]
fn home_dir() -> (r: Option<String>) {
    dirs::home_dir().map(|p| p.to_string_lossy().into_owned())
}

/// Where projects go when the user chose no place.
pub open spec fn projects_dir(
    documents: Option<Seq<char>>,
    home: Option<Seq<char>>,
    temp: Seq<char>,
) -> Seq<char> {
    let base = match documents {
        Some(d) => d,
        None => match home {
            Some(h) => paths::joined(h, "Documents"@),
            None => temp,
        },
    };
    paths::joined(base, "AeroShootRec"@)
}

/// A text, if there is one, as characters.
pub open spec fn told(s: Option<String>) -> Option<Seq<char>> {
    match s {
        Some(s) => Some(s@),
        None => None,
    }
}

/// Where projects go when the user chose no place: beside their documents.
pub fn default_projects_dir(documents: Option<String>, home: Option<String>, temp: &str) -> (r:
    String)
    ensures
        r@ == projects_dir(told(documents), told(home), temp@),
{
    let base: String = match documents {
        Some(d) => d,
        None => match home {
            Some(h) => paths::join(h.as_str(), "Documents"),
            None => temp.to_owned(),
        },
    };
    paths::join(base.as_str(), "AeroShootRec")
}

/// Where projects go on this machine, whose folder for passing things is `temp`.
pub fn get_default_projects_dir_impl(temp: &str) -> (r: String)
    ensures
        exists|documents: Option<Seq<char>>, home: Option<Seq<char>>|
            r@ == #[trigger] projects_dir(documents, home, temp@),
{
    let documents = document_dir();
    let home = home_dir();
    let ghost d = told(documents);
    let ghost h = told(home);
    let r = default_projects_dir(documents, home, temp);
    assert(r@ == projects_dir(d, h, temp@));
    r
}

/// The folder that was asked for, if one was.
pub open spec fn supplied_of(requested: Option<Seq<char>>) -> Option<Seq<char>> {
    match requested {
        Some(s) => if text::trimmed(s).len() == 0 {
            None
        } else {
            Some(text::trimmed(s))
        },
        None => None,
    }
}

/// Why a folder cannot hold projects, by its name alone; `None` when it can.
pub open spec fn parent_fault(parent: Seq<char>) -> Option<Seq<char>> {
    if paths::has_char(parent, '\0') {
        Some("Project location is invalid"@)
    } else if !paths::absolute(parent) {
        Some("Project location must be an absolute folder"@)
    } else if paths::climbs(parent) {
        Some("Project location cannot contain '..'"@)
    } else {
        None
    }
}

/// A folder for projects, and whether the user chose it.
#[derive(Debug)]
pub struct ProjectParent {
    pub path: String,
    pub supplied: bool,
}

/// Chooses the folder for a new project.
pub fn choose_project_parent(requested: Option<&str>, default: &str) -> (r: Result<
    ProjectParent,
    String,
>)
    ensures
        ({
            let supplied = supplied_of(
                match requested {
                    Some(s) => Some(s@),
                    None => None,
                },
            );
            let parent = match supplied {
                Some(s) => s,
                None => default@,
            };
            match r {
                Ok(p) => parent_fault(parent) is None && p.path@ == parent && p.supplied
                    == supplied is Some,
                Err(e) => parent_fault(parent) == Some(e@),
            }
        }),
{
    let mut supplied: bool = false;
    let mut path: String = default.to_owned();
    match requested {
        Some(s) => {
            let t = text::trim(s);
            if !t.as_str().is_empty() {
                supplied = true;
                path = t;
            }
        },
        None => {},
    }
    if paths::contains_char(path.as_str(), '\0') {
        return Err("Project location is invalid".to_owned());
    }
    if !paths::is_absolute(path.as_str()) {
        return Err("Project location must be an absolute folder".to_owned());
    }
    if paths::has_parent_part(path.as_str()) {
        return Err("Project location cannot contain '..'".to_owned());
    }
    Ok(ProjectParent { path, supplied })
}

/// What the file system says of a folder for projects.
#[derive(Debug)]
pub enum ParentLook {
    Unreadable(String),
    Link,
    NoFolder,
    /// A folder, and whether it holds a manifest.
    Folder(bool),
}

/// What is done when the folder for a new project is missing.
pub fn missing_parent(parent: &ProjectParent) -> (r: Result<(), String>)
    ensures
        match r {
            Ok(()) => !parent.supplied,
            Err(e) => parent.supplied && e@ == "Project location does not exist"@,
        },
{
    if parent.supplied {
        return Err("Project location does not exist".to_owned());
    }
    Ok(())
}

/// Whether a path is called like a project.
pub open spec fn named_like_bundle(path: Seq<char>) -> bool {
    match paths::file_name_of(path) {
        Some(name) => layout::extension(name) == "aero"@,
        None => false,
    }
}

fn is_named_like_bundle(path: &str) -> (r: bool)
    ensures
        r == named_like_bundle(path@),
{
    match paths::file_name(path) {
        Some(name) => text::str_eq(file_extension(name.as_str()).as_str(), "aero"),
        None => false,
    }
}

/// Why a folder cannot hold projects, once it was looked at; `None` when it can.
pub open spec fn look_fault(path: Seq<char>, look: ParentLook) -> Option<Seq<char>> {
    match look {
        ParentLook::Unreadable(e) => Some(e@),
        ParentLook::Link => Some("Project location cannot be a symbolic link"@),
        ParentLook::NoFolder => Some("Project location must be a folder"@),
        ParentLook::Folder(manifest) => if manifest || named_like_bundle(path) {
            Some("Choose a folder, not an existing .aero project"@)
        } else {
            None
        },
    }
}

/// Checks the folder for a new project, once it was looked at.
pub fn resolve_project_parent(parent: ProjectParent, look: ParentLook) -> (r: Result<
    String,
    String,
>)
    ensures
        match r {
            Ok(p) => look_fault(parent.path@, look) is None && p == parent.path,
            Err(e) => look_fault(parent.path@, look) == Some(e@),
        },
{
    match look {
        ParentLook::Unreadable(e) => Err(e),
        ParentLook::Link => Err("Project location cannot be a symbolic link".to_owned()),
        ParentLook::NoFolder => Err("Project location must be a folder".to_owned()),
        ParentLook::Folder(manifest) => {
            if manifest || is_named_like_bundle(parent.path.as_str()) {
                return Err("Choose a folder, not an existing .aero project".to_owned());
            }
            Ok(parent.path)
        },
    }
}

/// New projects never go into an existing one, nor anywhere that a name climbs to.
pub proof fn projects_do_not_nest(parent: Seq<char>, look: ParentLook)
    requires
        parent_fault(parent) is None,
        look_fault(parent, look) is None,
    ensures
        paths::absolute(parent),
        !paths::climbs(parent),
        !named_like_bundle(parent),
        look == ParentLook::Folder(false),
{
}

/// Why a request is not for the opened project; `None` when it is.
pub open spec fn handle_fault(opened: Option<Seq<char>>, wanted: Seq<char>) -> Option<Seq<char>> {
    match opened {
        None => Some("No opened project"@),
        Some(h) => if h != wanted {
            Some("Stale project handle"@)
        } else {
            None
        },
    }
}

/// Checks that a request is for the opened project.
pub fn require_handle(reader: Option<&ProjectReader>, project_handle: &str) -> (r: Result<
    (),
    String,
>)
    ensures
        ({
            let fault = handle_fault(
                match reader {
                    Some(p) => Some(p.summary.project_handle@),
                    None => None,
                },
                project_handle@,
            );
            match r {
                Ok(()) => fault is None,
                Err(e) => fault == Some(e@),
            }
        }),
{
    match reader {
        None => Err("No opened project".to_owned()),
        Some(p) => {
            if !text::str_eq(p.summary.project_handle.as_str(), project_handle) {
                return Err("Stale project handle".to_owned());
            }
            Ok(())
        },
    }
}

/// Checks that what is closed is what is open, if anything is.
pub fn check_close(reader: Option<&ProjectReader>, project_handle: &str) -> (r: Result<(), String>)
    ensures
        match r {
            Ok(()) => reader matches Some(p) ==> p.summary.project_handle@ == project_handle@,
            Err(e) => (reader matches Some(p) && p.summary.project_handle@ != project_handle@) && e@
                == "Stale project handle"@,
        },
{
    match reader {
        None => Ok(()),
        Some(p) => {
            if !text::str_eq(p.summary.project_handle.as_str(), project_handle) {
                return Err("Stale project handle".to_owned());
            }
            Ok(())
        },
    }
}

/// The first track from `i` on with an identifier.
pub open spec fn summary_from(tracks: Seq<TrackSummary>, id: Seq<char>, i: int) -> Option<int>
    decreases tracks.len() - i,
{
    if i < 0 || i >= tracks.len() {
        None
    } else if tracks[i].descriptor.id@ == id {
        Some(i)
    } else {
        summary_from(tracks, id, i + 1)
    }
}

fn find_summary(tracks: &Vec<TrackSummary>, id: &str) -> (r: Option<usize>)
    ensures
        match r {
            Some(i) => i < tracks@.len() && summary_from(tracks@, id@, 0) == Some(i as int),
            None => summary_from(tracks@, id@, 0) is None,
        },
{
    let mut i: usize = 0;
    while i < tracks.len()
        invariant
            i <= tracks@.len(),
            summary_from(tracks@, id@, 0) == summary_from(tracks@, id@, i as int),
        decreases tracks@.len() - i,
    {
        if text::str_eq(tracks[i].descriptor.id.as_str(), id) {
            return Some(i);
        }
        i = i + 1;
    }
    None
}

/// Why there is no track to look at; `None` when there is.
pub open spec fn track_fault(r: ProjectReader, handle: Seq<char>, id: Seq<char>) -> Option<
    Seq<char>,
> {
    if r.summary.project_handle@ != handle {
        Some("Stale project handle"@)
    } else if summary_from(r.summary.tracks@, id, 0) is None
        || crate::project::manifest::find_track(r.summary.manifest.tracks@, id, 0) is None {
        Some("Unknown track"@)
    } else {
        None
    }
}

/// What is needed to look at the sound of a track.
pub fn track_context(reader: &ProjectReader, project_handle: &str, track_id: &str) -> (r: Result<
    WaveformTrackContext,
    String,
>)
    requires
        reader.wf(),
    ensures
        match r {
            Ok(c) => {
                &&& track_fault(*reader, project_handle@, track_id@) is None
                &&& c.root@ == reader.root@
                &&& c.track_id@ == track_id@
                &&& c.track_type == reader.summary.tracks@[summary_from(
                    reader.summary.tracks@,
                    track_id@,
                    0,
                ).unwrap()].descriptor.track_type
                &&& c.segments@ == playback::segments_of(*reader, track_id@)
                &&& c.retained@ == reader.summary.retained_intervals@
                &&& c.edited_duration_us == reader.summary.edited_duration_us
            },
            Err(e) => track_fault(*reader, project_handle@, track_id@) == Some(e@),
        },
{
    if !text::str_eq(reader.summary.project_handle.as_str(), project_handle) {
        return Err("Stale project handle".to_owned());
    }
    let i: usize = match find_summary(&reader.summary.tracks, track_id) {
        Some(i) => i,
        None => {
            return Err("Unknown track".to_owned());
        },
    };
    let segments: Vec<SegmentSummary> = match reader.segments_for(track_id) {
        Some(v) => copy_segments(v),
        None => {
            return Err("Unknown track".to_owned());
        },
    };
    Ok(
        WaveformTrackContext {
            root: reader.root().to_owned(),
            track_id: track_id.to_owned(),
            track_type: reader.summary.tracks[i].descriptor.track_type,
            segments,
            retained: copy_intervals(&reader.summary.retained_intervals),
            edited_duration_us: reader.summary.edited_duration_us,
        },
    )
}

/// The requests for waveforms: for each track the number of its last one, and how often
/// everything before became out of date.
#[derive(Debug)]
pub struct WaveformRequests {
    pub epoch: u64,
    pub generations: Vec<(String, u64)>,
}

/// A request for a waveform.
#[derive(Debug, Clone, Copy, PartialEq, Eq, Structural)]
pub struct WaveformTicket {
    pub epoch: u64,
    pub generation: u64,
}

/// The number of the last request for a track.
pub open spec fn last_request(s: Seq<(Seq<char>, u64)>, id: Seq<char>) -> u64
    decreases s.len(),
{
    if s.len() == 0 {
        0
    } else if s[0].0 == id {
        s[0].1
    } else {
        last_request(s.drop_first(), id)
    }
}

impl View for WaveformRequests {
    type V = Seq<(Seq<char>, u64)>;

    open spec fn view(&self) -> Seq<(Seq<char>, u64)> {
        self.generations@.map_values(|g: (String, u64)| (g.0@, g.1))
    }
}

proof fn lemma_last_request(s: Seq<(Seq<char>, u64)>, id: Seq<char>, i: int)
    requires
        0 <= i <= s.len(),
        forall|k: int| 0 <= k < i ==> (#[trigger] s[k]).0 != id,
    ensures
        last_request(s, id) == last_request(s.skip(i), id),
    decreases i,
{
    if i == 0 {
        assert(s.skip(0) =~= s);
    } else {
        assert(s.drop_first().skip(i - 1) =~= s.skip(i));
        assert forall|k: int| 0 <= k < i - 1 implies (#[trigger] s.drop_first()[k]).0 != id by {
            assert(s.drop_first()[k] == s[k + 1]);
        }
        lemma_last_request(s.drop_first(), id, i - 1);
    }
}

proof fn lemma_request_set(s: Seq<(Seq<char>, u64)>, i: int, n: u64, id: Seq<char>)
    requires
        0 <= i < s.len(),
        forall|k: int| 0 <= k < i ==> (#[trigger] s[k]).0 != s[i].0,
    ensures
        last_request(s.update(i, (s[i].0, n)), id) == if id == s[i].0 {
            n
        } else {
            last_request(s, id)
        },
    decreases s.len(),
{
    let t = s.update(i, (s[i].0, n));
    if i == 0 {
        assert(t.drop_first() =~= s.drop_first());
    } else {
        assert(t.drop_first() =~= s.drop_first().update(i - 1, (s[i].0, n)));
        assert(s.drop_first()[i - 1] == s[i]);
        assert forall|k: int| 0 <= k < i - 1 implies (#[trigger] s.drop_first()[k]).0
            != s.drop_first()[i - 1].0 by {
            assert(s.drop_first()[k] == s[k + 1]);
        }
        lemma_request_set(s.drop_first(), i - 1, n, id);
        assert(s[0].0 != s[i].0);
    }
}

proof fn lemma_request_pushed(s: Seq<(Seq<char>, u64)>, name: Seq<char>, n: u64, id: Seq<char>)
    requires
        forall|k: int| 0 <= k < s.len() ==> (#[trigger] s[k]).0 != name,
    ensures
        last_request(s.push((name, n)), id) == if id == name {
            n
        } else {
            last_request(s, id)
        },
    decreases s.len(),
{
    let t = s.push((name, n));
    if s.len() == 0 {
        assert(t.drop_first() =~= Seq::<(Seq<char>, u64)>::empty());
        assert(last_request(t.drop_first(), id) == 0);
    } else {
        assert(t[0] == s[0] && s[0].0 != name);
        assert(t.drop_first() =~= s.drop_first().push((name, n)));
        assert forall|k: int| 0 <= k < s.drop_first().len() implies (
        #[trigger] s.drop_first()[k]).0 != name by {
            assert(s.drop_first()[k] == s[k + 1]);
        }
        lemma_request_pushed(s.drop_first(), name, n, id);
    }
}

impl WaveformRequests {
    /// None yet.
    pub fn new() -> (r: Self)
        ensures
            r.epoch == 0,
            forall|id: Seq<char>| #[trigger] last_request(r@, id) == 0,
    {
        let r = WaveformRequests { epoch: 0, generations: Vec::new() };
        assert(r@ =~= Seq::<(Seq<char>, u64)>::empty());
        r
    }

    fn find(&self, track_id: &str) -> (r: Option<usize>)
        ensures
            self@.len() == self.generations@.len(),
            forall|k: int|
                0 <= k < self@.len() ==> #[trigger] self@[k] == (
                    self.generations@[k].0@,
                    self.generations@[k].1,
                ),
            match r {
                Some(i) => i < self@.len() && self@[i as int].0 == track_id@ && last_request(
                    self@,
                    track_id@,
                ) == self@[i as int].1 && forall|k: int|
                    0 <= k < i ==> (#[trigger] self@[k]).0 != track_id@,
                None => last_request(self@, track_id@) == 0 && forall|k: int|
                    0 <= k < self@.len() ==> (#[trigger] self@[k]).0 != track_id@,
            },
    {
        let mut i: usize = 0;
        while i < self.generations.len()
            invariant
                i <= self.generations@.len(),
                self@.len() == self.generations@.len(),
                forall|k: int| 0 <= k < i ==> (#[trigger] self@[k]).0 != track_id@,
            decreases self.generations@.len() - i,
        {
            assert(self@[i as int].0 == self.generations@[i as int].0@);
            if text::str_eq(self.generations[i].0.as_str(), track_id) {
                proof {
                    lemma_last_request(self@, track_id@, i as int);
                    assert(self@.skip(i as int)[0] == self@[i as int]);
                }
                return Some(i);
            }
            i = i + 1;
        }
        proof {
            lemma_last_request(self@, track_id@, i as int);
        }
        None
    }

    /// Takes a request, which makes the one before it for the track out of date.
    pub fn begin(&mut self, track_id: &str) -> (r: WaveformTicket)
        requires
            last_request(old(self)@, track_id@) < u64::MAX,
        ensures
            final(self).epoch == old(self).epoch,
            r.epoch == old(self).epoch,
            r.generation == last_request(old(self)@, track_id@) + 1,
            forall|id: Seq<char>| #[trigger]
                last_request(final(self)@, id) == if id == track_id@ {
                    r.generation
                } else {
                    last_request(old(self)@, id)
                },
    {
        let ghost before = self@;
        match self.find(track_id) {
            Some(i) => {
                let n: u64 = self.generations[i].1 + 1;
                self.generations.set(i, (track_id.to_owned(), n));
                proof {
                    assert(self@ =~= before.update(i as int, (before[i as int].0, n)));
                    assert forall|id: Seq<char>| #[trigger]
                        last_request(self@, id) == if id == track_id@ {
                            n
                        } else {
                            last_request(before, id)
                        } by {
                        lemma_request_set(before, i as int, n, id);
                    }
                }
                WaveformTicket { epoch: self.epoch, generation: n }
            },
            None => {
                self.generations.push((track_id.to_owned(), 1));
                proof {
                    assert(self@ =~= before.push((track_id@, 1u64)));
                    assert forall|id: Seq<char>| #[trigger]
                        last_request(self@, id) == if id == track_id@ {
                            1u64
                        } else {
                            last_request(before, id)
                        } by {
                        lemma_request_pushed(before, track_id@, 1, id);
                    }
                }
                WaveformTicket { epoch: self.epoch, generation: 1 }
            },
        }
    }

    /// Whether a request is out of date.
    pub open spec fn stale(&self, ticket: WaveformTicket, id: Seq<char>) -> bool {
        self.epoch != ticket.epoch || last_request(self@, id) != ticket.generation
    }

    /// Tells whether a request is out of date.
    pub fn is_stale(&self, ticket: WaveformTicket, track_id: &str) -> (r: bool)
        ensures
            r == self.stale(ticket, track_id@),
    {
        if self.epoch != ticket.epoch {
            return true;
        }
        match self.find(track_id) {
            Some(i) => self.generations[i].1 != ticket.generation,
            None => 0 != ticket.generation,
        }
    }

    /// Makes all requests out of date, as the edit has changed.
    pub fn renew(&mut self)
        ensures
            final(self)@ == old(self)@,
            final(self).epoch == if old(self).epoch < u64::MAX {
                (old(self).epoch + 1) as u64
            } else {
                0
            },
    {
        self.epoch =
        if self.epoch < u64::MAX {
            self.epoch + 1
        } else {
            0
        };
    }

    /// Forgets all requests, as another project is opened.
    pub fn reset(&mut self)
        ensures
            final(self).epoch == if old(self).epoch < u64::MAX {
                (old(self).epoch + 1) as u64
            } else {
                0
            },
            forall|id: Seq<char>| #[trigger] last_request(final(self)@, id) == 0,
    {
        self.renew();
        self.generations = Vec::new();
        assert(self@ =~= Seq::<(Seq<char>, u64)>::empty());
    }
}

/// A request is answered only as long as there is no later one for its track.
pub proof fn only_the_last_request_counts(
    before: WaveformRequests,
    after: WaveformRequests,
    ticket: WaveformTicket,
    id: Seq<char>,
)
    requires
        ticket.generation == last_request(before@, id),
        last_request(after@, id) == last_request(before@, id) + 1,
    ensures
        after.stale(ticket, id),
{
}

/// The suggestions that are neither taken nor dismissed, of the first `n`.
pub open spec fn open_suggestions(
    s: Seq<zoom::Zoom>,
    zooms: Seq<zoom::Keyframe>,
    dismissed: Seq<Seq<char>>,
    n: int,
) -> Seq<zoom::Zoom>
    decreases n,
{
    if n <= 0 {
        Seq::empty()
    } else {
        let before = open_suggestions(s, zooms, dismissed, n - 1);
        if zoom::has_zoom(zooms, s[n - 1].id) || dismissed.contains(s[n - 1].id) {
            before
        } else {
            before.push(s[n - 1])
        }
    }
}

/// Leaves the suggestions that are neither taken nor dismissed.
pub fn retain_open(
    suggestions: Vec<ZoomSuggestion>,
    zooms: &Vec<ZoomKeyframe>,
    dismissed: &Vec<String>,
) -> (r: Vec<ZoomSuggestion>)
    ensures
        zoom::suggestions(r@) == open_suggestions(
            zoom::suggestions(suggestions@),
            zoom::keyframes(zooms@),
            paths::texts(dismissed@),
            suggestions@.len() as int,
        ),
{
    let ghost all = suggestions@;
    let mut rest: Vec<ZoomSuggestion> = suggestions;
    let mut out: Vec<ZoomSuggestion> = Vec::new();
    let ghost mut n: int = 0;
    assert(zoom::suggestions(out@) =~= Seq::<zoom::Zoom>::empty());
    assert(all.skip(0) =~= all);
    while rest.len() > 0
        invariant
            0 <= n <= all.len(),
            rest@ == all.skip(n),
            zoom::suggestions(out@) == open_suggestions(
                zoom::suggestions(all),
                zoom::keyframes(zooms@),
                paths::texts(dismissed@),
                n,
            ),
        decreases rest@.len(),
    {
        let ghost before = zoom::suggestions(out@);
        let s: ZoomSuggestion = rest.remove(0);
        assert(s == all[n]);
        assert(rest@ =~= all.skip(n + 1));
        assert(zoom::suggestions(all)[n] == s@);
        if !contains_zoom(zooms, s.id.as_str()) && !contains_text(dismissed, s.id.as_str()) {
            out.push(s);
            assert(zoom::suggestions(out@) =~= before.push(s@));
        }
        proof {
            n = n + 1;
        }
    }
    out
}

/// The suggestions that were asked for, of the first `n`.
pub open spec fn asked_suggestions(s: Seq<zoom::Zoom>, ids: Seq<Seq<char>>, n: int) -> Seq<
    zoom::Zoom,
>
    decreases n,
{
    if n <= 0 {
        Seq::empty()
    } else {
        let before = asked_suggestions(s, ids, n - 1);
        if ids.len() == 0 || ids.contains(s[n - 1].id) {
            before.push(s[n - 1])
        } else {
            before
        }
    }
}

/// Leaves the suggestions that were asked for: all of them, when none was named.
pub fn select_asked(suggestions: Vec<ZoomSuggestion>, ids: &Vec<String>) -> (r: Vec<
    ZoomSuggestion,
>)
    ensures
        zoom::suggestions(r@) == asked_suggestions(
            zoom::suggestions(suggestions@),
            paths::texts(ids@),
            suggestions@.len() as int,
        ),
{
    let ghost all = suggestions@;
    let mut rest: Vec<ZoomSuggestion> = suggestions;
    let mut out: Vec<ZoomSuggestion> = Vec::new();
    let ghost mut n: int = 0;
    assert(zoom::suggestions(out@) =~= Seq::<zoom::Zoom>::empty());
    assert(all.skip(0) =~= all);
    assert(paths::texts(ids@).len() == ids@.len());
    while rest.len() > 0
        invariant
            0 <= n <= all.len(),
            rest@ == all.skip(n),
            paths::texts(ids@).len() == ids@.len(),
            zoom::suggestions(out@) == asked_suggestions(
                zoom::suggestions(all),
                paths::texts(ids@),
                n,
            ),
        decreases rest@.len(),
    {
        let ghost before = zoom::suggestions(out@);
        let s: ZoomSuggestion = rest.remove(0);
        assert(s == all[n]);
        assert(rest@ =~= all.skip(n + 1));
        assert(zoom::suggestions(all)[n] == s@);
        if ids.len() == 0 || contains_text(ids, s.id.as_str()) {
            out.push(s);
            assert(zoom::suggestions(out@) =~= before.push(s@));
        }
        proof {
            n = n + 1;
        }
    }
    out
}

/// A stretch of the edited timeline that is to be cut.
#[derive(Debug, Clone, Copy, PartialEq, Eq, Structural)]
pub struct EditCut {
    pub start_us: u64,
    pub end_us: u64,
}

/// Cuts, as pairs of their start and end.
pub fn cut_ranges(cuts: &Vec<EditCut>) -> (r: Vec<(u64, u64)>)
    ensures
        r@ == cuts@.map_values(|c: EditCut| (c.start_us, c.end_us)),
{
    let ghost want = cuts@.map_values(|c: EditCut| (c.start_us, c.end_us));
    let mut out: Vec<(u64, u64)> = Vec::new();
    let mut i: usize = 0;
    while i < cuts.len()
        invariant
            i <= cuts@.len(),
            want == cuts@.map_values(|c: EditCut| (c.start_us, c.end_us)),
            out@ == want.take(i as int),
        decreases cuts@.len() - i,
    {
        out.push((cuts[i].start_us, cuts[i].end_us));
        i = i + 1;
        assert(want.take(i as int) =~= want.take(i - 1).push(want[i - 1]));
    }
    assert(want.take(want.len() as int) =~= want);
    out
}

/// A layout with a wallpaper that was taken into its project.
pub fn with_wallpaper(layout: EditLayout, relative: String) -> (r: EditLayout)
    ensures
        r.background_type@ == "wallpaper"@,
        r == (EditLayout {
            wallpaper_asset: Some(relative),
            background_type: r.background_type,
            ..layout
        }),
{
    let mut r: EditLayout = layout;
    r.wallpaper_asset = Some(relative);
    r.background_type = "wallpaper".to_owned();
    r
}

/// Checks that what is asked of playback is asked of the project that plays.
pub fn check_playback(status: &PlaybackStatus, project_handle: &str) -> (r: Result<(), String>)
    ensures
        match r {
            Ok(()) => status.project_handle@ == project_handle@,
            Err(e) => status.project_handle@ != project_handle@ && e@ == "Stale project handle"@,
        },
{
    if !text::str_eq(status.project_handle.as_str(), project_handle) {
        return Err("Stale project handle".to_owned());
    }
    Ok(())
}

/// Why the status of playback is not told; `None` when it is.
pub open spec fn playback_fault(status: PlaybackStatus, handle: Seq<char>) -> Option<Seq<char>> {
    if status.state == PlaybackState::Closed {
        Some("Playback is closed"@)
    } else if status.project_handle@ != handle {
        Some("Stale project handle"@)
    } else {
        None
    }
}

/// Tells the status of playback, if it is that of the project that is meant.
pub fn playback_status_impl(status: PlaybackStatus, project_handle: &str) -> (r: Result<
    PlaybackStatus,
    String,
>)
    ensures
        match r {
            Ok(s) => playback_fault(status, project_handle@) is None && s == status,
            Err(e) => playback_fault(status, project_handle@) == Some(e@),
        },
{
    if status.state == PlaybackState::Closed {
        return Err("Playback is closed".to_owned());
    }
    match check_playback(&status, project_handle) {
        Ok(()) => Ok(status),
        Err(e) => Err(e),
    }
}

/// Checks that a layout of the preview says which surface it is for.
pub fn check_preview_layout(generation: u64) -> (r: Result<(), String>)
    ensures
        match r {
            Ok(()) => generation != 0,
            Err(e) => generation == 0 && e@ == "Preview generation is required"@,
        },
{
    if generation == 0 {
        return Err("Preview generation is required".to_owned());
    }
    Ok(())
}

/// Whether the preview is attached to another window.
pub open spec fn attached_elsewhere(o: PreviewOwner, label: Seq<char>) -> bool {
    o.attached && !(o.window_label matches Some(l) && l@ == label)
}

/// Checks that the preview that is to be let go is that of the window.
pub fn check_preview_detach(owner: &PreviewOwner, window_label: &str) -> (r: Result<(), String>)
    ensures
        match r {
            Ok(()) => !attached_elsewhere(*owner, window_label@),
            Err(e) => attached_elsewhere(*owner, window_label@) && e@
                == "Stale preview window label"@,
        },
{
    let same: bool = match &owner.window_label {
        Some(l) => text::str_eq(l.as_str(), window_label),
        None => false,
    };
    if owner.attached && !same {
        return Err("Stale preview window label".to_owned());
    }
    Ok(())
}

/// Tells what the media pipeline consists of.
pub fn media_interop_status_impl(supported: bool) -> (r: MediaInteropStatus)
    ensures
        r.decoder_backend@ == "videotoolbox"@,
        r.compositor_backend@ == "wgpu-27.0.1"@,
        r.encoder_backend@ == "videotoolbox-h264"@,
        !r.ffmpeg_pinned,
        r.supported == supported,
        !r.preview_available,
        r.copies_decode == COPIES_DECODE,
        r.copies_composite == COPIES_COMPOSITE,
        r.copies_encode == COPIES_ENCODE,
        r.concurrent_encoder_limit == CONCURRENT_ENCODER_LIMIT,
        r.color_space@ == "rec709_full"@,
        r.wgpu_adapter is None,
        paths::texts(r.diagnostics@) == seq![
            "FFmpeg is not pinned; VideoToolbox implements the decoder/encoder contract"@,
            "WGPU uses a CPU upload/readback fallback; Metal texture interop is untested"@,
        ],
{
    let diagnostics: Vec<String> = vec![
        "FFmpeg is not pinned; VideoToolbox implements the decoder/encoder contract".to_owned(),
        "WGPU uses a CPU upload/readback fallback; Metal texture interop is untested".to_owned(),
    ];
    assert(paths::texts(diagnostics@) =~= seq![
        "FFmpeg is not pinned; VideoToolbox implements the decoder/encoder contract"@,
        "WGPU uses a CPU upload/readback fallback; Metal texture interop is untested"@,
    ]);
    interop_status(supported, None, diagnostics)
}

/// Whether another job than this one is the last.
pub open spec fn other_job(status: ExportStatus, job_id: Option<Seq<char>>) -> bool {
    match job_id {
        Some(id) => status.job_id@.len() > 0 && status.job_id@ != id,
        None => false,
    }
}

/// Tells the status of the last export, if it is the job that is meant.
pub fn export_status_impl(status: ExportStatus, job_id: Option<&str>) -> (r: Result<
    ExportStatus,
    String,
>)
    ensures
        ({
            let other = other_job(
                status,
                match job_id {
                    Some(id) => Some(id@),
                    None => None,
                },
            );
            match r {
                Ok(s) => !other && s == status,
                Err(e) => other && e@ == "Stale export job id"@,
            }
        }),
{
    match job_id {
        Some(id) => {
            if !status.job_id.as_str().is_empty() && !text::str_eq(status.job_id.as_str(), id) {
                return Err("Stale export job id".to_owned());
            }
        },
        None => {},
    }
    Ok(status)
}

/// Suggestions stay open just as long as they are neither applied nor dismissed.
pub proof fn open_suggestions_are_undecided(
    s: Seq<zoom::Zoom>,
    zooms: Seq<zoom::Keyframe>,
    dismissed: Seq<Seq<char>>,
    n: int,
    z: zoom::Zoom,
)
    requires
        0 <= n <= s.len(),
    ensures
        open_suggestions(s, zooms, dismissed, n).contains(z) <==> s.take(n).contains(z)
            && !dismissed.contains(z.id) && forall|i: int|
            0 <= i < zooms.len() ==> (#[trigger] zooms[i]).zoom.id != z.id,
    decreases n,
{
    if n > 0 {
        open_suggestions_are_undecided(s, zooms, dismissed, n - 1, z);
        let before = open_suggestions(s, zooms, dismissed, n - 1);
        let all = open_suggestions(s, zooms, dismissed, n);
        lemma_take_contains(s, n, z);
        if all != before {
            assert(all.drop_last() =~= before);
        }
        lemma_pushed_contains(before, all, z);
        if s[n - 1] == z && !zoom::has_zoom(zooms, z.id) {
            assert forall|i: int| 0 <= i < zooms.len() implies (#[trigger] zooms[i]).zoom.id
                != z.id by {}
        }
    }
}

proof fn lemma_take_contains(s: Seq<zoom::Zoom>, n: int, z: zoom::Zoom)
    requires
        0 < n <= s.len(),
    ensures
        s.take(n).contains(z) <==> s.take(n - 1).contains(z) || s[n - 1] == z,
{
    let long = s.take(n);
    let short = s.take(n - 1);
    if long.contains(z) {
        let i = choose|i: int| 0 <= i < long.len() && long[i] == z;
        if i < n - 1 {
            assert(short[i] == z);
        }
    }
    if short.contains(z) {
        let i = choose|i: int| 0 <= i < short.len() && short[i] == z;
        assert(long[i] == z);
    }
    if s[n - 1] == z {
        assert(long[n - 1] == z);
    }
}

proof fn lemma_pushed_contains(before: Seq<zoom::Zoom>, all: Seq<zoom::Zoom>, z: zoom::Zoom)
    requires
        all == before || (all.len() == before.len() + 1 && all.drop_last() == before),
    ensures
        all.contains(z) <==> before.contains(z) || (all != before && all.last() == z),
{
    if all != before {
        if all.contains(z) {
            let i = choose|i: int| 0 <= i < all.len() && all[i] == z;
            if i < before.len() {
                assert(all.drop_last()[i] == z);
            }
        }
        if before.contains(z) {
            let i = choose|i: int| 0 <= i < before.len() && before[i] == z;
            assert(all.drop_last()[i] == z);
            assert(all[i] == z);
        }
        if all.last() == z {
            assert(all[all.len() - 1] == z);
        }
    }
}

/// Of the suggestions just those are taken that are asked for by their identifier, or all of
/// them where none is named.
pub proof fn asked_suggestions_are_taken(
    s: Seq<zoom::Zoom>,
    ids: Seq<Seq<char>>,
    n: int,
    z: zoom::Zoom,
)
    requires
        0 <= n <= s.len(),
    ensures
        asked_suggestions(s, ids, n).contains(z) <==> s.take(n).contains(z) && (ids.len() == 0
            || ids.contains(z.id)),
    decreases n,
{
    if n > 0 {
        asked_suggestions_are_taken(s, ids, n - 1, z);
        let before = asked_suggestions(s, ids, n - 1);
        let all = asked_suggestions(s, ids, n);
        lemma_take_contains(s, n, z);
        if all != before {
            assert(all.drop_last() =~= before);
        }
        lemma_pushed_contains(before, all, z);
    }
}

/// A result of a waveform counts exactly while nothing has made all of them stale and no
/// other request for the track has followed.
pub proof fn results_count_until_the_next_request(
    r: WaveformRequests,
    ticket: WaveformTicket,
    id: Seq<char>,
)
    ensures
        !r.stale(ticket, id) <==> r.epoch == ticket.epoch && last_request(r@, id)
            == ticket.generation,
{
}

/// Without a folder that is asked for, projects go to the documents, or else below the home
/// directory, or else to the temporary one.
pub proof fn projects_go_to_the_documents(
    documents: Seq<char>,
    home: Seq<char>,
    temp: Seq<char>,
    other: Option<Seq<char>>,
)
    ensures
        projects_dir(Some(documents), other, temp) == paths::joined(documents, "AeroShootRec"@),
        projects_dir(None, Some(home), temp) == paths::joined(
            paths::joined(home, "Documents"@),
            "AeroShootRec"@,
        ),
        projects_dir(None, None, temp) == paths::joined(temp, "AeroShootRec"@),
{
}

/// The title shows the name of the project, if it has one.
pub proof fn titles_show_the_project(name: Seq<char>)
    ensures
        title_of(None) == "AeroShoot"@,
        text::trimmed(name).len() == 0 ==> title_of(Some(name)) == "AeroShoot"@,
        text::trimmed(name).len() > 0 ==> text::has_suffix(title_of(Some(name)), text::trimmed(name))
            && text::has_prefix(title_of(Some(name)), "AeroShoot"@),
{
    reveal_strlit("AeroShoot");
    reveal_strlit("AeroShoot \u{2014} ");
    let t = text::trimmed(name);
    if t.len() > 0 {
        let title = title_of(Some(name));
        assert(title.skip(title.len() - t.len()) =~= t);
        assert(title.take(9) =~= "AeroShoot"@);
    }
}

/// A request is answered exactly where it names the project that is open.
pub proof fn requests_name_the_open_project(opened: Option<Seq<char>>, wanted: Seq<char>)
    ensures
        handle_fault(opened, wanted) is None <==> opened == Some(wanted),
{
}

/// A folder is accepted exactly where it is absolute, plain, and no project itself.
pub proof fn plain_folders_are_accepted(parent: Seq<char>, look: ParentLook)
    ensures
        parent_fault(parent) is None <==> paths::absolute(parent) && !paths::climbs(parent)
            && !parent.contains('\0'),
        look_fault(parent, look) is None <==> look == ParentLook::Folder(false)
            && !named_like_bundle(parent),
{
}

/// A track is found by its identifier, the first of those that have it, and is missed only
/// where none has it.
pub proof fn summaries_are_found_by_identifier(tracks: Seq<TrackSummary>, id: Seq<char>, i: int)
    requires
        0 <= i,
    ensures
        match summary_from(tracks, id, i) {
            Some(k) => i <= k < tracks.len() && tracks[k].descriptor.id@ == id && forall|j: int|
                i <= j < k ==> (#[trigger] tracks[j]).descriptor.id@ != id,
            None => forall|j: int|
                i <= j < tracks.len() ==> (#[trigger] tracks[j]).descriptor.id@ != id,
        },
    decreases tracks.len() - i,
{
    if i < tracks.len() && tracks[i].descriptor.id@ != id {
        summaries_are_found_by_identifier(tracks, id, i + 1);
    }
}

} // verus!
