//! The edit document of a project and its history. The source is never changed: an
//! edit says which stretches of it are retained, and how they are shown.
use crate::paths;
use crate::project::layout;
use crate::project::layout::{validate_layout, EditLayout};
use crate::sorting;
use crate::text;
use crate::timeline;
use crate::timeline::{validate_retained, RetainedInterval, TimelineMapper};
use crate::zoom;
use crate::zoom::{
    attach_zoom_edited_ranges,
    contains_text,
    contains_zoom,
    copy_keyframes,
    sort_keyframes,
    ZoomKeyframe,
    ZoomLimits,
    ZoomSource,
    ZoomSuggestion,
};
use vstd::prelude::*;
use vstd::string::*;

verus! {

pub const EDIT_SCHEMA_VERSION: u32 = 1;

pub const MAX_EDIT_BYTES: u64 = 1_048_576;

pub const MAX_UNDO: usize = 64;

pub const MAX_CUTS_PER_REVISION: usize = 256;

/// A revision of an edit.
#[derive(Debug, PartialEq)]
pub struct EditDocument {
    pub schema_version: u32,
    pub revision: u64,
    pub retained_intervals: Vec<RetainedInterval>,
    pub layout: EditLayout,
    pub zooms: Vec<ZoomKeyframe>,
    pub dismissed_zoom_ids: Vec<String>,
}

/// What a revision says.
pub struct Edit {
    pub schema: u32,
    pub revision: u64,
    pub retained: Seq<RetainedInterval>,
    pub layout: EditLayout,
    pub zooms: Seq<zoom::Keyframe>,
    pub dismissed: Seq<Seq<char>>,
}

impl View for EditDocument {
    type V = Edit;

    open spec fn view(&self) -> Edit {
        Edit {
            schema: self.schema_version,
            revision: self.revision,
            retained: self.retained_intervals@,
            layout: self.layout,
            zooms: zoom::keyframes(self.zooms@),
            dismissed: paths::texts(self.dismissed_zoom_ids@),
        }
    }
}

/// Copies stretches.
pub fn copy_intervals(v: &Vec<RetainedInterval>) -> (r: Vec<RetainedInterval>)
    ensures
        r@ == v@,
{
    let mut out: Vec<RetainedInterval> = Vec::new();
    let mut i: usize = 0;
    while i < v.len()
        invariant
            i <= v@.len(),
            out@ == v@.take(i as int),
        decreases v@.len() - i,
    {
        out.push(v[i]);
        i = i + 1;
        assert(v@.take(i as int) =~= v@.take(i - 1).push(v@[i - 1]));
    }
    assert(v@.take(v@.len() as int) =~= v@);
    out
}

/// Copies texts.
pub fn copy_texts(v: &Vec<String>) -> (r: Vec<String>)
    ensures
        paths::texts(r@) == paths::texts(v@),
{
    let mut out: Vec<String> = Vec::new();
    let mut i: usize = 0;
    while i < v.len()
        invariant
            i <= v@.len(),
            paths::texts(out@) == paths::texts(v@).take(i as int),
        decreases v@.len() - i,
    {
        let ghost before = paths::texts(out@);
        out.push(v[i].clone());
        i = i + 1;
        assert(paths::texts(out@) =~= before.push(v@[i - 1]@));
        assert(paths::texts(v@).take(i as int) =~= before.push(v@[i - 1]@));
    }
    assert(paths::texts(v@).take(v@.len() as int) =~= paths::texts(v@));
    out
}

impl Clone for EditDocument {
    fn clone(&self) -> (r: Self)
        ensures
            r@ == self@,
    {
        EditDocument {
            schema_version: self.schema_version,
            revision: self.revision,
            retained_intervals: copy_intervals(&self.retained_intervals),
            layout: self.layout.clone(),
            zooms: copy_keyframes(&self.zooms),
            dismissed_zoom_ids: copy_texts(&self.dismissed_zoom_ids),
        }
    }
}

impl Default for EditDocument {
    fn default() -> (r: Self)
        ensures
            first_edit(r@, Seq::empty()),
    {
        let r = EditDocument {
            schema_version: EDIT_SCHEMA_VERSION,
            revision: 0,
            retained_intervals: Vec::new(),
            layout: EditLayout::default(),
            zooms: Vec::new(),
            dismissed_zoom_ids: Vec::new(),
        };
        assert(r@.zooms =~= Seq::<zoom::Keyframe>::empty());
        assert(r@.dismissed =~= Seq::<Seq<char>>::empty());
        r
    }
}

/// Whether an edit is the first revision of one that retains these stretches.
pub open spec fn first_edit(d: Edit, retained: Seq<RetainedInterval>) -> bool {
    &&& d.schema == EDIT_SCHEMA_VERSION
    &&& d.revision == 0
    &&& d.retained == retained
    &&& layout::is_new(d.layout)
    &&& d.zooms == Seq::<zoom::Keyframe>::empty()
    &&& d.dismissed == Seq::<Seq<char>>::empty()
}

impl EditDocument {
    /// The first revision of an edit that retains these stretches.
    pub fn from_retained(retained: Vec<RetainedInterval>) -> (r: Result<EditDocument, String>)
        ensures
            match r {
                Ok(d) => timeline::retained_fault(retained@) is None && first_edit(
                    d@,
                    retained@,
                ),
                Err(e) => timeline::retained_fault(retained@) == Some(e@),
            },
    {
        match validate_retained(&retained) {
            Ok(()) => {
                let mut d = EditDocument::default();
                d.retained_intervals = retained;
                Ok(d)
            },
            Err(e) => Err(e),
        }
    }

    /// The timeline of the edit.
    pub fn mapper(&self) -> (r: Result<TimelineMapper, String>)
        ensures
            match r {
                Ok(m) => timeline::retained_fault(self@.retained) is None && m@ == self@.retained
                    && m.wf(),
                Err(e) => timeline::retained_fault(self@.retained) == Some(e@),
            },
    {
        TimelineMapper::try_new(copy_intervals(&self.retained_intervals))
    }

    /// The keyframes, as suggestions.
    pub fn zoom_suggestions(&self) -> (r: Vec<ZoomSuggestion>)
        ensures
            zoom::suggestions(r@) == self@.zooms.map_values(|k: zoom::Keyframe| k.zoom),
    {
        let ghost want = self@.zooms.map_values(|k: zoom::Keyframe| k.zoom);
        let mut out: Vec<ZoomSuggestion> = Vec::new();
        let mut i: usize = 0;
        while i < self.zooms.len()
            invariant
                i <= self.zooms@.len(),
                want == self@.zooms.map_values(|k: zoom::Keyframe| k.zoom),
                zoom::suggestions(out@) == want.take(i as int),
            decreases self.zooms@.len() - i,
        {
            let ghost before = zoom::suggestions(out@);
            out.push(self.zooms[i].as_suggestion());
            i = i + 1;
            assert(zoom::suggestions(out@) =~= before.push(want[i - 1]));
            assert(want.take(i as int) =~= before.push(want[i - 1]));
        }
        assert(want.take(want.len() as int) =~= want);
        out
    }

    /// Gives each keyframe the edited ranges in which it plays.
    pub fn attach_zoom_ranges(&mut self) -> (r: Result<(), String>)
        ensures
            match r {
                Ok(()) => {
                    &&& timeline::retained_fault(old(self)@.retained) is None
                    &&& final(self)@ == (Edit { zooms: final(self)@.zooms, ..old(self)@ })
                    &&& zoom::all_attached(
                        old(self)@.zooms,
                        old(self)@.retained,
                        final(self)@.zooms,
                    )
                },
                Err(e) => *final(self) == *old(self) && timeline::retained_fault(
                    old(self)@.retained,
                ) == Some(e@),
            },
    {
        match self.mapper() {
            Ok(mapper) => {
                self.zooms = attach_zoom_edited_ranges(&self.zooms, &mapper);
                Ok(())
            },
            Err(e) => Err(e),
        }
    }

    /// The edited duration.
    pub fn edited_duration_us(&self) -> (r: Result<u64, String>)
        ensures
            match r {
                Ok(d) => timeline::retained_fault(self@.retained) is None && d == timeline::total(
                    self@.retained,
                ),
                Err(e) => timeline::retained_fault(self@.retained) == Some(e@),
            },
    {
        match self.mapper() {
            Ok(mapper) => Ok(mapper.total_edited_duration_us()),
            Err(e) => Err(e),
        }
    }
}

/// Whether identifier `i` of dismissed suggestions can stand: not empty, not too
/// long, and not there before.
pub open spec fn dismissed_ok(ids: Seq<Seq<char>>, i: int) -> bool {
    &&& 0 < ids[i].len()
    &&& layout::byte_len(ids[i]) <= 128
    &&& forall|k: int| 0 <= k < i ==> #[trigger] ids[k] != ids[i]
}

/// Why the identifiers of dismissed suggestions cannot stand; `None` when they can.
pub open spec fn dismissed_fault(ids: Seq<Seq<char>>, limit: nat) -> Option<Seq<char>> {
    if ids.len() > limit {
        Some("Too many dismissed zoom ids"@)
    } else if exists|i: int| 0 <= i < ids.len() && !(#[trigger] dismissed_ok(ids, i)) {
        Some("Invalid dismissed zoom id"@)
    } else {
        None
    }
}

fn is_dismissed_ok(ids: &Vec<String>, i: usize) -> (r: bool)
    requires
        i < ids@.len(),
    ensures
        r == dismissed_ok(paths::texts(ids@), i as int),
{
    let ghost t = paths::texts(ids@);
    assert(t[i as int] == ids@[i as int]@);
    if ids[i].as_str().is_empty() || ids[i].as_str().len() > 128 {
        return false;
    }
    let mut k: usize = 0;
    while k < i
        invariant
            k <= i < ids@.len(),
            t == paths::texts(ids@),
            forall|j: int| 0 <= j < k ==> #[trigger] t[j] != t[i as int],
        decreases i - k,
    {
        assert(t[k as int] == ids@[k as int]@);
        if text::str_eq(ids[k].as_str(), ids[i].as_str()) {
            return false;
        }
        k = k + 1;
    }
    true
}

/// Checks the identifiers of dismissed suggestions.
pub fn validate_dismissed(ids: &Vec<String>, max_dismissed: usize) -> (r: Result<(), String>)
    ensures
        match r {
            Ok(()) => dismissed_fault(paths::texts(ids@), max_dismissed as nat) is None,
            Err(e) => dismissed_fault(paths::texts(ids@), max_dismissed as nat) == Some(e@),
        },
{
    if ids.len() > max_dismissed {
        return Err("Too many dismissed zoom ids".to_owned());
    }
    let ghost t = paths::texts(ids@);
    let mut i: usize = 0;
    while i < ids.len()
        invariant
            i <= ids@.len() <= max_dismissed,
            t == paths::texts(ids@),
            forall|j: int| 0 <= j < i ==> #[trigger] dismissed_ok(t, j),
        decreases ids@.len() - i,
    {
        if !is_dismissed_ok(ids, i) {
            return Err("Invalid dismissed zoom id".to_owned());
        }
        i = i + 1;
    }
    Ok(())
}

/// A message that may be missing, as characters.
pub open spec fn said(e: Option<String>) -> Option<Seq<char>> {
    match e {
        Some(e) => Some(e@),
        None => None,
    }
}

/// Why the contents of an edit cannot stand, where `zoom_fault` says what is wrong
/// with its keyframes; `None` when they can.
pub open spec fn content_fault(
    d: Edit,
    zoom_fault: Option<Seq<char>>,
    limits: ZoomLimits,
) -> Option<Seq<char>> {
    if timeline::retained_fault(d.retained) is Some {
        timeline::retained_fault(d.retained)
    } else if d.layout.fault() is Some {
        d.layout.fault()
    } else if zoom_fault is Some {
        zoom_fault
    } else {
        dismissed_fault(d.dismissed, limits.max_dismissed as nat)
    }
}

/// Checks the contents of an edit, where `zoom_fault` says what is wrong with its
/// keyframes.
pub fn check_content(
    d: &EditDocument,
    zoom_fault: &Option<String>,
    limits: ZoomLimits,
) -> (r: Result<(), String>)
    ensures
        match r {
            Ok(()) => content_fault(d@, said(*zoom_fault), limits) is None,
            Err(e) => content_fault(d@, said(*zoom_fault), limits) == Some(e@),
        },
{
    match validate_retained(&d.retained_intervals) {
        Ok(()) => {},
        Err(e) => {
            return Err(e);
        },
    }
    match validate_layout(&d.layout) {
        Ok(()) => {},
        Err(e) => {
            return Err(e);
        },
    }
    match zoom_fault {
        Some(e) => {
            return Err(e.clone());
        },
        None => {},
    }
    validate_dismissed(&d.dismissed_zoom_ids, limits.max_dismissed)
}

/// Checks how many bytes a stored edit has.
pub fn check_edit_size(len: u64) -> (r: Result<(), String>)
    ensures
        match r {
            Ok(()) => len <= MAX_EDIT_BYTES,
            Err(e) => len > MAX_EDIT_BYTES && e@ == "Edit document exceeds size limit"@,
        },
{
    if len > MAX_EDIT_BYTES {
        return Err("Edit document exceeds size limit".to_owned());
    }
    Ok(())
}

/// Checks an edit that was read from its file.
pub fn load_edit_document(
    d: &EditDocument,
    zoom_fault: &Option<String>,
    limits: ZoomLimits,
) -> (r: Result<(), String>)
    ensures
        match r {
            Ok(()) => d.schema_version == EDIT_SCHEMA_VERSION && content_fault(
                d@,
                said(*zoom_fault),
                limits,
            ) is None,
            Err(e) => if d.schema_version != EDIT_SCHEMA_VERSION {
                e@ == "Unsupported edit schema version: "@ + text::decimal(d.schema_version as nat)
            } else {
                content_fault(d@, said(*zoom_fault), limits) == Some(e@)
            },
        },
{
    if d.schema_version != EDIT_SCHEMA_VERSION {
        let mut t: String = "Unsupported edit schema version: ".to_owned();
        text::push_decimal(&mut t, d.schema_version as u64);
        return Err(t);
    }
    check_content(d, zoom_fault, limits)
}

/// Checks an edit that is to be written to its file.
pub fn save_edit_document(
    d: &EditDocument,
    zoom_fault: &Option<String>,
    limits: ZoomLimits,
) -> (r: Result<(), String>)
    ensures
        match r {
            Ok(()) => d.schema_version == EDIT_SCHEMA_VERSION && content_fault(
                d@,
                said(*zoom_fault),
                limits,
            ) is None,
            Err(e) => if content_fault(d@, said(*zoom_fault), limits) is Some {
                content_fault(d@, said(*zoom_fault), limits) == Some(e@)
            } else {
                d.schema_version != EDIT_SCHEMA_VERSION && e@ == "Unsupported edit schema version"@
            },
        },
{
    match check_content(d, zoom_fault, limits) {
        Ok(()) => {},
        Err(e) => {
            return Err(e);
        },
    }
    if d.schema_version != EDIT_SCHEMA_VERSION {
        return Err("Unsupported edit schema version".to_owned());
    }
    Ok(())
}

/// Checks that the stored edit is still the one that a change starts from. Without
/// a stored edit the revision is 0.
pub fn check_disk_revision(on_disk: Option<u64>, expected: u64) -> (r: Result<(), String>)
    ensures
        match r {
            Ok(()) => expected == on_disk.unwrap_or(0),
            Err(e) => expected != on_disk.unwrap_or(0) && e@
                == "Stale edit revision on disk; reopen the project"@,
        },
{
    let found: u64 = match on_disk {
        Some(n) => n,
        None => 0,
    };
    if found != expected {
        return Err("Stale edit revision on disk; reopen the project".to_owned());
    }
    Ok(())
}

/// How a saved document changes the history.
#[derive(Debug, Clone, Copy, PartialEq, Eq, Structural)]
pub enum Change {
    Commit,
    Undo,
    Redo,
}

/// A document that is to be saved, and then to become the current one.
#[derive(Debug)]
pub struct PendingEdit {
    pub change: Change,
    pub document: EditDocument,
}

/// The current edit, those that it came from, and those that were undone.
#[derive(Debug)]
pub struct EditHistory {
    current: EditDocument,
    undo: Vec<EditDocument>,
    redo: Vec<EditDocument>,
}

/// What a history holds, the latest edits last.
pub struct Timeline {
    pub current: Edit,
    pub undo: Seq<Edit>,
    pub redo: Seq<Edit>,
}

/// Documents as what they say.
pub open spec fn edits(v: Seq<EditDocument>) -> Seq<Edit> {
    v.map_values(|d: EditDocument| d@)
}

impl View for EditHistory {
    type V = Timeline;

    closed spec fn view(&self) -> Timeline {
        Timeline { current: self.current@, undo: edits(self.undo@), redo: edits(self.redo@) }
    }
}

/// The latest edits that can be undone, no more than are kept.
pub open spec fn bounded(undo: Seq<Edit>) -> Seq<Edit> {
    if undo.len() > MAX_UNDO {
        undo.skip(1)
    } else {
        undo
    }
}

impl Timeline {
    /// No more edits are kept than can be undone.
    pub open spec fn wf(self) -> bool {
        self.undo.len() + self.redo.len() <= MAX_UNDO
    }

    /// Whether there is an edit that the change brings back.
    pub open spec fn allows(self, change: Change) -> bool {
        match change {
            Change::Commit => true,
            Change::Undo => self.undo.len() > 0,
            Change::Redo => self.redo.len() > 0,
        }
    }

    /// The history after a change to the edit `d`.
    pub open spec fn changed(self, change: Change, d: Edit) -> Timeline {
        match change {
            Change::Commit => Timeline {
                current: d,
                undo: bounded(self.undo.push(self.current)),
                redo: Seq::empty(),
            },
            Change::Undo => Timeline {
                current: d,
                undo: self.undo.drop_last(),
                redo: self.redo.push(self.current),
            },
            Change::Redo => Timeline {
                current: d,
                undo: self.undo.push(self.current),
                redo: self.redo.drop_last(),
            },
        }
    }

    /// The edit that an undo brings back, as a new revision.
    pub open spec fn undone(self) -> Edit {
        Edit { revision: (self.current.revision + 1) as u64, ..self.undo.last() }
    }

    /// The edit that a redo brings back, as a new revision.
    pub open spec fn redone(self) -> Edit {
        Edit { revision: (self.current.revision + 1) as u64, ..self.redo.last() }
    }
}

/// Whether two revisions say the same.
pub open spec fn same_content(a: Edit, b: Edit) -> bool {
    a == (Edit { revision: a.revision, ..b })
}

/// Undoing a commit brings back what the edit said before it, as a revision of its own,
/// and the commit can be redone then. As long as the undoing is not saved, the commit is
/// the current edit and can be undone.
pub proof fn undo_takes_a_commit_back(h: Timeline, next: Edit, d: Edit)
    requires
        follows(h.current, next, d),
    ensures
        ({
            let committed = h.changed(Change::Commit, d);
            &&& committed.current == d
            &&& d.revision == h.current.revision + 1
            &&& committed.allows(Change::Undo)
            &&& same_content(committed.undone(), h.current)
            &&& d.revision < u64::MAX ==> {
                let undone = committed.changed(Change::Undo, committed.undone());
                &&& undo_refusal(committed, d.revision) is None
                &&& undone.current.revision == h.current.revision + 2
                &&& same_content(undone.current, h.current)
                &&& undone.allows(Change::Redo)
                &&& undone.redo.last() == d
            }
        }),
{
    let committed = h.changed(Change::Commit, d);
    assert(committed.undo.last() == h.current);
}

/// A change that is refused is not saved, so the history stays as it was: a stale request
/// is refused whatever could be undone or redone.
pub proof fn stale_changes_are_refused(h: Timeline, expected: u64)
    requires
        expected != h.current.revision,
    ensures
        undo_refusal(h, expected) == Some("Stale edit revision"@),
        redo_refusal(h, expected) == Some("Stale edit revision"@),
{
}

/// Why the last change cannot be undone; `None` when it can.
pub open spec fn undo_refusal(h: Timeline, expected: u64) -> Option<Seq<char>> {
    if expected != h.current.revision {
        Some("Stale edit revision"@)
    } else if !h.allows(Change::Undo) {
        Some("Nothing to undo"@)
    } else if h.current.revision == u64::MAX {
        Some("Revision overflow"@)
    } else {
        None
    }
}

/// Why the last undoing cannot be taken back; `None` when it can.
pub open spec fn redo_refusal(h: Timeline, expected: u64) -> Option<Seq<char>> {
    if expected != h.current.revision {
        Some("Stale edit revision"@)
    } else if !h.allows(Change::Redo) {
        Some("Nothing to redo"@)
    } else if h.current.revision == u64::MAX {
        Some("Revision overflow"@)
    } else {
        None
    }
}

/// Redoing what was undone brings back what the edit said before the undo, and the
/// edits that can be undone.
pub proof fn redo_takes_an_undo_back(h: Timeline)
    requires
        h.allows(Change::Undo),
    ensures
        ({
            let after = h.changed(Change::Undo, h.undone());
            &&& after.allows(Change::Redo)
            &&& same_content(after.redone(), h.current)
            &&& after.changed(Change::Redo, after.redone()).undo.len() == h.undo.len()
            &&& same_content(
                after.changed(Change::Redo, after.redone()).undo.last(),
                h.undo.last(),
            )
            &&& after.changed(Change::Redo, after.redone()).redo == h.redo
        }),
{
    let after = h.changed(Change::Undo, h.undone());
    let back = after.changed(Change::Redo, after.redone());
    assert(back.redo =~= h.redo);
    assert(after.redo.last() == h.current);
    assert(back.undo.last() == after.current);
}

/// No change lets the history grow beyond what is kept.
pub proof fn histories_stay_bounded(h: Timeline, change: Change, d: Edit)
    requires
        h.wf(),
        h.allows(change),
    ensures
        h.changed(change, d).wf(),
{
}

/// Why `next` cannot follow the current edit; `None` when it can.
pub open spec fn commit_fault(
    current: Edit,
    expected: u64,
    next: Edit,
    zoom_fault: Option<Seq<char>>,
    limits: ZoomLimits,
) -> Option<Seq<char>> {
    if expected != current.revision {
        Some("Stale edit revision"@)
    } else if content_fault(next, zoom_fault, limits) is Some {
        content_fault(next, zoom_fault, limits)
    } else if current.revision == u64::MAX {
        Some("Revision overflow"@)
    } else {
        None
    }
}

/// Whether `d` is `next` as the revision after the current one, its keyframes with
/// the ranges in which they play.
pub open spec fn follows(current: Edit, next: Edit, d: Edit) -> bool {
    &&& d == (Edit {
        schema: EDIT_SCHEMA_VERSION,
        revision: d.revision,
        zooms: d.zooms,
        ..next
    })
    &&& d.revision == current.revision + 1
    &&& zoom::all_attached(next.zooms, next.retained, d.zooms)
}

/// The suggestions that are neither applied nor dismissed, as keyframes.
pub open spec fn fresh(current: Edit, s: Seq<zoom::Zoom>) -> Seq<zoom::Keyframe>
    decreases s.len(),
{
    if s.len() == 0 {
        Seq::empty()
    } else {
        let before = fresh(current, s.drop_last());
        if zoom::has_zoom(current.zooms, s.last().id) || current.dismissed.contains(s.last().id) {
            before
        } else {
            before.push(zoom::Keyframe { zoom: s.last(), source: ZoomSource::Generated })
        }
    }
}

/// Why suggestions cannot be applied; `None` when they can.
pub open spec fn accept_fault(
    current: Edit,
    s: Seq<zoom::Zoom>,
    limits: ZoomLimits,
) -> Option<Seq<char>> {
    if s.len() == 0 {
        Some("No zoom suggestions selected"@)
    } else if fresh(current, s).len() == 0 {
        Some("Those zoom suggestions are already applied or dismissed"@)
    } else if current.zooms.len() + fresh(current, s).len() > limits.max_zooms {
        Some("Too many zoom keyframes"@)
    } else {
        None
    }
}

/// The keyframes whose identifiers are not in `ids`.
pub open spec fn without(z: Seq<zoom::Keyframe>, ids: Seq<Seq<char>>) -> Seq<zoom::Keyframe>
    decreases z.len(),
{
    if z.len() == 0 {
        Seq::empty()
    } else if ids.contains(z.last().zoom.id) {
        without(z.drop_last(), ids)
    } else {
        without(z.drop_last(), ids).push(z.last())
    }
}

/// The identifiers `d` and those of `ids` that are not there yet, each once.
pub open spec fn with_ids(d: Seq<Seq<char>>, ids: Seq<Seq<char>>) -> Seq<Seq<char>>
    decreases ids.len(),
{
    if ids.len() == 0 {
        d
    } else {
        let before = with_ids(d, ids.drop_last());
        if before.contains(ids.last()) {
            before
        } else {
            before.push(ids.last())
        }
    }
}

/// Why suggestions cannot be dismissed; `None` when they can.
pub open spec fn dismiss_fault(current: Edit, ids: Seq<Seq<char>>) -> Option<Seq<char>> {
    if ids.len() == 0 {
        Some("No zoom ids selected"@)
    } else if without(current.zooms, ids).len() == current.zooms.len() && with_ids(
        current.dismissed,
        ids,
    ).len() == current.dismissed.len() {
        Some("Those zoom ids are already dismissed"@)
    } else {
        None
    }
}

/// The first keyframe with the identifier `id`, from `i` on.
pub open spec fn first_zoom(z: Seq<zoom::Keyframe>, id: Seq<char>, i: int) -> Option<int>
    decreases z.len() - i,
{
    if i >= z.len() {
        None
    } else if z[i].zoom.id == id {
        Some(i)
    } else {
        first_zoom(z, id, i + 1)
    }
}

/// A keyframe moved, resized and scaled by hand.
pub open spec fn moved(k: zoom::Keyframe, patch: zoom::Keyframe) -> zoom::Keyframe {
    zoom::Keyframe {
        zoom: zoom::Zoom {
            start: patch.zoom.start,
            end: patch.zoom.end,
            center_x: patch.zoom.center_x,
            center_y: patch.zoom.center_y,
            scale: patch.zoom.scale,
            transition: patch.zoom.transition,
            ..k.zoom
        },
        source: ZoomSource::Manual,
    }
}

/// How long a zoom of this duration takes to move in and out: a fifth of it, at
/// least one and at most 400 milliseconds, and shorter than the zoom.
pub open spec fn transition_for(duration: int) -> int {
    let fifth = duration / 5;
    let clamped = if fifth < 1 {
        1
    } else if fifth > 400_000 {
        400_000
    } else {
        fifth
    };
    if clamped < duration - 1 {
        clamped
    } else {
        duration - 1
    }
}

/// The stretch of the source under an edited range, or why a zoom cannot stand
/// there.
pub open spec fn manual_range(retained: Seq<RetainedInterval>, from: u64, to: u64) -> Result<
    (int, int),
    Seq<char>,
> {
    let start = timeline::to_source(retained, from as int);
    let last = timeline::to_source(retained, to - 1);
    if to <= from {
        Err("Zoom must be a half-open edited range"@)
    } else if timeline::retained_fault(retained) is Some {
        Err(timeline::retained_fault(retained)->0)
    } else if start is None {
        Err("Zoom start is not on retained media"@)
    } else if last is None {
        Err("Zoom end is not on retained media"@)
    } else if last->0 + 1 - start->0 < 3 {
        Err("Zoom range is too short"@)
    } else {
        Ok((start->0, last->0 + 1))
    }
}

/// A zoom that was placed by hand, as the keyframe after `count` others.
pub open spec fn manual_zoom(
    range: (int, int),
    count: nat,
    center_x: u64,
    center_y: u64,
    scale: u64,
) -> zoom::Keyframe {
    zoom::Keyframe {
        zoom: zoom::Zoom {
            id: "m-"@ + text::decimal(range.0 as nat) + "-"@ + text::decimal(count),
            start: range.0 as u64,
            end: range.1 as u64,
            center_x,
            center_y,
            scale,
            transition: transition_for(range.1 - range.0) as u64,
            origin: "click"@,
            seqs: Seq::empty(),
            ranges: Seq::empty(),
        },
        source: ZoomSource::Manual,
    }
}

/// What is left after the cuts, from the last to the first; `None` when one is not
/// a range of what is left then.
pub open spec fn cut_all(s: Seq<RetainedInterval>, cuts: Seq<(u64, u64)>) -> Option<
    Seq<RetainedInterval>,
>
    decreases cuts.len(),
{
    if cuts.len() == 0 {
        Some(s)
    } else {
        let c = cuts.last();
        if c.0 < c.1 && c.1 <= timeline::total(s) {
            cut_all(timeline::cut(s, c.0 as int, c.1 as int), cuts.drop_last())
        } else {
            None
        }
    }
}

/// Whether no cut reaches into the next one.
pub open spec fn cuts_apart(cuts: Seq<(u64, u64)>) -> bool {
    forall|i: int| 0 <= i < cuts.len() - 1 ==> (#[trigger] cuts[i]).1 <= cuts[i + 1].0
}

/// The length of all cuts together.
pub open spec fn cut_length(cuts: Seq<(u64, u64)>) -> int
    decreases cuts.len(),
{
    if cuts.len() == 0 {
        0
    } else {
        cut_length(cuts.drop_last()) + (cuts.last().1 - cuts.last().0)
    }
}

/// Cuts shorten the edit by their length, and leave stretches in order.
pub proof fn cuts_shorten_by_their_length(s: Seq<RetainedInterval>, cuts: Seq<(u64, u64)>)
    requires
        timeline::ordered(s),
        cut_all(s, cuts) is Some,
    ensures
        timeline::ordered(cut_all(s, cuts)->0),
        timeline::total(cut_all(s, cuts)->0) == timeline::total(s) - cut_length(cuts),
    decreases cuts.len(),
{
    if cuts.len() > 0 {
        let c = cuts.last();
        timeline::a_cut_removes_its_range(s, c.0 as int, c.1 as int, 0);
        cuts_shorten_by_their_length(
            timeline::cut(s, c.0 as int, c.1 as int),
            cuts.drop_last(),
        );
    }
}

/// A dismissed suggestion is never applied again, and an applied one, moved or not,
/// is never replaced: applying suggestions only adds keyframes with other
/// identifiers.
pub proof fn accepting_revives_nothing(current: Edit, s: Seq<zoom::Zoom>)
    ensures
        forall|i: int|
            0 <= i < fresh(current, s).len() ==> !current.dismissed.contains(
                (#[trigger] fresh(current, s)[i]).zoom.id,
            ) && !zoom::has_zoom(current.zooms, fresh(current, s)[i].zoom.id),
    decreases s.len(),
{
    if s.len() > 0 {
        accepting_revives_nothing(current, s.drop_last());
    }
}

proof fn lemma_with_ids_keeps(d: Seq<Seq<char>>, ids: Seq<Seq<char>>)
    ensures
        with_ids(d, ids).len() >= d.len(),
        with_ids(d, ids).len() == d.len() ==> with_ids(d, ids) == d,
        forall|x: Seq<char>| #[trigger] d.contains(x) ==> with_ids(d, ids).contains(x),
        forall|i: int| 0 <= i < ids.len() ==> with_ids(d, ids).contains(#[trigger] ids[i]),
    decreases ids.len(),
{
    if ids.len() > 0 {
        let before = with_ids(d, ids.drop_last());
        lemma_with_ids_keeps(d, ids.drop_last());
        let after = with_ids(d, ids);
        assert forall|x: Seq<char>| before.contains(x) implies after.contains(x) by {
            let k = choose|k: int| 0 <= k < before.len() && before[k] == x;
            assert(after[k] == x);
        }
        assert(after.contains(ids.last())) by {
            if !before.contains(ids.last()) {
                assert(after.last() == ids.last());
            }
        }
        assert forall|i: int| 0 <= i < ids.len() implies after.contains(#[trigger] ids[i]) by {
            if i < ids.len() - 1 {
                assert(ids.drop_last()[i] == ids[i]);
            }
        }
    }
}

/// After suggestions are dismissed, none of them is applied, and all of them are
/// known as dismissed.
pub proof fn dismissing_removes(z: Seq<zoom::Keyframe>, d: Seq<Seq<char>>, ids: Seq<Seq<char>>)
    ensures
        forall|i: int| 0 <= i < ids.len() ==> !zoom::has_zoom(without(z, ids), #[trigger] ids[i]),
        forall|i: int| 0 <= i < ids.len() ==> with_ids(d, ids).contains(#[trigger] ids[i]),
{
    lemma_with_ids_keeps(d, ids);
    lemma_without(z, ids);
    assert forall|i: int| 0 <= i < ids.len() implies !zoom::has_zoom(
        without(z, ids),
        #[trigger] ids[i],
    ) by {
        assert(ids.contains(ids[i]));
    }
}

proof fn lemma_without(z: Seq<zoom::Keyframe>, ids: Seq<Seq<char>>)
    ensures
        without(z, ids).len() <= z.len(),
        without(z, ids).len() == z.len() ==> without(z, ids) == z,
        forall|i: int|
            0 <= i < without(z, ids).len() ==> !ids.contains(
                (#[trigger] without(z, ids)[i]).zoom.id,
            ),
    decreases z.len(),
{
    if z.len() > 0 {
        lemma_without(z.drop_last(), ids);
        if without(z, ids).len() == z.len() {
            assert(without(z, ids) =~= z);
        }
    }
}

proof fn lemma_first_zoom(z: Seq<zoom::Keyframe>, id: Seq<char>, i: int)
    requires
        0 <= i,
    ensures
        match first_zoom(z, id, i) {
            Some(k) => i <= k < z.len() && z[k].zoom.id == id && forall|j: int|
                i <= j < k ==> (#[trigger] z[j]).zoom.id != id,
            None => forall|j: int| i <= j < z.len() ==> (#[trigger] z[j]).zoom.id != id,
        },
    decreases z.len() - i,
{
    if i < z.len() && z[i].zoom.id != id {
        lemma_first_zoom(z, id, i + 1);
    }
}

/// A keyframe is found by its identifier, the first of those that have it, and is missed
/// only where none has it.
pub proof fn keyframes_are_found_by_identifier(z: Seq<zoom::Keyframe>, id: Seq<char>)
    ensures
        first_zoom(z, id, 0) is Some <==> exists|k: int|
            0 <= k < z.len() && (#[trigger] z[k]).zoom.id == id,
        first_zoom(z, id, 0) matches Some(k) ==> 0 <= k < z.len() && z[k].zoom.id == id && forall|
            j: int,
        |
            0 <= j < k ==> (#[trigger] z[j]).zoom.id != id,
{
    lemma_first_zoom(z, id, 0);
}

/// A keyframe that is moved lies where it was put: it starts, ends, looks, magnifies and
/// moves in and out as was asked for, and stays the same zoom of the same events. It counts
/// as placed by hand. Every other keyframe is as it was.
pub proof fn a_moved_zoom_lies_where_it_was_put(
    z: Seq<zoom::Keyframe>,
    patch: zoom::Keyframe,
    k: int,
    j: int,
)
    requires
        first_zoom(z, patch.zoom.id, 0) == Some(k),
        0 <= j < z.len(),
    ensures
        0 <= k < z.len(),
        ({
            let after = z.update(k, moved(z[k], patch));
            &&& after.len() == z.len()
            &&& after[k].zoom.id == patch.zoom.id
            &&& after[k].zoom.start == patch.zoom.start
            &&& after[k].zoom.end == patch.zoom.end
            &&& after[k].zoom.center_x == patch.zoom.center_x
            &&& after[k].zoom.center_y == patch.zoom.center_y
            &&& after[k].zoom.scale == patch.zoom.scale
            &&& after[k].zoom.transition == patch.zoom.transition
            &&& after[k].zoom.origin == z[k].zoom.origin
            &&& after[k].zoom.seqs == z[k].zoom.seqs
            &&& after[k].zoom.ranges == z[k].zoom.ranges
            &&& after[k].source == ZoomSource::Manual
            &&& j != k ==> after[j] == z[j]
        }),
{
    lemma_first_zoom(z, patch.zoom.id, 0);
}

/// Applying suggestions applies each that is neither applied nor dismissed, as it was
/// suggested, and counts it as generated. It applies nothing else.
pub proof fn fresh_suggestions_are_applied(current: Edit, s: Seq<zoom::Zoom>, k: zoom::Keyframe)
    ensures
        fresh(current, s).contains(k) <==> k.source == ZoomSource::Generated && s.contains(k.zoom)
            && !current.dismissed.contains(k.zoom.id) && (forall|i: int|
            0 <= i < current.zooms.len() ==> (#[trigger] current.zooms[i]).zoom.id != k.zoom.id),
        fresh(current, s).len() <= s.len(),
    decreases s.len(),
{
    let all = fresh(current, s);
    if s.len() > 0 {
        let t = s.drop_last();
        let before = fresh(current, t);
        fresh_suggestions_are_applied(current, t, k);
        assert(s.contains(k.zoom) <==> t.contains(k.zoom) || s.last() == k.zoom) by {
            if s.contains(k.zoom) {
                let i = choose|i: int| 0 <= i < s.len() && s[i] == k.zoom;
                if i < t.len() {
                    assert(t[i] == k.zoom);
                }
            }
            if t.contains(k.zoom) {
                let i = choose|i: int| 0 <= i < t.len() && t[i] == k.zoom;
                assert(s[i] == k.zoom);
            }
            if s.last() == k.zoom {
                assert(s[s.len() - 1] == k.zoom);
            }
        }
        assert(all.contains(k) <==> before.contains(k) || (all.len() > before.len() && all.last()
            == k)) by {
            if all.contains(k) {
                let i = choose|i: int| 0 <= i < all.len() && all[i] == k;
                if i < before.len() {
                    assert(before[i] == k);
                }
            }
            if before.contains(k) {
                let i = choose|i: int| 0 <= i < before.len() && before[i] == k;
                assert(all[i] == k);
            }
            if all.len() > before.len() && all.last() == k {
                assert(all[all.len() - 1] == k);
            }
        }
        let known = zoom::has_zoom(current.zooms, s.last().id);
        if !known && s.last() == k.zoom {
            assert forall|i: int| 0 <= i < current.zooms.len() implies (
            #[trigger] current.zooms[i]).zoom.id != k.zoom.id by {}
        }
    }
}

/// A sorting of keyframes holds the same keyframes, as many, in the order of their starts.
pub proof fn sorting_keeps_keyframes(
    z: Seq<zoom::Keyframe>,
    out: Seq<zoom::Keyframe>,
    k: zoom::Keyframe,
)
    requires
        zoom::sorted_keyframes(z, out),
    ensures
        out.len() == z.len(),
        out.contains(k) ==> z.contains(k),
        forall|i: int, j: int|
            0 <= i < j < out.len() ==> (#[trigger] out[i]).zoom.start <= (
            #[trigger] out[j]).zoom.start,
{
    let p = choose|p: Seq<int>|
        zoom::keyframe_order(z, p) && out == #[trigger] sorting::gather(z, p);
    if out.contains(k) {
        let i = choose|i: int| 0 <= i < out.len() && out[i] == k;
        assert(z[p[i]] == k);
    }
    assert forall|i: int, j: int| 0 <= i < j < out.len() implies (#[trigger] out[i]).zoom.start <= (
    #[trigger] out[j]).zoom.start by {
        assert(p[i] != p[j]);
    }
}

/// Dismissing takes away the keyframes that it names and no others, and only what it names
/// becomes known as dismissed beside what was.
pub proof fn dismissing_leaves_the_others(
    z: Seq<zoom::Keyframe>,
    d: Seq<Seq<char>>,
    ids: Seq<Seq<char>>,
    k: zoom::Keyframe,
    id: Seq<char>,
)
    ensures
        without(z, ids).contains(k) <==> z.contains(k) && !ids.contains(k.zoom.id),
        with_ids(d, ids).contains(id) <==> d.contains(id) || ids.contains(id),
        with_ids(d, ids).len() >= d.len(),
        with_ids(d, ids).take(d.len() as int) == d,
        d.no_duplicates() ==> with_ids(d, ids).no_duplicates(),
{
    lemma_without_exact(z, ids, k);
    lemma_with_ids_exact(d, ids, id);
}

proof fn lemma_without_exact(z: Seq<zoom::Keyframe>, ids: Seq<Seq<char>>, k: zoom::Keyframe)
    ensures
        without(z, ids).contains(k) <==> z.contains(k) && !ids.contains(k.zoom.id),
    decreases z.len(),
{
    if z.len() > 0 {
        let t = z.drop_last();
        let before = without(t, ids);
        let all = without(z, ids);
        lemma_without_exact(t, ids, k);
        if z.contains(k) {
            let i = choose|i: int| 0 <= i < z.len() && z[i] == k;
            if i < t.len() {
                assert(t[i] == k);
            }
        }
        if t.contains(k) {
            let i = choose|i: int| 0 <= i < t.len() && t[i] == k;
            assert(z[i] == k);
        }
        if before.contains(k) {
            let i = choose|i: int| 0 <= i < before.len() && before[i] == k;
            assert(all[i] == k);
        }
        if all.contains(k) {
            let i = choose|i: int| 0 <= i < all.len() && all[i] == k;
            if i < before.len() {
                assert(before[i] == k);
            } else {
                assert(z[z.len() - 1] == k);
            }
        }
        if z.last() == k && !ids.contains(k.zoom.id) {
            assert(all[all.len() - 1] == k);
        }
    }
}

proof fn lemma_with_ids_exact(d: Seq<Seq<char>>, ids: Seq<Seq<char>>, id: Seq<char>)
    ensures
        with_ids(d, ids).contains(id) <==> d.contains(id) || ids.contains(id),
        with_ids(d, ids).len() >= d.len(),
        with_ids(d, ids).take(d.len() as int) == d,
        d.no_duplicates() ==> with_ids(d, ids).no_duplicates(),
    decreases ids.len(),
{
    let all = with_ids(d, ids);
    if ids.len() > 0 {
        let t = ids.drop_last();
        let before = with_ids(d, t);
        lemma_with_ids_exact(d, t, id);
        if ids.contains(id) {
            let i = choose|i: int| 0 <= i < ids.len() && ids[i] == id;
            if i < t.len() {
                assert(t[i] == id);
            }
        }
        if t.contains(id) {
            let i = choose|i: int| 0 <= i < t.len() && t[i] == id;
            assert(ids[i] == id);
        }
        if before.contains(id) {
            let i = choose|i: int| 0 <= i < before.len() && before[i] == id;
            assert(all[i] == id);
        }
        if all.contains(id) {
            let i = choose|i: int| 0 <= i < all.len() && all[i] == id;
            if i < before.len() {
                assert(before[i] == id);
            } else {
                assert(ids[ids.len() - 1] == id);
            }
        }
        if ids.last() == id && !before.contains(id) {
            assert(all[all.len() - 1] == id);
        }
        assert(all.take(d.len() as int) =~= before.take(d.len() as int));
        if d.no_duplicates() {
            assert forall|i: int, j: int| 0 <= i < all.len() && 0 <= j < all.len() && i
                != j implies all[i] != all[j] by {
                if i < before.len() && j < before.len() {
                    assert(before[i] != before[j]);
                } else if i < before.len() {
                    assert(before.contains(before[i]));
                } else if j < before.len() {
                    assert(before.contains(before[j]));
                }
            }
        }
    } else {
        assert(all.take(d.len() as int) =~= d);
    }
}

/// A zoom moves in and out in a fifth of its duration, but in no less than a microsecond and
/// in no more than 400 milliseconds, and always in less than it lasts.
pub proof fn zooms_move_in_a_fifth_of_their_time(duration: int)
    requires
        3 <= duration,
    ensures
        1 <= transition_for(duration) <= 400_000,
        transition_for(duration) < duration,
        duration < 5 ==> transition_for(duration) == 1,
        5 <= duration < 2_000_000 ==> 5 * transition_for(duration) <= duration < 5
            * transition_for(duration) + 5,
        duration >= 2_000_000 ==> transition_for(duration) == 400_000,
{
}

/// A zoom that is placed by hand covers, in the source, what plays in the edited range: it
/// starts with what plays first there and ends just behind what plays last. Its look and
/// scale are what was asked for, and no event contributes to it.
pub proof fn a_placed_zoom_covers_its_range(
    retained: Seq<RetainedInterval>,
    from: u64,
    to: u64,
    count: nat,
    center_x: u64,
    center_y: u64,
    scale: u64,
    t: int,
)
    requires
        timeline::ordered(retained),
        manual_range(retained, from, to) is Ok,
        from <= t < to,
    ensures
        ({
            let k = manual_zoom(
                manual_range(retained, from, to)->Ok_0,
                count,
                center_x,
                center_y,
                scale,
            );
            &&& timeline::to_source(retained, from as int) == Some(k.zoom.start as int)
            &&& timeline::to_source(retained, to - 1) == Some(k.zoom.end - 1)
            &&& timeline::to_source(retained, t) matches Some(x) && k.zoom.start <= x < k.zoom.end
            &&& k.zoom.end - k.zoom.start >= 3
            &&& k.zoom.transition == transition_for(k.zoom.end - k.zoom.start)
            &&& k.zoom.center_x == center_x
            &&& k.zoom.center_y == center_y
            &&& k.zoom.scale == scale
            &&& k.zoom.origin == "click"@
            &&& k.zoom.seqs.len() == 0
            &&& k.source == ZoomSource::Manual
            &&& k.zoom.id == "m-"@ + text::decimal(k.zoom.start as nat) + "-"@ + text::decimal(count)
        }),
{
    timeline::every_edited_time_has_a_source_time(retained, to - 1);
    timeline::every_edited_time_has_a_source_time(retained, from as int);
    timeline::every_edited_time_has_a_source_time(retained, t);
    if from < t {
        timeline::edited_time_is_monotonic(retained, from as int, t);
    }
    if t < to - 1 {
        timeline::edited_time_is_monotonic(retained, t, to - 1);
    }
}

/// A zoom can be placed on an edited range exactly where the range is not empty, all of it
/// plays something, and what it covers in the source is long enough to move in and out.
pub proof fn zooms_can_be_placed_where_something_plays(
    retained: Seq<RetainedInterval>,
    from: u64,
    to: u64,
)
    requires
        timeline::ordered(retained),
        timeline::retained_fault(retained) is None,
    ensures
        manual_range(retained, from, to) is Ok <==> from < to <= timeline::total(retained)
            && timeline::to_source(retained, to - 1)->0 + 1 - timeline::to_source(
            retained,
            from as int,
        )->0 >= 3,
{
    timeline::every_edited_time_has_a_source_time(retained, from as int);
    if from < to {
        timeline::every_edited_time_has_a_source_time(retained, to - 1);
    }
}

proof fn lemma_cut_length(cuts: Seq<(u64, u64)>, n: int, limit: int)
    requires
        cuts_apart(cuts),
        0 <= n <= cuts.len(),
        n > 0 ==> cuts[n - 1].1 <= limit,
        n == 0 ==> 0 <= limit,
        forall|i: int| 0 <= i < cuts.len() ==> (#[trigger] cuts[i]).0 < cuts[i].1,
    ensures
        0 <= cut_length(cuts.take(n)) <= limit,
    decreases n,
{
    if n > 0 {
        let t = cuts.take(n);
        assert(t.drop_last() =~= cuts.take(n - 1));
        assert(t.last() == cuts[n - 1]);
        if n > 1 {
            assert(cuts[n - 2].1 <= cuts[n - 1].0);
        }
        lemma_cut_length(cuts, n - 1, cuts[n - 1].0 as int);
    }
}

/// What is not cut moves up and nothing else happens to it: at an edited time behind `n` of
/// the cuts and before the others played what plays now earlier by the length of those `n`.
pub proof fn what_is_not_cut_moves_up(
    s: Seq<RetainedInterval>,
    cuts: Seq<(u64, u64)>,
    n: int,
    t: int,
)
    requires
        timeline::ordered(s),
        cuts_apart(cuts),
        cut_all(s, cuts) is Some,
        0 <= n <= cuts.len(),
        0 <= t,
        n > 0 ==> cuts[n - 1].1 <= t,
        n < cuts.len() ==> t < cuts[n].0,
    ensures
        0 <= t - cut_length(cuts.take(n)),
        timeline::to_source(cut_all(s, cuts)->0, t - cut_length(cuts.take(n)))
            == timeline::to_source(s, t),
    decreases cuts.len(),
{
    lemma_cuts_are_ranges(s, cuts);
    lemma_cut_length(cuts, n, t);
    if cuts.len() > 0 {
        let c = cuts.last();
        let rest = cuts.drop_last();
        let after = timeline::cut(s, c.0 as int, c.1 as int);
        assert(cuts_apart(rest)) by {
            assert forall|i: int| 0 <= i < rest.len() - 1 implies (#[trigger] rest[i]).1 <= rest[i
                + 1].0 by {
                assert(cuts[i].1 <= cuts[i + 1].0);
            }
        }
        timeline::a_cut_removes_its_range(s, c.0 as int, c.1 as int, 0);
        if n == cuts.len() {
            let u = t - (c.1 - c.0);
            timeline::a_cut_removes_its_range(s, c.0 as int, c.1 as int, u);
            assert(cuts.take(n) =~= cuts);
            assert(rest.take(n - 1) =~= rest);
            if n > 1 {
                assert(cuts[n - 2].1 <= cuts[n - 1].0);
            }
            what_is_not_cut_moves_up(after, rest, n - 1, u);
        } else {
            lemma_starts_grow(cuts, n, cuts.len() - 1);
            timeline::a_cut_removes_its_range(s, c.0 as int, c.1 as int, t);
            assert(rest.take(n) =~= cuts.take(n));
            what_is_not_cut_moves_up(after, rest, n, t);
        }
    } else {
        assert(cuts.take(0) =~= cuts);
    }
}

proof fn lemma_cuts_are_ranges(s: Seq<RetainedInterval>, cuts: Seq<(u64, u64)>)
    requires
        cut_all(s, cuts) is Some,
    ensures
        forall|i: int| 0 <= i < cuts.len() ==> (#[trigger] cuts[i]).0 < cuts[i].1,
    decreases cuts.len(),
{
    if cuts.len() > 0 {
        let c = cuts.last();
        let rest = cuts.drop_last();
        lemma_cuts_are_ranges(timeline::cut(s, c.0 as int, c.1 as int), rest);
        assert forall|i: int| 0 <= i < cuts.len() implies (#[trigger] cuts[i]).0 < cuts[i].1 by {
            if i < rest.len() {
                assert(rest[i] == cuts[i]);
            }
        }
    }
}

proof fn lemma_starts_grow(cuts: Seq<(u64, u64)>, i: int, j: int)
    requires
        cuts_apart(cuts),
        forall|k: int| 0 <= k < cuts.len() ==> (#[trigger] cuts[k]).0 < cuts[k].1,
        0 <= i <= j < cuts.len(),
    ensures
        cuts[i].0 <= cuts[j].0,
    decreases j - i,
{
    if i < j {
        lemma_starts_grow(cuts, i, j - 1);
        assert(cuts[j - 1].1 <= cuts[j].0);
    }
}

/// Cuts can be made exactly where each is a range of the edited timeline, however many there
/// are.
pub proof fn cuts_are_ranges_of_the_timeline(s: Seq<RetainedInterval>, cuts: Seq<(u64, u64)>)
    requires
        timeline::ordered(s),
        cuts_apart(cuts),
    ensures
        cut_all(s, cuts) is Some <==> forall|i: int|
            0 <= i < cuts.len() ==> (#[trigger] cuts[i]).0 < cuts[i].1 <= timeline::total(s),
    decreases cuts.len(),
{
    if cuts.len() > 0 {
        let c = cuts.last();
        let rest = cuts.drop_last();
        assert(cuts_apart(rest)) by {
            assert forall|i: int| 0 <= i < rest.len() - 1 implies (#[trigger] rest[i]).1 <= rest[i
                + 1].0 by {
                assert(cuts[i].1 <= cuts[i + 1].0);
            }
        }
        if c.0 < c.1 && c.1 <= timeline::total(s) {
            let after = timeline::cut(s, c.0 as int, c.1 as int);
            timeline::a_cut_removes_its_range(s, c.0 as int, c.1 as int, 0);
            cuts_are_ranges_of_the_timeline(after, rest);
            if forall|i: int|
                0 <= i < cuts.len() ==> (#[trigger] cuts[i]).0 < cuts[i].1 <= timeline::total(s) {
                assert forall|i: int| 0 <= i < rest.len() implies (#[trigger] rest[i]).0 < rest[i].1
                    <= timeline::total(after) by {
                    assert(rest[i] == cuts[i]);
                    assert(cuts[i].1 <= cuts[i + 1].0);
                    lemma_starts_grow(cuts, i + 1, cuts.len() - 1);
                }
            }
            if cut_all(s, cuts) is Some {
                assert forall|i: int| 0 <= i < cuts.len() implies (#[trigger] cuts[i]).0 < cuts[i].1
                    <= timeline::total(s) by {
                    if i < rest.len() {
                        assert(rest[i] == cuts[i]);
                    }
                }
            }
        } else {
            assert(cuts[cuts.len() - 1] == c);
        }
    }
}

/// A commit keeps the edit that it replaces as the one to go back to, and those before it,
/// of which the oldest goes where there are too many. What was undone cannot be redone after
/// it.
pub proof fn a_commit_keeps_what_it_replaces(h: Timeline, d: Edit, i: int)
    requires
        h.wf(),
        0 <= i < h.undo.len(),
    ensures
        ({
            let after = h.changed(Change::Commit, d);
            let dropped = if h.undo.len() < 64 {
                0int
            } else {
                1
            };
            &&& after.current == d
            &&& after.undo.last() == h.current
            &&& after.undo.len() == h.undo.len() + 1 - dropped
            &&& i >= dropped ==> after.undo[i - dropped] == h.undo[i]
            &&& after.redo.len() == 0
        }),
{
}

/// An undo brings the last edit back that was replaced, and keeps what it replaces as the
/// one to redo. A redo is the other way round. The rest of the history stays.
pub proof fn undo_and_redo_move_one_edit(h: Timeline, d: Edit)
    ensures
        h.undo.len() > 0 ==> {
            let after = h.changed(Change::Undo, d);
            &&& h.undone().retained == h.undo[h.undo.len() - 1].retained
            &&& h.undone().layout == h.undo[h.undo.len() - 1].layout
            &&& h.undone().zooms == h.undo[h.undo.len() - 1].zooms
            &&& h.undone().dismissed == h.undo[h.undo.len() - 1].dismissed
            &&& h.current.revision < u64::MAX ==> h.undone().revision == h.current.revision + 1
            &&& after.current == d
            &&& after.undo == h.undo.take(h.undo.len() - 1)
            &&& after.redo == h.redo.push(h.current)
        },
        h.redo.len() > 0 ==> {
            let after = h.changed(Change::Redo, d);
            &&& h.redone().retained == h.redo[h.redo.len() - 1].retained
            &&& h.redone().layout == h.redo[h.redo.len() - 1].layout
            &&& h.redone().zooms == h.redo[h.redo.len() - 1].zooms
            &&& h.redone().dismissed == h.redo[h.redo.len() - 1].dismissed
            &&& h.current.revision < u64::MAX ==> h.redone().revision == h.current.revision + 1
            &&& after.current == d
            &&& after.redo == h.redo.take(h.redo.len() - 1)
            &&& after.undo == h.undo.push(h.current)
        },
{
    if h.undo.len() > 0 {
        assert(h.undo.drop_last() =~= h.undo.take(h.undo.len() - 1));
    }
    if h.redo.len() > 0 {
        assert(h.redo.drop_last() =~= h.redo.take(h.redo.len() - 1));
    }
}

/// A revision follows the one before it by one, and says what was asked for. Each of its
/// keyframes has the edited ranges in which its stretch of the source plays, and is as it was
/// asked for otherwise.
pub proof fn a_revision_says_what_was_asked_for(current: Edit, next: Edit, d: Edit, i: int, t: int)
    requires
        follows(current, next, d),
        timeline::ordered(next.retained),
        0 <= i < next.zooms.len(),
        0 <= t,
    ensures
        d.schema == 1,
        d.revision == current.revision + 1,
        d.retained == next.retained,
        d.layout == next.layout,
        d.dismissed == next.dismissed,
        d.zooms.len() == next.zooms.len(),
        d.zooms[i].source == next.zooms[i].source,
        d.zooms[i].zoom.id == next.zooms[i].zoom.id,
        d.zooms[i].zoom.start == next.zooms[i].zoom.start,
        d.zooms[i].zoom.end == next.zooms[i].zoom.end,
        d.zooms[i].zoom.center_x == next.zooms[i].zoom.center_x,
        d.zooms[i].zoom.center_y == next.zooms[i].zoom.center_y,
        d.zooms[i].zoom.scale == next.zooms[i].zoom.scale,
        d.zooms[i].zoom.transition == next.zooms[i].zoom.transition,
        d.zooms[i].zoom.origin == next.zooms[i].zoom.origin,
        d.zooms[i].zoom.seqs == next.zooms[i].zoom.seqs,
        (exists|r: int|
            0 <= r < d.zooms[i].zoom.ranges.len() && (#[trigger] d.zooms[i].zoom.ranges[r]).0 <= t
                < d.zooms[i].zoom.ranges[r].1) <==> (timeline::to_source(next.retained, t) matches Some(
            x,
        ) && next.zooms[i].zoom.start <= x < next.zooms[i].zoom.end),
{
    assert(zoom::attached(next.zooms[i], next.retained, d.zooms[i]));
    let z = next.zooms[i].zoom;
    let ranges = d.zooms[i].zoom.ranges;
    let pairs = timeline::pairs(ranges);
    timeline::edited_ranges_are_exact(next.retained, z.start as int, z.end as int, t);
    if timeline::in_ranges(pairs, t) {
        let r = choose|r: int| 0 <= r < pairs.len() && (#[trigger] pairs[r]).0 <= t < pairs[r].1;
        assert(ranges[r].0 <= t < ranges[r].1);
    }
    if exists|r: int| 0 <= r < ranges.len() && (#[trigger] ranges[r]).0 <= t < ranges[r].1 {
        let r = choose|r: int| 0 <= r < ranges.len() && (#[trigger] ranges[r]).0 <= t < ranges[r].1;
        assert(pairs[r].0 <= t < pairs[r].1);
        assert(timeline::in_ranges(pairs, t));
    }
}

/// Applies cuts, from the last to the first.
fn apply_cuts(mapper: &mut TimelineMapper, cuts: &Vec<(u64, u64)>) -> (r: Result<(), String>)
    requires
        old(mapper).wf(),
    ensures
        final(mapper).wf(),
        match r {
            Ok(()) => cut_all(old(mapper)@, cuts@) == Some(final(mapper)@),
            Err(e) => cut_all(old(mapper)@, cuts@) is None && e@
                == "Cut is not a range of the edited timeline"@,
        },
{
    let ghost s = mapper@;
    let mut n: usize = cuts.len();
    assert(cuts@.take(n as int) =~= cuts@);
    while n > 0
        invariant
            n <= cuts@.len(),
            mapper.wf(),
            s == old(mapper)@,
            cut_all(s, cuts@) == cut_all(mapper@, cuts@.take(n as int)),
        decreases n,
    {
        let c: (u64, u64) = cuts[n - 1];
        assert(cuts@.take(n as int).drop_last() =~= cuts@.take(n - 1));
        assert(cuts@.take(n as int).last() == c);
        match mapper.ripple_cut_edited(c.0, c.1) {
            Ok(()) => {},
            Err(e) => {
                return Err(e);
            },
        }
        n = n - 1;
    }
    Ok(())
}

fn are_apart(cuts: &Vec<(u64, u64)>) -> (r: bool)
    ensures
        r == cuts_apart(cuts@),
{
    let mut i: usize = 0;
    while i < cuts.len() && i + 1 < cuts.len()
        invariant
            i <= cuts@.len(),
            forall|k: int| 0 <= k < i && k < cuts@.len() - 1 ==> (#[trigger] cuts@[k]).1 <= cuts@[k
                + 1].0,
        decreases cuts@.len() - i,
    {
        if cuts[i].1 > cuts[i + 1].0 {
            assert(cuts@[i as int].1 > cuts@[i + 1].0);
            return false;
        }
        i = i + 1;
    }
    true
}

fn copy_cuts(v: &Vec<(u64, u64)>) -> (r: Vec<(u64, u64)>)
    ensures
        r@ == v@,
{
    let mut out: Vec<(u64, u64)> = Vec::new();
    let mut i: usize = 0;
    while i < v.len()
        invariant
            i <= v@.len(),
            out@ == v@.take(i as int),
        decreases v@.len() - i,
    {
        out.push(v[i]);
        i = i + 1;
        assert(v@.take(i as int) =~= v@.take(i - 1).push(v@[i - 1]));
    }
    assert(v@.take(v@.len() as int) =~= v@);
    out
}

fn find_zoom(zooms: &Vec<ZoomKeyframe>, id: &str) -> (r: Option<usize>)
    ensures
        match r {
            Some(i) => i < zooms@.len() && first_zoom(zoom::keyframes(zooms@), id@, 0) == Some(
                i as int,
            ),
            None => first_zoom(zoom::keyframes(zooms@), id@, 0) is None,
        },
{
    let ghost z = zoom::keyframes(zooms@);
    let mut i: usize = 0;
    while i < zooms.len()
        invariant
            i <= zooms@.len(),
            z == zoom::keyframes(zooms@),
            first_zoom(z, id@, 0) == first_zoom(z, id@, i as int),
        decreases zooms@.len() - i,
    {
        assert(z[i as int] == zooms@[i as int]@);
        if text::str_eq(zooms[i].id.as_str(), id) {
            return Some(i);
        }
        i = i + 1;
    }
    None
}

impl EditHistory {
    /// A history without past.
    pub fn new(current: EditDocument) -> (r: EditHistory)
        ensures
            r@.current == current@,
            r@.undo == Seq::<Edit>::empty(),
            r@.redo == Seq::<Edit>::empty(),
            r@.wf(),
    {
        let r = EditHistory { current, undo: Vec::new(), redo: Vec::new() };
        assert(r@.undo =~= Seq::<Edit>::empty());
        assert(r@.redo =~= Seq::<Edit>::empty());
        r
    }

    /// The current edit.
    pub fn current(&self) -> (r: &EditDocument)
        ensures
            r@ == self@.current,
    {
        &self.current
    }

    /// Whether there is an edit to go back to.
    pub fn undo_available(&self) -> (r: bool)
        ensures
            r == self@.allows(Change::Undo),
    {
        self.undo.len() > 0
    }

    /// Whether there is an undone edit.
    pub fn redo_available(&self) -> (r: bool)
        ensures
            r == self@.allows(Change::Redo),
    {
        self.redo.len() > 0
    }

    /// The current edit with other stretches retained.
    pub fn commit(&self, next_retained: Vec<RetainedInterval>) -> (r: EditDocument)
        ensures
            r@ == (Edit { retained: next_retained@, ..self@.current }),
    {
        let mut next: EditDocument = self.current.clone();
        next.retained_intervals = next_retained;
        next
    }

    /// Makes `next` the revision after the current one, where `zoom_fault` says what
    /// is wrong with its keyframes.
    pub fn commit_next(
        &self,
        expected_revision: u64,
        next: EditDocument,
        zoom_fault: &Option<String>,
        limits: ZoomLimits,
    ) -> (r: Result<PendingEdit, String>)
        ensures
            ({
                let fault = commit_fault(
                    self@.current,
                    expected_revision,
                    next@,
                    said(*zoom_fault),
                    limits,
                );
                match r {
                    Ok(p) => fault is None && p.change == Change::Commit && follows(
                        self@.current,
                        next@,
                        p.document@,
                    ),
                    Err(e) => fault == Some(e@),
                }
            }),
    {
        if expected_revision != self.current.revision {
            return Err("Stale edit revision".to_owned());
        }
        match check_content(&next, zoom_fault, limits) {
            Ok(()) => {},
            Err(e) => {
                return Err(e);
            },
        }
        if self.current.revision == u64::MAX {
            return Err("Revision overflow".to_owned());
        }
        let mut document: EditDocument = next;
        document.schema_version = EDIT_SCHEMA_VERSION;
        document.revision = self.current.revision + 1;
        match document.attach_zoom_ranges() {
            Ok(()) => Ok(PendingEdit { change: Change::Commit, document }),
            Err(e) => Err(e),
        }
    }

    /// The current edit with another layout; `None` when that is its layout.
    pub fn update_layout(&self, expected_revision: u64, layout: EditLayout) -> (r: Result<
        Option<EditDocument>,
        String,
    >)
        ensures
            match r {
                Ok(next) => {
                    &&& expected_revision == self@.current.revision
                    &&& layout.fault() is None
                    &&& match next {
                        Some(d) => !layout.same(self@.current.layout) && d@ == (Edit {
                            layout,
                            ..self@.current
                        }),
                        None => layout.same(self@.current.layout),
                    }
                },
                Err(e) => if expected_revision != self@.current.revision {
                    e@ == "Stale edit revision"@
                } else {
                    layout.fault() == Some(e@)
                },
            },
    {
        if expected_revision != self.current.revision {
            return Err("Stale edit revision".to_owned());
        }
        match validate_layout(&layout) {
            Ok(()) => {},
            Err(e) => {
                return Err(e);
            },
        }
        if layout.same_as(&self.current.layout) {
            return Ok(None);
        }
        let mut next: EditDocument = self.current.clone();
        next.layout = layout;
        Ok(Some(next))
    }

    /// The current edit with suggestions applied, but for those that were applied or
    /// dismissed before.
    pub fn accept_zooms(&self, suggestions: &Vec<ZoomSuggestion>, limits: ZoomLimits) -> (r: Result<
        EditDocument,
        String,
    >)
        ensures
            ({
                let s = zoom::suggestions(suggestions@);
                match r {
                    Ok(d) => {
                        &&& accept_fault(self@.current, s, limits) is None
                        &&& d@ == (Edit { zooms: d@.zooms, ..self@.current })
                        &&& zoom::sorted_keyframes(
                            self@.current.zooms + fresh(self@.current, s),
                            d@.zooms,
                        )
                    },
                    Err(e) => accept_fault(self@.current, s, limits) == Some(e@),
                }
            }),
    {
        let ghost s = zoom::suggestions(suggestions@);
        let ghost cur = self@.current;
        if suggestions.len() == 0 {
            return Err("No zoom suggestions selected".to_owned());
        }
        let mut next: EditDocument = self.current.clone();
        let mut zooms: Vec<ZoomKeyframe> = copy_keyframes(&self.current.zooms);
        let mut i: usize = 0;
        assert(s.take(0) =~= Seq::<zoom::Zoom>::empty());
        assert(zoom::keyframes(zooms@) =~= cur.zooms + fresh(cur, s.take(0)));
        while i < suggestions.len()
            invariant
                i <= suggestions@.len(),
                s == zoom::suggestions(suggestions@),
                cur == self@.current,
                zoom::keyframes(zooms@) == cur.zooms + fresh(cur, s.take(i as int)),
            decreases suggestions@.len() - i,
        {
            let ghost known = fresh(cur, s.take(i as int));
            let ghost before = zoom::keyframes(zooms@);
            proof {
                assert(s.take(i + 1).drop_last() =~= s.take(i as int));
                assert(s.take(i + 1).last() == suggestions@[i as int]@);
            }
            let suggestion: &ZoomSuggestion = &suggestions[i];
            if !(contains_zoom(&self.current.zooms, suggestion.id.as_str()) || contains_text(
                &self.current.dismissed_zoom_ids,
                suggestion.id.as_str(),
            )) {
                zooms.push(ZoomKeyframe::from_suggestion(suggestion, ZoomSource::Generated));
                let ghost k = zoom::Keyframe {
                    zoom: suggestion@,
                    source: ZoomSource::Generated,
                };
                assert(zoom::keyframes(zooms@) =~= before.push(k));
                assert(before.push(k) =~= cur.zooms + known.push(k));
            }
            i = i + 1;
        }
        assert(s.take(s.len() as int) =~= s);
        assert(zooms@.len() == zoom::keyframes(zooms@).len());
        assert(self.current.zooms@.len() == cur.zooms.len());
        if zooms.len() == self.current.zooms.len() {
            return Err("Those zoom suggestions are already applied or dismissed".to_owned());
        }
        if zooms.len() > limits.max_zooms {
            return Err("Too many zoom keyframes".to_owned());
        }
        next.zooms = sort_keyframes(zooms);
        Ok(next)
    }

    /// The current edit with suggestions dismissed, and without their keyframes.
    pub fn dismiss_zooms(&self, ids: &Vec<String>) -> (r: Result<EditDocument, String>)
        ensures
            ({
                let gone = paths::texts(ids@);
                match r {
                    Ok(d) => {
                        &&& dismiss_fault(self@.current, gone) is None
                        &&& d@ == (Edit {
                            zooms: without(self@.current.zooms, gone),
                            dismissed: with_ids(self@.current.dismissed, gone),
                            ..self@.current
                        })
                    },
                    Err(e) => dismiss_fault(self@.current, gone) == Some(e@),
                }
            }),
    {
        let ghost gone = paths::texts(ids@);
        let ghost cur = self@.current;
        if ids.len() == 0 {
            return Err("No zoom ids selected".to_owned());
        }
        let mut zooms: Vec<ZoomKeyframe> = Vec::new();
        let mut i: usize = 0;
        assert(cur.zooms.take(0) =~= Seq::<zoom::Keyframe>::empty());
        assert(zoom::keyframes(zooms@) =~= without(cur.zooms.take(0), gone));
        while i < self.current.zooms.len()
            invariant
                i <= self.current.zooms@.len(),
                gone == paths::texts(ids@),
                cur == self@.current,
                zoom::keyframes(zooms@) == without(cur.zooms.take(i as int), gone),
            decreases self.current.zooms@.len() - i,
        {
            let ghost before = zoom::keyframes(zooms@);
            let ghost k = self.current.zooms@[i as int]@;
            proof {
                assert(cur.zooms.take(i + 1).drop_last() =~= cur.zooms.take(i as int));
                assert(cur.zooms.take(i + 1).last() == k);
            }
            if !contains_text(ids, self.current.zooms[i].id.as_str()) {
                zooms.push(self.current.zooms[i].clone());
                assert(zoom::keyframes(zooms@) =~= before.push(k));
            }
            i = i + 1;
        }
        assert(cur.zooms.take(cur.zooms.len() as int) =~= cur.zooms);
        let mut dismissed: Vec<String> = copy_texts(&self.current.dismissed_zoom_ids);
        let mut j: usize = 0;
        assert(gone.take(0) =~= Seq::<Seq<char>>::empty());
        while j < ids.len()
            invariant
                j <= ids@.len(),
                gone == paths::texts(ids@),
                cur == self@.current,
                paths::texts(dismissed@) == with_ids(cur.dismissed, gone.take(j as int)),
            decreases ids@.len() - j,
        {
            let ghost before = paths::texts(dismissed@);
            proof {
                assert(gone.take(j + 1).drop_last() =~= gone.take(j as int));
                assert(gone.take(j + 1).last() == ids@[j as int]@);
            }
            if !contains_text(&dismissed, ids[j].as_str()) {
                dismissed.push(ids[j].clone());
                assert(paths::texts(dismissed@) =~= before.push(ids@[j as int]@));
            }
            j = j + 1;
        }
        assert(gone.take(gone.len() as int) =~= gone);
        assert(zooms@.len() == zoom::keyframes(zooms@).len());
        assert(self.current.zooms@.len() == cur.zooms.len());
        assert(dismissed@.len() == paths::texts(dismissed@).len());
        assert(self.current.dismissed_zoom_ids@.len() == cur.dismissed.len());
        if zooms.len() == self.current.zooms.len() && dismissed.len()
            == self.current.dismissed_zoom_ids.len() {
            return Err("Those zoom ids are already dismissed".to_owned());
        }
        let mut next: EditDocument = self.current.clone();
        next.zooms = zooms;
        next.dismissed_zoom_ids = dismissed;
        Ok(next)
    }

    /// The current edit with a keyframe moved, resized or scaled. It counts as placed
    /// by hand from then on.
    pub fn update_zoom(&self, patch: &ZoomKeyframe) -> (r: Result<EditDocument, String>)
        ensures
            ({
                let z = self@.current.zooms;
                let at = first_zoom(z, patch.id@, 0);
                match r {
                    Ok(d) => at matches Some(i) && d@ == (Edit {
                        zooms: z.update(i, moved(z[i], patch@)),
                        ..self@.current
                    }),
                    Err(e) => at is None && e@ == "Unknown zoom keyframe"@,
                }
            }),
            r is Ok <==> exists|i: int|
                0 <= i < self@.current.zooms.len() && (#[trigger] self@.current.zooms[i]).zoom.id
                    == patch.id@,
            r matches Ok(d) ==> d.zooms@.len() == self@.current.zooms.len() && exists|i: int|
                #![trigger d.zooms@[i]]
                0 <= i < d.zooms@.len() && d.zooms@[i].id@ == patch.id@
                    && d.zooms@[i].source_start_us == patch.source_start_us
                    && d.zooms@[i].source_end_us == patch.source_end_us && d.zooms@[i].center_x
                    == patch.center_x && d.zooms@[i].center_y == patch.center_y
                    && d.zooms@[i].scale == patch.scale && d.zooms@[i].transition_us
                    == patch.transition_us && d.zooms@[i].source == ZoomSource::Manual
                    && d.zooms@[i].origin@ == self@.current.zooms[i].zoom.origin
                    && d.zooms@[i].contributing_event_seqs@ == self@.current.zooms[i].zoom.seqs
                    && d.zooms@[i].edited_ranges@ == self@.current.zooms[i].zoom.ranges,
    {
        let ghost z = self@.current.zooms;
        proof {
            lemma_first_zoom(z, patch.id@, 0);
        }
        match find_zoom(&self.current.zooms, patch.id.as_str()) {
            None => Err("Unknown zoom keyframe".to_owned()),
            Some(i) => {
                let mut next: EditDocument = self.current.clone();
                let mut k: ZoomKeyframe = self.current.zooms[i].clone();
                k.source_start_us = patch.source_start_us;
                k.source_end_us = patch.source_end_us;
                k.center_x = patch.center_x;
                k.center_y = patch.center_y;
                k.scale = patch.scale;
                k.transition_us = patch.transition_us;
                k.source = ZoomSource::Manual;
                let ghost m = k@;
                assert(next@.zooms.len() == next.zooms@.len());
                next.zooms.set(i, k);
                assert(next@.zooms =~= z.update(i as int, m));
                assert(m == moved(z[i as int], patch@));
                assert(z[i as int].zoom.id == patch.id@);
                assert(next.zooms@[i as int]@ == m);
                Ok(next)
            },
        }
    }

    /// The current edit with a zoom placed by hand on an edited range.
    pub fn add_manual_zoom(
        &self,
        edited_start_us: u64,
        edited_end_us: u64,
        center_x: u64,
        center_y: u64,
        scale: u64,
    ) -> (r: Result<EditDocument, String>)
        ensures
            ({
                let cur = self@.current;
                let range = manual_range(cur.retained, edited_start_us, edited_end_us);
                match r {
                    Ok(d) => {
                        &&& range is Ok
                        &&& d@ == (Edit { zooms: d@.zooms, ..cur })
                        &&& zoom::sorted_keyframes(
                            cur.zooms.push(
                                manual_zoom(range->Ok_0, cur.zooms.len(), center_x, center_y, scale),
                            ),
                            d@.zooms,
                        )
                    },
                    Err(e) => range == Err::<(int, int), Seq<char>>(e@),
                }
            }),
    {
        let ghost cur = self@.current;
        if edited_end_us <= edited_start_us {
            return Err("Zoom must be a half-open edited range".to_owned());
        }
        let mapper: TimelineMapper = match self.current.mapper() {
            Ok(m) => m,
            Err(e) => {
                return Err(e);
            },
        };
        let source_start: u64 = match mapper.edited_to_source_us(edited_start_us) {
            Some(t) => t,
            None => {
                return Err("Zoom start is not on retained media".to_owned());
            },
        };
        let last: u64 = match mapper.edited_to_source_us(edited_end_us - 1) {
            Some(t) => t,
            None => {
                return Err("Zoom end is not on retained media".to_owned());
            },
        };
        proof {
            timeline::every_edited_time_has_a_source_time(cur.retained, edited_end_us - 1);
            if edited_start_us < edited_end_us - 1 {
                timeline::edited_time_is_monotonic(
                    cur.retained,
                    edited_start_us as int,
                    edited_end_us - 1,
                );
            }
        }
        let source_end: u64 = last + 1;
        let duration: u64 = source_end - source_start;
        if duration < 3 {
            return Err("Zoom range is too short".to_owned());
        }
        let fifth: u64 = duration / 5;
        let clamped: u64 = if fifth < 1 {
            1
        } else if fifth > 400_000 {
            400_000
        } else {
            fifth
        };
        let transition_us: u64 = if clamped < duration - 1 {
            clamped
        } else {
            duration - 1
        };
        let mut id: String = "m-".to_owned();
        text::push_decimal(&mut id, source_start);
        id.append("-");
        text::push_decimal(&mut id, self.current.zooms.len() as u64);
        let z = ZoomKeyframe {
            id,
            source_start_us: source_start,
            source_end_us: source_end,
            center_x,
            center_y,
            scale,
            transition_us,
            origin: "click".to_owned(),
            contributing_event_seqs: Vec::new(),
            source: ZoomSource::Manual,
            edited_ranges: Vec::new(),
        };
        let ghost k = manual_zoom(
            (source_start as int, source_end as int),
            cur.zooms.len(),
            center_x,
            center_y,
            scale,
        );
        assert(self.current.zooms@.len() == cur.zooms.len());
        assert(z@.zoom.id =~= k.zoom.id);
        assert(z@ == k);
        let mut next: EditDocument = self.current.clone();
        let mut zooms: Vec<ZoomKeyframe> = copy_keyframes(&self.current.zooms);
        zooms.push(z);
        assert(zoom::keyframes(zooms@) =~= cur.zooms.push(k));
        next.zooms = sort_keyframes(zooms);
        Ok(next)
    }

    /// The current edit without a keyframe. A generated one counts as dismissed from
    /// then on.
    pub fn delete_zoom(&self, id: &str) -> (r: Result<EditDocument, String>)
        ensures
            ({
                let cur = self@.current;
                let at = first_zoom(cur.zooms, id@, 0);
                match r {
                    Ok(d) => at matches Some(i) && d@ == (Edit {
                        zooms: cur.zooms.remove(i),
                        dismissed: if cur.zooms[i].source == ZoomSource::Generated
                            && !cur.dismissed.contains(id@) {
                            cur.dismissed.push(id@)
                        } else {
                            cur.dismissed
                        },
                        ..cur
                    }),
                    Err(e) => at is None && e@ == "Unknown zoom keyframe"@,
                }
            }),
    {
        let ghost cur = self@.current;
        match find_zoom(&self.current.zooms, id) {
            None => Err("Unknown zoom keyframe".to_owned()),
            Some(i) => {
                let mut next: EditDocument = self.current.clone();
                assert(next@.zooms.len() == next.zooms@.len());
                let ghost before = next.zooms@;
                let removed: ZoomKeyframe = next.zooms.remove(i);
                assert(zoom::keyframes(before)[i as int] == removed@);
                assert(next@.zooms =~= cur.zooms.remove(i as int));
                if removed.source == ZoomSource::Generated && !contains_text(
                    &self.current.dismissed_zoom_ids,
                    id,
                ) {
                    let ghost d = next@.dismissed;
                    next.dismissed_zoom_ids.push(id.to_owned());
                    assert(next@.dismissed =~= d.push(id@));
                }
                Ok(next)
            },
        }
    }

    /// The current edit without some edited ranges.
    pub fn ripple_cuts(&self, expected_revision: u64, cuts: &Vec<(u64, u64)>) -> (r: Result<
        EditDocument,
        String,
    >)
        ensures
            ({
                let cur = self@.current;
                match r {
                    Ok(d) => {
                        &&& 0 < cuts@.len() <= MAX_CUTS_PER_REVISION
                        &&& expected_revision == cur.revision
                        &&& timeline::retained_fault(cur.retained) is None
                        &&& exists|c: Seq<(u64, u64)>| #[trigger]
                            sorting::is_sorting_of(cuts@, c) && cuts_apart(c) && cut_all(
                                cur.retained,
                                c,
                            ) == Some(d@.retained)
                        &&& d@ == (Edit { retained: d@.retained, ..cur })
                    },
                    Err(e) => if cuts@.len() == 0 {
                        e@ == "No cuts selected"@
                    } else if cuts@.len() > MAX_CUTS_PER_REVISION {
                        e@ == "Too many cuts in one revision"@
                    } else if expected_revision != cur.revision {
                        e@ == "Stale edit revision"@
                    } else if timeline::retained_fault(cur.retained) is Some {
                        timeline::retained_fault(cur.retained) == Some(e@)
                    } else {
                        exists|c: Seq<(u64, u64)>| #[trigger]
                            sorting::is_sorting_of(cuts@, c) && if cuts_apart(c) {
                                cut_all(cur.retained, c) is None && e@
                                    == "Cut is not a range of the edited timeline"@
                            } else {
                                e@ == "Cut ranges overlap"@
                            }
                    },
                }
            }),
    {
        let ghost cur = self@.current;
        if cuts.len() == 0 {
            return Err("No cuts selected".to_owned());
        }
        if cuts.len() > MAX_CUTS_PER_REVISION {
            return Err("Too many cuts in one revision".to_owned());
        }
        if expected_revision != self.current.revision {
            return Err("Stale edit revision".to_owned());
        }
        let mut mapper: TimelineMapper = match self.current.mapper() {
            Ok(m) => m,
            Err(e) => {
                return Err(e);
            },
        };
        let ordered: Vec<(u64, u64)> = sorting::sort_stable(copy_cuts(cuts));
        assert(sorting::is_sorting_of(cuts@, ordered@));
        if !are_apart(&ordered) {
            return Err("Cut ranges overlap".to_owned());
        }
        match apply_cuts(&mut mapper, &ordered) {
            Ok(()) => {},
            Err(e) => {
                return Err(e);
            },
        }
        Ok(self.commit(copy_intervals(mapper.intervals())))
    }

    /// The edit before the current one, as the next revision.
    pub fn undo(&self, expected_revision: u64) -> (r: Result<PendingEdit, String>)
        ensures
            match r {
                Ok(p) => {
                    &&& undo_refusal(self@, expected_revision) is None
                    &&& p.change == Change::Undo
                    &&& p.document@ == self@.undone()
                },
                Err(e) => undo_refusal(self@, expected_revision) == Some(e@),
            },
    {
        if expected_revision != self.current.revision {
            return Err("Stale edit revision".to_owned());
        }
        let n: usize = self.undo.len();
        if n == 0 {
            return Err("Nothing to undo".to_owned());
        }
        if self.current.revision == u64::MAX {
            return Err("Revision overflow".to_owned());
        }
        let mut document: EditDocument = self.undo[n - 1].clone();
        document.revision = self.current.revision + 1;
        Ok(PendingEdit { change: Change::Undo, document })
    }

    /// The edit that was undone last, as the next revision.
    pub fn redo(&self, expected_revision: u64) -> (r: Result<PendingEdit, String>)
        ensures
            match r {
                Ok(p) => {
                    &&& redo_refusal(self@, expected_revision) is None
                    &&& p.change == Change::Redo
                    &&& p.document@ == self@.redone()
                },
                Err(e) => redo_refusal(self@, expected_revision) == Some(e@),
            },
    {
        if expected_revision != self.current.revision {
            return Err("Stale edit revision".to_owned());
        }
        let n: usize = self.redo.len();
        if n == 0 {
            return Err("Nothing to redo".to_owned());
        }
        if self.current.revision == u64::MAX {
            return Err("Revision overflow".to_owned());
        }
        let mut document: EditDocument = self.redo[n - 1].clone();
        document.revision = self.current.revision + 1;
        Ok(PendingEdit { change: Change::Redo, document })
    }

    /// Makes a saved document the current one.
    pub fn saved(&mut self, pending: PendingEdit)
        requires
            old(self)@.wf(),
            old(self)@.allows(pending.change),
        ensures
            final(self)@.wf(),
            final(self)@ == old(self)@.changed(pending.change, pending.document@),
    {
        let ghost h = self@;
        let before: EditDocument = self.current.clone();
        match pending.change {
            Change::Commit => {
                self.undo.push(before);
                assert(edits(self.undo@) =~= h.undo.push(h.current));
                if self.undo.len() > MAX_UNDO {
                    let _ = self.undo.remove(0);
                }
                assert(edits(self.undo@) =~= bounded(h.undo.push(h.current)));
                self.redo = Vec::new();
                assert(edits(self.redo@) =~= Seq::<Edit>::empty());
            },
            Change::Undo => {
                let _ = self.undo.pop();
                assert(edits(self.undo@) =~= h.undo.drop_last());
                self.redo.push(before);
                assert(edits(self.redo@) =~= h.redo.push(h.current));
            },
            Change::Redo => {
                let _ = self.redo.pop();
                assert(edits(self.redo@) =~= h.redo.drop_last());
                self.undo.push(before);
                assert(edits(self.undo@) =~= h.undo.push(h.current));
            },
        }
        self.current = pending.document;
    }
}

/// Cuts that do not reach into each other are apart once they are in order, in whatever order
/// they were asked for.
pub proof fn separate_cuts_can_be_made_together(cuts: Seq<(u64, u64)>, c: Seq<(u64, u64)>)
    requires
        sorting::is_sorting_of(cuts, c),
        forall|i: int| 0 <= i < cuts.len() ==> (#[trigger] cuts[i]).0 < cuts[i].1,
        forall|i: int, j: int|
            0 <= i < cuts.len() && 0 <= j < cuts.len() && i != j ==> (#[trigger] cuts[i]).1 <= (
            #[trigger] cuts[j]).0 || cuts[j].1 <= cuts[i].0,
    ensures
        cuts_apart(c),
        c.len() == cuts.len(),
        forall|i: int| 0 <= i < cuts.len() ==> c.contains(#[trigger] cuts[i]),
{
    sorting::sorting_keeps_every_item(cuts, c);
    let p = choose|p: Seq<int>|
        sorting::stable_order(cuts, p) && c == #[trigger] sorting::gather(cuts, p);
    assert forall|i: int| 0 <= i < c.len() - 1 implies (#[trigger] c[i]).1 <= c[i + 1].0 by {
        let (a, b) = (p[i], p[i + 1]);
        assert(a != b);
        assert(cuts[a] == c[i] && cuts[b] == c[i + 1]);
        assert(sorting::Ranked::le(c[i], c[i + 1]));
        assert(cuts[a].0 < cuts[a].1 && cuts[b].0 < cuts[b].1);
    }
}

/// No two cuts that are made together reach into each other.
pub proof fn cuts_that_are_made_are_apart(
    cuts: Seq<(u64, u64)>,
    c: Seq<(u64, u64)>,
    i: int,
    j: int,
)
    requires
        sorting::is_sorting_of(cuts, c),
        forall|k: int| 0 <= k < cuts.len() ==> (#[trigger] cuts[k]).0 < cuts[k].1,
        cuts_apart(c),
        0 <= i < c.len(),
        0 <= j < c.len(),
        i < j,
    ensures
        c[i].1 <= c[j].0,
    decreases j - i,
{
    sorting::sorting_keeps_every_item(cuts, c);
    if i + 1 < j {
        cuts_that_are_made_are_apart(cuts, c, i, j - 1);
        assert(cuts.contains(c[j - 1]));
        let k = choose|k: int| 0 <= k < cuts.len() && cuts[k] == c[j - 1];
        assert(cuts[k].0 < cuts[k].1);
        assert(c[j - 1].1 <= c[j - 1 + 1].0);
    } else {
        assert(c[i].1 <= c[i + 1].0);
    }
}

/// An edit can follow the current one exactly where the request is of its revision, its
/// contents stand and there is a revision left. Its contents stand where its stretches, its
/// layout, its keyframes and what it dismisses do.
pub proof fn sound_edits_follow(
    current: Edit,
    expected: u64,
    next: Edit,
    zoom_fault: Option<Seq<char>>,
    limits: ZoomLimits,
)
    ensures
        commit_fault(current, expected, next, zoom_fault, limits) is None <==> expected
            == current.revision && current.revision < u64::MAX && content_fault(
            next,
            zoom_fault,
            limits,
        ) is None,
        content_fault(next, zoom_fault, limits) is None <==> timeline::retained_fault(
            next.retained,
        ) is None && next.layout.fault() is None && zoom_fault is None && next.dismissed.len()
            <= limits.max_dismissed && (forall|i: int|
            0 <= i < next.dismissed.len() ==> 0 < (#[trigger] next.dismissed[i]).len()
                && layout::byte_len(next.dismissed[i]) <= 128) && next.dismissed.no_duplicates(),
{
    let ids = next.dismissed;
    if forall|i: int| 0 <= i < ids.len() ==> #[trigger] dismissed_ok(ids, i) {
        assert forall|i: int| 0 <= i < ids.len() implies 0 < (#[trigger] ids[i]).len()
            && layout::byte_len(ids[i]) <= 128 by {
            assert(dismissed_ok(ids, i));
        }
        assert forall|i: int, j: int| 0 <= i < ids.len() && 0 <= j < ids.len() && i
            != j implies ids[i] != ids[j] by {
            if i < j {
                assert(dismissed_ok(ids, j));
            } else {
                assert(dismissed_ok(ids, i));
            }
        }
    }
    if (forall|i: int|
        0 <= i < ids.len() ==> 0 < (#[trigger] ids[i]).len() && layout::byte_len(ids[i]) <= 128)
        && ids.no_duplicates() {
        assert forall|i: int| 0 <= i < ids.len() implies #[trigger] dismissed_ok(ids, i) by {
            assert(0 < ids[i].len());
        }
    }
}

/// A change can be undone exactly where there is one and the request is of the current
/// revision, and so it is with redoing what was undone.
pub proof fn changes_can_be_undone_and_redone(h: Timeline, expected: u64)
    ensures
        undo_refusal(h, expected) is None <==> expected == h.current.revision && h.undo.len() > 0
            && h.current.revision < u64::MAX,
        redo_refusal(h, expected) is None <==> expected == h.current.revision && h.redo.len() > 0
            && h.current.revision < u64::MAX,
{
}

/// Suggestions can be applied exactly where one of them is neither applied nor dismissed and
/// there is room for those; dismissed, where one of them is applied or not dismissed yet.
pub proof fn open_suggestions_can_be_decided(
    current: Edit,
    s: Seq<zoom::Zoom>,
    ids: Seq<Seq<char>>,
    limits: ZoomLimits,
)
    ensures
        accept_fault(current, s, limits) is None <==> fresh(current, s).len() > 0
            && current.zooms.len() + fresh(current, s).len() <= limits.max_zooms,
        dismiss_fault(current, ids) is None <==> exists|i: int|
            0 <= i < ids.len() && (zoom::has_zoom(current.zooms, #[trigger] ids[i])
                || !current.dismissed.contains(ids[i])),
{
    let z = current.zooms;
    let d = current.dismissed;
    if s.len() == 0 {
        assert(fresh(current, s).len() == 0);
    }
    lemma_without(z, ids);
    lemma_with_ids_keeps(d, ids);
    if dismiss_fault(current, ids) is Some {
        assert forall|i: int| 0 <= i < ids.len() implies !zoom::has_zoom(z, #[trigger] ids[i])
            && d.contains(ids[i]) by {
            assert(without(z, ids) == z);
            assert(with_ids(d, ids) == d);
            dismissing_removes(z, d, ids);
        }
    } else if forall|i: int|
        0 <= i < ids.len() ==> !zoom::has_zoom(z, #[trigger] ids[i]) && d.contains(ids[i]) {
        lemma_nothing_to_dismiss(z, d, ids, z.len() as int, ids.len() as int);
        assert(z.take(z.len() as int) =~= z);
        assert(ids.take(ids.len() as int) =~= ids);
    }
}

proof fn lemma_nothing_to_dismiss(
    z: Seq<zoom::Keyframe>,
    d: Seq<Seq<char>>,
    ids: Seq<Seq<char>>,
    n: int,
    m: int,
)
    requires
        0 <= n <= z.len(),
        0 <= m <= ids.len(),
        forall|i: int|
            0 <= i < ids.len() ==> !zoom::has_zoom(z, #[trigger] ids[i]) && d.contains(ids[i]),
    ensures
        without(z.take(n), ids).len() == n,
        with_ids(d, ids.take(m)) == d,
    decreases n + m,
{
    if n > 0 {
        let t = z.take(n);
        assert(t.drop_last() =~= z.take(n - 1));
        lemma_nothing_to_dismiss(z, d, ids, n - 1, m);
        if ids.contains(t.last().zoom.id) {
            let i = choose|i: int| 0 <= i < ids.len() && ids[i] == t.last().zoom.id;
            assert(z[n - 1].zoom.id == ids[i]);
            assert(zoom::has_zoom(z, ids[i]));
        }
    }
    if m > 0 {
        let t = ids.take(m);
        assert(t.drop_last() =~= ids.take(m - 1));
        lemma_nothing_to_dismiss(z, d, ids, n, m - 1);
        assert(d.contains(ids[m - 1]));
    }
}

/// A first edit retains what it is given, zooms and dismisses nothing, and looks as a new
/// layout does.
pub proof fn first_edits_retain_what_they_are_given(d: Edit, retained: Seq<RetainedInterval>)
    requires
        first_edit(d, retained),
    ensures
        d.retained == retained,
        d.revision == 0,
        d.schema == 1,
        d.zooms.len() == 0,
        d.dismissed.len() == 0,
        d.layout.fault() is None,
{
    layout::layouts_in_range_stand(d.layout);
}

} // verus!
