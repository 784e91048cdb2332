//! What a request changes in the opened project.
use crate::commands;
use crate::commands::{cut_ranges, require_handle, select_asked, EditCut};
use crate::paths;
use crate::project::layout::EditLayout;
use crate::project::manifest;
use crate::project::manifest::ProjectManifest;
use crate::project::names;
use crate::project::reader::{ProjectReader, SegmentPage, MAX_PAGE};
use crate::project::revision;
use crate::project::revision::{Change, EditDocument, PendingEdit, MAX_CUTS_PER_REVISION};
use crate::sorting;
use crate::timeline;
use crate::zoom;
use crate::zoom::{ZoomKeyframe, ZoomLimits, ZoomSource, ZoomSuggestion};
use vstd::prelude::*;
use vstd::string::*;

verus! {

/// Why a request is not for the project that is open, if one is; `None` when it is.
pub open spec fn request_fault(reader: Option<&ProjectReader>, handle: Seq<char>) -> Option<
    Seq<char>,
> {
    commands::handle_fault(
        match reader {
            Some(p) => Some(p.summary.project_handle@),
            None => None,
        },
        handle,
    )
}

/// The project that a request is for.
fn asked_project<'a>(reader: Option<&'a ProjectReader>, project_handle: &str) -> (r: Result<
    &'a ProjectReader,
    String,
>)
    ensures
        match r {
            Ok(p) => request_fault(reader, project_handle@) is None && reader == Some(p),
            Err(e) => request_fault(reader, project_handle@) == Some(e@),
        },
{
    match require_handle(reader, project_handle) {
        Ok(()) => {},
        Err(e) => {
            return Err(e);
        },
    }
    match reader {
        Some(p) => Ok(p),
        None => Err("No opened project".to_owned()),
    }
}

/// A page of the segments of a track.
pub fn project_segments_impl(
    reader: Option<&ProjectReader>,
    project_handle: &str,
    track_id: &str,
    offset: usize,
    limit: usize,
) -> (r: Result<SegmentPage, String>)
    requires
        reader matches Some(p) ==> p.wf(),
    ensures
        ({
            let fault = request_fault(reader, project_handle@);
            let p = *reader->Some_0;
            let at = manifest::find_track(p.summary.manifest.tracks@, track_id@, 0);
            let all = p.segments@[at.unwrap()]@;
            let end = if offset + limit < all.len() {
                offset + limit
            } else {
                all.len() as int
            };
            match r {
                Ok(page) => {
                    &&& fault is None
                    &&& 0 < limit <= MAX_PAGE
                    &&& at is Some
                    &&& offset <= all.len()
                    &&& page.segments@ == all.subrange(offset as int, end)
                    &&& page.next_offset == if end < all.len() {
                        Some(end as usize)
                    } else {
                        None
                    }
                },
                Err(e) => if fault is Some {
                    fault == Some(e@)
                } else {
                    if limit == 0 || limit > MAX_PAGE {
                        e@ == "Page limit must be 1–256"@
                    } else if at is None {
                        e@ == "Unknown track"@
                    } else {
                        offset > all.len() && e@ == "Invalid page offset"@
                    }
                },
            }
        }),
{
    match asked_project(reader, project_handle) {
        Ok(p) => p.page(track_id, offset, limit),
        Err(e) => Err(e),
    }
}

/// The edit with the suggestions that were asked for applied: all of them when none is named.
pub fn project_zoom_accept_impl(
    reader: Option<&ProjectReader>,
    project_handle: &str,
    suggestions: Vec<ZoomSuggestion>,
    ids: &Vec<String>,
    limits: ZoomLimits,
) -> (r: Result<EditDocument, String>)
    ensures
        ({
            let fault = request_fault(reader, project_handle@);
            let cur = reader->Some_0.history@.current;
            let s = commands::asked_suggestions(
                zoom::suggestions(suggestions@),
                paths::texts(ids@),
                suggestions@.len() as int,
            );
            match r {
                Ok(d) => {
                    &&& fault is None
                    &&& revision::accept_fault(cur, s, limits) is None
                    &&& d@ == (revision::Edit { zooms: d@.zooms, ..cur })
                    &&& zoom::sorted_keyframes(cur.zooms + revision::fresh(cur, s), d@.zooms)
                },
                Err(e) => if fault is Some {
                    fault == Some(e@)
                } else {
                    revision::accept_fault(cur, s, limits) == Some(e@)
                },
            }
        }),
{
    match asked_project(reader, project_handle) {
        Ok(p) => p.history().accept_zooms(&select_asked(suggestions, ids), limits),
        Err(e) => Err(e),
    }
}

/// The edit with suggestions dismissed, and without their keyframes.
pub fn project_zoom_dismiss_impl(
    reader: Option<&ProjectReader>,
    project_handle: &str,
    ids: &Vec<String>,
) -> (r: Result<EditDocument, String>)
    ensures
        ({
            let fault = request_fault(reader, project_handle@);
            let cur = reader->Some_0.history@.current;
            let gone = paths::texts(ids@);
            match r {
                Ok(d) => {
                    &&& fault is None
                    &&& revision::dismiss_fault(cur, gone) is None
                    &&& d@ == (revision::Edit {
                        zooms: revision::without(cur.zooms, gone),
                        dismissed: revision::with_ids(cur.dismissed, gone),
                        ..cur
                    })
                },
                Err(e) => if fault is Some {
                    fault == Some(e@)
                } else {
                    revision::dismiss_fault(cur, gone) == Some(e@)
                },
            }
        }),
{
    match asked_project(reader, project_handle) {
        Ok(p) => p.history().dismiss_zooms(ids),
        Err(e) => Err(e),
    }
}

/// The edit with a keyframe moved, resized or scaled.
pub fn project_zoom_update_impl(
    reader: Option<&ProjectReader>,
    project_handle: &str,
    patch: &ZoomKeyframe,
) -> (r: Result<EditDocument, String>)
    ensures
        ({
            let fault = request_fault(reader, project_handle@);
            let cur = reader->Some_0.history@.current;
            let at = revision::first_zoom(cur.zooms, patch.id@, 0);
            match r {
                Ok(d) => {
                    &&& fault is None
                    &&& at matches Some(i) && d@ == (revision::Edit {
                        zooms: cur.zooms.update(i, revision::moved(cur.zooms[i], patch@)),
                        ..cur
                    })
                },
                Err(e) => if fault is Some {
                    fault == Some(e@)
                } else {
                    at is None && e@ == "Unknown zoom keyframe"@
                },
            }
        }),
{
    match asked_project(reader, project_handle) {
        Ok(p) => p.history().update_zoom(patch),
        Err(e) => Err(e),
    }
}

/// The edit with a zoom placed by hand. The place and the scale are bit patterns of
/// floating-point numbers.
pub fn project_zoom_add_impl(
    reader: Option<&ProjectReader>,
    project_handle: &str,
    edited_start_us: u64,
    edited_end_us: u64,
    center_x: u64,
    center_y: u64,
    scale: u64,
) -> (r: Result<EditDocument, String>)
    ensures
        ({
            let fault = request_fault(reader, project_handle@);
            let cur = reader->Some_0.history@.current;
            let range = revision::manual_range(cur.retained, edited_start_us, edited_end_us);
            match r {
                Ok(d) => {
                    &&& fault is None
                    &&& range is Ok
                    &&& d@ == (revision::Edit { zooms: d@.zooms, ..cur })
                    &&& zoom::sorted_keyframes(
                        cur.zooms.push(
                            revision::manual_zoom(
                                range->Ok_0,
                                cur.zooms.len(),
                                center_x,
                                center_y,
                                scale,
                            ),
                        ),
                        d@.zooms,
                    )
                },
                Err(e) => if fault is Some {
                    fault == Some(e@)
                } else {
                    range == Err::<(int, int), Seq<char>>(e@)
                },
            }
        }),
{
    match asked_project(reader, project_handle) {
        Ok(p) => p.history().add_manual_zoom(
            edited_start_us,
            edited_end_us,
            center_x,
            center_y,
            scale,
        ),
        Err(e) => Err(e),
    }
}

/// The edit without a keyframe.
pub fn project_zoom_delete_impl(
    reader: Option<&ProjectReader>,
    project_handle: &str,
    id: &str,
) -> (r: Result<EditDocument, String>)
    ensures
        ({
            let fault = request_fault(reader, project_handle@);
            let cur = reader->Some_0.history@.current;
            let at = revision::first_zoom(cur.zooms, id@, 0);
            match r {
                Ok(d) => {
                    &&& fault is None
                    &&& at matches Some(i) && d@ == (revision::Edit {
                        zooms: cur.zooms.remove(i),
                        dismissed: if cur.zooms[i].source == ZoomSource::Generated
                            && !cur.dismissed.contains(id@) {
                            cur.dismissed.push(id@)
                        } else {
                            cur.dismissed
                        },
                        ..cur
                    })
                },
                Err(e) => if fault is Some {
                    fault == Some(e@)
                } else {
                    at is None && e@ == "Unknown zoom keyframe"@
                },
            }
        }),
{
    match asked_project(reader, project_handle) {
        Ok(p) => p.history().delete_zoom(id),
        Err(e) => Err(e),
    }
}

/// The edit with another layout; `None` when that is its layout.
pub fn project_layout_update_impl(
    reader: Option<&ProjectReader>,
    project_handle: &str,
    expected_revision: u64,
    layout: EditLayout,
) -> (r: Result<Option<EditDocument>, String>)
    ensures
        ({
            let fault = request_fault(reader, project_handle@);
            let cur = reader->Some_0.history@.current;
            match r {
                Ok(next) => {
                    &&& fault is None
                    &&& expected_revision == cur.revision
                    &&& layout.fault() is None
                    &&& match next {
                        Some(d) => !layout.same(cur.layout) && d@ == (revision::Edit {
                            layout,
                            ..cur
                        }),
                        None => layout.same(cur.layout),
                    }
                },
                Err(e) => if fault is Some {
                    fault == Some(e@)
                } else {
                    if expected_revision != cur.revision {
                        e@ == "Stale edit revision"@
                    } else {
                        layout.fault() == Some(e@)
                    }
                },
            }
        }),
{
    match asked_project(reader, project_handle) {
        Ok(p) => p.history().update_layout(expected_revision, layout),
        Err(e) => Err(e),
    }
}

/// The edit without some edited ranges.
pub fn project_ripple_cuts_impl(
    reader: Option<&ProjectReader>,
    project_handle: &str,
    expected_revision: u64,
    cuts: &Vec<EditCut>,
) -> (r: Result<EditDocument, String>)
    ensures
        ({
            let fault = request_fault(reader, project_handle@);
            let cur = reader->Some_0.history@.current;
            let ranges = cuts@.map_values(|c: EditCut| (c.start_us, c.end_us));
            match r {
                Ok(d) => {
                    &&& fault is None
                    &&& 0 < cuts@.len() <= MAX_CUTS_PER_REVISION
                    &&& expected_revision == cur.revision
                    &&& timeline::retained_fault(cur.retained) is None
                    &&& exists|c: Seq<(u64, u64)>| #[trigger]
                        sorting::is_sorting_of(ranges, c) && revision::cuts_apart(c)
                            && revision::cut_all(cur.retained, c) == Some(d@.retained)
                    &&& d@ == (revision::Edit { retained: d@.retained, ..cur })
                },
                Err(e) => if fault is Some {
                    fault == Some(e@)
                } else {
                    if cuts@.len() == 0 {
                        e@ == "No cuts selected"@
                    } else if cuts@.len() > MAX_CUTS_PER_REVISION {
                        e@ == "Too many cuts in one revision"@
                    } else if expected_revision != cur.revision {
                        e@ == "Stale edit revision"@
                    } else if timeline::retained_fault(cur.retained) is Some {
                        timeline::retained_fault(cur.retained) == Some(e@)
                    } else {
                        exists|c: Seq<(u64, u64)>| #[trigger]
                            sorting::is_sorting_of(ranges, c) && if revision::cuts_apart(c) {
                                revision::cut_all(cur.retained, c) is None && e@
                                    == "Cut is not a range of the edited timeline"@
                            } else {
                                e@ == "Cut ranges overlap"@
                            }
                    }
                },
            }
        }),
{
    match asked_project(reader, project_handle) {
        Ok(p) => p.history().ripple_cuts(expected_revision, &cut_ranges(cuts)),
        Err(e) => Err(e),
    }
}

/// The edit before the last change.
pub fn project_undo_impl(
    reader: Option<&ProjectReader>,
    project_handle: &str,
    expected_revision: u64,
) -> (r: Result<PendingEdit, String>)
    ensures
        ({
            let fault = request_fault(reader, project_handle@);
            let h = reader->Some_0.history@;
            match r {
                Ok(next) => {
                    &&& fault is None
                    &&& expected_revision == h.current.revision < u64::MAX
                    &&& h.allows(Change::Undo)
                    &&& next.change == Change::Undo
                    &&& next.document@ == h.undone()
                },
                Err(e) => if fault is Some {
                    fault == Some(e@)
                } else {
                    if expected_revision != h.current.revision {
                        e@ == "Stale edit revision"@
                    } else if !h.allows(Change::Undo) {
                        e@ == "Nothing to undo"@
                    } else {
                        h.current.revision == u64::MAX && e@ == "Revision overflow"@
                    }
                },
            }
        }),
{
    match asked_project(reader, project_handle) {
        Ok(p) => p.history().undo(expected_revision),
        Err(e) => Err(e),
    }
}

/// The edit before the last undoing.
pub fn project_redo_impl(
    reader: Option<&ProjectReader>,
    project_handle: &str,
    expected_revision: u64,
) -> (r: Result<PendingEdit, String>)
    ensures
        ({
            let fault = request_fault(reader, project_handle@);
            let h = reader->Some_0.history@;
            match r {
                Ok(next) => {
                    &&& fault is None
                    &&& expected_revision == h.current.revision < u64::MAX
                    &&& h.allows(Change::Redo)
                    &&& next.change == Change::Redo
                    &&& next.document@ == h.redone()
                },
                Err(e) => if fault is Some {
                    fault == Some(e@)
                } else {
                    if expected_revision != h.current.revision {
                        e@ == "Stale edit revision"@
                    } else if !h.allows(Change::Redo) {
                        e@ == "Nothing to redo"@
                    } else {
                        h.current.revision == u64::MAX && e@ == "Revision overflow"@
                    }
                },
            }
        }),
{
    match asked_project(reader, project_handle) {
        Ok(p) => p.history().redo(expected_revision),
        Err(e) => Err(e),
    }
}

/// The manifest with another name of the project; `None` when that is its name.
pub fn project_rename_impl(
    reader: Option<&ProjectReader>,
    project_handle: &str,
    new_name: &str,
) -> (r: Result<Option<ProjectManifest>, String>)
    ensures
        ({
            let fault = request_fault(reader, project_handle@);
            let m = reader->Some_0.summary.manifest;
            let name = names::shown_name(new_name@);
            match r {
                Ok(next) => {
                    &&& fault is None
                    &&& name is Some
                    &&& match next {
                        None => m.project_name@ == name->Some_0,
                        Some(n) => {
                            &&& m.project_name@ != name->Some_0
                            &&& n.project_name@ == name->Some_0
                            &&& manifest::same_manifest(
                                n,
                                ProjectManifest { project_name: n.project_name, ..m },
                            )
                        },
                    }
                },
                Err(e) => if fault is Some {
                    fault == Some(e@)
                } else {
                    name is None && e@ == "Project name cannot be empty"@
                },
            }
        }),
{
    match asked_project(reader, project_handle) {
        Ok(p) => p.rename_project(new_name),
        Err(e) => Err(e),
    }
}

} // verus!
