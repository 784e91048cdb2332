use aeroshoot_editor::commands::edits::{
    project_layout_update_impl, project_redo_impl, project_rename_impl, project_ripple_cuts_impl,
    project_segments_impl, project_undo_impl, project_zoom_accept_impl, project_zoom_add_impl,
    project_zoom_delete_impl, project_zoom_dismiss_impl, project_zoom_update_impl,
};
use aeroshoot_editor::commands::{media_interop_status_impl, EditCut};
use aeroshoot_editor::paths::PathProbe;
use aeroshoot_editor::project::index::ProjectIndex;
use aeroshoot_editor::project::journal::JournalRecord;
use aeroshoot_editor::project::manifest::{ProjectManifest, TrackDescriptor, TrackType};
use aeroshoot_editor::project::reader::ProjectReader;
use aeroshoot_editor::project::revision::EditDocument;
use aeroshoot_editor::zoom::{ZoomLimits, ZoomSource, ZoomSuggestion};

const LIMITS: ZoomLimits = ZoomLimits {
    max_zooms: 16,
    max_dismissed: 16,
};

fn present() -> Vec<PathProbe> {
    (0..3).map(|_| PathProbe::Present).collect()
}

/// A project with two segments of one second each.
fn project() -> ProjectReader {
    let mut manifest = ProjectManifest::new("s".into(), "Demo".into());
    manifest.tracks.push(TrackDescriptor {
        id: "screen".into(),
        track_type: TrackType::Screen,
        codec: "h264".into(),
        relative_path: "media/screen/000001.mp4".into(),
        width: None,
        height: None,
        fps: None,
        sample_rate: None,
        channels: None,
        gaps_total: 0,
        media_timescale: None,
    });
    manifest.duration_us = 2_000_000;
    let mut index = ProjectIndex::begin(manifest, &vec![present()]).unwrap();
    for n in 0..2u64 {
        let record = JournalRecord::SegmentCommitted {
            seq: n,
            track_id: "screen".into(),
            relative_path: format!("media/screen/{:06}.mp4", n + 1),
            start_us: n * 1_000_000,
            end_us: (n + 1) * 1_000_000,
            size_bytes: 100,
            is_keyframe_start: true,
            media_timescale: 1_000_000,
            media_start_value: 0,
            host_anchor_us: 0,
        };
        index.add_record(&record, &present(), Some(100)).unwrap();
    }
    ProjectReader::open(index, Ok(None), "/p/Demo.aero".into()).unwrap()
}

fn suggestion(id: &str) -> ZoomSuggestion {
    ZoomSuggestion {
        id: id.into(),
        source_start_us: 100_000,
        source_end_us: 900_000,
        center_x: 0.5f64.to_bits(),
        center_y: 0.5f64.to_bits(),
        scale: 2.0f64.to_bits(),
        transition_us: 100_000,
        origin: "click".into(),
        contributing_event_seqs: vec![1],
        edited_ranges: Vec::new(),
    }
}

fn commit(reader: &mut ProjectReader, next: EditDocument) {
    let expected = reader.history().current().revision;
    let pending = reader.history().commit_next(expected, next, &None, LIMITS).unwrap();
    reader.saved(pending);
}

#[test]
fn requests_for_another_project_are_refused() {
    let reader = project();
    let handle = reader.summary.project_handle.clone();
    assert!(project_segments_impl(Some(&reader), &handle, "screen", 0, 1).is_ok());
    assert_eq!(
        project_segments_impl(Some(&reader), "other", "screen", 0, 1).unwrap_err(),
        "Stale project handle"
    );
    assert_eq!(
        project_segments_impl(None, &handle, "screen", 0, 1).unwrap_err(),
        "No opened project"
    );
    let ids = vec!["a".to_string()];
    assert!(project_zoom_accept_impl(Some(&reader), "x", vec![suggestion("a")], &ids, LIMITS).is_err());
    assert!(project_zoom_dismiss_impl(Some(&reader), "x", &ids).is_err());
    assert!(project_zoom_delete_impl(Some(&reader), "x", "a").is_err());
    assert!(project_undo_impl(Some(&reader), "x", 0).is_err());
    assert!(project_redo_impl(None, &handle, 0).is_err());
    assert!(project_rename_impl(None, &handle, "Other").is_err());
}

#[test]
fn pages_of_segments_follow_each_other() {
    let reader = project();
    let handle = reader.summary.project_handle.clone();
    let first = project_segments_impl(Some(&reader), &handle, "screen", 0, 1).unwrap();
    assert_eq!(first.segments[0].end_us, 1_000_000);
    assert_eq!(first.next_offset, Some(1));
    let second = project_segments_impl(Some(&reader), &handle, "screen", 1, 1).unwrap();
    assert_eq!(second.segments[0].end_us, 2_000_000);
    assert_eq!(second.next_offset, None);
    assert!(project_segments_impl(Some(&reader), &handle, "screen", 3, 1)
        .unwrap_err()
        .contains("offset"));
    assert!(project_segments_impl(Some(&reader), &handle, "mic", 0, 1).is_err());
    assert!(project_segments_impl(Some(&reader), &handle, "screen", 0, 0).is_err());
}

#[test]
fn cuts_are_made_undone_and_redone() {
    let mut reader = project();
    let handle = reader.summary.project_handle.clone();
    let cuts = vec![EditCut {
        start_us: 500_000,
        end_us: 1_500_000,
    }];
    let revision = reader.history().current().revision;
    assert!(project_ripple_cuts_impl(Some(&reader), &handle, revision + 7, &cuts)
        .unwrap_err()
        .contains("Stale edit revision"));
    assert!(project_ripple_cuts_impl(Some(&reader), &handle, revision, &Vec::new()).is_err());
    let next = project_ripple_cuts_impl(Some(&reader), &handle, revision, &cuts).unwrap();
    assert_eq!(next.edited_duration_us(), Ok(1_000_000));
    commit(&mut reader, next);
    let revision = reader.history().current().revision;
    assert_eq!(
        project_redo_impl(Some(&reader), &handle, revision).unwrap_err(),
        "Nothing to redo"
    );
    let back = project_undo_impl(Some(&reader), &handle, revision).unwrap();
    assert_eq!(back.document.edited_duration_us(), Ok(2_000_000));
    reader.saved(back);
    let revision = reader.history().current().revision;
    let forth = project_redo_impl(Some(&reader), &handle, revision).unwrap();
    assert_eq!(forth.document.edited_duration_us(), Ok(1_000_000));
}

#[test]
fn zooms_are_accepted_moved_and_deleted() {
    let mut reader = project();
    let handle = reader.summary.project_handle.clone();
    let offered = || vec![suggestion("a"), suggestion("b")];
    let all = project_zoom_accept_impl(Some(&reader), &handle, offered(), &Vec::new(), LIMITS);
    assert_eq!(all.unwrap().zooms.len(), 2);
    let ids = vec!["b".to_string()];
    let one = project_zoom_accept_impl(Some(&reader), &handle, offered(), &ids, LIMITS).unwrap();
    assert_eq!(one.zooms.len(), 1);
    assert_eq!(one.zooms[0].id, "b");
    commit(&mut reader, one);

    let mut patch = reader.history().current().clone().zooms.remove(0);
    patch.scale = 3.0f64.to_bits();
    let moved = project_zoom_update_impl(Some(&reader), &handle, &patch).unwrap();
    assert_eq!(moved.zooms[0].scale, 3.0f64.to_bits());
    assert_eq!(moved.zooms[0].source, ZoomSource::Manual);

    let gone = project_zoom_delete_impl(Some(&reader), &handle, "b").unwrap();
    assert!(gone.zooms.is_empty());
    assert_eq!(gone.dismissed_zoom_ids, ids);
    assert!(project_zoom_delete_impl(Some(&reader), &handle, "c").is_err());
    let dismissed = project_zoom_dismiss_impl(Some(&reader), &handle, &ids).unwrap();
    assert!(dismissed.zooms.is_empty());

    let half = 0.5f64.to_bits();
    let scale = 2.0f64.to_bits();
    let added =
        project_zoom_add_impl(Some(&reader), &handle, 1_000_000, 1_800_000, half, half, scale);
    assert_eq!(added.unwrap().zooms.len(), 2);
    assert!(project_zoom_add_impl(Some(&reader), &handle, 5, 5, half, half, scale).is_err());
}

#[test]
fn layouts_and_names_change_only_when_they_differ() {
    let reader = project();
    let handle = reader.summary.project_handle.clone();
    let same = reader.history().current().layout.clone();
    let revision = reader.history().current().revision;
    assert!(matches!(
        project_layout_update_impl(Some(&reader), &handle, revision, same),
        Ok(None)
    ));
    let mut other = reader.history().current().layout.clone();
    other.padding_px = if other.padding_px == 10 { 11 } else { 10 };
    let wanted = other.padding_px;
    let next = project_layout_update_impl(Some(&reader), &handle, revision, other).unwrap();
    assert_eq!(next.unwrap().layout.padding_px, wanted);
    let mut bad = reader.history().current().layout.clone();
    bad.padding_px = 81;
    assert!(project_layout_update_impl(Some(&reader), &handle, revision, bad).is_err());

    assert!(matches!(
        project_rename_impl(Some(&reader), &handle, " Demo "),
        Ok(None)
    ));
    let renamed = project_rename_impl(Some(&reader), &handle, "Other").unwrap().unwrap();
    assert_eq!(renamed.project_name, "Other");
    assert!(project_rename_impl(Some(&reader), &handle, "   ").is_err());
}

#[test]
fn the_media_pipeline_tells_what_it_lacks() {
    let status = media_interop_status_impl(true);
    assert!(status.supported);
    assert!(!status.ffmpeg_pinned);
    assert_eq!(status.diagnostics.len(), 2);
    assert!(status.diagnostics[0].contains("VideoToolbox"));
    assert!(!media_interop_status_impl(false).supported);
}
