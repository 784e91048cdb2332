use aeroshoot_editor::project::bundle::{bundle_directories, BundleStep, NewBundle, ProjectError};
use aeroshoot_editor::project::journal::{
    journal_lines, repaired_len, JournalError, JournalRecord, ProjectJournal,
};
use aeroshoot_editor::project::layout::{
    check_assets_dir, check_wallpaper_source, ingest_wallpaper, parse_hex_rgb, EditLayout, FileLook,
};
use aeroshoot_editor::project::lock::{lock_holder, LockError, LockRegistry};
use aeroshoot_editor::project::manifest::{
    ManifestError, ProjectManifest, TrackDescriptor, TrackType,
};
use aeroshoot_editor::project::names::{
    bundle_folder_name, default_project_name, default_project_name_at, display_name_from_input,
    display_name_from_input_at, unique_bundle_name, CalendarDate,
};
use aeroshoot_editor::project::revision::{
    check_disk_revision, load_edit_document, save_edit_document, EditDocument, EditHistory,
    PendingEdit,
};
use aeroshoot_editor::timeline::RetainedInterval;
use aeroshoot_editor::zoom::{ZoomKeyframe, ZoomLimits, ZoomSource, ZoomSuggestion};

fn screen_track() -> TrackDescriptor {
    TrackDescriptor {
        id: "screen-1".into(),
        track_type: TrackType::Screen,
        codec: "h264".into(),
        relative_path: "media/screen/000001.mp4".into(),
        width: Some(1920),
        height: Some(1080),
        fps: Some(30),
        sample_rate: None,
        channels: None,
        gaps_total: 0,
        media_timescale: None,
    }
}

#[test]
fn test_manifest_validation() {
    let mut manifest = ProjectManifest::new("sess-1".into(), "Demo Project".into());
    manifest.tracks.push(screen_track());

    assert!(manifest.validate().is_ok());

    // Test path traversal rejection
    manifest.tracks[0].relative_path = "../etc/passwd".into();
    assert!(matches!(
        manifest.validate(),
        Err(ManifestError::InvalidTrackPath(_))
    ));
}

#[test]
fn manifests_say_when_they_were_made_and_what_is_wrong() {
    let mut manifest = ProjectManifest::new("s".into(), "n".into());
    // A date and time with its offset, such as 2026-01-02T03:04:05.678+00:00.
    assert_eq!(manifest.created_at.as_bytes()[4], b'-');
    assert_eq!(manifest.created_at.as_bytes()[10], b'T');
    assert!(manifest.created_at.ends_with("+00:00"));
    manifest.version = 2;
    let e = manifest.validate().unwrap_err();
    assert_eq!(e, ManifestError::UnsupportedVersion(2));
    manifest.version = 1;
    manifest.session_id = String::new();
    assert_eq!(manifest.validate(), Err(ManifestError::InvalidMetadata));
}

#[test]
fn gaps_are_counted_per_track_and_in_all() {
    let mut manifest = ProjectManifest::new("s".into(), "n".into());
    manifest.tracks.push(screen_track());
    assert_eq!(manifest.record_gap("screen-1"), 1);
    assert_eq!(manifest.record_gap("screen-1"), 2);
    assert_eq!(manifest.tracks[0].gaps_total, 2);
    assert_eq!(manifest.gaps_total, 2);
    assert_eq!(manifest.gaps_total_from_tracks(), 2);
}

fn append(
    journal: &mut ProjectJournal,
    lines: &mut Vec<JournalRecord>,
    record: JournalRecord,
) -> Result<u64, JournalError> {
    let staged = journal.stage(record)?;
    lines.push(staged);
    Ok(journal.written())
}

#[test]
fn test_journal_durability_and_sequence() {
    let mut journal = ProjectJournal::continue_after(&Vec::new());
    let mut records = Vec::new();

    let s1 = append(
        &mut journal,
        &mut records,
        JournalRecord::SegmentCommitted {
            seq: 0,
            track_id: "screen".into(),
            relative_path: "media/screen/000001.mp4".into(),
            start_us: 0,
            end_us: 2_000_000,
            size_bytes: 4096,
            is_keyframe_start: true,
            media_timescale: 90_000,
            media_start_value: 0,
            host_anchor_us: 0,
        },
    )
    .unwrap();

    let s2 = append(
        &mut journal,
        &mut records,
        JournalRecord::PauseStarted {
            seq: 0,
            t_us: 2_000_000,
        },
    )
    .unwrap();

    assert_eq!(s1, 0);
    assert_eq!(s2, 1);
    assert_eq!(records.len(), 2);
    assert_eq!(records[1].seq(), 1);
}

#[test]
fn test_truncated_tail_repair() {
    // A valid record followed by a truncated partial record without newline
    let valid_record = r#"{"type":"pause_started","seq":0,"t_us":1000}"#;
    let truncated_tail = r#"{"type":"segment_committed","seq":1,"track_id":"scre"#;
    let data = format!("{}\n{}", valid_record, truncated_tail);

    // Reopening journal should repair the tail
    let kept = repaired_len(data.as_bytes());
    assert_eq!(&data[..kept], format!("{}\n", valid_record));
    let lines = journal_lines(&data.as_bytes()[..kept]);
    assert_eq!(lines.len(), 1);
    assert_eq!(data[lines[0].0..lines[0].1].trim(), valid_record);

    // Now append a new record
    let mut records = vec![JournalRecord::PauseStarted { seq: 0, t_us: 1000 }];
    let mut journal = ProjectJournal::continue_after(&records);
    let s2 = append(
        &mut journal,
        &mut records,
        JournalRecord::PauseEnded {
            seq: 0,
            start_us: 1000,
            end_us: 3000,
        },
    )
    .unwrap();

    assert_eq!(
        s2, 1,
        "Repaired journal should sequence after valid records"
    );
    assert_eq!(records.len(), 2);
    assert_eq!(records[0].seq(), 0);
    assert_eq!(records[1].seq(), 1);
}

#[test]
fn injected_append_failures_take_no_number() {
    let mut journal = ProjectJournal::continue_after(&Vec::new());
    let mut records = Vec::new();
    journal.inject_fail_next_appends(1);
    let record = JournalRecord::PauseStarted { seq: 0, t_us: 5 };
    assert_eq!(
        append(&mut journal, &mut records, record),
        Err(JournalError::Injected)
    );
    assert!(records.is_empty());
    let record = JournalRecord::PauseStarted { seq: 9, t_us: 5 };
    assert_eq!(append(&mut journal, &mut records, record), Ok(0));
}

#[test]
fn test_lock_acquisition_and_release() {
    let mut locks = LockRegistry::new();
    locks.acquire("/projects/a.aero", 7).unwrap();

    // Concurrent acquisition in the same process must be rejected
    let lock2_res = locks.acquire("/projects/a.aero", 7);
    assert!(matches!(lock2_res, Err(LockError::AlreadyLocked { .. })));
    assert_eq!(
        lock2_res.unwrap_err().message(),
        "Project is locked by another writer (PID: 7)"
    );

    // Release first lock
    locks.release("/projects/a.aero");

    // Now can acquire again cleanly
    locks.acquire("/projects/a.aero", 7).unwrap();
    locks.acquire("/projects/b.aero", 7).unwrap();
}

#[test]
fn lock_files_name_their_process() {
    assert_eq!(lock_holder(" 1234\n"), 1234);
    assert_eq!(lock_holder("nobody"), 0);
}

#[test]
fn test_create_new_rejects_existing_bundle() {
    let name = display_name_from_input("Project 1");
    let mut b1 = NewBundle::start("/base", name, false);
    assert_eq!(b1.root, "/base/Project 1.aero");
    assert!(matches!(b1.looked("/base", false), Ok(BundleStep::Create)));

    let mut b2 = NewBundle::start("/base", display_name_from_input("Project 1"), false);
    let e = b2.looked("/base", true).unwrap_err();
    assert!(matches!(e, ProjectError::AlreadyExists(_)));
    assert_eq!(
        e.message(),
        "Project bundle already exists: /base/Project 1.aero"
    );
}

fn create_named(taken: &mut Vec<String>, name: &str, disambiguate: bool) -> NewBundle {
    let mut bundle = NewBundle::start("/base", display_name_from_input(name), disambiguate);
    loop {
        let exists = taken.contains(&bundle.root);
        match bundle.looked("/base", exists).unwrap() {
            BundleStep::Create => break,
            BundleStep::Retry => {}
        }
    }
    taken.push(bundle.root.clone());
    bundle
}

#[test]
fn named_bundle_strips_path_characters_and_disambiguates() {
    let mut taken = Vec::new();
    let first = create_named(&mut taken, "  Demo/Take:1  ", false);
    assert_eq!(first.root, "/base/DemoTake1.aero");
    assert_eq!(first.display_name, "Demo/Take:1");

    let second = create_named(&mut taken, "DemoTake1", true);
    assert_eq!(second.root, "/base/DemoTake1 2.aero");

    let untitled = create_named(&mut taken, "   ", true);
    let expected_name = default_project_name();
    assert_eq!(untitled.root, format!("/base/{expected_name}.aero"));
    assert_eq!(untitled.display_name, expected_name);

    let untitled2 = create_named(&mut taken, "", true);
    assert_eq!(untitled2.root, format!("/base/{expected_name} 2.aero"));
    assert_eq!(untitled2.display_name, expected_name);
}

#[test]
fn test_dated_untitled_name_format() {
    let dt = CalendarDate {
        year: 2026,
        month: 9,
        day: 9,
    };
    assert_eq!(default_project_name_at(dt), "Untitled 9 Sep 2026");
    assert_eq!(display_name_from_input_at("   ", dt), "Untitled 9 Sep 2026");
    assert_eq!(display_name_from_input_at("Custom Take", dt), "Custom Take");

    let dt2 = CalendarDate {
        year: 2026,
        month: 12,
        day: 25,
    };
    assert_eq!(default_project_name_at(dt2), "Untitled 25 Dec 2026");
}

#[test]
fn bundles_without_a_usable_name_are_dated_and_the_last_name_is_made_up() {
    let bundle = NewBundle::start("/base", "???".into(), true);
    assert!(bundle.folder_name.starts_with("Untitled ") && bundle.folder_name.ends_with(".aero"));
    assert_eq!(bundle.display_name, "???");
    let mut bundle = NewBundle::start("/base", "Take".into(), true);
    for _ in 1..10_000 {
        assert!(matches!(bundle.looked("/base", true), Ok(BundleStep::Retry)));
    }
    let id = bundle
        .root
        .strip_prefix("/base/Take ")
        .and_then(|rest| rest.strip_suffix(".aero"))
        .unwrap();
    assert_eq!(id.len(), 36);
    assert!(bundle.looked("/base", true).is_err());
}

#[test]
fn distant_years_have_a_sign() {
    let on = |year| {
        default_project_name_at(CalendarDate {
            year,
            month: 1,
            day: 2,
        })
    };
    assert_eq!(on(12026), "Untitled 2 Jan +12026");
    assert_eq!(on(-1), "Untitled 2 Jan -0001");
    assert_eq!(on(44), "Untitled 2 Jan 0044");
}

#[test]
fn folder_names_keep_their_extension_and_get_one() {
    assert_eq!(bundle_folder_name("Take.AERO"), "Take.AERO");
    assert_eq!(bundle_folder_name("..a..b.."), "a..b.aero");
    assert_eq!(unique_bundle_name("Take.aero", 1), "Take.aero");
    assert_eq!(unique_bundle_name("Take.aero", 3), "Take 3.aero");
    let fresh = unique_bundle_name("Take.aero", 10_000);
    assert!(fresh.starts_with("Take ") && fresh.ends_with(".aero"));
    assert_eq!(fresh.len(), "Take ".len() + 36 + ".aero".len());
    assert_ne!(fresh, unique_bundle_name("Take.aero", 10_000));
    assert_eq!(bundle_directories().len(), 6);
    let long: String = "x".repeat(100);
    assert_eq!(display_name_from_input(&long).len(), 80);
}

#[test]
fn rejects_unknown_aspect_and_non_finite_custom() {
    let mut layout = EditLayout::default();
    layout.aspect_ratio = "21:9".into();
    assert!(layout.validate().unwrap_err().contains("aspect"));
    layout = EditLayout::default();
    layout.webcam_custom_x = f32::NAN.to_bits();
    assert!(layout.validate().unwrap_err().contains("custom X"));
    layout = EditLayout::default();
    layout.padding_px = 81;
    assert!(layout.validate().unwrap_err().contains("padding"));
    layout = EditLayout::default();
    layout.color_start = "blue".into();
    assert!(layout.validate().unwrap_err().contains("Color"));
}

#[test]
fn layouts_refuse_fractions_that_are_out_of_range() {
    for bad in [-0.1f32, 1.5, f32::NAN, f32::INFINITY, f32::NEG_INFINITY] {
        let mut layout = EditLayout::default();
        layout.shadow_opacity = bad.to_bits();
        assert_eq!(
            layout.validate(),
            Err("Shadow opacity is out of range".to_string())
        );
    }
    for good in [0.0f32, -0.0, 0.5, 1.0, f32::MIN_POSITIVE] {
        let mut layout = EditLayout::default();
        layout.shadow_opacity = good.to_bits();
        assert_eq!(layout.validate(), Ok(()));
    }
    assert_eq!(parse_hex_rgb("#0aF09b"), Ok([10, 240, 155]));
}

#[test]
fn wallpaper_ingest_rejects_url_symlink_and_oversize() {
    assert!(
        check_wallpaper_source("https://example.com/bg.png", &FileLook::Regular(4))
            .unwrap_err()
            .contains("URL")
    );
    let ext = check_wallpaper_source("/pictures/ok.PNG", &FileLook::Regular(4)).unwrap();
    check_assets_dir(&FileLook::Directory).unwrap();
    let rel = ingest_wallpaper(&ext, 4).unwrap();
    assert!(rel.starts_with("assets/wallpaper-"));
    assert!(rel.ends_with(".png"));
    assert!(check_wallpaper_source("/pictures/link.png", &FileLook::Symlink)
        .unwrap_err()
        .contains("symlink"));
    assert!(ingest_wallpaper("png", 8 * 1024 * 1024 + 1).is_err());
    assert!(ingest_wallpaper("png", 0).is_err());
}

#[test]
fn export_size_keeps_synthetic_and_remaps_standard_portrait() {
    let mut layout = EditLayout::default();
    assert_eq!(layout.fit_export_size(64, 64).unwrap(), (64, 64));
    assert_eq!(layout.fit_export_size(1920, 1080).unwrap(), (1920, 1080));
    layout.aspect_ratio = "9:16".into();
    assert_eq!(layout.fit_export_size(1920, 1080).unwrap(), (1080, 1920));
    layout.aspect_ratio = "1:1".into();
    assert_eq!(layout.fit_export_size(1920, 1080).unwrap(), (1080, 1080));
}

const LIMITS: ZoomLimits = ZoomLimits {
    max_zooms: 64,
    max_dismissed: 64,
};

/// What is stored of an edit, in memory; it can be made to fail.
struct Disk {
    saved: Option<EditDocument>,
    broken: bool,
}

impl Disk {
    fn new() -> Disk {
        Disk {
            saved: None,
            broken: false,
        }
    }

    fn save(&mut self, expected: u64, d: &EditDocument) -> Result<(), String> {
        check_disk_revision(self.saved.as_ref().map(|s| s.revision), expected)?;
        save_edit_document(d, &None, LIMITS)?;
        if self.broken {
            return Err("Is a directory".to_string());
        }
        self.saved = Some(d.clone());
        Ok(())
    }

    fn load(&self) -> EditDocument {
        let d = self.saved.as_ref().unwrap();
        load_edit_document(d, &None, LIMITS).unwrap();
        d.clone()
    }
}

fn keep(
    history: &mut EditHistory,
    disk: &mut Disk,
    expected: u64,
    pending: PendingEdit,
) -> Result<(), String> {
    disk.save(expected, &pending.document)?;
    history.saved(pending);
    Ok(())
}

fn commit(
    history: &mut EditHistory,
    disk: &mut Disk,
    expected: u64,
    next: Result<EditDocument, String>,
) -> Result<(), String> {
    let pending = history.commit_next(expected, next?, &None, LIMITS)?;
    keep(history, disk, expected, pending)
}

fn ripple(
    history: &mut EditHistory,
    disk: &mut Disk,
    expected: u64,
    cuts: &[(u64, u64)],
) -> Result<(), String> {
    let next = history.ripple_cuts(expected, &cuts.to_vec());
    commit(history, disk, expected, next)
}

fn undo(history: &mut EditHistory, disk: &mut Disk, expected: u64) -> Result<(), String> {
    let pending = history.undo(expected)?;
    keep(history, disk, expected, pending)
}

fn redo(history: &mut EditHistory, disk: &mut Disk, expected: u64) -> Result<(), String> {
    let pending = history.redo(expected)?;
    keep(history, disk, expected, pending)
}

fn edit_of(end_us: u64) -> EditDocument {
    EditDocument::from_retained(vec![RetainedInterval {
        start_us: 0,
        end_us,
    }])
    .unwrap()
}

#[test]
fn failed_save_preserves_history_and_revision_ids_never_repeat() {
    let mut disk = Disk::new();
    let initial = edit_of(1_000_000);
    let mut history = EditHistory::new(initial.clone());
    disk.broken = true;
    assert!(ripple(&mut history, &mut disk, 0, &[(100_000, 200_000)]).is_err());
    assert_eq!(*history.current(), initial);
    assert!(!history.undo_available());
    disk.broken = false;
    ripple(&mut history, &mut disk, 0, &[(100_000, 200_000)]).unwrap();
    undo(&mut history, &mut disk, 1).unwrap();
    ripple(&mut history, &mut disk, 2, &[(300_000, 400_000)]).unwrap();
    assert_eq!(history.current().revision, 3);
    assert!(ripple(&mut history, &mut disk, 1, &[(0, 1)]).is_err());
    let snapshot = history.current().clone();
    disk.broken = true;
    assert!(undo(&mut history, &mut disk, 3).is_err());
    assert_eq!(*history.current(), snapshot);
    assert!(history.undo_available());
    assert!(!history.redo_available());
}

#[test]
fn second_editor_cannot_overwrite_newer_disk_revision() {
    let mut disk = Disk::new();
    let initial = edit_of(1_000_000);
    let mut first = EditHistory::new(initial.clone());
    let mut second = EditHistory::new(initial.clone());
    ripple(&mut first, &mut disk, 0, &[(0, 100_000)]).unwrap();
    assert!(ripple(&mut second, &mut disk, 0, &[(0, 200_000)])
        .unwrap_err()
        .contains("Stale"));
    assert_eq!(*second.current(), initial);
    assert_eq!(disk.load(), *first.current());
}

#[test]
fn persist_roundtrip_and_stale_revision() {
    let mut disk = Disk::new();
    let mut history = EditHistory::new(edit_of(10_000_000));
    ripple(&mut history, &mut disk, 0, &[(2_000_000, 5_000_000)]).unwrap();
    assert_eq!(history.current().revision, 1);
    assert_eq!(history.current().retained_intervals.len(), 2);
    assert!(ripple(&mut history, &mut disk, 0, &[(0, 1_000_000)])
        .unwrap_err()
        .contains("Stale"));
    undo(&mut history, &mut disk, 1).unwrap();
    assert_eq!(history.current().revision, 2);
    assert_eq!(history.current().retained_intervals.len(), 1);
    redo(&mut history, &mut disk, 2).unwrap();
    let loaded = disk.load();
    assert_eq!(loaded.revision, 3);
    assert_eq!(loaded.retained_intervals[0].end_us, 2_000_000);
}

fn suggestion() -> ZoomSuggestion {
    ZoomSuggestion {
        id: "z-1-n1".into(),
        source_start_us: 1_000_000,
        source_end_us: 3_000_000,
        center_x: 0.4f64.to_bits(),
        center_y: 0.4f64.to_bits(),
        scale: 2.0f64.to_bits(),
        transition_us: 400_000,
        origin: "click".into(),
        contributing_event_seqs: vec![1],
        edited_ranges: Vec::new(),
    }
}

#[test]
fn zoom_edits_undo_and_do_not_revive_dismissed_or_overwrite_manual() {
    let mut disk = Disk::new();
    let mut history = EditHistory::new(edit_of(10_000_000));
    let next = history.accept_zooms(&vec![suggestion()], LIMITS);
    commit(&mut history, &mut disk, 0, next).unwrap();
    assert_eq!(history.current().zooms.len(), 1);
    assert_eq!(history.current().zooms[0].source, ZoomSource::Generated);
    let mut moved = ZoomKeyframe::from_suggestion(&suggestion(), ZoomSource::Generated);
    moved.source_start_us = 1_200_000;
    moved.source_end_us = 3_200_000;
    let next = history.update_zoom(&moved);
    commit(&mut history, &mut disk, 1, next).unwrap();
    assert_eq!(history.current().zooms[0].source, ZoomSource::Manual);
    let next = history.accept_zooms(&vec![suggestion()], LIMITS);
    commit(&mut history, &mut disk, 2, next).unwrap_err();
    let next = history.dismiss_zooms(&vec!["z-1-n1".into()]);
    commit(&mut history, &mut disk, 2, next).unwrap();
    assert!(history.current().zooms.is_empty());
    let next = history.accept_zooms(&vec![suggestion()], LIMITS);
    commit(&mut history, &mut disk, 3, next).unwrap_err();
    undo(&mut history, &mut disk, 3).unwrap();
    assert_eq!(history.current().zooms.len(), 1);
    assert_eq!(history.current().zooms[0].source, ZoomSource::Manual);
    let loaded = disk.load();
    assert_eq!(loaded.zooms[0].source_start_us, 1_200_000);
    assert_eq!(loaded.revision, 4);
}

#[test]
fn manual_zooms_lie_in_one_retained_stretch() {
    let mut disk = Disk::new();
    let mut history = EditHistory::new(edit_of(10_000_000));
    ripple(&mut history, &mut disk, 0, &[(2_000_000, 5_000_000)]).unwrap();
    let half = 0.5f64.to_bits();
    let two = 2.0f64.to_bits();
    let next = history.add_manual_zoom(2_500_000, 4_000_000, half, half, two);
    commit(&mut history, &mut disk, 1, next).unwrap();
    let zoom = &history.current().zooms[0];
    assert_eq!(zoom.source, ZoomSource::Manual);
    assert_eq!((zoom.source_start_us, zoom.source_end_us), (5_500_000, 7_000_000));
    let id = zoom.id.clone();
    let next = history.delete_zoom(&id);
    commit(&mut history, &mut disk, 2, next).unwrap();
    assert!(history.current().zooms.is_empty());
    assert!(history.delete_zoom(&id).is_err());
}

#[test]
fn layout_edits_undo_and_reopen() {
    let mut disk = Disk::new();
    let mut history = EditHistory::new(edit_of(1_000_000));
    let mut layout = EditLayout::default();
    layout.aspect_ratio = "9:16".into();
    layout.padding_px = 24;
    layout.background_type = "solid".into();
    layout.color_start = "#ff0000".into();
    layout.webcam_mirror = false;
    layout.webcam_position = "top-left".into();
    let next = history.update_layout(0, layout.clone()).unwrap().unwrap();
    commit(&mut history, &mut disk, 0, Ok(next)).unwrap();
    assert_eq!(history.current().revision, 1);
    assert_eq!(history.current().layout.aspect_ratio, "9:16");
    // The same layout again is no change.
    assert!(history.update_layout(1, layout.clone()).unwrap().is_none());
    undo(&mut history, &mut disk, 1).unwrap();
    assert_eq!(history.current().layout.aspect_ratio, "16:9");
    redo(&mut history, &mut disk, 2).unwrap();
    let loaded = disk.load();
    assert_eq!(loaded.layout.padding_px, 24);
    assert_eq!(loaded.layout.color_start, "#ff0000");
    assert!(!loaded.layout.webcam_mirror);
    assert_eq!(loaded.revision, 3);
    let mut bad = layout;
    bad.padding_px = 999;
    assert!(history.update_layout(3, bad).is_err());
    assert_eq!(history.current().revision, 3);
}

#[test]
fn undo_history_is_bounded() {
    let mut disk = Disk::new();
    let mut history = EditHistory::new(edit_of(10_000_000));
    for i in 0..70u64 {
        ripple(&mut history, &mut disk, i, &[(0, 1_000)]).unwrap();
    }
    let mut steps = 0u64;
    while history.undo_available() {
        undo(&mut history, &mut disk, 70 + steps).unwrap();
        steps += 1;
    }
    assert_eq!(steps, 64);
}
