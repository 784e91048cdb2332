use aeroshoot_editor::fixtures::{generate_valid_fmp4_segment, generate_valid_wav_segment};
use aeroshoot_editor::paths::PathProbe;
use aeroshoot_editor::project::index::{recorded_intervals, ProjectIndex};
use aeroshoot_editor::project::journal::{JournalRecord, ProjectJournal};
use aeroshoot_editor::project::manifest::{
    ManifestError, NearestPath, PauseInterval, ProjectManifest, TrackDescriptor, TrackType,
};
use aeroshoot_editor::project::media_validator::MediaValidator;
use aeroshoot_editor::project::reader::{
    bounded_read, check_journal_file, check_root, check_unlocked, judge_line, JournalScan,
    LineStep, ParsedLine, ProjectReader, RootLook,
};
use aeroshoot_editor::project::recovery::{
    baseline_manifest, determine_track_type, sort_file, usable_bytes, FileStep, FoundFile,
    RecordLook, RecoveryEngine, RecoveryError,
};
use aeroshoot_editor::project::revision::EditDocument;
use aeroshoot_editor::project::segment_writer::{
    CommitStep, DurabilityFault, NativeStep, SegmentCommitResult, SegmentWriterError, TrackSegmentWriter,
};
use aeroshoot_editor::timeline::RetainedInterval;

/// A project in memory: its files, its journal, and the writer of one track.
struct Rig {
    files: Vec<(String, Vec<u8>)>,
    journal: ProjectJournal,
    records: Vec<JournalRecord>,
    writer: TrackSegmentWriter,
    temp: Vec<u8>,
}

impl Rig {
    fn new(id: &str, kind: TrackType, codec: &str) -> Rig {
        Rig {
            files: Vec::new(),
            journal: ProjectJournal::continue_after(&Vec::new()),
            records: Vec::new(),
            writer: TrackSegmentWriter::new(id.into(), kind, codec.into(), &Vec::new()),
            temp: Vec::new(),
        }
    }

    fn mic() -> Rig {
        Rig::new("mic", TrackType::MicAudio, "pcm")
    }

    fn screen() -> Rig {
        Rig::new("screen", TrackType::Screen, "h264")
    }

    fn file(&self, path: &str) -> Option<&Vec<u8>> {
        self.files.iter().find(|f| f.0 == path).map(|f| &f.1)
    }

    fn put(&mut self, path: &str, data: &[u8]) {
        self.files.retain(|f| f.0 != path);
        self.files.push((path.to_string(), data.to_vec()));
    }

    fn begin(&mut self, start_us: u64) -> Result<String, SegmentWriterError> {
        self.writer.check_begin()?;
        loop {
            let (temp, committed) = self.writer.candidate();
            let dir = format!("media/{}/", self.writer.track_id());
            let taken = self.file(&format!("{dir}{temp}")).is_some()
                || self.file(&format!("{dir}{committed}")).is_some();
            if !taken {
                self.writer.begin_segment(start_us)?;
                self.temp.clear();
                return Ok(temp);
            }
            self.writer.candidate_taken();
        }
    }

    fn write(&mut self, data: &[u8]) {
        self.writer.write_data(data.len() as u64).unwrap();
        self.temp.extend_from_slice(data);
    }

    fn journal_pending(&mut self) -> Result<SegmentCommitResult, SegmentWriterError> {
        let record = self.writer.stage_pending()?;
        let appended = match self.journal.stage(record) {
            Ok(staged) => {
                self.records.push(staged);
                self.journal.written();
                Ok(())
            }
            Err(e) => Err(e.message()),
        };
        self.writer.finish_pending_journal(appended)
    }

    fn commit(
        &mut self,
        end_us: u64,
        keyframe: bool,
    ) -> Result<SegmentCommitResult, SegmentWriterError> {
        if self.writer.commit_step()? == CommitStep::Flush {
            let path = self.writer.flushed()?;
            if self.file(&path).is_some() {
                self.writer.publish_failed(true);
                return Err(SegmentWriterError::DestinationAlreadyExists(path));
            }
            let data = self.temp.clone();
            self.put(&path, &data);
            self.writer.published(end_us, keyframe);
        }
        self.journal_pending()
    }

    fn finalize(
        &mut self,
        end_us: u64,
    ) -> Result<Option<SegmentCommitResult>, SegmentWriterError> {
        if self.writer.finalize() {
            return self.commit(end_us, true).map(Some);
        }
        Ok(None)
    }

    fn commit_native(
        &mut self,
        temp: &str,
        index: u32,
        host_us: i64,
        timescale: u32,
        start_value: i64,
        elapsed_us: u64,
    ) -> Result<SegmentCommitResult, SegmentWriterError> {
        match self.writer.native_step(index) {
            NativeStep::Publish => {}
            NativeStep::JournalAndAnswer => return self.journal_pending(),
            NativeStep::JournalAndGoOn => {
                self.journal_pending()?;
            }
        }
        let (expected, committed) = self.writer.native_paths(index, host_us, timescale)?;
        TrackSegmentWriter::check_native_file(temp == expected, false)?;
        let data = self
            .file(temp)
            .cloned()
            .ok_or(SegmentWriterError::Io("missing".to_string()))?;
        let info = MediaValidator::validate(&data, self.writer.track_type())
            .map_err(|e| SegmentWriterError::Io(e.message()))?;
        let span = self.writer.native_interval(
            info.duration_us,
            info.is_keyframe_start,
            host_us,
            elapsed_us,
        )?;
        if self.file(&committed).is_some() {
            return Err(SegmentWriterError::DestinationAlreadyExists(committed));
        }
        self.files.retain(|f| f.0 != temp);
        self.put(&committed, &data);
        self.writer.native_published(
            index,
            span,
            data.len() as u64,
            info.is_keyframe_start,
            timescale,
            start_value,
        );
        self.journal_pending()
    }
}

#[test]
fn native_commit_publishes_and_preserves_clock_and_collision() {
    let mut rig = Rig::mic();
    let temp = "media/mic/000001.wav.tmp";
    let data = generate_valid_wav_segment(100_000, 48_000, 1);
    rig.put(temp, &data);
    let result = rig
        .commit_native(temp, 0, 750_000, 48_000, 36_000, 750_000)
        .unwrap();
    assert_eq!((result.start_us, result.end_us), (750_000, 850_000));
    assert!(rig.file(temp).is_none());
    assert!(matches!(
        &rig.records[0],
        JournalRecord::SegmentCommitted {
            media_timescale: 48_000,
            media_start_value: 36_000,
            host_anchor_us: 750_000,
            ..
        }
    ));
    rig.put(temp, &data);
    assert!(matches!(
        rig.commit_native(temp, 0, 0, 48_000, 0, 0),
        Err(SegmentWriterError::DestinationAlreadyExists(_))
    ));
    assert_eq!(rig.file(&result.relative_path), Some(&data));
    assert_eq!(rig.records.len(), 1);
}

#[test]
fn native_commit_rejects_invalid_media_and_paths() {
    let mut rig = Rig::mic();
    let temp = "media/mic/000001.wav.tmp";
    rig.put(temp, b"invalid media");
    assert!(rig.commit_native(temp, 0, 0, 48_000, 0, 0).is_err());
    assert!(rig.commit_native(temp, 1, 0, 48_000, 0, 0).is_err());
    assert!(rig.file(temp).is_some());
    assert!(rig.records.is_empty());
    let link = TrackSegmentWriter::check_native_file(true, true).unwrap_err();
    assert_eq!(link.message(), "IO error: Unexpected native segment path");
    assert!(rig.writer.native_paths(0, -1, 48_000).is_err());
    assert!(rig.writer.native_paths(0, 0, 0).is_err());
}

#[test]
fn test_segment_writer_commit_order() {
    let mut rig = Rig::screen();

    // 1. Begin segment
    let temp_path = rig.begin(0).unwrap();
    assert!(temp_path.ends_with("000001.tmp"));

    // 2. Write dummy fMP4 data
    let mut ftyp = Vec::new();
    ftyp.extend_from_slice(&32u32.to_be_bytes());
    ftyp.extend_from_slice(b"ftyp");
    ftyp.extend_from_slice(b"isom");
    ftyp.extend_from_slice(&0x0200u32.to_be_bytes());
    ftyp.extend_from_slice(b"isomiso2avc1mp41");
    rig.write(&ftyp);

    // 3. Commit segment
    let commit = rig.commit(2_000_000, true).unwrap();
    assert_eq!(commit.seq, 1);
    assert_eq!(commit.relative_path, "media/screen/000001.mp4");
    assert_eq!(commit.size_bytes, 32);
    assert!(rig.file("media/screen/000001.mp4").is_some());

    // Verify journal entry
    assert_eq!(rig.records.len(), 1);
    match &rig.records[0] {
        JournalRecord::SegmentCommitted {
            track_id,
            relative_path,
            start_us,
            end_us,
            size_bytes,
            ..
        } => {
            assert_eq!(track_id, "screen");
            assert_eq!(relative_path, "media/screen/000001.mp4");
            assert_eq!(*start_us, 0);
            assert_eq!(*end_us, 2_000_000);
            assert_eq!(*size_bytes, 32);
        }
        _ => panic!("Expected SegmentCommitted record"),
    }
}

#[test]
fn injected_sync_failure_keeps_ownership_and_prior_commit() {
    let mut rig = Rig::screen();
    rig.begin(0).unwrap();
    rig.write(b"FIRST");
    let first = rig.commit(1_000_000, true).unwrap();
    let first_bytes = rig.file(&first.relative_path).unwrap().clone();

    rig.begin(1_000_000).unwrap();
    rig.write(b"SECOND");
    rig.writer.inject_fault(DurabilityFault::FailSync);
    assert!(rig.commit(2_000_000, true).is_err());
    assert!(rig.writer.has_active_segment());
    assert!(!rig.writer.has_pending_publication());
    assert_eq!(rig.records.len(), 1);
    assert_eq!(rig.file(&first.relative_path), Some(&first_bytes));
    assert!(rig.file("media/screen/000002.mp4").is_none());

    rig.writer.inject_fault(DurabilityFault::NoFault);
    let second = rig.commit(2_000_000, true).unwrap();
    assert_eq!(second.relative_path, "media/screen/000002.mp4");
    assert_eq!(rig.records.len(), 2);
}

#[test]
fn injected_journal_failure_does_not_become_success_on_retry() {
    let mut rig = Rig::mic();
    let temp = "media/mic/000001.wav.tmp";
    let data = generate_valid_wav_segment(100_000, 48_000, 1);
    rig.put(temp, &data);
    rig.writer.inject_fault(DurabilityFault::FailJournalAppend);
    assert!(rig.commit_native(temp, 0, 0, 48_000, 0, 0).is_err());
    assert!(rig.writer.has_pending_publication());
    assert!(rig.file("media/mic/000001.wav").is_some());
    assert!(rig.records.is_empty());
    assert!(matches!(
        rig.begin(0),
        Err(SegmentWriterError::PendingPublication)
    ));

    rig.writer.inject_fault(DurabilityFault::FailJournalAppend);
    assert!(rig.finalize(100_000).is_err());
    assert!(rig.writer.has_pending_publication());
    assert!(rig.records.is_empty());

    rig.writer.inject_fault(DurabilityFault::NoFault);
    let committed = rig.finalize(100_000).unwrap().unwrap();
    assert_eq!(committed.relative_path, "media/mic/000001.wav");
    assert_eq!(rig.records.len(), 1);
    assert!(!rig.writer.has_pending_publication());
    assert_eq!(rig.file(&committed.relative_path), Some(&data));
}

#[test]
fn actual_journal_append_failure_keeps_pending_for_retry() {
    let mut rig = Rig::screen();
    rig.begin(0).unwrap();
    rig.write(b"PENDING");
    rig.journal.inject_fail_next_appends(1);

    assert!(rig.commit(1_000_000, true).is_err());
    assert!(
        rig.writer.has_pending_publication(),
        "a real journal.append error must stash pending publication"
    );
    assert!(!rig.writer.has_active_segment());
    assert!(rig.file("media/screen/000001.mp4").is_some());
    assert!(rig.records.is_empty());
    assert!(matches!(
        rig.begin(1_000_000),
        Err(SegmentWriterError::PendingPublication)
    ));

    rig.journal.inject_fail_next_appends(1);
    assert!(rig.finalize(1_000_000).is_err());
    assert!(rig.writer.has_pending_publication());
    assert!(rig.records.is_empty());

    let committed = rig.finalize(1_000_000).unwrap().unwrap();
    assert_eq!(committed.relative_path, "media/screen/000001.mp4");
    assert_eq!(rig.records.len(), 1);
    assert!(!rig.writer.has_pending_publication());
    assert_eq!(rig.file(&committed.relative_path).unwrap(), b"PENDING");
    assert!(rig.finalize(1_000_000).unwrap().is_none());
}

#[test]
fn native_journal_append_failure_retries_same_seq_then_publishes_next() {
    let mut rig = Rig::mic();
    let wav = generate_valid_wav_segment(100_000, 48_000, 1);
    let first_temp = "media/mic/000001.wav.tmp";
    rig.put(first_temp, &wav);
    rig.journal.inject_fail_next_appends(1);
    assert!(rig.commit_native(first_temp, 0, 0, 48_000, 0, 0).is_err());
    assert!(rig.writer.has_pending_publication());
    assert!(rig.file("media/mic/000001.wav").is_some());
    assert!(rig.records.is_empty());

    let retried = rig.commit_native(first_temp, 0, 0, 48_000, 0, 0).unwrap();
    assert_eq!(retried.relative_path, "media/mic/000001.wav");
    assert!(!rig.writer.has_pending_publication());
    assert_eq!(rig.records.len(), 1);

    let second_temp = "media/mic/000002.wav.tmp";
    rig.put(second_temp, &wav);
    rig.journal.inject_fail_next_appends(1);
    assert!(rig
        .commit_native(second_temp, 1, 100_000, 48_000, 4_800, 100_000)
        .is_err());
    assert!(rig.writer.has_pending_publication());

    let third_temp = "media/mic/000003.wav.tmp";
    rig.put(third_temp, &wav);
    let committed = rig
        .commit_native(third_temp, 2, 200_000, 48_000, 9_600, 200_000)
        .unwrap();
    assert_eq!(committed.relative_path, "media/mic/000003.wav");
    assert_eq!(rig.records.len(), 3);
    assert!(!rig.writer.has_pending_publication());
    assert!(rig.file("media/mic/000002.wav").is_some());
    assert!(rig.file("media/mic/000003.wav").is_some());
}

#[test]
fn native_commit_rebases_boot_absolute_host_anchor() {
    let mut rig = Rig::mic();
    let wav = generate_valid_wav_segment(100_000, 48_000, 1);
    let first_temp = "media/mic/000001.wav.tmp";
    rig.put(first_temp, &wav);
    let first_commit = rig
        .commit_native(first_temp, 0, 193_799_000_000, 48_000, 0, 2_000_000)
        .unwrap();
    assert_eq!(
        (first_commit.start_us, first_commit.end_us),
        (0, 100_000),
        "boot-absolute host anchors must not become source duration"
    );

    let second_temp = "media/mic/000002.wav.tmp";
    rig.put(second_temp, &wav);
    let second_commit = rig
        .commit_native(second_temp, 1, 193_801_000_000, 48_000, 4_800, 4_000_000)
        .unwrap();
    assert_eq!(
        (second_commit.start_us, second_commit.end_us),
        (2_000_000, 2_100_000)
    );
    assert!(matches!(
        &rig.records[0],
        JournalRecord::SegmentCommitted {
            host_anchor_us: 0,
            start_us: 0,
            ..
        }
    ));
    assert!(matches!(
        &rig.records[1],
        JournalRecord::SegmentCommitted {
            host_anchor_us: 2_000_000,
            start_us: 2_000_000,
            ..
        }
    ));
}

#[test]
fn writers_go_on_after_the_files_that_are_there() {
    let names = vec![
        "000004.mp4".to_string(),
        "000009.tmp".to_string(),
        "x.mp4".to_string(),
    ];
    let writer =
        TrackSegmentWriter::new("screen".into(), TrackType::Screen, "h264".into(), &names);
    assert_eq!(writer.current_seq(), 10);
    assert_eq!(writer.target_duration_us(), 2_000_000);
}

fn committed(track: &str, path: &str, start_us: u64, end_us: u64, size: u64) -> JournalRecord {
    JournalRecord::SegmentCommitted {
        seq: 0,
        track_id: track.into(),
        relative_path: path.into(),
        start_us,
        end_us,
        size_bytes: size,
        is_keyframe_start: true,
        media_timescale: 90_000,
        media_start_value: 0,
        host_anchor_us: 0,
    }
}

/// Recovers a project of these files, of which the journal has these records.
fn scan_and_recover(
    files: &mut Vec<(String, Vec<u8>)>,
    records: &Vec<JournalRecord>,
) -> Result<(RecoveryEngine, Vec<String>), RecoveryError> {
    let mut looks = Vec::new();
    for record in records {
        let mut look = RecordLook {
            path_check: Ok(()),
            found: None,
        };
        if let JournalRecord::SegmentCommitted {
            track_id,
            relative_path,
            size_bytes,
            ..
        } = record
        {
            let root = Ok("/project".to_string());
            let near = NearestPath {
                canonical: "/project".into(),
                whole: false,
            };
            look.path_check = ProjectManifest::validate_path_in_root(root, relative_path, Ok(near))
                .map(|_| ())
                .map_err(|e| e.message());
            if let Some((_, data)) = files.iter().find(|f| f.0 == *relative_path) {
                let kind = determine_track_type(track_id, relative_path);
                let valid = MediaValidator::validate(data, kind).is_ok();
                look.found = usable_bytes(Some(data.len() as u64), *size_bytes, valid);
            }
        }
        looks.push(look);
    }
    let mut engine = RecoveryEngine::read_journal(records, &looks)?;
    let mut removed = Vec::new();
    let listed: Vec<(String, Vec<u8>)> = files.clone();
    for (path, data) in &listed {
        let parts: Vec<&str> = path.split('/').collect();
        let file = sort_file(parts[1], parts[2]);
        let rel = match &file {
            FoundFile::Committed(rel) | FoundFile::Unfinished(rel) => rel.clone(),
            FoundFile::Other => continue,
        };
        let kind = determine_track_type(parts[1], &rel);
        let info = MediaValidator::validate(data, kind);
        let taken = files.iter().any(|f| f.0 == rel);
        match engine.judge_file(&file, true, info.is_ok(), taken) {
            FileStep::Leave => {}
            FileStep::Take => engine.add_unindexed(parts[1], kind, &rel, &info.unwrap()),
            FileStep::Remove => {
                files.retain(|f| f.0 != *path);
                removed.push(path.clone());
            }
            FileStep::Publish => {
                files.retain(|f| f.0 != *path);
                files.push((rel.clone(), data.clone()));
                engine.add_unindexed(parts[1], kind, &rel, &info.unwrap());
            }
        }
    }
    Ok((engine, removed))
}

#[test]
fn test_recovery_validates_media_and_discovers_unindexed() {
    let valid = generate_valid_fmp4_segment(0, 2_000_000, true);
    let mut files = vec![
        // Segment 1: indexed and valid
        ("media/screen/000001.mp4".to_string(), valid.clone()),
        // Segment 2: unindexed on disk (crash before journal append)
        ("media/screen/000002.mp4".to_string(), valid.clone()),
        // Segment 3: zero-filled dummy (must be rejected)
        ("media/screen/000003.mp4".to_string(), vec![0u8; 1024]),
    ];
    let size = valid.len() as u64;
    let records = vec![
        committed("screen", "media/screen/000001.mp4", 0, 2_000_000, size),
        committed("screen", "media/screen/000003.mp4", 2_000_000, 4_000_000, 1024),
    ];
    let (engine, _) = scan_and_recover(&mut files, &records).unwrap();
    let manifest = ProjectManifest::new("s".into(), "n".into());
    let report = engine.finish(manifest, 2);
    let screen_rep = &report.track_reports[0];
    assert_eq!(screen_rep.track_id, "screen");
    assert_eq!(screen_rep.valid_segments, 1, "seg1 is valid");
    assert_eq!(screen_rep.missing_segments, 1, "seg3 zero dummy rejected");
    assert_eq!(
        screen_rep.unindexed_recovered_segments, 1,
        "seg2 discovered"
    );
    assert_eq!(report.recoverable_duration_us, 4_000_000);
}

#[test]
fn test_recovery_rejects_path_traversal() {
    let mut files = Vec::new();
    let records = vec![committed("screen", "../../../etc/passwd", 0, 1000, 10)];
    let res = scan_and_recover(&mut files, &records);
    assert!(matches!(res, Err(RecoveryError::InvalidPath(_))));
}

#[test]
fn test_recovery_salvages_valid_temp_segment() {
    // Half-written segment from a crashed session
    let mut files = vec![(
        "media/screen/000007.mp4.tmp".to_string(),
        generate_valid_fmp4_segment(0, 2_000_000, true),
    )];
    let (engine, _) = scan_and_recover(&mut files, &Vec::new()).unwrap();

    // The temp file must be renamed away to a committed name.
    assert_eq!(files.len(), 1);
    assert_eq!(files[0].0, "media/screen/000007.mp4");

    // A journal record for the recovered segment must be appended.
    let records = engine.index_records();
    assert!(
        records.iter().any(|r| matches!(
            r,
            JournalRecord::UnindexedSegmentRecovered { relative_path, .. }
                if relative_path == "media/screen/000007.mp4"
        )),
        "journal should contain the salvaged segment record"
    );
    // The valid temp file must be salvaged as one unindexed segment.
    let report = engine.finish(ProjectManifest::new("s".into(), "n".into()), 0);
    assert_eq!(
        report.track_reports[0].unindexed_recovered_segments, 1,
        "valid temp segment must be salvaged"
    );
}

#[test]
fn test_recovery_rejects_invalid_temp_segment() {
    let valid = generate_valid_fmp4_segment(0, 2_000_000, true);
    let mut files = vec![
        // Corrupt temp segment (zero-filled) — must be deleted, not journaled.
        ("media/screen/000009.mp4.tmp".to_string(), vec![0u8; 1024]),
        // Pre-existing committed file with the same name should not be overwritten.
        ("media/screen/000010.mp4".to_string(), valid.clone()),
        ("media/screen/000010.mp4.tmp".to_string(), valid),
    ];
    let (engine, removed) = scan_and_recover(&mut files, &Vec::new()).unwrap();
    assert_eq!(
        removed,
        vec![
            "media/screen/000009.mp4.tmp".to_string(),
            "media/screen/000010.mp4.tmp".to_string()
        ]
    );

    // The committed file must survive untouched.
    assert_eq!(files.len(), 1);
    assert_eq!(files[0].0, "media/screen/000010.mp4");

    // No temp file should have been promoted to a journal record.
    for record in &engine.index_records() {
        if let JournalRecord::UnindexedSegmentRecovered { relative_path, .. } = record {
            assert_ne!(
                relative_path, "media/screen/000009.mp4",
                "bad temp must not be journaled"
            );
        }
    }
    let report = engine.finish(ProjectManifest::new("s".into(), "n".into()), 0);
    assert_eq!(
        report.track_reports[0].unindexed_recovered_segments, 1,
        "only the pre-existing good committed file is recovered"
    );
}

fn present(n: usize) -> Vec<PathProbe> {
    (0..n).map(|_| PathProbe::Present).collect()
}

fn manifest_with_screen() -> ProjectManifest {
    let mut manifest = ProjectManifest::new("s".into(), "Demo".into());
    manifest.tracks.push(TrackDescriptor {
        id: "screen".into(),
        track_type: TrackType::Screen,
        codec: "h264".into(),
        relative_path: "media/screen/000001.mp4".into(),
        width: None,
        height: None,
        fps: None,
        sample_rate: None,
        channels: None,
        gaps_total: 0,
        media_timescale: None,
    });
    manifest.duration_us = 4_000_000;
    manifest
}

fn record_at(seq: u64, n: u64, start_us: u64, end_us: u64) -> JournalRecord {
    let mut r = committed(
        "screen",
        &format!("media/screen/{:06}.mp4", n),
        start_us,
        end_us,
        100,
    );
    r.set_seq(seq);
    r
}

#[test]
fn opened_projects_show_their_segments_and_edit() {
    let mut manifest = manifest_with_screen();
    manifest.pause_intervals.push(PauseInterval {
        start_us: 1_000_000,
        end_us: 2_000_000,
    });
    let mut ix = ProjectIndex::begin(manifest, &vec![present(3)]).unwrap();
    ix.add_record(&record_at(0, 1, 0, 1_000_000), &present(3), Some(100))
        .unwrap();
    ix.add_record(&record_at(1, 2, 2_000_000, 4_000_000), &present(3), None)
        .unwrap();
    let mut reader = ProjectReader::open(ix, Ok(None), "/p/Demo.aero".to_string()).unwrap();
    assert_eq!(reader.summary.source_duration_us, 4_000_000);
    assert_eq!(reader.summary.edited_duration_us, 3_000_000);
    assert_eq!(reader.summary.tracks[0].segment_count, 2);
    assert_eq!(reader.summary.tracks[0].available_segment_count, 1);
    let page = reader.page("screen", 0, 1).unwrap();
    assert_eq!(page.segments.len(), 1);
    assert_eq!(page.next_offset, Some(1));
    assert!(reader.page("mic", 0, 1).is_err());

    let renamed = reader.rename_project("  Other  ").unwrap().unwrap();
    reader.renamed(renamed);
    assert_eq!(reader.summary.manifest.project_name, "Other");
}

#[test]
fn stored_edits_are_shown_unless_they_cannot_be_read() {
    let edit = EditDocument::from_retained(vec![RetainedInterval {
        start_us: 0,
        end_us: 500_000,
    }])
    .unwrap();
    let ix = ProjectIndex::begin(manifest_with_screen(), &vec![present(3)]).unwrap();
    let reader = ProjectReader::open(ix, Ok(Some(edit)), "/p/Demo.aero".into()).unwrap();
    assert_eq!(reader.summary.edited_duration_us, 500_000);
    let ix = ProjectIndex::begin(manifest_with_screen(), &vec![present(3)]).unwrap();
    let reader = ProjectReader::open(ix, Err("broken".into()), "/p/Demo.aero".into()).unwrap();
    assert_eq!(reader.summary.edited_duration_us, 4_000_000);
    assert!(reader
        .summary
        .diagnostics
        .contains(&"Edit document ignored: broken".to_string()));
}

#[test]
fn unsafe_tracks_and_records_are_refused() {
    let mut manifest = manifest_with_screen();
    manifest.tracks[0].id = "a/b".into();
    assert!(ProjectIndex::begin(manifest, &vec![present(3)]).is_err());
    let linked = vec![PathProbe::Present, PathProbe::Symlink, PathProbe::Missing];
    let e = ProjectIndex::begin(manifest_with_screen(), &vec![linked]).unwrap_err();
    assert_eq!(e, "Symlink in project path");
    let mut ix = ProjectIndex::begin(manifest_with_screen(), &vec![present(3)]).unwrap();
    ix.add_record(&record_at(5, 1, 0, 10), &present(3), Some(100))
        .unwrap();
    // Numbers of records only grow.
    assert!(ix
        .add_record(&record_at(5, 2, 10, 20), &present(3), Some(100))
        .is_err());
}

#[test]
fn pauses_are_left_out_of_what_was_recorded() {
    let pauses = vec![PauseInterval {
        start_us: 100,
        end_us: 200,
    }];
    let kept = recorded_intervals(pauses, 300).unwrap();
    assert_eq!(
        kept,
        vec![
            RetainedInterval {
                start_us: 0,
                end_us: 100
            },
            RetainedInterval {
                start_us: 200,
                end_us: 300
            }
        ]
    );
}

#[test]
fn journals_are_read_line_by_line_within_limits() {
    let data = b"{\"a\":1}\n\n{\"b\":2}\n{\"c\"";
    let mut scan = JournalScan::start();
    let first = scan.next(data).unwrap().unwrap();
    assert_eq!(&data[first.start..first.end], b"{\"a\":1}\n");
    let second = scan.next(data).unwrap().unwrap();
    assert_eq!(second.number, 3);
    let third = scan.next(data).unwrap().unwrap();
    let step = judge_line(ParsedLine::Incomplete("eof".into()), false, third.number).unwrap();
    assert!(matches!(step, LineStep::Stop));
    assert!(judge_line(ParsedLine::Corrupt("bad".into()), true, 1).is_err());
    assert!(scan.next(data).unwrap().is_none());
    assert!(bounded_read(10, 9).is_err());
    assert!(bounded_read(9, 9).is_ok());
    assert!(check_journal_file(false, 0).is_err());
    assert!(check_unlocked(false, false).is_err());
    assert!(check_unlocked(true, true).is_err());
    assert!(check_unlocked(true, false).is_ok());
    assert!(check_root("/p/x.aero", &RootLook::Directory).is_ok());
    assert!(check_root("/p/x.aero", &RootLook::Other).is_err());
}

#[test]
fn recovery_starts_from_a_valid_manifest() {
    let stored = ProjectManifest::new("s".into(), "n".into());
    let kept = baseline_manifest(Some(stored.clone()), "Folder.aero").unwrap();
    assert_eq!(kept.session_id, "s");
    let mut bad = stored;
    bad.version = 9;
    match baseline_manifest(Some(bad), "Folder.aero") {
        Err(RecoveryError::Manifest(e)) => assert!(e.starts_with("Validation error: ")),
        other => panic!("unexpected {other:?}"),
    }
    let fresh = baseline_manifest(None, "Folder.aero").unwrap();
    assert_eq!(fresh.session_id, "recovered-session");
    assert_eq!(fresh.project_name, "Folder.aero");
}

#[test]
fn recovery_leaves_what_lies_outside_or_is_indexed() {
    let mut engine = RecoveryEngine::new();
    let file = FoundFile::Committed("media/mic/000001.wav".into());
    assert_eq!(engine.judge_file(&file, true, true, true), FileStep::Take);
    assert_eq!(engine.judge_file(&file, false, true, true), FileStep::Leave);
    assert_eq!(engine.judge_file(&file, true, false, true), FileStep::Leave);
    engine.add_committed("mic", "media/mic/000001.wav", 5, None);
    assert_eq!(engine.judge_file(&file, true, true, true), FileStep::Leave);
    // A segment that the journal holds and the disk lost is taken from its unfinished file.
    let lost = FoundFile::Unfinished("media/mic/000001.wav".into());
    assert_eq!(engine.judge_file(&lost, true, true, false), FileStep::Publish);
    let unfinished = FoundFile::Unfinished("media/mic/000002.wav".into());
    assert_eq!(engine.judge_file(&unfinished, true, true, false), FileStep::Publish);
    assert_eq!(engine.judge_file(&unfinished, true, true, true), FileStep::Remove);
    assert_eq!(engine.judge_file(&unfinished, false, true, false), FileStep::Leave);
}

#[test]
fn missing_files_below_a_link_that_leaves_the_root_are_refused() {
    let root = || Ok("/project".to_string());
    let near = |canonical: &str, whole: bool| {
        Ok(NearestPath {
            canonical: canonical.into(),
            whole,
        })
    };
    let check = |relative: &str, found| ProjectManifest::validate_path_in_root(root(), relative, found);
    let path = "media/mic/000001.wav";
    assert_eq!(
        check(path, near("/project/media", false)),
        Ok("/project/media/mic/000001.wav".into())
    );
    assert_eq!(
        check(path, near("/project/real/000001.wav", true)),
        Ok("/project/real/000001.wav".into())
    );
    assert_eq!(
        check(path, near("/elsewhere/media", false)),
        Err(ManifestError::PathEscapesRoot(path.into()))
    );
    assert_eq!(
        check("/etc/passwd", near("/project", false)),
        Err(ManifestError::InvalidTrackPath("/etc/passwd".into()))
    );
    assert_eq!(check(path, Err("gone".into())), Err(ManifestError::Io("gone".into())));
}

#[test]
fn recovered_pauses_are_those_that_ended() {
    let records = vec![
        JournalRecord::PauseStarted { seq: 0, t_us: 5 },
        JournalRecord::PauseEnded {
            seq: 1,
            start_us: 5,
            end_us: 9,
        },
        JournalRecord::PauseEnded {
            seq: 2,
            start_us: 2,
            end_us: 3,
        },
        JournalRecord::PauseStarted { seq: 3, t_us: 20 },
    ];
    let (engine, _) = scan_and_recover(&mut Vec::new(), &records).unwrap();
    let report = engine.finish(ProjectManifest::new("s".into(), "n".into()), records.len());
    let pauses: Vec<(u64, u64)> = report
        .pause_intervals
        .iter()
        .map(|p| (p.start_us, p.end_us))
        .collect();
    assert_eq!(pauses, vec![(5, 9), (2, 3)]);
    assert_eq!(report.recoverable_duration_us, 0);
}
