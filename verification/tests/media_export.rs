use aeroshoot_editor::export::destination::{
    choose_destination, default_destination, is_inside_bundle, partial_path, place_destination,
    resolve_destination, CanonicalNames, Destination, ParentLook, SourceNames,
};
use aeroshoot_editor::export::job::{
    prepare_job, prepare_with_id, ExportOwner, Surroundings, WorkerLook,
};
use aeroshoot_editor::export::run::{
    publish_output, ExportRun, PublishLook, RenameLook, RunAction, RunStart, Stage,
};
use aeroshoot_editor::export::scene::{decode_message, scene_at};
use aeroshoot_editor::export::session::NativeExport;
use aeroshoot_editor::export::{
    default_export_filename, frame_count, frame_time_us, recording_blocks_export,
    validate_settings, ExportFailure, ExportSettings, ExportState, ExportStatus,
};
use aeroshoot_editor::media::encode::{decoded_frame, encode_h264_frames, DecodedGeometry};
use aeroshoot_editor::media::{
    compare_frames, interop_status, EncoderGate, PixelFormat, VideoFrame,
};
use aeroshoot_editor::project::manifest::{TrackDescriptor, TrackType};
use aeroshoot_editor::project::reader::{SegmentSummary, TrackSummary};
use aeroshoot_editor::project::revision::EditDocument;
use aeroshoot_editor::session::state::SessionState;
use aeroshoot_editor::timeline::RetainedInterval;

#[test]
fn encoder_gate_rejects_a_second_encode() {
    let mut gate = EncoderGate::new();
    let first = gate.try_acquire().unwrap();
    assert_eq!(gate.in_flight(), 1);
    assert!(gate
        .try_acquire()
        .unwrap_err()
        .contains("Concurrent encoder"));
    gate.release(first);
    assert_eq!(gate.in_flight(), 0);
    let _second = gate.try_acquire().expect("gate should release");
}

#[test]
fn solid_frame_is_owned_bgra() {
    let frame = VideoFrame::solid(16, 16, 16, 32, 48, 1_000).unwrap();
    assert_eq!(frame.format, PixelFormat::Bgra8888);
    assert_eq!(frame.data.len(), 16 * 16 * 4);
    assert_eq!(&frame.data[..4], &[16, 32, 48, 255]);
    let status = interop_status(true, None, Vec::new());
    assert!(!status.preview_available);
    assert!(!status.ffmpeg_pinned);
    assert_eq!(status.copies_composite, 2);
}

#[test]
fn frames_are_compared_color_by_color() {
    let a = VideoFrame::solid(16, 16, 10, 20, 30, 0).unwrap();
    let mut b = VideoFrame::solid(16, 16, 10, 20, 30, 0).unwrap();
    assert_eq!(compare_frames(&a, &b).unwrap().max, 0);
    b.data[8 * 64 + 8 * 4] = 17;
    let delta = compare_frames(&a, &b).unwrap();
    assert_eq!(delta.max, 7);
    assert_eq!(delta.sum, 7);
    let c = VideoFrame::solid(8, 16, 10, 20, 30, 0).unwrap();
    assert!(compare_frames(&a, &c).is_err());
}

#[test]
fn decoded_pictures_are_checked() {
    let g = |width: i32, height: i32, stride: i32, pts_us: i64| DecodedGeometry {
        width,
        height,
        stride,
        pts_us,
    };
    let frame = decoded_frame(g(2, 2, 8, 40), vec![7; 16]).unwrap();
    assert_eq!((frame.width, frame.stride, frame.pts_us), (2, 8, 40));
    assert!(decoded_frame(g(-2, 2, 8, 40), vec![7; 16]).is_err());
    assert!(decoded_frame(g(2, 2, 8, 40), Vec::new()).is_err());
}

#[test]
fn pictures_are_packed_without_gaps() {
    let frame = |b: u8| VideoFrame::solid(16, 16, b, 2, 3, 0).unwrap();
    let packed = encode_h264_frames(&vec![frame(1), frame(9)]).unwrap();
    assert_eq!(packed.len(), 2 * 16 * 16 * 4);
    assert_eq!(packed[0], 1);
    assert_eq!(packed[16 * 16 * 4], 9);
    assert!(encode_h264_frames(&Vec::new()).is_err());
    let many = (0..9).map(frame).collect();
    assert!(encode_h264_frames(&many).is_err());
}

#[test]
fn rejects_prores_and_odd_dimensions() {
    let mut settings = ExportSettings::default();
    settings.video_codec = "prores".into();
    assert!(matches!(
        validate_settings(&settings),
        Err(ExportFailure::InvalidSettings { .. })
    ));
    settings.video_codec = "h264".into();
    settings.width = 63;
    assert!(matches!(
        validate_settings(&settings),
        Err(ExportFailure::InvalidSettings { .. })
    ));
}

#[test]
fn exclusive_end_is_not_an_output_sample() {
    assert_eq!(frame_count(200_000, 10).unwrap(), 2);
    assert_eq!(frame_count(250_000, 10).unwrap(), 3);
    assert_eq!(frame_count(1, 30).unwrap(), 1);
    assert!(frame_count(u64::MAX, 60).is_err());
    assert_eq!(frame_time_us(0, 10), 0);
    assert_eq!(frame_time_us(1, 10), 100_000);
    assert!(frame_time_us(2, 10) >= 200_000);
}

#[test]
fn idle_exports_have_no_job() {
    let status = ExportStatus::idle();
    assert_eq!(status.state, ExportState::Idle);
    assert_eq!(status.job_id, "");
    assert_eq!(ExportOwner::new().status(), status);
}

#[test]
fn recording_comes_before_exporting() {
    assert!(recording_blocks_export(SessionState::Recording));
    assert!(recording_blocks_export(SessionState::Paused));
    assert!(!recording_blocks_export(SessionState::Idle));
}

#[test]
fn file_names_have_no_separators() {
    assert_eq!(default_export_filename("My Demo"), "My Demo.mp4");
    assert!(!default_export_filename("a/b:c").contains('/'));
    assert_eq!(default_destination("/p", "My Demo"), "/p/My Demo.mp4");
    assert_eq!(choose_destination(&Some("/x.mp4".into()), "/p", "n"), "/x.mp4");
    assert_eq!(choose_destination(&None, "/p", "n"), "/p/n.mp4");
}

fn folder() -> ParentLook {
    ParentLook {
        exists: true,
        is_file: false,
        canonical: Ok("/out".into()),
    }
}

#[test]
fn destinations_are_placed_in_folders() {
    let root = Ok("/projects/p.aero".to_string());
    let d = place_destination("/out/x.mp4", &root, &folder()).unwrap();
    assert_eq!(d.to_path(), "/out/x.mp4");
    assert_eq!(d.file_name, "x.mp4");
    let p = partial_path(&d, "job");
    assert!(p.starts_with("/out/") && p.contains("job") && p != "/out/x.mp4");
    let missing = ParentLook {
        exists: false,
        ..folder()
    };
    assert!(matches!(
        place_destination("/out/x.mp4", &root, &missing),
        Err(ExportFailure::Io { .. })
    ));
    assert!(matches!(
        place_destination("", &root, &folder()),
        Err(ExportFailure::InvalidSettings { .. })
    ));
    let file = ParentLook {
        is_file: true,
        ..folder()
    };
    assert!(place_destination("/out/x.mp4", &root, &file).is_err());
}

#[test]
fn destinations_lie_outside_the_project() {
    let known = CanonicalNames {
        bundle: None,
        parent: None,
        path: None,
    };
    let root = "/projects/p.aero".to_string();
    let sources = vec![SourceNames {
        path: "/other/clip.mp4".into(),
        canonical: None,
    }];
    assert!(is_inside_bundle(
        "/projects/p.aero/x.mp4",
        &Some(root.clone()),
        &known
    ));
    assert!(!is_inside_bundle("/out/x.mp4", &Some(root.clone()), &known));
    assert_eq!(resolve_destination("/out/x.mp4", &root, &known, &sources), Ok(()));
    assert!(resolve_destination("/projects/p.aero/x.mp4", &root, &known, &sources).is_err());
    assert!(resolve_destination("/other/clip.mp4", &root, &known, &sources).is_err());
}

fn document(end_us: u64) -> EditDocument {
    EditDocument::from_retained(vec![RetainedInterval {
        start_us: 0,
        end_us,
    }])
    .unwrap()
}

fn segment(track: &str, n: u32, start_us: u64, end_us: u64) -> SegmentSummary {
    SegmentSummary {
        track_id: track.into(),
        relative_path: format!("media/{track}/{n:06}.mp4"),
        start_us,
        end_us,
        size_bytes: 1,
        media_timescale: 30,
        media_start_value: 0,
        host_anchor_us: start_us as i64,
        is_keyframe_start: Some(true),
        available: true,
    }
}

fn track(
    id: &str,
    track_type: TrackType,
    segments: Vec<SegmentSummary>,
) -> (TrackSummary, Vec<SegmentSummary>) {
    let descriptor = TrackDescriptor {
        id: id.into(),
        track_type,
        codec: "h264".into(),
        relative_path: format!("media/{id}/000001.mp4"),
        width: Some(64),
        height: Some(64),
        fps: None,
        sample_rate: None,
        channels: None,
        gaps_total: 0,
        media_timescale: Some(30),
    };
    let n = segments.len();
    (
        TrackSummary {
            descriptor,
            segment_count: n,
            available_segment_count: n,
        },
        segments,
    )
}

fn around() -> Surroundings {
    Surroundings {
        place: Ok(Destination {
            parent: "/out".into(),
            file_name: "x.mp4".into(),
        }),
        dest_exists: false,
        lease: Ok(()),
    }
}

#[test]
fn jobs_are_prepared_or_refused() {
    let tracks = || vec![track("screen", TrackType::Screen, vec![segment("screen", 1, 0, 1_000_000)])];
    let job = prepare_with_id(
        "job".into(),
        SessionState::Idle,
        false,
        "/p.aero".into(),
        document(1_000_000),
        tracks(),
        ExportSettings::default(),
        around(),
    )
    .ok()
    .unwrap();
    assert_eq!(job.job_id, "job");
    assert_eq!(job.dest.to_path(), "/out/x.mp4");

    let refused = |state: SessionState, busy: bool, a: Surroundings| {
        prepare_job(
            state,
            busy,
            "/p.aero".into(),
            document(1_000_000),
            tracks(),
            ExportSettings::default(),
            a,
        )
        .err()
        .unwrap()
    };
    let s = refused(SessionState::Recording, false, around());
    assert!(matches!(s.failure, Some(ExportFailure::RecordingActive { .. })));
    assert_eq!(s.state, ExportState::Failed);
    assert!(!s.job_id.is_empty());
    let s = refused(SessionState::Idle, true, around());
    assert!(matches!(s.failure, Some(ExportFailure::EncoderBusy { .. })));
    let taken = Surroundings {
        dest_exists: true,
        ..around()
    };
    let s = refused(SessionState::Idle, false, taken);
    assert!(matches!(s.failure, Some(ExportFailure::Collision { .. })));
}

#[test]
fn job_identifiers_differ() {
    let id = || {
        prepare_job(
            SessionState::Idle,
            false,
            "/p.aero".into(),
            document(1_000_000),
            vec![track("screen", TrackType::Screen, vec![segment("screen", 1, 0, 1_000_000)])],
            ExportSettings::default(),
            around(),
        )
        .ok()
        .unwrap()
        .job_id
    };
    assert_ne!(id(), id());
}

#[test]
fn one_job_runs_at_a_time() {
    let job = prepare_with_id(
        "job".into(),
        SessionState::Idle,
        false,
        "/p.aero".into(),
        document(1_000_000),
        vec![track("screen", TrackType::Screen, vec![segment("screen", 1, 0, 1_000_000)])],
        ExportSettings::default(),
        around(),
    )
    .ok()
    .unwrap();
    let mut owner = ExportOwner::new();
    assert!(!owner.busy());
    owner.spawn_job(&job);
    assert!(owner.busy());
    assert!(owner.cancel("other").is_err());
    owner.cancel("job").unwrap();
    assert!(owner.job.as_ref().unwrap().cancel);
    owner.reap(WorkerLook::Alive);
    assert!(owner.busy());
    owner.reap(WorkerLook::Broken);
    assert!(!owner.busy());
    assert_eq!(owner.status().job_id, "job");
}

fn start() -> RunStart {
    RunStart {
        gate: Ok(()),
        cancelled: false,
        dest_exists: false,
        temp_exists: false,
        duration: Ok(250_000),
        sound: Ok((true, 12_000)),
    }
}

#[test]
fn exports_write_every_picture_and_all_sound() {
    let mut run = ExportRun::start(start(), 10, 64, 64).unwrap();
    let mut pictures = Vec::new();
    let mut sound = 0u64;
    let mut finished = false;
    while run.stage != Stage::Done {
        match run.next(false).unwrap() {
            RunAction::WriteVideo { pts_us } => pictures.push(pts_us),
            RunAction::WriteAudio { start, count, .. } => {
                assert_eq!(start, sound);
                sound += count as u64;
            }
            RunAction::Report { done, total } => assert!(done <= total),
            RunAction::Finish { duration_us } => {
                assert_eq!(duration_us, 250_000);
                finished = true;
            }
            RunAction::Measure => run.measured(250_000).unwrap(),
            RunAction::Decode { pts_us } => {
                assert!(pictures.contains(&pts_us));
                run.decoded(64, 64).unwrap();
            }
            RunAction::Publish => assert!(finished),
        }
    }
    assert_eq!(pictures, vec![0, 100_000, 200_000]);
    assert_eq!(sound, 12_000);
}

#[test]
fn cancelled_and_colliding_exports_stop() {
    let mut run = ExportRun::start(start(), 10, 64, 64).unwrap();
    run.next(false).unwrap();
    assert!(matches!(
        run.next(true),
        Err(ExportFailure::Cancelled { .. })
    ));
    assert!(run.measured(1_000_000).is_err());
    assert!(run.decoded(32, 64).is_err());
    let taken = RunStart {
        dest_exists: true,
        ..start()
    };
    assert!(matches!(
        ExportRun::start(taken, 10, 64, 64),
        Err(ExportFailure::Collision { .. })
    ));
    let busy = RunStart {
        gate: Err("Concurrent encoder".into()),
        ..start()
    };
    assert!(matches!(
        ExportRun::start(busy, 10, 64, 64),
        Err(ExportFailure::EncoderBusy { .. })
    ));
}

#[test]
fn outputs_are_published_without_overwriting() {
    let look = || PublishLook {
        dest_exists: false,
        sync: Ok(()),
        link: Ok(()),
        dest_exists_after: true,
        rename: None,
    };
    assert_eq!(publish_output(look()), Ok(()));
    let taken = PublishLook {
        dest_exists: true,
        ..look()
    };
    assert!(matches!(
        publish_output(taken),
        Err(ExportFailure::Collision { .. })
    ));
    let renamed = PublishLook {
        link: Err("no links".into()),
        dest_exists_after: false,
        rename: Some(RenameLook::Done),
        ..look()
    };
    assert_eq!(publish_output(renamed), Ok(()));
    let raced = PublishLook {
        link: Err("no links".into()),
        dest_exists_after: false,
        rename: Some(RenameLook::AlreadyExists),
        ..look()
    };
    assert!(matches!(
        publish_output(raced),
        Err(ExportFailure::Collision { .. })
    ));
}

#[test]
fn scenes_read_the_segments_under_the_playhead() {
    let tracks = vec![
        track(
            "screen",
            TrackType::Screen,
            vec![segment("screen", 1, 0, 500_000), segment("screen", 2, 500_000, 1_000_000)],
        ),
        track("cam", TrackType::Webcam, vec![segment("cam", 1, 0, 300_000)]),
    ];
    let doc = document(1_000_000);
    let early = scene_at(&doc, &tracks, 100_000).unwrap();
    let screen = early.screen.unwrap();
    assert_eq!((screen.track, screen.segment, screen.local_us), (0, 0, 100_000));
    assert_eq!(early.webcam.unwrap().track, 1);
    assert_eq!(early.reads.len(), 2);
    let late = scene_at(&doc, &tracks, 600_000).unwrap();
    let screen = late.screen.unwrap();
    assert_eq!((screen.segment, screen.local_us), (1, 100_000));
    assert!(decode_message("media/screen/000001.mp4", 7, "broken").contains("broken"));
}

#[test]
fn finished_writers_take_nothing() {
    let mut session = NativeExport::begin(64, 64).unwrap();
    let frame = VideoFrame::solid(64, 64, 1, 2, 3, 0).unwrap();
    session.write_video(&frame).unwrap();
    let small = VideoFrame::solid(32, 64, 1, 2, 3, 0).unwrap();
    assert!(session.write_video(&small).is_err());
    session.write_audio(200, 100, 2).unwrap();
    assert!(session.write_audio(199, 100, 2).is_err());
    session.finish().unwrap();
    assert!(session.write_video(&frame).is_err());
    assert!(session.write_audio(200, 100, 2).is_err());
    assert!(session.finish().is_err());
    assert!(NativeExport::begin(0, 64).is_err());
}

#[test]
fn without_a_job_the_status_is_idle() {
    let status = ExportOwner::new().status();
    assert_eq!(status.state, ExportState::Idle);
    assert_eq!((status.video_codec.as_str(), status.audio_codec.as_str()), ("h264", "aac"));
    assert_eq!((status.width, status.height, status.fps), (1920, 1080, 30));
    assert_eq!((status.progress_numerator, status.progress_denominator), (0, 0));
    assert!(status.job_id.is_empty() && status.diagnostics.is_empty());
}
