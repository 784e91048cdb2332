use aeroshoot_editor::commands::{check_playback, playback_status_impl};
use aeroshoot_editor::playback::engine::{
    check_pcm_chunk, choose_picture, frame_at, queues_more, shows_picture, source_step,
    still_plays, Around, FrameKey, SourceStep, Surface, Tick, TickAction,
};
use aeroshoot_editor::playback::files::{OpenFiles, MAX_OPEN_FILES};
use aeroshoot_editor::playback::plan::{notes_of, plan_for_track};
use aeroshoot_editor::playback::preview::{
    hit_mode_code, map_status, validate_viewport, PreviewHitMode, PreviewOwner, PreviewViewport,
};
use aeroshoot_editor::playback::{ClockKind, PlayStep, PlaybackOwner, PlaybackState, Reading};
use aeroshoot_editor::project::manifest::{TrackDescriptor, TrackType};
use aeroshoot_editor::project::reader::{SegmentSummary, TrackSummary};
use aeroshoot_editor::project::revision::EditDocument;
use aeroshoot_editor::timeline::RetainedInterval;

fn segment(start_us: u64, end_us: u64) -> SegmentSummary {
    SegmentSummary {
        track_id: "screen".into(),
        relative_path: "media/screen/000001.mp4".into(),
        start_us,
        end_us,
        size_bytes: 1,
        media_timescale: 30,
        media_start_value: 0,
        host_anchor_us: 0,
        is_keyframe_start: Some(true),
        available: true,
    }
}

#[test]
fn exclusive_end_is_not_a_decode_request() {
    let plan = plan_for_track(
        "screen",
        1,
        2_000_000,
        None,
        true,
        &vec![segment(0, 2_000_000)],
    );
    assert!(plan.ended);
    assert!(plan.decode_to_source_us.is_none());
    assert!(plan.source_us.is_none());
}

#[test]
fn decoding_goes_from_the_keyframe_to_the_playhead() {
    let plan = plan_for_track("screen", 1, 700, Some(700), false, &vec![segment(500, 1_000)]);
    assert_eq!(plan.keyframe_source_us, Some(500));
    assert_eq!(plan.decode_to_source_us, Some(700));
    assert_eq!(plan.relative_path, Some("media/screen/000001.mp4".into()));
    let gap = plan_for_track("screen", 1, 700, Some(700), false, &vec![segment(0, 500)]);
    assert!(gap.gap);
    assert_eq!(notes_of(&vec![gap]).len(), 1);
    assert!(notes_of(&vec![plan]).is_empty());
}

fn owner(end_us: u64) -> PlaybackOwner {
    let descriptor = TrackDescriptor {
        id: "screen".into(),
        track_type: TrackType::Screen,
        codec: "h264".into(),
        relative_path: "media/screen/000001.mp4".into(),
        width: None,
        height: None,
        fps: None,
        sample_rate: None,
        channels: None,
        gaps_total: 0,
        media_timescale: None,
    };
    let summary = TrackSummary {
        descriptor,
        segment_count: 1,
        available_segment_count: 1,
    };
    let document = EditDocument::from_retained(vec![RetainedInterval {
        start_us: 0,
        end_us,
    }])
    .unwrap();
    PlaybackOwner::open("handle".into(), &document, vec![(summary, vec![segment(0, end_us)])], 1)
        .unwrap()
}

fn at(now_us: u64) -> Reading {
    Reading {
        now_us,
        frames: Ok(0),
    }
}

#[test]
fn playback_follows_the_clock_to_its_end() {
    let mut owner = owner(100_000);
    owner.seek(10_000, 2, 0).unwrap();
    let stale = owner.generation;
    owner.settle(false);
    owner.seek(20_000, 3, 0).unwrap();
    owner.settle(false);
    let second = owner.status();
    assert_ne!(stale, second.generation);
    assert!(!owner.accept_decode_result(stale, 10_000));
    assert!(owner.accept_decode_result(second.generation, 20_000));
    assert_eq!(second.clock_kind, ClockKind::Monotonic);
    assert_eq!(owner.play(at(1_000), 4), Ok(PlayStep::Playing(false)));
    owner.advance(at(21_000));
    let playing = owner.status();
    assert_eq!(playing.position_us, 40_000);
    assert_eq!(playing.clock_kind, ClockKind::Monotonic);
    owner.advance(at(1_000_000));
    assert_eq!(owner.status().state, PlaybackState::Ended);
    assert_eq!(owner.status().position_us, 100_000);
    owner.close();
    assert!(owner.ensure_open().is_err());
    assert!(owner.play(at(0), 5).is_err());
}

#[test]
fn what_has_ended_plays_from_its_start() {
    let mut owner = owner(100_000);
    owner.play(at(0), 2).unwrap();
    assert_eq!(owner.play(at(500_000), 3), Ok(PlayStep::StartOver));
    assert_eq!(owner.state, PlaybackState::Seeking);
    assert_eq!(owner.position_us, 0);
    assert_eq!(owner.generation, 3);
    owner.start_over(600_000);
    assert_eq!(owner.status().state, PlaybackState::Playing);
    owner.advance(at(640_000));
    assert_eq!(owner.status().position_us, 40_000);
}

#[test]
fn stale_generation_is_rejected_and_missing_mic_uses_monotonic_clock() {
    let track = |id: &str, track_type, codec: &str, segments: Vec<SegmentSummary>| {
        let descriptor = TrackDescriptor {
            id: id.into(),
            track_type,
            codec: codec.into(),
            relative_path: format!("media/{id}/000001.wav"),
            width: None,
            height: None,
            fps: None,
            sample_rate: Some(48_000),
            channels: Some(1),
            gaps_total: 0,
            media_timescale: Some(48_000),
        };
        let summary = TrackSummary {
            descriptor,
            segment_count: segments.len(),
            available_segment_count: segments.len(),
        };
        (summary, segments)
    };
    let document = EditDocument::from_retained(vec![RetainedInterval {
        start_us: 0,
        end_us: 100_000,
    }])
    .unwrap();
    let tracks = vec![
        track("screen", TrackType::Screen, "pcm", vec![segment(0, 100_000)]),
        track("mic", TrackType::MicAudio, "pcm", Vec::new()),
    ];
    let mut owner = PlaybackOwner::open("handle".into(), &document, tracks, 1).unwrap();
    owner.native_enabled = true;
    assert!(!owner.needs_audio());
    owner.seek(10_000, 2, 0).unwrap();
    owner.settle(false);
    let stale = owner.status().generation;
    owner.seek(20_000, 3, 0).unwrap();
    owner.settle(false);
    let second = owner.status();
    assert_ne!(stale, second.generation);
    assert!(!owner.accept_decode_result(stale, 10_000));
    assert!(owner.accept_decode_result(second.generation, 20_000));
    assert_eq!(second.clock_kind, ClockKind::Monotonic);
    owner.play(at(0), 4).unwrap();
    owner.advance(at(20_000));
    assert_eq!(owner.status().position_us, 40_000);
    assert_eq!(owner.status().clock_kind, ClockKind::Monotonic);
    let sound = vec![track("mic", TrackType::MicAudio, "pcm", vec![segment(0, 100_000)])];
    let mut heard = PlaybackOwner::open("handle".into(), &document, sound, 1).unwrap();
    heard.native_enabled = true;
    assert!(heard.needs_audio());
}

#[test]
fn pausing_keeps_the_place() {
    let mut owner = owner(1_000_000);
    owner.play(at(0), 9).unwrap();
    assert_eq!(owner.pause(at(300_000)), Ok(true));
    owner.advance(at(900_000));
    assert_eq!(owner.status().position_us, 300_000);
    assert_eq!(owner.status().state, PlaybackState::Paused);
    assert_eq!(owner.sample_source_us(300_000), Some(300_000));
    assert!(check_playback(&owner.status(), "other").is_err());
    assert_eq!(check_playback(&owner.status(), "handle"), Ok(()));
    assert!(playback_status_impl(PlaybackOwner::closed().status(), "handle").is_err());
    owner.fail(owner.generation, "no decoder".into());
    assert_eq!(owner.status().state, PlaybackState::Error);
    assert_eq!(owner.status().error, Some("no decoder".into()));
}

#[test]
fn few_files_are_kept_open() {
    let mut files = OpenFiles::new();
    for i in 0..MAX_OPEN_FILES {
        let path = format!("{i}");
        assert!(!files.touch(&path));
        assert_eq!(files.opened(path), None);
    }
    assert!(files.touch("0"));
    assert!(!files.touch("new"));
    assert_eq!(files.opened("new".into()), Some("1".into()));
    assert_eq!(files.len(), MAX_OPEN_FILES);
}

fn surface() -> Surface {
    Surface {
        attached: true,
        visible: true,
        generation: 7,
    }
}

#[test]
fn pictures_are_shown_once() {
    let mut owner = owner(1_000_000);
    owner.preview_available = true;
    owner.play(at(0), 9).unwrap();
    let status = owner.status();
    let key = choose_picture(&status, surface(), false, None).unwrap();
    assert_eq!(
        key,
        FrameKey {
            generation: 1,
            position_us: 0,
            surface: 7
        }
    );
    assert_eq!(choose_picture(&status, surface(), false, Some(key)), None);
    assert!(shows_picture(&status, surface(), key));
    let other = Surface {
        generation: 8,
        ..surface()
    };
    assert!(!shows_picture(&status, other, key));
    assert!(still_plays(&status, 1));
    assert!(!still_plays(&status, 2));
}

#[test]
fn sound_is_queued_a_little_ahead() {
    assert_eq!(frame_at(1_000_000), 48_000);
    assert!(queues_more(0, 0, 100_000));
    assert!(!queues_more(3 * 4_800, 0, 100_000));
    assert!(!queues_more(100, 0, 100));
    assert_eq!(check_pcm_chunk(9_600), Ok(()));
    assert!(check_pcm_chunk(9_602).is_err());
    assert!(check_pcm_chunk(3).is_err());
}

#[test]
fn rounds_open_sources_first() {
    let mut owner = owner(1_000_000);
    owner.play(at(0), 9).unwrap();
    let status = owner.status();
    assert_eq!(source_step(&status, None), SourceStep::Renew);
    assert_eq!(source_step(&status, Some(1)), SourceStep::Keep);
    assert_eq!(
        source_step(&PlaybackOwner::closed().status(), Some(1)),
        SourceStep::Drop
    );
    let (mut tick, action) = Tick::begin(&status, None);
    assert_eq!(action, TickAction::OpenSources);
    let action = tick.sourced(&status, None, false);
    assert_eq!(action, TickAction::CheckStatus);
    let round = Around {
        output: false,
        queued: 0,
        surface: surface(),
        pending: false,
        last: None,
    };
    assert!(matches!(
        tick.status_read(&status, round),
        TickAction::Render(FrameKey {
            generation: 1,
            position_us: 0,
            surface: 7
        })
    ));
}

fn viewport(revision: u64) -> PreviewViewport {
    PreviewViewport {
        window_label: "main".into(),
        x: 10.0f64.to_bits(),
        y: 20.0f64.to_bits(),
        width: 320.0f64.to_bits(),
        height: 180.0f64.to_bits(),
        backing_scale: 2.0f64.to_bits(),
        visible: true,
        occluded: false,
        revision,
        generation: 0,
        clip: None,
    }
}

#[test]
fn stale_layout_and_generation_are_rejected() {
    let mut owner = PreviewOwner::new(true);
    owner
        .attach("main".into(), PreviewHitMode::Consume)
        .unwrap();
    owner.attached(false);
    owner.check_layout(&viewport(2)).unwrap();
    owner.layout(viewport(2));
    assert!(owner
        .check_layout(&viewport(1))
        .unwrap_err()
        .contains("Stale"));
    let generation = owner.status(None).generation;
    owner.check_present(generation).unwrap();
    owner.present_fixed();
    assert!(owner
        .check_present(generation + 9)
        .unwrap_err()
        .contains("Stale"));
    assert_eq!(owner.status(None).arrangement, "child_overlay");
    assert_eq!(owner.status(None).copies_per_present, 1);
    assert_eq!(owner.status(None).presented_kind, "fixed");
    assert!(owner
        .check_fixture("/tmp/missing-f1.mp4", generation)
        .unwrap_err()
        .contains("Native preview view"));
    owner.detach();
    owner
        .attach("main".into(), PreviewHitMode::Consume)
        .unwrap();
    owner.attached(false);
    assert_ne!(owner.status(None).generation, generation);
    owner.detach();
    assert!(!owner.status(None).attached);
}

/// Whether a point lies in the rectangle and in the ellipse of a view.
fn hits(owner: &PreviewOwner, x: f64, y: f64) -> bool {
    let (w, h) = (120.0, 120.0);
    let in_rect = x >= 0.0 && y >= 0.0 && x < w && y < h;
    let (nx, ny) = ((x - w / 2.0) / (w / 2.0), (y - h / 2.0) / (h / 2.0));
    owner.hit_test(true, in_rect, nx * nx + ny * ny <= 1.0)
}

#[test]
fn circle_hit_mode_passes_transparent_corners() {
    let mut owner = PreviewOwner::new(true);
    owner
        .attach("camera_overlay".into(), PreviewHitMode::Circle)
        .unwrap();
    owner.attached(false);
    let view = PreviewViewport {
        window_label: "camera_overlay".into(),
        x: 0.0f64.to_bits(),
        y: 0.0f64.to_bits(),
        width: 120.0f64.to_bits(),
        height: 120.0f64.to_bits(),
        backing_scale: 1.0f64.to_bits(),
        visible: true,
        occluded: false,
        revision: 1,
        generation: 0,
        clip: None,
    };
    owner.check_layout(&view).unwrap();
    owner.layout(view);
    assert!(hits(&owner, 60.0, 60.0));
    assert!(!hits(&owner, 1.0, 1.0));
    owner.detach();
    owner
        .attach("camera_overlay".into(), PreviewHitMode::Circle)
        .unwrap();
    owner.detach();
    assert!(!owner.status(None).attached);
}

#[test]
fn viewports_are_finite_and_not_too_large() {
    assert_eq!(validate_viewport(&viewport(1)), Ok(()));
    let with = |width: f64, scale: f64| PreviewViewport {
        width: width.to_bits(),
        backing_scale: scale.to_bits(),
        ..viewport(1)
    };
    assert!(validate_viewport(&with(f64::NAN, 2.0)).is_err());
    assert!(validate_viewport(&with(0.0, 2.0)).is_err());
    assert!(validate_viewport(&with(9_000.0, 2.0)).is_err());
    assert!(validate_viewport(&with(320.0, 0.0)).is_err());
    assert!(validate_viewport(&with(320.0, 9.0)).is_err());
    assert_eq!(hit_mode_code(PreviewHitMode::Consume), 0);
    assert_eq!(map_status(0), Ok(()));
    assert!(map_status(-1).is_err());
}
