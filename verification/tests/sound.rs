use aeroshoot_editor::dsp::silence::{
    channel_policy_name, finalize_regions, parse_channel_policy, ChannelPolicy, SilenceConfig,
    SilenceCutInterval, SilenceDetector, StreamingSilenceDetector,
};
use aeroshoot_editor::fixtures::generate_pcm16_wav;
use aeroshoot_editor::media::audio::{ceil_frame, AudioMixer, CHUNK_FRAMES};
use aeroshoot_editor::paths::PathProbe;
use aeroshoot_editor::project::manifest::{TrackDescriptor, TrackType};
use aeroshoot_editor::project::pcm::parse_wav;
use aeroshoot_editor::project::reader::{SegmentSummary, TrackSummary};
use aeroshoot_editor::project::revision::EditDocument;
use aeroshoot_editor::project::silence::{plan_chunk, sound_gap, SoundGap, TrackSilence};
use aeroshoot_editor::project::waveform::{
    bucket_count_for, bucket_us_for, bucket_weights, cache_path, check_sound, decode_cache,
    encode_cache, fingerprint_start, fnv1a64, fnv1a64_continue, frame_place, is_segment_visible,
    plan_waveform, BucketGaps, CachedSegment, FramePlace, WaveformProgress, WaveformTrackContext,
};
use aeroshoot_editor::timeline::RetainedInterval;

fn channel_rms(samples: &[f32], channels: usize, channel: usize) -> f32 {
    let frames = samples.len() / channels;
    let mut sum = 0.0f32;
    for frame in 0..frames {
        let x = samples[frame * channels + channel];
        sum += x * x;
    }
    (sum / frames as f32).sqrt()
}

fn dbfs(rms: f32) -> f32 {
    if rms <= 1e-6 {
        -120.0
    } else {
        20.0 * rms.log10()
    }
}

/// Which windows of a piece are silent.
fn flags(samples: &[f32], rate: u32, channels: u16, config: &SilenceConfig) -> Vec<bool> {
    let detector = StreamingSilenceDetector::new(rate, channels, config).unwrap();
    let width = channels as usize;
    let (window, step) = detector.window_and_step();
    let count = detector.windows_in((samples.len() / width) as u64, 0);
    let threshold = f32::from_bits(config.threshold_db);
    (0..count)
        .map(|i| {
            let from = (i * step) as usize * width;
            let piece = &samples[from..from + window as usize * width];
            let rms = match detector.channel_policy() {
                ChannelPolicy::MaxEnergy => (0..width)
                    .map(|c| channel_rms(piece, width, c))
                    .fold(0.0, f32::max),
                ChannelPolicy::Channel(c) => channel_rms(piece, width, c as usize),
            };
            dbfs(rms) < threshold
        })
        .collect()
}

fn detect(
    samples: &[f32],
    rate: u32,
    channels: u16,
    config: &SilenceConfig,
) -> Result<Vec<SilenceCutInterval>, String> {
    let silent = flags(samples, rate, channels, config);
    SilenceDetector::detect_interleaved(samples.len() as u64, rate, channels, config, &silent)
}

fn speech_tone(sample_rate: u32, seconds: u32) -> Vec<f32> {
    (0..sample_rate * seconds)
        .map(|i| ((i as f32 * 440.0 * 2.0 * std::f32::consts::PI) / sample_rate as f32).sin() * 0.5)
        .collect()
}

#[test]
fn test_silence_detection_with_synthetic_audio() {
    let sample_rate = 48_000;
    let mut samples = speech_tone(sample_rate, 1);
    samples.extend(vec![0.0; sample_rate as usize]);
    samples.extend(speech_tone(sample_rate, 1));

    let config = SilenceConfig::default();
    let cuts = detect(&samples, sample_rate, 1, &config).unwrap();
    assert_eq!(cuts.len(), 1, "Should detect exactly 1 silence pocket");

    let cut = &cuts[0];
    assert!(cut.start_us >= 1_000_000);
    assert!(cut.end_us <= 2_000_000);
    assert!(cut.duration_ms >= 800, "Padded duration should be ~900ms");
}

#[test]
fn rejects_zero_window_and_non_finite_threshold() {
    let mut zero_window = SilenceConfig::default();
    zero_window.window_ms = Some(0);
    let err = zero_window.validate().unwrap_err();
    assert!(err.to_lowercase().contains("window"));

    let mut zero_step = SilenceConfig::default();
    zero_step.step_ms = Some(0);
    assert!(zero_step
        .validate()
        .unwrap_err()
        .to_lowercase()
        .contains("step"));

    let mut nan = SilenceConfig::default();
    nan.threshold_db = f32::NAN.to_bits();
    assert!(nan
        .validate()
        .unwrap_err()
        .to_lowercase()
        .contains("finite"));

    let mut inf = SilenceConfig::default();
    inf.threshold_db = f32::INFINITY.to_bits();
    assert!(inf
        .validate()
        .unwrap_err()
        .to_lowercase()
        .contains("finite"));
}

#[test]
fn opposite_polarity_stereo_is_not_silence() {
    let sample_rate = 48_000;
    let frames = sample_rate as usize * 2;
    let mut samples = Vec::with_capacity(frames * 2);
    for _ in 0..frames {
        samples.push(0.5);
        samples.push(-0.5);
    }
    let cuts = detect(&samples, sample_rate, 2, &SilenceConfig::default()).unwrap();
    assert!(
        cuts.is_empty(),
        "max-energy must keep opposite-polarity stereo"
    );
}

#[test]
fn selected_channel_timing_uses_sample_frames() {
    let sample_rate = 48_000u32;
    let frames = sample_rate as usize;
    let mut samples = Vec::with_capacity(frames * 3 * 2);
    for i in 0..frames * 3 {
        let ch0 = if i >= frames && i < frames * 2 {
            0.0
        } else {
            0.5
        };
        samples.push(ch0);
        samples.push(0.5);
    }
    let mut config = SilenceConfig::default();
    config.channel_policy = Some("channel:0".into());
    let cuts = detect(&samples, sample_rate, 2, &config).unwrap();
    assert_eq!(cuts.len(), 1);
    assert!(
        cuts[0].start_us >= 1_000_000 && cuts[0].end_us <= 2_000_000,
        "channel timing must use frames, got {}-{}",
        cuts[0].start_us,
        cuts[0].end_us
    );

    let max_energy = detect(&samples, sample_rate, 2, &SilenceConfig::default()).unwrap();
    assert!(
        max_energy.is_empty(),
        "loud second channel should suppress max-energy cuts"
    );
}

fn feed_silence(detector: &mut StreamingSilenceDetector, frames: u64, start_us: u64) {
    let n = detector.windows_in(frames, start_us);
    detector
        .feed(frames, start_us, &vec![true; n as usize])
        .unwrap();
}

#[test]
fn contiguous_chunks_preserve_one_silence_run() {
    let sample_rate = 48_000;
    let config = SilenceConfig::default();
    let mut detector = StreamingSilenceDetector::new(sample_rate, 1, &config).unwrap();
    feed_silence(&mut detector, sample_rate as u64, 0);
    feed_silence(&mut detector, sample_rate as u64, 1_000_000);
    let ranges = detector.finish();
    assert_eq!(ranges.len(), 1, "contiguous silent chunks must merge");
    assert!(ranges[0].1.saturating_sub(ranges[0].0) >= 1_800_000);
}

#[test]
fn discontinuity_resets_and_does_not_invent_silence() {
    let sample_rate = 48_000;
    let config = SilenceConfig {
        min_duration_ms: 400,
        padding_ms: 0,
        ..SilenceConfig::default()
    };
    let mut detector = StreamingSilenceDetector::new(sample_rate, 1, &config).unwrap();
    feed_silence(&mut detector, sample_rate as u64, 0);
    detector.notify_discontinuity();
    feed_silence(&mut detector, sample_rate as u64, 2_000_000);
    let ranges = detector.finish();
    assert_eq!(ranges.len(), 2);
    assert!(ranges[0].1 <= 1_000_000);
    assert!(ranges[1].0 >= 2_000_000);
}

#[test]
fn channel_policies_have_names() {
    assert_eq!(parse_channel_policy(&None), Ok(ChannelPolicy::MaxEnergy));
    assert_eq!(
        parse_channel_policy(&Some("channel:3".into())),
        Ok(ChannelPolicy::Channel(3))
    );
    assert!(parse_channel_policy(&Some("loudest".into())).is_err());
    assert_eq!(channel_policy_name(ChannelPolicy::Channel(3)), "channel:3");
    assert_eq!(channel_policy_name(ChannelPolicy::MaxEnergy), "max_energy");
}

#[test]
fn silent_regions_merge_shrink_and_drop() {
    let config = SilenceConfig {
        min_duration_ms: 400,
        padding_ms: 50,
        ..SilenceConfig::default()
    };
    let regions = vec![
        (2_000_000, 2_100_000),
        (0, 400_000),
        (300_000, 1_000_000),
    ];
    assert_eq!(finalize_regions(regions, &config), vec![(50_000, 950_000)]);
}

fn mic_segment(start_us: u64, end_us: u64, size: u64) -> SegmentSummary {
    SegmentSummary {
        track_id: "mic".into(),
        relative_path: "media/mic/000001.wav".into(),
        start_us,
        end_us,
        size_bytes: size,
        media_timescale: 48_000,
        media_start_value: 0,
        host_anchor_us: start_us as i64,
        is_keyframe_start: Some(true),
        available: true,
    }
}

#[test]
fn tracks_report_gaps_and_map_silence_to_the_edit() {
    let config = SilenceConfig::default();
    let mut track = TrackSilence::start(&config, TrackType::MicAudio).unwrap();
    assert!(TrackSilence::start(&config, TrackType::Screen).is_err());
    let info = parse_wav(&generate_pcm16_wav(48_000, 1, &vec![0; 96_000])).unwrap();
    assert!(track.begin_segment(&info));
    let (from, frames) = plan_chunk(&info, 0, 2_000_000, 0, 96_000).unwrap();
    assert_eq!((from, frames), (0, 96_000));
    feed_silence(track.detector.as_mut().unwrap(), frames, from);
    track.gap(&SoundGap::Missing, "media/mic/000002.wav");
    let retained = vec![RetainedInterval {
        start_us: 500_000,
        end_us: 2_000_000,
    }];
    let result = track.finish("mic".into(), &retained).unwrap();
    assert_eq!(result.track_id, "mic");
    assert_eq!(result.channel_policy, "max_energy");
    assert_eq!(result.suggestions.len(), 1);
    assert_eq!(result.suggestions[0].start_us, 0);
    assert_eq!(result.suggestions[0].source_start_us, 50_000);
    assert_eq!(result.suggestions[0].end_us, 1_450_000);
    assert_eq!(result.diagnostics.len(), 1);
}

fn document(intervals: &[(u64, u64)]) -> EditDocument {
    EditDocument::from_retained(
        intervals
            .iter()
            .map(|&(start_us, end_us)| RetainedInterval { start_us, end_us })
            .collect(),
    )
    .unwrap()
}

fn mic_track(rate: u32, end_us: u64) -> Vec<(TrackSummary, Vec<SegmentSummary>)> {
    let descriptor = TrackDescriptor {
        id: "mic".into(),
        track_type: TrackType::MicAudio,
        codec: "pcm".into(),
        relative_path: "audio.wav".into(),
        width: None,
        height: None,
        fps: None,
        sample_rate: Some(rate),
        channels: Some(1),
        gaps_total: 0,
        media_timescale: Some(rate),
    };
    let summary = TrackSummary {
        descriptor,
        segment_count: 1,
        available_segment_count: 1,
    };
    vec![(summary, vec![mic_segment(0, end_us, 1)])]
}

#[test]
fn mixes_are_planned_frame_by_frame_whatever_the_chunks() {
    let doc = document(&[(0, 100_013), (300_017, 400_099)]);
    let mixer = AudioMixer::new(&doc, &mic_track(44_100, 1_000_000)).unwrap();
    assert!(mixer.has_audio());
    assert_eq!(mixer.total_frames, 200_095 * 48_000 / 1_000_000);
    let whole = mixer.plan_frames(4_700, 300).unwrap();
    assert_eq!(whole.frames, 300);
    assert_eq!(whole.parts.len(), 2);
    // The second stretch starts at the first frame that is not before it.
    assert_eq!(whole.parts[1].from, ceil_frame(100_013));
    let first = mixer.plan_frames(4_700, 100).unwrap();
    let second = mixer.plan_frames(4_800, 200).unwrap();
    let covered: u64 = first
        .parts
        .iter()
        .chain(second.parts.iter())
        .map(|p| p.to - p.from)
        .sum();
    assert_eq!(covered, whole.parts.iter().map(|p| p.to - p.from).sum());
    assert!(mixer.plan_frames(0, CHUNK_FRAMES + 1).is_err());
    let long = document(&[(0, 3_600_000_000)]);
    let mixer = AudioMixer::new(&long, &mic_track(44_100, 1_000_000)).unwrap();
    let end = mixer.plan_frames(48_000 * 3599, CHUNK_FRAMES).unwrap();
    assert_eq!(end.frames, CHUNK_FRAMES);
    assert!(end.parts.iter().all(|p| p.pieces.is_empty()));
}

fn context(start_us: u64, end_us: u64, size: u64) -> WaveformTrackContext {
    WaveformTrackContext {
        root: "/p".into(),
        track_id: "mic".into(),
        track_type: TrackType::MicAudio,
        segments: vec![mic_segment(start_us, end_us, size)],
        retained: vec![RetainedInterval {
            start_us: 0,
            end_us,
        }],
        edited_duration_us: end_us,
    }
}

#[test]
fn waveform_buckets_fill_the_view() {
    let ctx = context(0, 100_000, 1);
    let plan = plan_waveform(&ctx, 0, 100_000, 10).unwrap();
    assert_eq!(plan.buckets.len(), 10);
    assert_eq!(plan.buckets[0], (0, 10_000));
    assert_eq!(plan.buckets[9], (90_000, 100_000));
    assert_eq!(plan.visible, vec![(0, 100_000)]);
    assert!(plan_waveform(&ctx, 5, 5, 10).is_err());
    assert!(plan_waveform(&ctx, 0, 100_000, 0).is_err());
    assert!(plan_waveform(&ctx, 0, 100_000, 513).is_err());
    let screen = WaveformTrackContext {
        track_type: TrackType::Screen,
        ..context(0, 100_000, 1)
    };
    assert!(plan_waveform(&screen, 0, 100_000, 10).is_err());
}

#[test]
fn viewport_does_not_look_at_unrelated_segments() {
    let ctx = WaveformTrackContext {
        retained: vec![RetainedInterval {
            start_us: 0,
            end_us: 1_000_000_000,
        }],
        edited_duration_us: 1_000_000_000,
        ..context(0, 100_000, 1)
    };
    let plan = plan_waveform(&ctx, 0, 100_000, 10).unwrap();
    assert!(is_segment_visible(&plan.visible, 0, 100_000));
    for i in 1..100 {
        assert!(!is_segment_visible(
            &plan.visible,
            i * 100_000,
            (i + 1) * 100_000
        ));
    }
}

#[test]
fn frames_fall_into_cache_buckets() {
    let info = parse_wav(&generate_pcm16_wav(48_000, 1, &vec![0; 4_800])).unwrap();
    let bucket_us = bucket_us_for(&info, 0, 100_000);
    assert_eq!(bucket_us, 10_000);
    assert_eq!(bucket_count_for(0, 100_000, bucket_us), 10);
    assert_eq!(
        frame_place(&info, 0, 100_000, 480, bucket_us, 10),
        FramePlace::Bucket(1)
    );
    assert_eq!(
        frame_place(&info, 0, 5_000, 480, bucket_us, 1),
        FramePlace::Past
    );
    let weights = bucket_weights(0, 100_000, bucket_us, 10, 15_000, 35_000);
    assert_eq!(weights, vec![(1, 5_000), (2, 10_000), (3, 5_000)]);
}

#[test]
fn caches_are_read_back_and_refused_when_stale() {
    let cache = CachedSegment {
        source_start_us: 0,
        source_end_us: 20_000,
        sample_rate: 48_000,
        channels: 1,
        bucket_us: 10_000,
        peaks: vec![0.5f32.to_bits(), 0.25f32.to_bits()],
        rms: vec![0.5f32.to_bits(), 0.125f32.to_bits()],
    };
    let mut data = encode_cache(&cache, 1_000, 42);
    assert_eq!(decode_cache(&data, 0, 20_000, 1_000, 42), Some(cache));
    assert_eq!(decode_cache(&data, 0, 20_000, 1_000, 43), None);
    assert_eq!(decode_cache(&data, 0, 20_000, 1_001, 42), None);
    assert_eq!(decode_cache(&data, 0, 30_000, 1_000, 42), None);
    let last = data.len() - 1;
    data[last] ^= 1;
    assert_eq!(decode_cache(&data, 0, 20_000, 1_000, 42), None);
}

#[test]
fn same_size_zero_and_constant_pcm_have_distinct_fingerprints() {
    let zeros = generate_pcm16_wav(48_000, 1, &vec![0i16; 4_800]);
    let constant = generate_pcm16_wav(48_000, 1, &vec![16384i16; 4_800]);
    assert_eq!(zeros.len(), constant.len());
    let start = fingerprint_start(zeros.len() as u64);
    let zf = fnv1a64_continue(start, &zeros);
    let cf = fnv1a64_continue(start, &constant);
    assert_ne!(zf, cf);
    // Hashing goes on where it stopped.
    let half = fnv1a64_continue(start, &zeros[..100]);
    assert_eq!(fnv1a64_continue(half, &zeros[100..]), zf);
    assert_eq!(fnv1a64(b""), 0xcbf2_9ce4_8422_2325);
    assert_eq!(fnv1a64(b"a"), 0xaf63_dc4c_8601_ec8c);
    let path = cache_path("mic", "media/mic/000001.wav", 0, 1, 2, zf).unwrap();
    assert!(path.starts_with("cache/waveforms/mic/") && path.ends_with(".wf1"));
    assert!(cache_path("../mic", "media/mic/000001.wav", 0, 1, 2, zf).is_err());
}

#[test]
fn missing_sound_is_told_of() {
    let segment = mic_segment(0, 100_000, 12);
    let probes = || vec![PathProbe::Present, PathProbe::Present, PathProbe::Present];
    assert_eq!(check_sound(&segment, &probes(), Some(12)), Ok(true));
    assert_eq!(check_sound(&segment, &probes(), None), Ok(false));
    let mut progress = WaveformProgress::new();
    progress.missing(&segment);
    progress.failed("Unsupported WAV encoding".into());
    assert_eq!(progress.diagnostics.len(), 2);
    assert_eq!(progress.sample_rate, 0);
}

#[test]
fn silent_stretches_that_touch_are_one() {
    let config = SilenceConfig {
        min_duration_ms: 1,
        padding_ms: 0,
        ..SilenceConfig::default()
    };
    let regions = vec![(5_000, 9_000), (0, 2_000), (2_000, 3_000), (8_000, 10_000), (4_000, 4_000)];
    assert_eq!(
        finalize_regions(regions, &config),
        vec![(0, 3_000), (5_000, 10_000)]
    );
}

#[test]
fn late_segments_and_missing_files_are_gaps() {
    let context = |end_us: u64| WaveformTrackContext {
        root: "/p".into(),
        track_id: "mic".into(),
        track_type: TrackType::MicAudio,
        segments: Vec::new(),
        retained: vec![RetainedInterval {
            start_us: 0,
            end_us,
        }],
        edited_duration_us: end_us,
    };
    let plan = plan_waveform(&context(2_100_000), 0, 2_100_000, 21).unwrap();
    let cache = CachedSegment {
        source_start_us: 2_000_000,
        source_end_us: 2_100_000,
        sample_rate: 48_000,
        channels: 1,
        bucket_us: 10_000,
        peaks: vec![0.5f32.to_bits(); 10],
        rms: vec![0.5f32.to_bits(); 10],
    };
    let mut gaps = BucketGaps::new(plan.buckets.len());
    assert!(gaps.gaps.iter().all(|gap| *gap));
    gaps.measured(&plan.ranges, &cache);
    assert!(gaps.gaps[..20].iter().all(|gap| *gap));
    assert!(!gaps.gaps[20]);
    // Another segment fills no gap that it does not reach, and opens none again.
    let earlier = CachedSegment {
        source_start_us: 0,
        source_end_us: 100_000,
        ..cache
    };
    gaps.measured(&plan.ranges, &earlier);
    assert!(!gaps.gaps[0] && gaps.gaps[1] && !gaps.gaps[20]);
}

#[test]
fn waveforms_of_disordered_edits_are_refused() {
    let interval = |start_us, end_us| RetainedInterval { start_us, end_us };
    let context = WaveformTrackContext {
        root: "/p".into(),
        track_id: "mic".into(),
        track_type: TrackType::MicAudio,
        segments: Vec::new(),
        retained: vec![interval(50, 100), interval(0, 60)],
        edited_duration_us: 110,
    };
    assert!(plan_waveform(&context, 0, 100, 4).is_err());
}

#[test]
fn sound_that_cannot_be_read_is_a_gap() {
    let probes = || vec![PathProbe::Present, PathProbe::Present, PathProbe::Present];
    let segment = mic_segment(0, 100_000, 12);
    assert!(sound_gap(&segment, &probes(), Some(12)).is_none());
    assert!(matches!(sound_gap(&segment, &probes(), None), Some(SoundGap::Missing)));
    assert!(matches!(
        sound_gap(&segment, &probes(), Some(11)),
        Some(SoundGap::SizeMismatch)
    ));
    let linked = vec![PathProbe::Present, PathProbe::Symlink, PathProbe::Present];
    assert!(matches!(
        sound_gap(&segment, &linked, Some(12)),
        Some(SoundGap::UnsafePath(_))
    ));
    let mut lost = mic_segment(0, 100_000, 12);
    lost.available = false;
    assert!(matches!(sound_gap(&lost, &probes(), Some(12)), Some(SoundGap::Missing)));
    // An unsafe path is told of before anything else.
    assert!(matches!(
        sound_gap(&lost, &linked, None),
        Some(SoundGap::UnsafePath(_))
    ));
}

#[test]
fn tracks_without_segments_have_no_silence() {
    let track = TrackSilence::start(&SilenceConfig::default(), TrackType::MicAudio).unwrap();
    let found = track.empty("mic".into());
    assert_eq!(found.track_id, "mic");
    assert!(found.suggestions.is_empty());
    assert_eq!(
        found.diagnostics,
        vec!["Audio track is empty; no PCM segments to analyze".to_string()]
    );
    assert_eq!((found.sample_rate, found.channels), (0, 0));
}
