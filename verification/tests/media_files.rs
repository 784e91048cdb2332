use aeroshoot_editor::project::fragment::parse_moof_fragment;
use aeroshoot_editor::fixtures::{
    generate_pcm16_wav, generate_valid_fmp4_segment, generate_valid_wav_segment, make_mp4_box,
    SyntheticCaptureStream,
};
use aeroshoot_editor::project::manifest::TrackType;
use aeroshoot_editor::project::media_validator::{MdhdInfo, MediaValidationError, MediaValidator};
use aeroshoot_editor::project::pcm::{decode_frames, parse_wav, PcmEncoding, PcmReader, WavInfo};
use aeroshoot_editor::session::clock::SessionEpoch;

#[test]
fn test_rejects_zero_filled_dummy_mp4() {
    let result = MediaValidator::validate(&vec![0u8; 4096], TrackType::Screen);
    assert_eq!(result.err(), Some(MediaValidationError::ZeroFilledDummy));
}

#[test]
fn test_rejects_eight_byte_mp4_with_excessive_box_size() {
    // 8-byte file claiming 999,999 byte ftyp box
    let mut bytes = Vec::new();
    bytes.extend_from_slice(&999_999u32.to_be_bytes());
    bytes.extend_from_slice(b"ftyp");

    let result = MediaValidator::validate(&bytes, TrackType::Screen);
    assert_eq!(
        result.err(),
        Some(MediaValidationError::InvalidMp4BoxSize(999_999, 0, 8))
    );
}

#[test]
fn test_rejects_header_only_mp4_lacking_fragments() {
    // Only ftyp box (32 bytes)
    let mut ftyp = Vec::new();
    ftyp.extend_from_slice(&32u32.to_be_bytes());
    ftyp.extend_from_slice(b"ftyp");
    ftyp.extend_from_slice(b"isom");
    ftyp.extend_from_slice(&0x0200u32.to_be_bytes());
    ftyp.extend_from_slice(b"isomiso2avc1mp41");

    let result = MediaValidator::validate(&ftyp, TrackType::Screen);
    assert!(matches!(
        result.err(),
        Some(MediaValidationError::MissingRequiredBoxes(_))
    ));
}

#[test]
fn test_accepts_valid_fmp4_with_keyframe_and_samples() {
    let fmp4_bytes = generate_valid_fmp4_segment(0, 2_000_000, true);
    let info = MediaValidator::validate(&fmp4_bytes, TrackType::Screen).unwrap();
    assert_eq!(info.container_format, "mp4");
    assert_eq!(info.start_us, 0);
    assert_eq!(info.duration_us, 2_000_000);
    assert_eq!(info.end_us, 2_000_000);
    assert_eq!(info.sample_count, 1);
    assert!(info.is_keyframe_start);
    // The fixture's mdhd timescale is 90_000; the validator must
    // respect that instead of the old hard-coded 90_000.
    assert_eq!(info.media_timescale, 90_000);
    assert_eq!(info.media_start_value, 0);
}

#[test]
fn test_accepts_mfra_and_sums_fragment_sample_durations() {
    let mut bytes = generate_valid_fmp4_segment(0, 2_000_000, true);
    let moof_at = bytes
        .windows(4)
        .position(|w| w == b"moof")
        .map(|i| i - 4)
        .expect("fixture moof");
    let fragments = bytes[moof_at..].to_vec();
    bytes.extend_from_slice(&fragments);
    bytes.extend_from_slice(&8u32.to_be_bytes());
    bytes.extend_from_slice(b"mfra");

    let info = MediaValidator::validate(&bytes, TrackType::Screen).unwrap();
    assert_eq!(info.sample_count, 2);
    assert_eq!(info.duration_us, 4_000_000);
    assert_eq!(info.end_us, 4_000_000);
}

#[test]
fn test_rejects_fmp4_not_starting_with_keyframe() {
    let fmp4_bytes = generate_valid_fmp4_segment(0, 2_000_000, false);
    let result = MediaValidator::validate(&fmp4_bytes, TrackType::Screen);
    assert_eq!(result.err(), Some(MediaValidationError::NotKeyframeStart));
}

#[test]
fn test_accepts_valid_wav_header_and_samples() {
    let wav_bytes = generate_valid_wav_segment(1_000_000, 48_000, 2);
    let info = MediaValidator::validate(&wav_bytes, TrackType::MicAudio).unwrap();
    assert_eq!(info.container_format, "wav");
    assert_eq!(info.duration_us, 1_000_000);
    assert_eq!(info.media_timescale, 48_000);
}

#[test]
fn test_parse_mdhd_v0_timescale() {
    // Build a hand-crafted mdhd v0 payload (24 bytes total):
    //   version(1) + flags(3) + creation(4) + modification(4)
    //   + timescale(4) + duration(4) + language(2) + pre_defined(2)
    // The language is a 15-bit unsigned int packed into 2 bytes
    // (top bit is a pad bit and must be ignored).
    let mut payload = Vec::new();
    payload.push(0); // version
    payload.extend_from_slice(&[0, 0, 0]); // flags
    payload.extend_from_slice(&0u32.to_be_bytes()); // creation
    payload.extend_from_slice(&0u32.to_be_bytes()); // modification
    payload.extend_from_slice(&48_000u32.to_be_bytes()); // timescale
    payload.extend_from_slice(&96_000u32.to_be_bytes()); // duration
    // language = 0x55C4 (English) packed as 2 big-endian bytes.
    payload.extend_from_slice(&0x55C4u16.to_be_bytes());
    payload.extend_from_slice(&0u16.to_be_bytes()); // pre_defined

    let info = MediaValidator::parse_mdhd(&payload).unwrap();
    assert_eq!(info.version, 0);
    assert_eq!(info.timescale, 48_000);
    assert_eq!(info.duration_ticks, 96_000);
    // language bits: 0x55C4 & 0x7FFF = 0x55C4 (top bit was already 0).
    assert_eq!(info.language, 0x55C4);

    // ticks_to_us: 96_000 ticks at 48_000 Hz = 2_000_000 us.
    assert_eq!(info.ticks_to_us(96_000), 2_000_000);
}

#[test]
fn test_parse_mdhd_v1_timescale() {
    // Hand-crafted mdhd v1 payload (36 bytes total):
    //   version(1) + flags(3) + creation(8) + modification(8)
    //   + timescale(4) + duration(8) + language(2) + pre_defined(2)
    let mut payload = Vec::new();
    payload.push(1); // version = 1
    payload.extend_from_slice(&[0, 0, 0]); // flags
    payload.extend_from_slice(&0u64.to_be_bytes()); // creation
    payload.extend_from_slice(&0u64.to_be_bytes()); // modification
    payload.extend_from_slice(&90_000u32.to_be_bytes()); // timescale
    payload.extend_from_slice(&180_000u64.to_be_bytes()); // duration
    payload.extend_from_slice(&0x55C4u16.to_be_bytes()); // language
    payload.extend_from_slice(&0u16.to_be_bytes()); // pre_defined

    let info = MediaValidator::parse_mdhd(&payload).unwrap();
    assert_eq!(info.version, 1);
    assert_eq!(info.timescale, 90_000);
    assert_eq!(info.duration_ticks, 180_000);
    assert_eq!(info.language, 0x55C4);

    // ticks_to_us: 180_000 at 90_000 Hz = 2_000_000 us.
    assert_eq!(info.ticks_to_us(180_000), 2_000_000);
}

#[test]
fn test_parse_elst_v0_with_empty_edit() {
    // elst v0 with one entry whose media_time is -1 (empty edit).
    // Entry layout: segment_duration(4) + media_time(4) + media_rate(4) = 12 bytes.
    let mut payload = Vec::new();
    payload.push(0); // version
    payload.extend_from_slice(&[0, 0, 0]); // flags
    payload.extend_from_slice(&1u32.to_be_bytes()); // entry_count = 1
    payload.extend_from_slice(&2_000u32.to_be_bytes()); // segment_duration
    payload.extend_from_slice(&(-1i32).to_be_bytes()); // media_time = -1 (empty edit)
    payload.extend_from_slice(&0x0001_0000u32.to_be_bytes()); // media_rate = 1.0 (16.16)

    let info = MediaValidator::parse_elst(&payload).unwrap();
    assert_eq!(info.version, 0);
    assert_eq!(info.first_media_time, None);
    assert_eq!(info.first_segment_duration, 2_000);
}

#[test]
fn test_parse_elst_v1_with_real_media_time() {
    // elst v1 entry layout: segment_duration(8) + media_time(8) + media_rate(4) = 20 bytes.
    let mut payload = Vec::new();
    payload.push(1); // version = 1
    payload.extend_from_slice(&[0, 0, 0]); // flags
    payload.extend_from_slice(&1u32.to_be_bytes()); // entry_count = 1
    payload.extend_from_slice(&5_000u64.to_be_bytes()); // segment_duration
    payload.extend_from_slice(&900i64.to_be_bytes()); // media_time
    payload.extend_from_slice(&0x0001_0000u32.to_be_bytes()); // media_rate = 1.0

    let info = MediaValidator::parse_elst(&payload).unwrap();
    assert_eq!(info.version, 1);
    assert_eq!(info.first_media_time, Some(900));
    assert_eq!(info.first_segment_duration, 5_000);
}

fn elst(version: u8, count: u32, entries: &[(i64, i64)]) -> Vec<u8> {
    let mut payload = vec![version, 0, 0, 0];
    payload.extend_from_slice(&count.to_be_bytes());
    for &(duration, time) in entries {
        if version == 1 {
            payload.extend_from_slice(&duration.to_be_bytes());
            payload.extend_from_slice(&time.to_be_bytes());
        } else {
            payload.extend_from_slice(&(duration as u32).to_be_bytes());
            payload.extend_from_slice(&(time as i32).to_be_bytes());
        }
        payload.extend_from_slice(&0x0001_0000u32.to_be_bytes());
    }
    payload
}

#[test]
fn edit_lists_tell_the_first_edit_that_is_not_empty() {
    for version in [0, 1] {
        let info = MediaValidator::parse_elst(&elst(version, 2, &[(2_000, -1), (5_000, 900)]));
        let info = info.unwrap();
        assert_eq!(info.first_segment_duration, 5_000);
        assert_eq!(info.first_media_time, None);
        let empty = MediaValidator::parse_elst(&elst(version, 2, &[(2_000, -1), (3_000, -1)]));
        assert_eq!(empty.unwrap().first_segment_duration, 2_000);
        let cut = MediaValidator::parse_elst(&elst(version, 2, &[(2_000, -1)])).unwrap();
        assert_eq!((cut.first_segment_duration, cut.first_media_time), (2_000, None));
        let none = MediaValidator::parse_elst(&elst(version, 1, &[]));
        assert_eq!(none.unwrap_err(), "elst entry truncated");
        let enough = MediaValidator::parse_elst(&elst(version, 2, &[(2_000, 7)]));
        assert_eq!(enough.unwrap().first_media_time, Some(7));
        let none = MediaValidator::parse_elst(&elst(version, 0, &[]));
        assert_eq!(none.unwrap().first_segment_duration, 0);
    }
    assert_eq!(
        MediaValidator::parse_elst(&[0, 0, 0]).unwrap_err(),
        "elst payload too small"
    );
}

#[test]
fn movie_boxes_may_end_with_their_media_header() {
    let mut header = vec![0u8; 12];
    header.extend_from_slice(&48_000u32.to_be_bytes());
    header.extend_from_slice(&96_000u32.to_be_bytes());
    header.extend_from_slice(&[0x55, 0xC4, 0, 0]);
    let wrap = |header: &[u8], after: &[u8]| {
        let mut mdia = make_mp4_box(b"mdhd", header);
        mdia.extend_from_slice(after);
        make_mp4_box(b"moov", &make_mp4_box(b"trak", &make_mp4_box(b"mdia", &mdia)))
    };
    let (mdhd, elst) = MediaValidator::parse_moov(&wrap(&header, &[])).unwrap();
    assert_eq!(mdhd.timescale, 48_000);
    assert_eq!(mdhd.duration_ticks, 96_000);
    assert_eq!(mdhd.language, 0x55C4);
    assert_eq!(elst, None);
    // A header that is too short does not borrow from the box behind it.
    let next = make_mp4_box(b"free", &[0; 16]);
    assert_eq!(
        MediaValidator::parse_moov(&wrap(&header[..20], &next)).unwrap_err(),
        "mdhd v0 too small"
    );
}

#[test]
fn generated_boxes_are_read_back() {
    let file = generate_valid_fmp4_segment(3_000_000, 2_000_000, true);
    let (mdhd, elst) = MediaValidator::parse_moov(&file[32..615]).unwrap();
    assert_eq!(mdhd.timescale, 90_000);
    assert_eq!(elst, None);
    let f = parse_moof_fragment(&file[615..715]);
    assert_eq!(f.start_ticks, 270_000);
    assert_eq!(f.sample_ticks, 180_000);
    assert_eq!(f.samples, 1);
    assert!(f.keyframe);
}

#[test]
fn test_mdhd_ticks_to_us_handles_overflow_and_zero() {
    let info = MdhdInfo {
        version: 0,
        timescale: 0,
        duration_ticks: 0,
        language: 0,
    };
    assert_eq!(info.ticks_to_us(1_000), 0, "zero timescale must not divide");

    let info = MdhdInfo {
        version: 0,
        timescale: 48_000,
        duration_ticks: 0,
        language: 0,
    };
    assert_eq!(info.ticks_to_us(48_000), 1_000_000);
    assert_eq!(info.ticks_to_us(-48_000), 0, "negative ticks clamp to 0");
}

#[test]
fn short_and_unknown_files_are_refused_with_their_reason() {
    let small = MediaValidator::validate(&[1, 2, 3], TrackType::Webcam).unwrap_err();
    assert_eq!(small, MediaValidationError::FileTooSmall(3));
    assert_eq!(
        small.message(),
        "File too small to contain valid media container (size: 3 bytes)"
    );
    let wav = MediaValidator::validate(&[7u8; 44], TrackType::SystemAudio).unwrap_err();
    assert_eq!(wav, MediaValidationError::InvalidWavHeader);
    let unknown = MediaValidator::validate(&make_mp4_box(b"abcd", &[1]), TrackType::Screen);
    assert!(matches!(
        unknown,
        Err(MediaValidationError::InvalidMp4Box(_))
    ));
}

#[test]
fn forty_eight_k_frame_index_is_one_second_for_any_channel_count() {
    for channels in [1u16, 2] {
        let info = WavInfo {
            encoding: PcmEncoding::Int16,
            channels,
            sample_rate: 48_000,
            bits_per_sample: 16,
            block_align: channels * 2,
            data_offset: 44,
            data_bytes: 48_000 * channels as u64 * 2,
            frame_count: 48_000,
        };
        assert_eq!(info.frame_us(48_000), 1_000_000);
    }
}

#[test]
fn reads_constant_pcm_and_rejects_mulaw() {
    let samples = vec![16384i16; 480];
    let file = generate_pcm16_wav(48_000, 1, &samples);
    let info = parse_wav(&file).unwrap();
    assert_eq!(info.frame_count, 480);
    assert_eq!(info.sample_rate, 48_000);
    let mut reader = PcmReader::new(info);
    let read = reader.plan_read(480, 480).unwrap().unwrap();
    assert_eq!(read.frames, 480);
    let at = read.offset as usize;
    let stored = decode_frames(&file[at..at + read.byte_len as usize], PcmEncoding::Int16, 480);
    assert!(stored
        .iter()
        .all(|s| (*s as f32 / 32768.0 - 0.5).abs() < 1e-4));
    reader.advance(read.frames);
    assert!(reader.plan_read(1, 1).unwrap().is_none());
    reader.seek_to_frame(10).unwrap();
    let one = reader.plan_read(1, 1).unwrap().unwrap();
    assert_eq!(one.frames, 1);
    assert_eq!(one.offset, 44 + 20);
    assert!(reader.seek_to_frame(481).is_err());

    let mut bad = generate_pcm16_wav(48_000, 1, &[0; 16]);
    bad[20] = 7;
    bad[21] = 0;
    let err = parse_wav(&bad).unwrap_err();
    assert!(err.contains("Unsupported WAV encoding"));
}

#[test]
fn test_synthetic_stream_pts_progression() {
    let mut stream = SyntheticCaptureStream::new(SessionEpoch::now(0), 30, 48_000);

    let f0 = stream.next_video_frame_pts_us();
    let f1 = stream.next_video_frame_pts_us();
    let f2 = stream.next_video_frame_pts_us();

    assert_eq!(f0, 0);
    assert_eq!(f1, 33_333); // 1/30 sec in us
    assert_eq!(f2, 66_666);

    let (a0, d0) = stream.next_audio_chunk_us(1024);
    assert_eq!(a0, 0);
    assert_eq!(d0, 21_333); // 1024/48000 sec in us
    assert_eq!(stream.video_frame_count(), 3);
    assert_eq!(stream.audio_sample_count(), 1024);
}
