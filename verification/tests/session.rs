use aeroshoot_editor::session::clock::{
    ClockDriftEstimator, NativeTimestampMapper, RationalTimebase, SessionEpoch,
};
use aeroshoot_editor::session::event::{SessionDiagnostics, SessionEvent};
use aeroshoot_editor::session::queue::BoundedQueue;
use aeroshoot_editor::session::state::{SessionState, SessionStateMachine, StateTransitionError};

#[test]
fn test_session_epoch_monotonicity() {
    let epoch = SessionEpoch::now(5_000);
    let t1 = epoch.elapsed_us_at(5_001);
    let t2 = epoch.elapsed_us_at(20_001);
    assert!(t2 > t1, "Session clock must strictly progress");
    assert!(t2 >= 10_000, "Should have elapsed at least 10ms (10,000 us)");
    assert_eq!(epoch.elapsed_us_at(4_999), 0);
    // The wall clock is past the year 2020.
    assert!(epoch.start_wall_time_us() > 1_577_836_800_000_000);
}

#[test]
fn test_sample_conversion() {
    let sample_rate = 48_000;
    let samples = 48_000; // 1 second
    let us = SessionEpoch::samples_to_us(samples, sample_rate);
    assert_eq!(us, 1_000_000);

    let roundtrip_samples = SessionEpoch::us_to_samples(us, sample_rate);
    assert_eq!(roundtrip_samples, samples);
}

#[test]
fn sample_times_of_no_rate_are_zero() {
    assert_eq!(SessionEpoch::samples_to_us(48_000, 0), 0);
    assert_eq!(SessionEpoch::us_to_samples(1_000_000, 44_100), 44_100);
}

#[test]
fn drift_is_measured_against_the_samples() {
    let mut drift = ClockDriftEstimator::new(48_000, 0);
    drift.update(48_000, 1_000_100);
    assert_eq!(drift.cumulative_samples(), 48_000);
}

#[test]
fn timebases_convert_both_ways() {
    let video = RationalTimebase::h264_90khz();
    assert_eq!(video.ticks_to_us(90_000), 1_000_000);
    assert_eq!(video.us_to_ticks(1_000_000), 90_000);
    assert_eq!(RationalTimebase::nanoseconds().ticks_to_us(2_500), 2);
    assert_eq!(RationalTimebase::hundred_nanos().ticks_to_us(10), 1);
    assert_eq!(RationalTimebase::audio_44_1khz().us_to_ticks(1_000_000), 44_100);
}

#[test]
fn native_timestamps_never_go_back() {
    let mut mapper =
        NativeTimestampMapper::new("cam".to_string(), RationalTimebase::h264_90khz(), 0, 0);
    let a = mapper.map_native_ticks(90_000).mapped_us;
    let b = mapper.map_native_ticks(45_000).mapped_us;
    assert_eq!(a, 1_000_000);
    assert!(b >= a);
    assert_eq!(mapper.source_id(), "cam");
}

#[test]
fn test_bounded_queue_drop_behavior() {
    let mut queue = BoundedQueue::<i32>::new(3);
    assert!(!queue.push(1));
    assert!(!queue.push(2));
    assert!(!queue.push(3));
    assert_eq!(queue.len(), 3);
    assert_eq!(queue.dropped_count(), 0);

    // 4th push should drop the oldest (1)
    assert!(queue.push(4));
    assert_eq!(queue.len(), 3);
    assert_eq!(queue.dropped_count(), 1);

    // Remaining elements should be 2, 3, 4
    assert_eq!(queue.pop(), Some(2));
    assert_eq!(queue.pop(), Some(3));
    assert_eq!(queue.pop(), Some(4));
    assert_eq!(queue.pop(), None);
}

#[test]
fn clearing_a_queue_forgets_what_it_dropped() {
    let mut queue = BoundedQueue::<u8>::new(1);
    queue.push(1);
    queue.push(2);
    assert_eq!(queue.dropped_count(), 1);
    queue.clear();
    assert!(queue.is_empty());
    assert_eq!(queue.dropped_count(), 0);
}

#[test]
fn pushed_items_are_popped_wait_or_were_dropped() {
    let mut queue = BoundedQueue::<u32>::new(3);
    let (mut pushed, mut popped) = (0, 0);
    for round in 0..20u32 {
        queue.push(round);
        pushed += 1;
        if round % 3 == 0 && queue.pop().is_some() {
            popped += 1;
        }
        assert_eq!(pushed, popped + queue.len() as u64 + queue.dropped_count());
    }
    assert!(queue.dropped_count() > 0);
}

#[test]
fn test_valid_recording_lifecycle() {
    let mut sm = SessionStateMachine::new();
    assert_eq!(sm.current(), SessionState::Idle);

    assert!(sm.transition_to(SessionState::Preparing).is_ok());
    assert_eq!(sm.current(), SessionState::Preparing);

    assert!(sm.transition_to(SessionState::Recording).is_ok());
    assert!(sm.is_recording());

    assert!(sm.transition_to(SessionState::Paused).is_ok());
    assert!(sm.is_paused());

    assert!(sm.transition_to(SessionState::Recording).is_ok());
    assert!(sm.is_recording());

    assert!(sm.transition_to(SessionState::Stopping).is_ok());
    assert_eq!(sm.current(), SessionState::Stopping);

    assert!(sm.transition_to(SessionState::Completed).is_ok());
    assert_eq!(sm.current(), SessionState::Completed);

    assert!(sm.transition_to(SessionState::Idle).is_ok());
    assert_eq!(sm.current(), SessionState::Idle);

    // Test immediate second recording cycle from Completed directly
    assert!(sm.transition_to(SessionState::Preparing).is_ok());
    assert!(sm.transition_to(SessionState::Recording).is_ok());
    assert!(sm.transition_to(SessionState::Stopping).is_ok());
    assert!(sm.transition_to(SessionState::Completed).is_ok());
    assert!(sm.transition_to(SessionState::Preparing).is_ok());
    assert_eq!(sm.current(), SessionState::Preparing);
}

#[test]
fn test_invalid_transitions_rejected() {
    let mut sm = SessionStateMachine::new();
    // Cannot jump directly from Idle to Recording without Preparing
    let err = sm.transition_to(SessionState::Recording);
    assert_eq!(
        err,
        Err(StateTransitionError::InvalidTransition {
            from: SessionState::Idle,
            to: SessionState::Recording,
        })
    );
}

#[test]
fn test_runtime_error_event_round_trip() {
    let mut diag = SessionDiagnostics::new();
    let event = SessionEvent::RuntimeError {
        track_id: "screen".into(),
        error_code: 42,
        message: "encoder dropped frames".into(),
        t_us: 1_000_000,
        recoverable: true,
    };
    let record = diag.apply(&event).expect("runtime error yields a record");
    assert_eq!(record.track_id, "screen");
    assert_eq!(record.error_code, 42);
    assert!(record.recoverable);

    // Diagnostics expose the most-recent error.
    let got = diag.last_runtime_error().unwrap();
    assert_eq!(got.message, "encoder dropped frames");
    assert_eq!(diag.gaps_total(), 1, "gaps_total increments on every error");
}

#[test]
fn test_segment_rotated_does_not_record_error() {
    let mut diag = SessionDiagnostics::new();
    let event = SessionEvent::SegmentRotated {
        track_id: "screen".into(),
        segment_index: 7,
        host_anchor_us: 1_500_000,
        media_timescale: 90_000,
        media_start_value: 0,
    };
    assert!(diag.apply(&event).is_none());
    assert!(diag.last_runtime_error().is_none());
    // Segment rotations do not bump the gaps counter.
    assert_eq!(diag.gaps_total(), 0);
}

#[test]
fn test_diagnostics_reset() {
    let mut diag = SessionDiagnostics::new();
    diag.apply(&SessionEvent::RuntimeError {
        track_id: "mic".into(),
        error_code: 3,
        message: "device unplugged".into(),
        t_us: 5_000,
        recoverable: false,
    });
    assert_eq!(diag.gaps_total(), 1);

    diag.reset();
    assert!(diag.last_runtime_error().is_none());
    assert_eq!(diag.gaps_total(), 0);
}
