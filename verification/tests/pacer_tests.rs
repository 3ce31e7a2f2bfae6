use space_drift::pacer::{FramePacer, LoopState};

#[test]
fn target_interval_is_a_second_over_the_rate() {
    assert_eq!(FramePacer::new(60).target_ms, 16);
    assert_eq!(FramePacer::new(50).target_ms, 20);
    assert_eq!(FramePacer::new(144).target_ms, 6);
    assert_eq!(FramePacer::new(1).target_ms, 1000);
    assert_eq!(FramePacer::new(1000).target_ms, 1);
    assert_eq!(FramePacer::new(1001).target_ms, 0);
    assert_eq!(FramePacer::new(i32::MAX).target_ms, 0);
    assert_eq!(FramePacer::new(-60).target_ms, 0);
    assert_eq!(FramePacer::new(i32::MIN).target_ms, 0);
}

#[test]
fn new_pacer_runs_and_has_seen_no_frame() {
    let pacer = FramePacer::new(60);
    assert_eq!(pacer.state, LoopState::Running);
    assert!(pacer.is_running());
    assert_eq!(pacer.frame_dt(), 0);
}

#[test]
fn short_frames_sleep_for_the_rest_of_the_interval() {
    let pacer = FramePacer::new(60);
    assert_eq!(pacer.sleep_millis(0), 16);
    assert_eq!(pacer.sleep_millis(5), 11);
    assert_eq!(pacer.sleep_millis(15), 1);
    for elapsed in 0..16 {
        assert_eq!(elapsed + pacer.sleep_millis(elapsed), 16);
    }
}

#[test]
fn long_frames_do_not_sleep() {
    let pacer = FramePacer::new(60);
    assert_eq!(pacer.sleep_millis(16), 0);
    assert_eq!(pacer.sleep_millis(17), 0);
    assert_eq!(pacer.sleep_millis(u64::MAX), 0);
    assert_eq!(FramePacer::new(-1).sleep_millis(0), 0);
}

#[test]
fn end_frame_records_the_duration() {
    let mut pacer = FramePacer::new(60);
    pacer.end_frame(23);
    assert_eq!(pacer.frame_dt(), 23);
    assert_eq!(pacer.target_ms, 16);
    assert!(pacer.is_running());
    pacer.end_frame(16);
    assert_eq!(pacer.last_frame_ms, 16);
}

#[test]
fn stop_ends_the_loop() {
    let mut pacer = FramePacer::new(60);
    pacer.end_frame(16);
    pacer.stop();
    assert!(!pacer.is_running());
    assert_eq!(pacer.state, LoopState::Stopped);
    assert_eq!(pacer.frame_dt(), 16);
    assert_eq!(pacer.target_ms, 16);
    pacer.stop();
    assert!(!pacer.is_running());
}
