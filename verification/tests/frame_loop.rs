use ecosystem::runtime::{input_poll_timeout, time_since_sample, FrameWindow, TimePoint, TimeSpan};

fn at(millis: u64) -> TimePoint {
    TimePoint::from_nanos(millis * 1_000_000)
}

#[test]
fn input_waits_until_the_next_frame_but_no_longer_than_the_interval() {
    let interval = TimeSpan::from_millis(50);

    assert_eq!(input_poll_timeout(at(100), at(133), None, interval), TimeSpan::from_millis(33));
    assert_eq!(input_poll_timeout(at(100), at(400), None, interval), TimeSpan::from_millis(50));
    assert_eq!(input_poll_timeout(at(100), at(90), None, interval), TimeSpan::zero());
}

#[test]
fn input_wait_ends_when_a_pending_resize_becomes_due() {
    let interval = TimeSpan::from_millis(50);

    assert_eq!(
        input_poll_timeout(at(100), at(133), Some(at(110)), interval),
        TimeSpan::from_millis(10)
    );
    assert_eq!(
        input_poll_timeout(at(100), at(133), Some(at(95)), interval),
        TimeSpan::zero()
    );
    assert_eq!(
        input_poll_timeout(at(100), at(133), Some(at(500)), interval),
        TimeSpan::from_millis(33)
    );
}

#[test]
fn frame_window_counts_frames_and_skips_until_restarted() {
    let mut window = FrameWindow::new();
    window.record_frame();
    window.record_frame();
    window.record_skipped(3);

    assert_eq!(
        window,
        FrameWindow {
            frames: 2,
            skipped_deadlines: 3,
            interrupted: false
        }
    );

    window.interrupt();
    assert_eq!(
        window,
        FrameWindow {
            frames: 0,
            skipped_deadlines: 0,
            interrupted: true
        }
    );

    window.record_frame();
    window.restart();
    assert_eq!(window, FrameWindow::new());
}

#[test]
fn frame_traces_are_due_once_per_second_of_ticks() {
    assert!(FrameWindow::trace_due(30, 30));
    assert!(FrameWindow::trace_due(60, 30));
    assert!(!FrameWindow::trace_due(31, 30));
    assert!(FrameWindow::trace_due(0, 0));
    assert!(!FrameWindow::trace_due(5, 0));
}

#[test]
fn time_since_sample_counts_from_the_last_sample_and_never_goes_negative() {
    assert_eq!(time_since_sample(None, at(500)), TimeSpan::zero());
    assert_eq!(time_since_sample(Some(at(200)), at(500)), TimeSpan::from_millis(300));
    assert_eq!(time_since_sample(Some(at(600)), at(500)), TimeSpan::zero());
}
