use std::time::Duration;

use lem_ratatui::metrics::Frames;

fn nanos(micros: u64) -> u128 {
    Duration::from_micros(micros).as_nanos()
}

#[test]
fn reports_totals_and_averages() {
    let mut frames = Frames::default();
    frames.record(1000, nanos(100));
    frames.record(3000, nanos(300));

    let report = frames.report();
    assert!(report.contains("2 frames"), "{report}");
    assert!(report.contains("avg 2000 B"), "{report}");
    assert!(report.contains("max 3000 B"), "{report}");
    assert!(report.contains("avg decode 200us"), "{report}");
}

#[test]
fn an_empty_report_does_not_divide_by_zero() {
    assert!(Frames::default().report().contains("0 frames"));
}

#[test]
fn totals_accumulate_across_many_frames() {
    let mut frames = Frames::default();
    for n in 1..=10 {
        frames.record(n * 100, nanos(10));
    }
    let report = frames.report();
    assert!(report.contains("10 frames"), "{report}");
    assert!(report.contains("max 1000 B"), "{report}");
}

#[test]
fn the_report_is_one_exact_line() {
    let mut frames = Frames::default();
    frames.record(10, 1_500);
    frames.record(21, 1_999);
    assert_eq!(
        frames.report(),
        "2 frames, 31 B total, avg 15 B, max 21 B, avg decode 1us"
    );
    assert_eq!(Frames::default().report(), "0 frames");
}

#[test]
fn room_for_a_frame_is_checked_before_recording() {
    let frames = Frames::default();
    assert!(frames.can_record(usize::MAX, 0));
    assert!(frames.can_record(0, lem_ratatui::metrics::MAX_DURATION_NANOS));
    assert!(!frames.can_record(0, lem_ratatui::metrics::MAX_DURATION_NANOS + 1));
}
