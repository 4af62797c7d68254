use rusty_vision::{
    format_duration_ms, is_video_extension, tint, u64_to_string, BoundingBox, Image,
    MotionOverlay, StopWatch,
};

#[test]
fn tint_colors_only_masked_pixels() {
    let mask = Image::from_raw(2, 2, 1, vec![0, 7, 255, 0]).unwrap();
    let tinted = tint(&mask, (10, 20, 30));
    assert_eq!(tinted.channels(), 3);
    assert_eq!(
        tinted.data().as_slice(),
        &[0, 0, 0, 10, 20, 30, 10, 20, 30, 0, 0, 0]
    );
}

#[test]
fn video_extensions_are_recognized() {
    for good in ["mp4", "avi", "mov", "mkv", "webm"] {
        assert!(is_video_extension(good));
    }
    for bad in ["", "mp", "mp5", "webn", "txt", "mp4x", "MP4"] {
        assert!(!is_video_extension(bad));
    }
}

#[test]
fn overlay_suppresses_nested_boxes() {
    let mut overlay = MotionOverlay::new();
    let detected = vec![
        BoundingBox { x: 10, y: 10, width: 100, height: 100 },
        BoundingBox { x: 20, y: 20, width: 30, height: 30 },  // inside the first
        BoundingBox { x: 200, y: 10, width: 40, height: 40 },  // separate
    ];
    let scaled = overlay.plan_boxes(&detected, 2);
    let accepted = overlay.get_bounding_boxes();
    assert_eq!(accepted.len(), 2);
    assert_eq!(accepted[0], detected[0]);
    assert_eq!(accepted[1], detected[2]);
    assert_eq!(scaled[0], BoundingBox { x: 20, y: 20, width: 200, height: 200 });
    assert_eq!(scaled[1], BoundingBox { x: 400, y: 20, width: 80, height: 80 });
}

#[test]
fn overlay_keeps_partial_overlaps() {
    let mut overlay = MotionOverlay::new();
    let detected = vec![
        BoundingBox { x: 0, y: 0, width: 50, height: 50 },
        BoundingBox { x: 40, y: 40, width: 50, height: 50 },  // overlaps, not contained
    ];
    let scaled = overlay.plan_boxes(&detected, 1);
    assert_eq!(scaled.len(), 2);
    assert_eq!(overlay.get_bounding_boxes().len(), 2);
}

#[test]
fn overlay_suppression_is_per_call() {
    let mut overlay = MotionOverlay::new();
    let first = vec![BoundingBox { x: 0, y: 0, width: 100, height: 100 }];
    overlay.plan_boxes(&first, 1);
    // a new call starts from an empty accepted list: the small box is
    // kept even though the previous call accepted a box containing it
    let second = vec![BoundingBox { x: 10, y: 10, width: 20, height: 20 }];
    let scaled = overlay.plan_boxes(&second, 1);
    assert_eq!(scaled.len(), 1);
    assert_eq!(overlay.get_bounding_boxes().as_slice(), second.as_slice());
}

#[test]
fn stopwatch_records_laps() {
    let mut w = StopWatch::new();
    assert!(w.calc_stats().is_none());
    w.start();
    w.lap("Read Frame");
    w.lap("MSE");
    w.tick();
    w.stop();
    let (mn, mx, avg) = w.calc_stats().unwrap();
    assert!(mn <= avg && avg <= mx);
}

#[test]
fn stopwatch_detailed_stats_group_by_label() {
    let mut w = StopWatch::new();
    w.start();
    w.lap("Read Frame");
    w.lap("MSE");
    w.lap("Read Frame");
    w.lap("MOG2");
    let (total, by_label) = w.calc_detailed_stats();
    assert!(total.is_some());
    let labels: Vec<&str> = by_label.iter().map(|g| g.0.as_str()).collect();
    assert_eq!(labels, vec!["Read Frame", "MSE", "MOG2"]);
    for (_, (mn, mx, avg)) in &by_label {
        assert!(mn <= avg && avg <= mx);
    }
}

#[test]
fn stopwatch_stats_over_empty_watch() {
    let w = StopWatch::new();
    assert_eq!(w.calc_stats(), None);
}

#[test]
fn stopwatch_detailed_report_layout() {
    let mut w = StopWatch::new();
    assert_eq!(w.to_string_detailed(), "");
    w.start();
    w.lap("Read Frame");
    w.lap("MSE");
    w.lap("Read Frame");
    let text = w.to_string_detailed();
    assert!(text.starts_with("[ Total ]\n  Min: "));
    assert!(text.contains("\n[ Laps ]\nRead Frame:\n  Min: "));
    assert!(text.contains("\nMSE:\n  Min: "));
    // one total block and one block per distinct label, three lines each
    assert_eq!(text.matches("  Min: ").count(), 3);
    assert_eq!(text.matches("  Avg: ").count(), 3);
    assert_eq!(text.matches(" fps\n").count(), 9);
}

#[test]
fn stopwatch_summary_lines() {
    let mut w = StopWatch::new();
    w.start();
    w.lap("MSE");
    let text = w.to_string();
    let lines: Vec<&str> = text.lines().collect();
    assert_eq!(lines.len(), 3);
    assert!(lines[0].starts_with("Min: "));
    assert!(lines[1].starts_with("Max: "));
    assert!(lines[2].starts_with("Avg: "));
    assert!(lines.iter().all(|l| l.ends_with(" fps") && l.contains(" | ")));
}

#[test]
fn decimal_rendering_is_exact() {
    assert_eq!(u64_to_string(0), "0");
    assert_eq!(u64_to_string(7), "7");
    assert_eq!(u64_to_string(90), "90");
    assert_eq!(u64_to_string(1234567890), "1234567890");
}

#[test]
fn duration_rendering_picks_the_scale() {
    assert_eq!(format_duration_ms(0), "0 ns");
    assert_eq!(format_duration_ms(999), "999 ns");
    assert_eq!(format_duration_ms(1000), "1.000 us");
    assert_eq!(format_duration_ms(1234), "1.234 us");
    assert_eq!(format_duration_ms(999_999), "999.999 us");
    assert_eq!(format_duration_ms(1_000_000), "1.000 ms");
    assert_eq!(format_duration_ms(2_040_007), "2.040 ms");
    assert_eq!(format_duration_ms(987_654_321), "987.654 ms");
}
