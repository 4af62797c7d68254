use rusty_vision::{
    absdiff, BoundingBox, Image, MeanSquaredError, MotionMog2, PipelineError, Point, Ratio,
    RollingWindow,
};

fn gray(width: usize, height: usize, value: u8) -> Image {
    Image::from_raw(width, height, 1, vec![value; width * height]).unwrap()
}

fn square_contour(x: usize, y: usize, side: usize) -> Vec<Point> {
    vec![
        Point { x, y },
        Point { x: x + side, y },
        Point { x: x + side, y: y + side },
        Point { x, y: y + side },
    ]
}

#[test]
fn rolling_window_starts_zero_seeded() {
    let w = RollingWindow::new();
    assert_eq!(w.samples().len(), 10);
    assert!(w.samples().iter().all(|&s| s == 0));
    assert_eq!(w.sum(), 0);
    let avg = w.average();
    assert_eq!(avg.num, 0);
    assert_eq!(avg.den, 10);
}

#[test]
fn rolling_window_keeps_length_and_zero_slots() {
    let mut w = RollingWindow::new();
    w.push(5);
    w.push(7);
    w.push(9);
    // after k pushes the window still has length 10, the first 10 - k
    // slots hold zero, and the tail holds the pushes in order
    assert_eq!(w.samples().len(), 10);
    assert_eq!(w.samples()[..7], [0, 0, 0, 0, 0, 0, 0]);
    assert_eq!(w.samples()[7..], [5, 7, 9]);
    assert_eq!(w.latest(), 9);
    assert_eq!(w.sum(), 21);
    let avg = w.average();
    assert_eq!((avg.num, avg.den), (21, 10));
}

#[test]
fn rolling_window_drops_oldest_when_full() {
    let mut w = RollingWindow::new();
    for k in 1..=12u64 {
        w.push(k);
    }
    assert_eq!(w.samples().len(), 10);
    assert_eq!(w.samples()[0], 3);
    assert_eq!(w.latest(), 12);
}

#[test]
fn fresh_detectors_publish_blank_masks() {
    let proto = gray(4, 4, 99);
    let coarse = MeanSquaredError::new(&proto);
    assert!(coarse.get_diff_mask().data().iter().all(|&p| p == 0));
    let refined = MotionMog2::new(&proto, 500, Ratio::new(50, 1), 17, Ratio::new(9, 1));
    assert!(refined.get_diff_mask().data().iter().all(|&p| p == 0));
}

#[test]
fn coarse_detector_identical_frames_converge_to_zero() {
    let img = gray(8, 8, 77);
    let mut det = MeanSquaredError::new(&img);
    for _ in 0..10 {
        det.update(&img, &img).unwrap();
    }
    assert_eq!(det.get_value().num, 0);
    assert_eq!(det.get_value_avg().num, 0);
}

#[test]
fn coarse_statistic_is_mean_absolute_difference() {
    // 4 x 4 frames, every pixel differs by 3: the statistic is 3 per
    // pixel (48 / 16), not the squared difference 9
    let a = gray(4, 4, 10);
    let b = gray(4, 4, 13);
    let mut det = MeanSquaredError::new(&a);
    det.update(&a, &b).unwrap();
    let v = det.get_value();
    assert_eq!((v.num, v.den), (48, 16));
    assert!(det.get_diff_mask().data().iter().all(|&p| p == 3));
    assert!(v.ge(&Ratio::new(3, 1)));
    assert!(!v.ge(&Ratio::new(4, 1)));
}

#[test]
fn coarse_update_rejects_mismatched_frames() {
    let a = gray(4, 4, 0);
    let b = gray(5, 4, 0);
    let mut det = MeanSquaredError::new(&a);
    assert_eq!(det.update(&a, &b), Err(PipelineError::ProcessingError));
    // published statistics unchanged
    assert_eq!(det.get_value().num, 0);
}

#[test]
fn absdiff_is_elementwise() {
    let a = Image::from_raw(2, 2, 1, vec![10, 200, 30, 40]).unwrap();
    let b = Image::from_raw(2, 2, 1, vec![12, 100, 30, 45]).unwrap();
    let d = absdiff(&a, &b);
    assert_eq!(d.data().as_slice(), &[2, 100, 0, 5]);
}

#[test]
fn image_from_raw_rejects_bad_lengths() {
    assert!(Image::from_raw(2, 2, 1, vec![0; 3]).is_none());
    assert!(Image::from_raw(2, 2, 1, vec![0; 4]).is_some());
    assert!(Image::from_raw(20000, 1, 1, vec![0; 20000]).is_none());
}

#[test]
fn refined_detector_quiet_frames_converge_to_zero() {
    let proto = gray(8, 8, 0);
    let mut det = MotionMog2::new(&proto, 500, Ratio::new(50, 1), 17, Ratio::new(9, 1));
    for _ in 0..10 {
        det.update(Vec::new(), gray(8, 8, 0)).unwrap();
    }
    assert_eq!(det.get_area(), 0);
    let avg = det.get_area_avg();
    assert_eq!((avg.num, avg.den), (0, 10));
}

#[test]
fn refined_detector_shoelace_total_area() {
    // square contour of side 50: the wrap-around shoelace sum is 5000
    let proto = gray(100, 100, 0);
    let mut det = MotionMog2::new(&proto, 500, Ratio::new(50, 1), 17, Ratio::new(9, 1));
    det.update(vec![square_contour(0, 0, 50)], gray(100, 100, 0)).unwrap();
    assert_eq!(det.get_area(), 5000);
    let avg = det.get_area_avg();
    assert_eq!((avg.num, avg.den), (5000, 10));
}

#[test]
fn refined_detector_filters_and_orders_boxes() {
    let proto = gray(200, 200, 0);
    let mut det = MotionMog2::new(&proto, 500, Ratio::new(50, 1), 17, Ratio::new(9, 1));
    let contours = vec![
        square_contour(0, 0, 30),    // box 31 x 31, area 961
        square_contour(50, 50, 10),  // box 11 x 11, area 121: filtered out
        square_contour(100, 0, 80),  // box 81 x 81, area 6561
        square_contour(0, 100, 40),  // box 41 x 41, area 1681
    ];
    det.update(contours, gray(200, 200, 0)).unwrap();
    let boxes = det.get_bounding_boxes();
    let areas: Vec<usize> = boxes.iter().map(|b| b.width * b.height).collect();
    assert_eq!(areas, vec![6561, 1681, 961]);
    assert!(areas.iter().all(|&a| a >= 500));
    assert!(areas.windows(2).all(|w| w[0] > w[1]));
    assert_eq!(
        boxes[0],
        BoundingBox { x: 100, y: 0, width: 81, height: 81 }
    );
}

#[test]
fn refined_detector_rejects_out_of_range_contours() {
    let proto = gray(8, 8, 0);
    let mut det = MotionMog2::new(&proto, 500, Ratio::new(50, 1), 17, Ratio::new(9, 1));
    let bad = vec![vec![Point { x: 20000, y: 0 }]];
    assert_eq!(
        det.update(bad, gray(8, 8, 0)),
        Err(PipelineError::ProcessingError)
    );
    // published statistics unchanged
    assert_eq!(det.get_area(), 0);
    assert!(det.get_bounding_boxes().is_empty());
}

#[test]
fn refined_detector_stores_mask_and_contours() {
    let proto = gray(10, 10, 0);
    let mut det = MotionMog2::new(&proto, 500, Ratio::new(50, 1), 17, Ratio::new(9, 1));
    let mask = Image::from_raw(10, 10, 1, (0..100).map(|i| (i % 256) as u8).collect()).unwrap();
    let contours = vec![square_contour(1, 1, 3)];
    det.update(contours.clone(), mask).unwrap();
    assert_eq!(det.get_contours().len(), 1);
    assert_eq!(det.get_contours()[0], contours[0]);
    assert_eq!(det.get_diff_mask().data()[17], 17);
    assert_eq!(det.get_values().len(), 10);
}

#[test]
fn ratio_comparison_is_exact() {
    // 1/3 >= 33/100 but not >= 34/100
    let third = Ratio::new(1, 3);
    assert!(third.ge(&Ratio::new(33, 100)));
    assert!(!third.ge(&Ratio::new(34, 100)));
    assert!(Ratio::new(0, 5).is_zero());
    assert!(!Ratio::new(1, 5).is_zero());
}
