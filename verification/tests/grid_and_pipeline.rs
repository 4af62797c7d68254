use rusty_vision::{
    frame_skip, CycleState, DerivedFrames, DetectionCycle, FrameDecimator, Image, MseSubdivide,
    PipelineError, Ratio, Region, VideoFrames,
};

fn gray(width: usize, height: usize, value: u8) -> Image {
    Image::from_raw(width, height, 1, vec![value; width * height]).unwrap()
}

fn color(width: usize, height: usize, value: u8) -> Image {
    Image::from_raw(width, height, 3, vec![value; width * height * 3]).unwrap()
}

fn derived(value: u8) -> DerivedFrames {
    DerivedFrames {
        color_full: color(16, 8, value),
        color_half: color(8, 4, value),
        color_quarter: color(4, 2, value),
        mono_full: gray(16, 8, value),
        mono_half: gray(8, 4, value),
        mono_quarter: gray(4, 2, value),
    }
}

#[test]
fn region_tiling_three_by_three_of_1000_by_700() {
    // 1000 x 700 in a 3 x 3 grid: column widths {333, 333, 334} and row
    // heights {233, 233, 234}, tiling the frame exactly
    let regions = MseSubdivide::calculate_regions((3, 3), (1000, 700));
    assert_eq!(regions.len(), 9);
    for r in 0..3usize {
        let widths: Vec<usize> = (0..3).map(|c| regions[r * 3 + c].width).collect();
        assert_eq!(widths, vec![333, 333, 334]);
        assert_eq!(widths.iter().sum::<usize>(), 1000);
    }
    for c in 0..3usize {
        let heights: Vec<usize> = (0..3).map(|r| regions[r * 3 + c].height).collect();
        assert_eq!(heights, vec![233, 233, 234]);
        assert_eq!(heights.iter().sum::<usize>(), 700);
    }
    assert!(regions.iter().all(|r| r.width > 0 && r.height > 0));
    assert_eq!(
        regions[8],
        Region { x: 666, y: 466, width: 334, height: 234 }
    );
}

#[test]
fn region_tiling_sums_for_uneven_grid() {
    // 7 columns over width 30: widths 4,4,4,4,4,4,6 sum to 30
    let regions = MseSubdivide::calculate_regions((2, 7), (30, 9));
    assert_eq!(regions.len(), 14);
    let widths: Vec<usize> = (0..7).map(|c| regions[c].width).collect();
    assert_eq!(widths, vec![4, 4, 4, 4, 4, 4, 6]);
    assert_eq!(widths.iter().sum::<usize>(), 30);
    let heights: Vec<usize> = (0..2).map(|r| regions[r * 7].height).collect();
    assert_eq!(heights, vec![4, 5]);
    assert!(regions.iter().all(|r| r.width > 0 && r.height > 0));
}

#[test]
fn region_dimension_is_floor_share() {
    assert_eq!(
        MseSubdivide::calculate_region_dimension((3, 3), (1000, 700)),
        (333, 233)
    );
}

#[test]
fn subdivision_updates_every_cell() {
    let mut sub = MseSubdivide::new((2, 2), (4, 4));
    let prev = gray(4, 4, 10);
    let cur = gray(4, 4, 16);
    sub.update(&prev, &cur).unwrap();
    // every region sees a per-pixel difference of 6 over 4 pixels
    for i in 0..4 {
        let mask = sub.get_region_frame(i).unwrap();
        assert_eq!(mask.data().as_slice(), &[6, 6, 6, 6]);
    }
    assert!(sub.get_region_frame(4).is_none());
}

#[test]
fn subdivision_rejects_wrong_resolution() {
    let mut sub = MseSubdivide::new((2, 2), (4, 4));
    let prev = gray(4, 4, 0);
    let wrong = gray(8, 8, 0);
    assert_eq!(sub.update(&prev, &wrong), Err(PipelineError::ProcessingError));
}

#[test]
fn composite_frame_reassembles_the_masks() {
    let mut sub = MseSubdivide::new((2, 2), (4, 4));
    let prev = gray(4, 4, 0);
    let mut bytes = Vec::new();
    for i in 0..16u8 {
        bytes.push(i);
    }
    let cur = Image::from_raw(4, 4, 1, bytes.clone()).unwrap();
    sub.update(&prev, &cur).unwrap();
    // with no threshold the composite is the per-pixel absolute
    // difference of the whole frame, reassembled from the region crops
    let frame = sub.get_frame(None);
    assert_eq!(frame.data().as_slice(), bytes.as_slice());
    // an unreachable threshold blanks every region
    let blank = sub.get_frame(Some(Ratio::new(1_000_000, 1)));
    assert!(blank.data().iter().all(|&p| p == 0));
}

#[test]
fn gating_cascade_failed_coarse_gate_skips_refined() {
    let mut cycle = DetectionCycle::new();
    cycle.evaluate_coarse(Ratio::new(1, 10), Ratio::new(4, 10));
    assert!(!cycle.refined_due());
    let motion = cycle.finish();
    assert!(!motion);
    assert_eq!(cycle.state(), CycleState::Flagged { motion: false });
}

#[test]
fn gating_cascade_both_gates_pass() {
    let mut cycle = DetectionCycle::new();
    cycle.evaluate_coarse(Ratio::new(5, 10), Ratio::new(4, 10));
    assert!(cycle.refined_due());
    cycle.evaluate_refined(Ratio::new(6000, 1), Ratio::new(5000, 1));
    let motion = cycle.finish();
    assert!(motion);
}

#[test]
fn gating_cascade_refined_gate_fails() {
    let mut cycle = DetectionCycle::new();
    cycle.evaluate_coarse(Ratio::new(5, 10), Ratio::new(4, 10));
    assert!(cycle.refined_due());
    cycle.evaluate_refined(Ratio::new(4000, 1), Ratio::new(5000, 1));
    assert!(!cycle.finish());
}

#[test]
fn frame_skip_thirty_fps_to_two_is_fifteen() {
    // a 30 fps source decimated to 2.0 target fps processes every 15th
    // frame
    assert_eq!(frame_skip(Ratio::new(30, 1), Ratio::new(2, 1)), 15);
}

#[test]
fn frame_skip_rounds_up() {
    assert_eq!(frame_skip(Ratio::new(25, 1), Ratio::new(2, 1)), 13);
    // 29.97 fps over 2 fps: ceil(14.985) = 15
    assert_eq!(frame_skip(Ratio::new(2997, 100), Ratio::new(2, 1)), 15);
}

#[test]
fn decimator_admits_every_fifteenth_frame() {
    let mut d = FrameDecimator::new(15);
    let mut admitted = Vec::new();
    for _ in 0..45 {
        admitted.push(d.admit_frame());
    }
    for (i, &a) in admitted.iter().enumerate() {
        assert_eq!(a, (i + 1) % 15 == 0);
    }
}

#[test]
fn pyramid_ingest_keeps_one_frame_lag() {
    let mut vf = VideoFrames::new((16, 8), (8, 4), (4, 2));
    vf.ingest(Some(derived(50))).unwrap();
    vf.ingest(Some(derived(60))).unwrap();
    // previous holds exactly what was current before the call
    assert_eq!(vf.mono.quarter.prev.data().as_slice(), &[50; 8]);
    assert_eq!(vf.mono.quarter.cur.data().as_slice(), &[60; 8]);
    assert_eq!(vf.color.full.prev.data()[0], 50);
    assert_eq!(vf.color.full.cur.data()[0], 60);
}

#[test]
fn pyramid_ingest_signals_end_of_stream() {
    let mut vf = VideoFrames::new((16, 8), (8, 4), (4, 2));
    assert_eq!(vf.ingest(None), Err(PipelineError::EndOfStream));
    let mut empty = derived(0);
    empty.color_full = Image::from_raw(0, 0, 3, Vec::new()).unwrap();
    assert_eq!(vf.ingest(Some(empty)), Err(PipelineError::EndOfStream));
}

#[test]
fn pyramid_ingest_rejects_mismatched_tiers() {
    let mut vf = VideoFrames::new((16, 8), (8, 4), (4, 2));
    let mut wrong = derived(10);
    wrong.mono_half = gray(3, 3, 10);
    assert_eq!(vf.ingest(Some(wrong)), Err(PipelineError::ProcessingError));
    // the pyramid is unchanged: current buffers still zero-filled
    assert!(vf.mono.quarter.cur.data().iter().all(|&p| p == 0));
}

#[test]
fn pyramid_reset_zero_fills() {
    let mut vf = VideoFrames::new((16, 8), (8, 4), (4, 2));
    vf.ingest(Some(derived(90))).unwrap();
    vf.reset().unwrap();
    assert!(vf.color.full.cur.data().iter().all(|&p| p == 0));
    assert!(vf.mono.quarter.prev.data().iter().all(|&p| p == 0));
}
