//! Gating cascade.
//!
//! Per admitted frame the pipeline walks an explicit state machine:
//! `Idle -> CoarseEvaluated -> RefinedEvaluated -> Flagged`. The coarse
//! gate compares the coarse detector's rolling average against its
//! threshold; only on a pass does the refined detector run, and the motion
//! flag is raised exactly when both gates pass. The state resets every
//! frame; no history beyond each detector's own rolling window is kept.
//! Frame admission decimates the source: with a frame-skip of `k`, every
//! `k`-th source frame is processed.

use vstd::prelude::*;
use vstd::arithmetic::div_mod::lemma_fundamental_div_mod;
use vstd::string::StrSliceExecFns;
use crate::ratio::{Ratio, ratio_ge};

verus! {

/// The lowercase container extensions a video session accepts.
pub open spec fn spec_is_video_extension(ext: Seq<char>) -> bool {
    ||| ext == "mp4"@
    ||| ext == "avi"@
    ||| ext == "mov"@
    ||| ext == "mkv"@
    ||| ext == "webm"@
}

/// Whether a file extension names a video container the session loader
/// accepts.
pub fn is_video_extension(ext: &str) -> (r: bool)
    ensures
        r == spec_is_video_extension(ext@),
{
    proof {
        reveal_strlit("mp4");
        reveal_strlit("avi");
        reveal_strlit("mov");
        reveal_strlit("mkv");
        reveal_strlit("webm");
    }
    let n = ext.unicode_len();
    if n == 3 {
        let c0 = ext.get_char(0);
        let c1 = ext.get_char(1);
        let c2 = ext.get_char(2);
        let r = (c0 == 'm' && c1 == 'p' && c2 == '4') || (c0 == 'a' && c1 == 'v' && c2 == 'i') || (
        c0 == 'm' && c1 == 'o' && c2 == 'v') || (c0 == 'm' && c1 == 'k' && c2 == 'v');
        proof {
            if c0 == 'm' && c1 == 'p' && c2 == '4' {
                assert(ext@ =~= "mp4"@);
            }
            if c0 == 'a' && c1 == 'v' && c2 == 'i' {
                assert(ext@ =~= "avi"@);
            }
            if c0 == 'm' && c1 == 'o' && c2 == 'v' {
                assert(ext@ =~= "mov"@);
            }
            if c0 == 'm' && c1 == 'k' && c2 == 'v' {
                assert(ext@ =~= "mkv"@);
            }
        }
        r
    } else if n == 4 {
        let r = ext.get_char(0) == 'w' && ext.get_char(1) == 'e' && ext.get_char(2) == 'b'
            && ext.get_char(3) == 'm';
        proof {
            if r {
                assert(ext@ =~= "webm"@);
            }
        }
        r
    } else {
        false
    }
}

/// Where a detection cycle stands for the frame in flight.
#[derive(Clone, Copy, Debug, PartialEq, Eq, Structural)]
pub enum CycleState {
    Idle,
    CoarseEvaluated { passed: bool },
    RefinedEvaluated { passed: bool },
    Flagged { motion: bool },
}

/// The state after the coarse gate: passed exactly when the coarse rolling
/// average reaches the threshold.
pub open spec fn coarse_step(avg: Ratio, thr: Ratio) -> CycleState {
    CycleState::CoarseEvaluated { passed: ratio_ge(avg, thr) }
}

/// Whether the refined detector is due to run: exactly after a passed
/// coarse evaluation.
pub open spec fn refined_due(s: CycleState) -> bool {
    s == (CycleState::CoarseEvaluated { passed: true })
}

/// The state after the refined gate: passed exactly when the refined
/// rolling average reaches the threshold.
pub open spec fn refined_step(avg: Ratio, thr: Ratio) -> CycleState {
    CycleState::RefinedEvaluated { passed: ratio_ge(avg, thr) }
}

/// The motion flag a finished cycle reports from its final evaluation
/// state: false after a failed coarse gate, the refined verdict otherwise.
pub open spec fn flag_of(s: CycleState) -> bool {
    match s {
        CycleState::RefinedEvaluated { passed } => passed,
        _ => false,
    }
}

/// The outcome of one whole cycle: the refined stage runs only behind a
/// passed coarse gate, and the flag comes from whichever stage ended the
/// cycle.
pub open spec fn cycle_outcome(
    coarse_avg: Ratio,
    mse_thr: Ratio,
    refined_avg: Ratio,
    mog2_thr: Ratio,
) -> bool {
    if refined_due(coarse_step(coarse_avg, mse_thr)) {
        flag_of(refined_step(refined_avg, mog2_thr))
    } else {
        flag_of(coarse_step(coarse_avg, mse_thr))
    }
}

/// Law of the gating cascade: the refined detector is invoked if and only
/// if the coarse average reaches its threshold, and the motion flag is
/// raised if and only if both gates pass.
pub proof fn lemma_gating_cascade(
    coarse_avg: Ratio,
    mse_thr: Ratio,
    refined_avg: Ratio,
    mog2_thr: Ratio,
)
    ensures
        refined_due(coarse_step(coarse_avg, mse_thr)) <==> ratio_ge(coarse_avg, mse_thr),
        cycle_outcome(coarse_avg, mse_thr, refined_avg, mog2_thr) <==> (ratio_ge(
            coarse_avg,
            mse_thr,
        ) && ratio_ge(refined_avg, mog2_thr)),
{
}

/// One per-frame run of the cascade.
pub struct DetectionCycle {
    state: CycleState,
}

impl DetectionCycle {
    pub closed spec fn spec_state(&self) -> CycleState {
        self.state
    }

    /// A fresh cycle, idle.
    pub fn new() -> (c: DetectionCycle)
        ensures
            c.spec_state() == CycleState::Idle,
    {
        DetectionCycle { state: CycleState::Idle }
    }

    pub fn state(&self) -> (s: CycleState)
        ensures
            s == self.spec_state(),
    {
        self.state
    }

    /// The coarse gate: records whether the coarse rolling average reaches
    /// the threshold.
    pub fn evaluate_coarse(&mut self, avg: Ratio, thr: Ratio)
        requires
            old(self).spec_state() == CycleState::Idle,
        ensures
            final(self).spec_state() == coarse_step(avg, thr),
    {
        let passed = avg.ge(&thr);
        self.state = CycleState::CoarseEvaluated { passed };
    }

    /// Whether the refined detector is due: exactly after a passed coarse
    /// evaluation.
    pub fn refined_due(&self) -> (r: bool)
        ensures
            r == refined_due(self.spec_state()),
    {
        match self.state {
            CycleState::CoarseEvaluated { passed } => passed,
            _ => false,
        }
    }

    /// The refined gate, reachable only behind a passed coarse gate.
    pub fn evaluate_refined(&mut self, avg: Ratio, thr: Ratio)
        requires
            refined_due(old(self).spec_state()),
        ensures
            final(self).spec_state() == refined_step(avg, thr),
    {
        let passed = avg.ge(&thr);
        self.state = CycleState::RefinedEvaluated { passed };
    }

    /// Ends the cycle and reports the motion flag: false after a failed
    /// coarse gate, the refined verdict after a refined evaluation.
    pub fn finish(&mut self) -> (motion: bool)
        requires
            old(self).spec_state() matches CycleState::CoarseEvaluated { passed } && !passed
                || old(self).spec_state() matches CycleState::RefinedEvaluated { .. },
        ensures
            motion == flag_of(old(self).spec_state()),
            final(self).spec_state() == (CycleState::Flagged { motion }),
    {
        let motion = match self.state {
            CycleState::RefinedEvaluated { passed } => passed,
            _ => false,
        };
        self.state = CycleState::Flagged { motion };
        motion
    }
}

/// Detection configuration: the target rate and the thresholds and model
/// parameters the two detectors run with, rates and thresholds as exact
/// rationals.
pub struct VideoConfig {
    pub target_fps: Ratio,
    pub mse_threshold: Ratio,
    pub mog2_threshold: Ratio,
    pub mog2_history: u32,
    pub mog2_sensitivity: Ratio,
    pub adaptive_block_size: u32,
    pub adaptive_c: Ratio,
}

impl VideoConfig {
    pub open spec fn wf(&self) -> bool {
        &&& self.target_fps.wf()
        &&& self.target_fps.num > 0
        &&& self.mse_threshold.wf()
        &&& self.mog2_threshold.wf()
        &&& self.mog2_sensitivity.wf()
        &&& self.adaptive_c.wf()
    }
}

/// Ceiling of `a / b` for positive `b`.
pub open spec fn ceil_div(a: int, b: int) -> int {
    (a + b - 1) / b
}

/// The frame-decimation factor: `ceil(source_fps / target_fps)`, the two
/// rates given as exact rationals whose parts fit 32 bits (ample for any
/// frame rate, and it keeps the cross products inside the machine words).
pub fn frame_skip(source_fps: Ratio, target_fps: Ratio) -> (r: u64)
    requires
        source_fps.wf(),
        target_fps.wf(),
        target_fps.num > 0,
        source_fps.num <= u32::MAX,
        source_fps.den <= u32::MAX,
        target_fps.num <= u32::MAX,
        target_fps.den <= u32::MAX,
    ensures
        r == ceil_div(
            source_fps.num * target_fps.den,
            source_fps.den * target_fps.num,
        ),
{
    proof {
        assert((source_fps.num as u128) * (target_fps.den as u128) < 0x1_0000_0000u128
            * 0x1_0000_0000u128 && (source_fps.den as u128) * (target_fps.num as u128)
            < 0x1_0000_0000u128 * 0x1_0000_0000u128 && (source_fps.den as u128) * (
        target_fps.num as u128) >= 1) by (nonlinear_arith)
            requires
                source_fps.num < 0x1_0000_0000u128,
                target_fps.den < 0x1_0000_0000u128,
                source_fps.den < 0x1_0000_0000u128,
                target_fps.num < 0x1_0000_0000u128,
                source_fps.den >= 1,
                target_fps.num >= 1,
        ;
    }
    let num: u128 = (source_fps.num as u128) * (target_fps.den as u128);
    let den: u128 = (source_fps.den as u128) * (target_fps.num as u128);
    let q: u128 = (num + den - 1) / den;
    proof {
        lemma_fundamental_div_mod((num + den - 1) as int, den as int);
        assert(q <= num) by (nonlinear_arith)
            requires
                q == ((num + den - 1) as int) / (den as int),
                (num + den - 1) as int == (den as int) * (((num + den - 1) as int) / (
                den as int)) + ((num + den - 1) as int) % (den as int),
                0 <= ((num + den - 1) as int) % (den as int) < den as int,
                den >= 1,
        ;
    }
    q as u64
}

/// Whether a source frame is admitted for processing: with a decimation
/// factor `skip`, exactly every `skip`-th frame.
pub open spec fn admitted(counter: int, skip: int) -> bool {
    counter % skip == 0
}

/// Frame-admission counter for the decimated stream.
pub struct FrameDecimator {
    frame_skip: u64,
    frame_counter: u64,
}

impl FrameDecimator {
    pub closed spec fn spec_skip(&self) -> u64 {
        self.frame_skip
    }

    pub closed spec fn spec_counter(&self) -> u64 {
        self.frame_counter
    }

    pub open spec fn wf(&self) -> bool {
        self.spec_skip() >= 1
    }

    /// A decimator that admits every `skip`-th frame, counting from one.
    pub fn new(skip: u64) -> (d: FrameDecimator)
        requires
            skip >= 1,
        ensures
            d.wf(),
            d.spec_skip() == skip,
            d.spec_counter() == 0,
    {
        FrameDecimator { frame_skip: skip, frame_counter: 0 }
    }

    /// How many source frames have been counted.
    pub fn counter(&self) -> (r: u64)
        ensures
            r == self.spec_counter(),
    {
        self.frame_counter
    }

    /// Counts the next source frame and says whether it is admitted:
    /// exactly when the new count is a multiple of the decimation factor.
    pub fn admit_frame(&mut self) -> (r: bool)
        requires
            old(self).wf(),
            old(self).spec_counter() < u64::MAX,
        ensures
            final(self).wf(),
            final(self).spec_skip() == old(self).spec_skip(),
            final(self).spec_counter() == old(self).spec_counter() + 1,
            r == admitted(final(self).spec_counter() as int, final(self).spec_skip() as int),
    {
        self.frame_counter = self.frame_counter + 1;
        self.frame_counter % self.frame_skip == 0
    }
}

} // verus!
