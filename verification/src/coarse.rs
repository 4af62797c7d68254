//! Coarse change detector.
//!
//! Compares consecutive frames by their mean absolute per-pixel difference
//! and keeps the last ten per-frame statistics in a rolling window. A
//! squared-difference buffer is computed alongside as an artifact of the
//! staging but takes no part in the statistic, which is deliberately the
//! mean absolute difference, not the mean squared difference.

use vstd::prelude::*;
use crate::PipelineError;
use crate::image::{self, Image, abs_diff, byte_sum};
use crate::ratio::Ratio;
use crate::rolling::{self, RollingWindow, sum_of, pushed, WINDOW_LEN, SAMPLE_MAX};

verus! {

/// Elementwise absolute difference of two equally-long byte sequences.
pub open spec fn abs_diff_seq(a: Seq<u8>, b: Seq<u8>) -> Seq<u8> {
    Seq::new(a.len(), |i: int| abs_diff(a[i], b[i]))
}

/// The coarse statistic for one frame pair: the total absolute difference.
/// The per-pixel mean is this value over the pixel count.
pub open spec fn coarse_sample(prev: Seq<u8>, cur: Seq<u8>) -> int {
    byte_sum(abs_diff_seq(prev, cur))
}

/// A frame compared with itself contributes a zero sample.
pub proof fn lemma_identical_frames_zero_sample(a: Seq<u8>)
    ensures
        coarse_sample(a, a) == 0,
{
    assert(forall|i: int| 0 <= i < a.len() ==> abs_diff_seq(a, a)[i] == 0);
    image::lemma_byte_sum_zero(abs_diff_seq(a, a));
}

/// Law of convergence: feeding identical frames pushes zero samples, so once
/// a full window of such samples has accumulated, the rolling sum — hence
/// the average statistic — is exactly zero.
pub proof fn lemma_identical_frames_converge(w: Seq<u64>, frames: Seq<Seq<u8>>)
    requires
        w.len() == WINDOW_LEN,
        frames.len() == WINDOW_LEN,
    ensures
        sum_of(
            rolling::pushed_all(
                w,
                Seq::new(frames.len(), |i: int| coarse_sample(frames[i], frames[i]) as u64),
            ),
        ) == 0,
{
    let xs = Seq::new(frames.len(), |i: int| coarse_sample(frames[i], frames[i]) as u64);
    assert forall|i: int| 0 <= i < xs.len() implies xs[i] == 0 by {
        lemma_identical_frames_zero_sample(frames[i]);
    }
    rolling::lemma_converges_to_zero(w, xs);
}

/// Rolling mean-absolute-difference detector over consecutive frames.
pub struct MeanSquaredError {
    diff_mask: Image,
    sqr_diff: Image,
    num_pixels: usize,
    mse_values: RollingWindow,
}

impl MeanSquaredError {
    /// The last computed absolute-difference mask.
    pub closed spec fn spec_diff_mask(&self) -> Image {
        self.diff_mask
    }

    /// The squared-difference artifact buffer.
    pub closed spec fn spec_sqr_diff(&self) -> Image {
        self.sqr_diff
    }

    /// Pixel count of the frames this detector was sized for.
    pub closed spec fn spec_num_pixels(&self) -> usize {
        self.num_pixels
    }

    /// The rolling window of per-frame total-difference samples.
    pub closed spec fn spec_window(&self) -> RollingWindow {
        self.mse_values
    }

    /// The window contents, oldest first.
    pub open spec fn values(&self) -> Seq<u64> {
        self.spec_window().view()
    }

    /// Width this detector expects of its input frames.
    pub open spec fn spec_width(&self) -> usize {
        self.spec_diff_mask().spec_width()
    }

    /// Height this detector expects of its input frames.
    pub open spec fn spec_height(&self) -> usize {
        self.spec_diff_mask().spec_height()
    }

    /// Channel count this detector expects of its input frames.
    pub open spec fn spec_channels(&self) -> usize {
        self.spec_diff_mask().spec_channels()
    }

    pub open spec fn wf(&self) -> bool {
        &&& self.spec_diff_mask().wf()
        &&& self.spec_sqr_diff().wf()
        &&& self.spec_sqr_diff().same_dims(&self.spec_diff_mask())
        &&& self.spec_num_pixels() == self.spec_width() * self.spec_height()
        &&& self.spec_window().wf()
    }

    /// The detector has been sized from a real (non-empty) frame, so its
    /// per-pixel statistics are meaningful.
    pub open spec fn spec_is_ready(&self) -> bool {
        self.spec_num_pixels() > 0
    }

    /// An input frame matches the dimensions this detector was built for.
    pub open spec fn accepts(&self, frame: &Image) -> bool {
        frame.same_dims(&self.spec_diff_mask())
    }

    /// Detector sized from a prototype frame: masks are zero-filled at the
    /// frame's dimensions and the window is zero-seeded.
    pub fn new(prv_frame: &Image) -> (r: MeanSquaredError)
        requires
            prv_frame.wf(),
            !prv_frame.spec_is_empty(),
        ensures
            r.wf(),
            r.spec_is_ready(),
            r.spec_width() == prv_frame.spec_width(),
            r.spec_height() == prv_frame.spec_height(),
            r.spec_channels() == prv_frame.spec_channels(),
            r.values() == rolling::zero_window(),
            forall|i: int|
                0 <= i < r.spec_diff_mask().view().len() ==> r.spec_diff_mask().view()[i] == 0,
            forall|i: int|
                0 <= i < r.spec_sqr_diff().view().len() ==> r.spec_sqr_diff().view()[i] == 0,
    {
        let w = prv_frame.width();
        let h = prv_frame.height();
        let c = prv_frame.channels();
        proof {
            assert(w * h <= image::MAX_DIM * image::MAX_DIM && w * h > 0) by (nonlinear_arith)
                requires
                    0 < w <= image::MAX_DIM,
                    0 < h <= image::MAX_DIM,
            ;
        }
        MeanSquaredError {
            diff_mask: Image::zeros(w, h, c),
            sqr_diff: Image::zeros(w, h, c),
            num_pixels: w * h,
            mse_values: RollingWindow::new(),
        }
    }

    /// Placeholder detector with no expected dimensions; it accepts no
    /// frames and is not ready until replaced by a sized detector.
    pub fn default() -> (r: MeanSquaredError)
        ensures
            r.wf(),
            !r.spec_is_ready(),
            r.values() == rolling::zero_window(),
            forall|i: int|
                0 <= i < r.spec_diff_mask().view().len() ==> r.spec_diff_mask().view()[i] == 0,
            forall|i: int|
                0 <= i < r.spec_sqr_diff().view().len() ==> r.spec_sqr_diff().view()[i] == 0,
    {
        MeanSquaredError {
            diff_mask: Image::zeros(0, 0, 1),
            sqr_diff: Image::zeros(0, 0, 1),
            num_pixels: 0,
            mse_values: RollingWindow::new(),
        }
    }

    /// One detection step over a consecutive frame pair.
    ///
    /// On matching dimensions: recomputes the absolute-difference mask and
    /// the squared-difference artifact, and pushes the total absolute
    /// difference into the rolling window. On mismatched dimensions:
    /// returns `ProcessingError` and leaves every published statistic
    /// unchanged.
    pub fn update(&mut self, prv_frame: &Image, cur_frame: &Image) -> (r: Result<
        (),
        PipelineError,
    >)
        requires
            old(self).wf(),
            prv_frame.wf(),
            cur_frame.wf(),
        ensures
            final(self).wf(),
            r is Ok <==> (old(self).accepts(prv_frame) && old(self).accepts(cur_frame)),
            r is Err ==> r == Result::<(), PipelineError>::Err(PipelineError::ProcessingError)
                && *final(self) == *old(self),
            r is Ok ==> {
                &&& final(self).spec_diff_mask().view() == abs_diff_seq(
                    prv_frame.view(),
                    cur_frame.view(),
                )
                &&& final(self).spec_sqr_diff().view() == Seq::new(
                    prv_frame.view().len(),
                    |i: int| image::sat_mul(
                        abs_diff_seq(prv_frame.view(), cur_frame.view())[i],
                        abs_diff_seq(prv_frame.view(), cur_frame.view())[i],
                    ),
                )
                &&& final(self).values() == pushed(
                    old(self).values(),
                    coarse_sample(prv_frame.view(), cur_frame.view()) as u64,
                )
                &&& final(self).spec_num_pixels() == old(self).spec_num_pixels()
                &&& final(self).spec_diff_mask().same_dims(&old(self).spec_diff_mask())
            },
    {
        let ok_prev = prv_frame.width() == self.diff_mask.width() && prv_frame.height()
            == self.diff_mask.height() && prv_frame.channels() == self.diff_mask.channels();
        let ok_cur = cur_frame.width() == self.diff_mask.width() && cur_frame.height()
            == self.diff_mask.height() && cur_frame.channels() == self.diff_mask.channels();
        if !(ok_prev && ok_cur) {
            return Err(PipelineError::ProcessingError);
        }
        let diff = image::absdiff(prv_frame, cur_frame);
        let sqr = image::mul_saturating(&diff, &diff);
        let sample = diff.sum();
        proof {
            assert(diff.view() =~= abs_diff_seq(prv_frame.view(), cur_frame.view()));
            image::lemma_byte_sum_bound(diff.view());
            assert(diff.view().len() <= image::MAX_DIM * (image::MAX_DIM * image::MAX_CHANNELS))
                by (nonlinear_arith)
                requires
                    diff.view().len() == diff.spec_height() * (diff.spec_width()
                        * diff.spec_channels()),
                    diff.spec_height() <= image::MAX_DIM,
                    diff.spec_width() <= image::MAX_DIM,
                    diff.spec_channels() <= image::MAX_CHANNELS,
            ;
            assert(sample <= SAMPLE_MAX);
        }
        self.mse_values.push(sample);
        proof {
            assert(sqr.view() =~= Seq::new(
                prv_frame.view().len(),
                |i: int| image::sat_mul(
                    abs_diff_seq(prv_frame.view(), cur_frame.view())[i],
                    abs_diff_seq(prv_frame.view(), cur_frame.view())[i],
                ),
            ));
        }
        self.diff_mask = diff;
        self.sqr_diff = sqr;
        Ok(())
    }

    /// The last computed absolute-difference mask, for visualization.
    pub fn get_diff_mask(&self) -> (r: &Image)
        ensures
            *r == self.spec_diff_mask(),
    {
        &self.diff_mask
    }

    /// Most recent per-frame statistic: mean absolute per-pixel difference,
    /// as the exact quotient of the latest window sample over the pixel
    /// count.
    pub fn get_value(&self) -> (r: Ratio)
        requires
            self.wf(),
            self.spec_is_ready(),
        ensures
            r.num == self.values().last(),
            r.den == self.spec_num_pixels(),
            r.wf(),
    {
        Ratio::new(self.mse_values.latest(), self.num_pixels as u64)
    }

    /// Mean over the full window: the exact quotient of the window sum over
    /// `WINDOW_LEN` times the pixel count (zero-seeded slots included).
    pub fn get_value_avg(&self) -> (r: Ratio)
        requires
            self.wf(),
            self.spec_is_ready(),
        ensures
            r.num == sum_of(self.values()),
            r.den == WINDOW_LEN * self.spec_num_pixels(),
            r.wf(),
    {
        proof {
            assert(self.spec_num_pixels() <= image::MAX_DIM * image::MAX_DIM) by (nonlinear_arith)
                requires
                    self.spec_num_pixels() == self.spec_width() * self.spec_height(),
                    self.spec_width() <= image::MAX_DIM,
                    self.spec_height() <= image::MAX_DIM,
            ;
        }
        let den: u64 = (WINDOW_LEN as u64) * (self.num_pixels as u64);
        Ratio::new(self.mse_values.sum(), den)
    }
}

} // verus!
