//! Frame pyramid.
//!
//! Owns current/previous frame buffers at three resolution tiers (full,
//! half, quarter) in two colorspaces (color, mono). Deriving the tiers
//! from a raw frame (resampling, grayscale conversion, blurring) happens
//! outside the library as documented buffer-to-buffer operations; the
//! pyramid's own obligations are verified here: the swap-then-overwrite
//! ingest that gives every tier its exact one-frame lag, empty-frame
//! rejection, and zero-filled reset.

use vstd::prelude::*;
use crate::PipelineError;
use crate::image::{Image, MAX_DIM};

verus! {

/// Every byte of the buffer is zero.
pub open spec fn zero_filled(img: &Image) -> bool {
    forall|i: int| 0 <= i < img.view().len() ==> img.view()[i] == 0
}

/// A pair of equally-shaped buffers: the current frame and the previous
/// one.
pub struct Frame {
    pub cur: Image,
    pub prev: Image,
}

impl Frame {
    pub open spec fn wf(&self) -> bool {
        &&& self.cur.wf()
        &&& self.prev.wf()
        &&& self.cur.same_dims(&self.prev)
    }

    /// Both buffers are zero-filled.
    pub open spec fn is_blank(&self) -> bool {
        zero_filled(&self.cur) && zero_filled(&self.prev)
    }

    /// Zero-filled pair of the given dimensions.
    pub fn new(width: usize, height: usize, channels: usize) -> (f: Frame)
        requires
            width <= MAX_DIM,
            height <= MAX_DIM,
            1 <= channels <= 4,
        ensures
            f.wf(),
            f.cur.spec_width() == width,
            f.cur.spec_height() == height,
            f.cur.spec_channels() == channels,
            f.is_blank(),
    {
        Frame { cur: Image::zeros(width, height, channels), prev: Image::zeros(
            width,
            height,
            channels,
        ) }
    }

    /// Swaps current into previous (a cheap handle swap, not a copy), so
    /// that previous holds exactly what was current before the call.
    pub fn invalidate(&mut self)
        ensures
            final(self).prev == old(self).cur,
            final(self).cur == old(self).prev,
    {
        core::mem::swap(&mut self.prev, &mut self.cur);
    }

    /// Reinitializes both buffers to zero-filled, same dimensions as
    /// before.
    pub fn reset(&mut self) -> (r: Result<(), PipelineError>)
        requires
            old(self).wf(),
        ensures
            r is Ok,
            final(self).wf(),
            final(self).cur.same_dims(&old(self).cur),
            final(self).is_blank(),
    {
        self.cur = Image::zeros(self.cur.width(), self.cur.height(), self.cur.channels());
        self.prev = Image::zeros(self.prev.width(), self.prev.height(), self.prev.channels());
        Ok(())
    }
}

/// Three frames per colorspace: full, half and quarter resolution tiers.
pub struct FrameSamples {
    pub full: Frame,
    pub half: Frame,
    pub quarter: Frame,
}

impl FrameSamples {
    pub open spec fn wf(&self) -> bool {
        &&& self.full.wf()
        &&& self.half.wf()
        &&& self.quarter.wf()
    }

    /// Every tier's buffers are zero-filled.
    pub open spec fn is_blank(&self) -> bool {
        self.full.is_blank() && self.half.is_blank() && self.quarter.is_blank()
    }

    /// Zero-filled tiers of the given sizes, all in one colorspace.
    pub fn new(
        size_full: (usize, usize),
        size_half: (usize, usize),
        size_quarter: (usize, usize),
        channels: usize,
    ) -> (s: FrameSamples)
        requires
            size_full.0 <= MAX_DIM,
            size_full.1 <= MAX_DIM,
            size_half.0 <= MAX_DIM,
            size_half.1 <= MAX_DIM,
            size_quarter.0 <= MAX_DIM,
            size_quarter.1 <= MAX_DIM,
            1 <= channels <= 4,
        ensures
            s.wf(),
            s.full.cur.spec_width() == size_full.0 && s.full.cur.spec_height() == size_full.1,
            s.half.cur.spec_width() == size_half.0 && s.half.cur.spec_height() == size_half.1,
            s.quarter.cur.spec_width() == size_quarter.0 && s.quarter.cur.spec_height()
                == size_quarter.1,
            s.full.cur.spec_channels() == channels && s.half.cur.spec_channels() == channels
                && s.quarter.cur.spec_channels() == channels,
            s.is_blank(),
    {
        FrameSamples {
            full: Frame::new(size_full.0, size_full.1, channels),
            half: Frame::new(size_half.0, size_half.1, channels),
            quarter: Frame::new(size_quarter.0, size_quarter.1, channels),
        }
    }

    /// Swaps every tier's current buffer into its previous one.
    pub fn invalidate(&mut self)
        ensures
            final(self).full.prev == old(self).full.cur,
            final(self).full.cur == old(self).full.prev,
            final(self).half.prev == old(self).half.cur,
            final(self).half.cur == old(self).half.prev,
            final(self).quarter.prev == old(self).quarter.cur,
            final(self).quarter.cur == old(self).quarter.prev,
    {
        self.full.invalidate();
        self.half.invalidate();
        self.quarter.invalidate();
    }

    /// Zero-fills every buffer, keeping dimensions.
    pub fn reset(&mut self) -> (r: Result<(), PipelineError>)
        requires
            old(self).wf(),
        ensures
            r is Ok,
            final(self).wf(),
            final(self).full.cur.same_dims(&old(self).full.cur),
            final(self).half.cur.same_dims(&old(self).half.cur),
            final(self).quarter.cur.same_dims(&old(self).quarter.cur),
            final(self).is_blank(),
    {
        let _ = self.full.reset();
        let _ = self.half.reset();
        let _ = self.quarter.reset();
        Ok(())
    }
}

/// The derived buffers of one source frame, one per tier and colorspace:
/// color at three resolutions, and the grayscale derivation of each color
/// tier, the half and quarter mono tiers blurred.
pub struct DerivedFrames {
    pub color_full: Image,
    pub color_half: Image,
    pub color_quarter: Image,
    pub mono_full: Image,
    pub mono_half: Image,
    pub mono_quarter: Image,
}

/// Double-buffered pyramid: two tier sets, color and mono.
pub struct VideoFrames {
    pub color: FrameSamples,
    pub mono: FrameSamples,
    pub size_full: (usize, usize),
    pub size_half: (usize, usize),
    pub size_quarter: (usize, usize),
}


impl VideoFrames {
    pub open spec fn spec_size_full(&self) -> (usize, usize) {
        self.size_full
    }

    pub open spec fn spec_size_half(&self) -> (usize, usize) {
        self.size_half
    }

    pub open spec fn spec_size_quarter(&self) -> (usize, usize) {
        self.size_quarter
    }

    /// One image fits one tier slot of the pyramid.
    pub open spec fn fits(img: &Image, size: (usize, usize), channels: usize) -> bool {
        &&& img.wf()
        &&& img.spec_width() == size.0
        &&& img.spec_height() == size.1
        &&& img.spec_channels() == channels
    }

    pub open spec fn wf(&self) -> bool {
        &&& self.color.wf()
        &&& self.mono.wf()
        &&& Self::fits(&self.color.full.cur, self.spec_size_full(), 3)
        &&& Self::fits(&self.color.half.cur, self.spec_size_half(), 3)
        &&& Self::fits(&self.color.quarter.cur, self.spec_size_quarter(), 3)
        &&& Self::fits(&self.mono.full.cur, self.spec_size_full(), 1)
        &&& Self::fits(&self.mono.half.cur, self.spec_size_half(), 1)
        &&& Self::fits(&self.mono.quarter.cur, self.spec_size_quarter(), 1)
    }

    /// A full derived set fits the pyramid's three tier sizes.
    pub open spec fn accepts(&self, d: &DerivedFrames) -> bool {
        &&& Self::fits(&d.color_full, self.spec_size_full(), 3)
        &&& Self::fits(&d.color_half, self.spec_size_half(), 3)
        &&& Self::fits(&d.color_quarter, self.spec_size_quarter(), 3)
        &&& Self::fits(&d.mono_full, self.spec_size_full(), 1)
        &&& Self::fits(&d.mono_half, self.spec_size_half(), 1)
        &&& Self::fits(&d.mono_quarter, self.spec_size_quarter(), 1)
    }

    /// Zero-filled pyramid with the given tier sizes: color in three
    /// channels, mono in one.
    pub fn new(
        size_full: (usize, usize),
        size_half: (usize, usize),
        size_quarter: (usize, usize),
    ) -> (v: VideoFrames)
        requires
            size_full.0 <= MAX_DIM,
            size_full.1 <= MAX_DIM,
            size_half.0 <= MAX_DIM,
            size_half.1 <= MAX_DIM,
            size_quarter.0 <= MAX_DIM,
            size_quarter.1 <= MAX_DIM,
        ensures
            v.wf(),
            v.spec_size_full() == size_full,
            v.spec_size_half() == size_half,
            v.spec_size_quarter() == size_quarter,
            v.color.is_blank(),
            v.mono.is_blank(),
    {
        VideoFrames {
            color: FrameSamples::new(size_full, size_half, size_quarter, 3),
            mono: FrameSamples::new(size_full, size_half, size_quarter, 1),
            size_full,
            size_half,
            size_quarter,
        }
    }

    /// Swaps every tier's current buffer into its previous one, in both
    /// colorspaces.
    pub fn invalidate(&mut self)
        ensures
            final(self).color.full.prev == old(self).color.full.cur,
            final(self).color.half.prev == old(self).color.half.cur,
            final(self).color.quarter.prev == old(self).color.quarter.cur,
            final(self).mono.full.prev == old(self).mono.full.cur,
            final(self).mono.half.prev == old(self).mono.half.cur,
            final(self).mono.quarter.prev == old(self).mono.quarter.cur,
            final(self).spec_size_full() == old(self).spec_size_full(),
            final(self).spec_size_half() == old(self).spec_size_half(),
            final(self).spec_size_quarter() == old(self).spec_size_quarter(),
    {
        self.color.invalidate();
        self.mono.invalidate();
    }

    /// Zero-fills every buffer, keeping dimensions.
    pub fn reset(&mut self) -> (r: Result<(), PipelineError>)
        requires
            old(self).wf(),
        ensures
            r is Ok,
            final(self).wf(),
            final(self).spec_size_full() == old(self).spec_size_full(),
            final(self).spec_size_half() == old(self).spec_size_half(),
            final(self).spec_size_quarter() == old(self).spec_size_quarter(),
            final(self).color.is_blank(),
            final(self).mono.is_blank(),
    {
        let _ = self.color.reset();
        let _ = self.mono.reset();
        Ok(())
    }

    /// Ingests one source frame's derived buffers.
    ///
    /// `None` (the source yielded nothing) and an empty raw frame signal
    /// `EndOfStream`; a derived set that does not fit the pyramid's tier
    /// sizes is `ProcessingError`. Both leave the pyramid unchanged. On
    /// success every tier's previous buffer holds exactly the frame data
    /// that was current immediately before the call (the one-frame lag
    /// downstream detectors rely on), and the current buffers hold the
    /// new derivations.
    pub fn ingest(&mut self, frame: Option<DerivedFrames>) -> (r: Result<(), PipelineError>)
        requires
            old(self).wf(),
            frame is Some ==> {
                &&& frame->Some_0.color_full.wf()
                &&& frame->Some_0.color_half.wf()
                &&& frame->Some_0.color_quarter.wf()
                &&& frame->Some_0.mono_full.wf()
                &&& frame->Some_0.mono_half.wf()
                &&& frame->Some_0.mono_quarter.wf()
            },
        ensures
            final(self).wf(),
            final(self).spec_size_full() == old(self).spec_size_full(),
            final(self).spec_size_half() == old(self).spec_size_half(),
            final(self).spec_size_quarter() == old(self).spec_size_quarter(),
            r is Ok <==> (frame is Some && !frame->Some_0.color_full.spec_is_empty()
                && old(self).accepts(&frame->Some_0)),
            frame is None ==> r == Result::<(), PipelineError>::Err(PipelineError::EndOfStream),
            frame is Some && frame->Some_0.color_full.spec_is_empty() ==> r == Result::<
                (),
                PipelineError,
            >::Err(PipelineError::EndOfStream),
            frame is Some && !frame->Some_0.color_full.spec_is_empty() && !old(self).accepts(
                &frame->Some_0,
            ) ==> r == Result::<(), PipelineError>::Err(PipelineError::ProcessingError),
            r is Err ==> *final(self) == *old(self),
            r is Ok ==> {
                &&& final(self).color.full.prev == old(self).color.full.cur
                &&& final(self).color.half.prev == old(self).color.half.cur
                &&& final(self).color.quarter.prev == old(self).color.quarter.cur
                &&& final(self).mono.full.prev == old(self).mono.full.cur
                &&& final(self).mono.half.prev == old(self).mono.half.cur
                &&& final(self).mono.quarter.prev == old(self).mono.quarter.cur
                &&& final(self).color.full.cur == frame->Some_0.color_full
                &&& final(self).color.half.cur == frame->Some_0.color_half
                &&& final(self).color.quarter.cur == frame->Some_0.color_quarter
                &&& final(self).mono.full.cur == frame->Some_0.mono_full
                &&& final(self).mono.half.cur == frame->Some_0.mono_half
                &&& final(self).mono.quarter.cur == frame->Some_0.mono_quarter
            },
    {
        let d = match frame {
            Option::None => {
                return Err(PipelineError::EndOfStream);
            },
            Option::Some(d) => d,
        };
        if d.color_full.is_empty() {
            return Err(PipelineError::EndOfStream);
        }
        let fits = d.color_full.width() == self.size_full.0 && d.color_full.height()
            == self.size_full.1 && d.color_full.channels() == 3 && d.color_half.width()
            == self.size_half.0 && d.color_half.height() == self.size_half.1
            && d.color_half.channels() == 3 && d.color_quarter.width() == self.size_quarter.0
            && d.color_quarter.height() == self.size_quarter.1 && d.color_quarter.channels() == 3
            && d.mono_full.width() == self.size_full.0 && d.mono_full.height() == self.size_full.1
            && d.mono_full.channels() == 1 && d.mono_half.width() == self.size_half.0
            && d.mono_half.height() == self.size_half.1 && d.mono_half.channels() == 1
            && d.mono_quarter.width() == self.size_quarter.0 && d.mono_quarter.height()
            == self.size_quarter.1 && d.mono_quarter.channels() == 1;
        if !fits {
            return Err(PipelineError::ProcessingError);
        }
        self.invalidate();
        self.color.full.cur = d.color_full;
        self.color.half.cur = d.color_half;
        self.color.quarter.cur = d.color_quarter;
        self.mono.full.cur = d.mono_full;
        self.mono.half.cur = d.mono_half;
        self.mono.quarter.cur = d.mono_quarter;
        Ok(())
    }
}

} // verus!
