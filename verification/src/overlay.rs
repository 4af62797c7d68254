//! Overlay box selection.
//!
//! The tinting, resizing and alpha-blending of the refined detector's mask
//! onto a display frame happen outside the library as documented
//! buffer-to-buffer operations. What is decided here, and verified, is
//! which bounding boxes get an outline: a box is suppressed exactly when
//! it is fully contained in a box already accepted in the same call
//! (genuine per-call containment tracking), and each accepted box is
//! scaled by the ratio between detection and display resolution.

use vstd::prelude::*;
use crate::image::MAX_DIM;
use crate::refined::BoundingBox;

verus! {

/// Full containment: every pixel of `inner` lies inside `outer`.
pub open spec fn contains_box(outer: BoundingBox, inner: BoundingBox) -> bool {
    &&& outer.x <= inner.x
    &&& outer.y <= inner.y
    &&& inner.x + inner.width <= outer.x + outer.width
    &&& inner.y + inner.height <= outer.y + outer.height
}

/// Whether some already-accepted box fully contains `b`.
pub open spec fn contained_in_any(acc: Seq<BoundingBox>, b: BoundingBox) -> bool {
    exists|i: int| 0 <= i < acc.len() && contains_box(acc[i], b)
}

/// The boxes that survive suppression, in order: each box is accepted
/// exactly when no earlier accepted box fully contains it.
pub open spec fn select_rec(s: Seq<BoundingBox>, k: int) -> Seq<BoundingBox>
    decreases k,
{
    if k <= 0 {
        Seq::empty()
    } else {
        let acc = select_rec(s, k - 1);
        if contained_in_any(acc, s[k - 1]) {
            acc
        } else {
            acc.push(s[k - 1])
        }
    }
}

/// A box scaled by an integer factor, fields multiplied.
pub open spec fn scaled_box(b: BoundingBox, factor: int) -> BoundingBox {
    BoundingBox {
        x: (b.x * factor) as usize,
        y: (b.y * factor) as usize,
        width: (b.width * factor) as usize,
        height: (b.height * factor) as usize,
    }
}

/// Overlay pass over the refined detector's bounding boxes: tracks which
/// boxes were accepted for outlining in the current call.
pub struct MotionOverlay {
    bounding_boxes: Vec<BoundingBox>,
}

impl MotionOverlay {
    /// The boxes accepted by the latest planning call.
    pub closed spec fn spec_bounding_boxes(&self) -> Seq<BoundingBox> {
        self.bounding_boxes@
    }

    /// A fresh overlay pass with no accepted boxes.
    pub fn new() -> (r: MotionOverlay)
        ensures
            r.spec_bounding_boxes() == Seq::<BoundingBox>::empty(),
    {
        MotionOverlay { bounding_boxes: Vec::new() }
    }

    /// The boxes accepted by the latest planning call.
    pub fn get_bounding_boxes(&self) -> (r: &Vec<BoundingBox>)
        ensures
            r@ == self.spec_bounding_boxes(),
    {
        &self.bounding_boxes
    }

    /// Decides the outlines for one overlay call: walks the detector's
    /// boxes in order, suppresses each box fully contained in a box
    /// already accepted in this call, records the accepted boxes, and
    /// returns them scaled by `factor` for drawing at display resolution.
    pub fn plan_boxes(&mut self, detected: &Vec<BoundingBox>, factor: usize) -> (r: Vec<
        BoundingBox,
    >)
        requires
            1 <= factor,
            forall|i: int|
                0 <= i < detected@.len() ==> ((#[trigger] detected@[i]).x + detected@[i].width)
                    * factor <= MAX_DIM && (detected@[i].y + detected@[i].height) * factor
                    <= MAX_DIM,
        ensures
            final(self).spec_bounding_boxes() == select_rec(detected@, detected@.len() as int),
            r@.len() == final(self).spec_bounding_boxes().len(),
            forall|i: int|
                0 <= i < r@.len() ==> #[trigger] r@[i] == scaled_box(
                    final(self).spec_bounding_boxes()[i],
                    factor as int,
                ),
    {
        let mut accepted: Vec<BoundingBox> = Vec::new();
        let mut scaled: Vec<BoundingBox> = Vec::new();
        let mut k: usize = 0;
        proof {
            assert(accepted@ =~= select_rec(detected@, 0));
        }
        while k < detected.len()
            invariant
                0 <= k <= detected@.len(),
                forall|i: int|
                    0 <= i < detected@.len() ==> ((#[trigger] detected@[i]).x
                        + detected@[i].width) * factor <= MAX_DIM && (detected@[i].y
                        + detected@[i].height) * factor <= MAX_DIM,
                1 <= factor,
                accepted@ == select_rec(detected@, k as int),
                forall|i: int|
                    0 <= i < accepted@.len() ==> (#[trigger] accepted@[i]).x + accepted@[i].width
                        <= MAX_DIM && accepted@[i].y + accepted@[i].height <= MAX_DIM,
                scaled@.len() == accepted@.len(),
                forall|i: int|
                    0 <= i < scaled@.len() ==> #[trigger] scaled@[i] == scaled_box(
                        accepted@[i],
                        factor as int,
                    ),
            decreases detected@.len() - k,
        {
            let b = detected[k];
            proof {
                assert(b.x + b.width <= MAX_DIM && b.y + b.height <= MAX_DIM) by (nonlinear_arith)
                    requires
                        (b.x + b.width) * factor <= MAX_DIM,
                        (b.y + b.height) * factor <= MAX_DIM,
                        factor >= 1,
                        b.x >= 0,
                        b.y >= 0,
                        b.width >= 0,
                        b.height >= 0,
                ;
            }
            let mut suppressed = false;
            let ghost mut widx: int = 0;
            let mut j: usize = 0;
            while j < accepted.len()
                invariant
                    0 <= j <= accepted@.len(),
                    b.x + b.width <= MAX_DIM,
                    b.y + b.height <= MAX_DIM,
                    forall|i: int|
                        0 <= i < accepted@.len() ==> (#[trigger] accepted@[i]).x
                            + accepted@[i].width <= MAX_DIM && accepted@[i].y
                            + accepted@[i].height <= MAX_DIM,
                    !suppressed ==> forall|i: int|
                        0 <= i < j ==> !contains_box(#[trigger] accepted@[i], b),
                    suppressed ==> 0 <= widx < accepted@.len() && contains_box(
                        accepted@[widx],
                        b,
                    ),
                decreases accepted@.len() - j,
            {
                let a = accepted[j];
                if a.x <= b.x && a.y <= b.y && b.x + b.width <= a.x + a.width && b.y + b.height
                    <= a.y + a.height {
                    suppressed = true;
                    proof {
                        widx = j as int;
                    }
                }
                j = j + 1;
            }
            proof {
                if suppressed {
                    assert(contained_in_any(accepted@, b));
                } else {
                    assert(!contained_in_any(accepted@, b)) by {
                        assert(forall|i: int|
                            0 <= i < accepted@.len() ==> !contains_box(
                                #[trigger] accepted@[i],
                                b,
                            ));
                    }
                }
            }
            if !suppressed {
                proof {
                    assert((b.x + b.width) * factor <= MAX_DIM && (b.y + b.height) * factor
                        <= MAX_DIM);
                    assert(b.x * factor + b.width * factor == (b.x + b.width) * factor && b.y
                        * factor + b.height * factor == (b.y + b.height) * factor && b.x * factor
                        >= 0 && b.y * factor >= 0 && b.width * factor >= 0 && b.height * factor
                        >= 0) by (nonlinear_arith)
                        requires
                            b.x >= 0,
                            b.y >= 0,
                            b.width >= 0,
                            b.height >= 0,
                            factor >= 0,
                    ;
                }
                accepted.push(b);
                scaled.push(
                    BoundingBox {
                        x: b.x * factor,
                        y: b.y * factor,
                        width: b.width * factor,
                        height: b.height * factor,
                    },
                );
            }
            k = k + 1;
        }
        self.bounding_boxes = accepted;
        scaled
    }
}

} // verus!
