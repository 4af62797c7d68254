//! Refined motion detector.
//!
//! The staged image pipeline (background subtraction, adaptive threshold,
//! morphological cleanup, contour tracing) runs outside the library as
//! documented buffer-to-buffer operations; this module holds the exact
//! accounting the detector's published results are defined by: bounding
//! rectangles of traced contours, the minimum-area filter with its
//! descending-area order, the shoelace total-area statistic, and the
//! rolling window of per-frame totals.

use vstd::prelude::*;
use crate::PipelineError;
use crate::image::{Image, MAX_DIM};
use crate::ratio::Ratio;
use crate::rolling::{self, RollingWindow, sum_of, pushed, WINDOW_LEN, SAMPLE_MAX};

verus! {

/// A pixel position inside a traced contour.
#[derive(Clone, Copy, Debug, PartialEq, Eq, Structural)]
pub struct Point {
    pub x: usize,
    pub y: usize,
}

/// Smallest axis-aligned rectangle enclosing a contour. `width` and
/// `height` count pixels inclusively, so a one-point contour has a 1 x 1
/// bounding box.
#[derive(Clone, Copy, Debug, PartialEq, Eq, Structural)]
pub struct BoundingBox {
    pub x: usize,
    pub y: usize,
    pub width: usize,
    pub height: usize,
}

/// The implicit area a bounding box carries.
pub open spec fn box_area(b: BoundingBox) -> int {
    b.width * b.height
}

impl BoundingBox {
    /// Positive extent, and the far corner stays inside the coordinate
    /// range, so the area fits the machine word.
    pub open spec fn wf(&self) -> bool {
        &&& self.width >= 1
        &&& self.height >= 1
        &&& self.x + self.width <= MAX_DIM
        &&& self.y + self.height <= MAX_DIM
    }

    /// Area in pixels squared.
    pub fn area(&self) -> (r: usize)
        requires
            self.wf(),
        ensures
            r == box_area(*self),
    {
        proof {
            assert(self.width * self.height <= MAX_DIM * MAX_DIM) by (nonlinear_arith)
                requires
                    0 <= self.width <= MAX_DIM,
                    0 <= self.height <= MAX_DIM,
            ;
        }
        self.width * self.height
    }
}

/// Least x coordinate of a non-empty point sequence.
pub open spec fn min_x(pts: Seq<Point>) -> int
    decreases pts.len(),
{
    if pts.len() <= 1 {
        if pts.len() == 1 {
            pts[0].x as int
        } else {
            0
        }
    } else {
        let m = min_x(pts.drop_last());
        if pts.last().x < m {
            pts.last().x as int
        } else {
            m
        }
    }
}

/// Greatest x coordinate of a non-empty point sequence.
pub open spec fn max_x(pts: Seq<Point>) -> int
    decreases pts.len(),
{
    if pts.len() <= 1 {
        if pts.len() == 1 {
            pts[0].x as int
        } else {
            0
        }
    } else {
        let m = max_x(pts.drop_last());
        if pts.last().x > m {
            pts.last().x as int
        } else {
            m
        }
    }
}

/// Least y coordinate of a non-empty point sequence.
pub open spec fn min_y(pts: Seq<Point>) -> int
    decreases pts.len(),
{
    if pts.len() <= 1 {
        if pts.len() == 1 {
            pts[0].y as int
        } else {
            0
        }
    } else {
        let m = min_y(pts.drop_last());
        if pts.last().y < m {
            pts.last().y as int
        } else {
            m
        }
    }
}

/// Greatest y coordinate of a non-empty point sequence.
pub open spec fn max_y(pts: Seq<Point>) -> int
    decreases pts.len(),
{
    if pts.len() <= 1 {
        if pts.len() == 1 {
            pts[0].y as int
        } else {
            0
        }
    } else {
        let m = max_y(pts.drop_last());
        if pts.last().y > m {
            pts.last().y as int
        } else {
            m
        }
    }
}

/// The bounding rectangle of a non-empty contour.
pub open spec fn rect_of(pts: Seq<Point>) -> BoundingBox {
    BoundingBox {
        x: min_x(pts) as usize,
        y: min_y(pts) as usize,
        width: (max_x(pts) - min_x(pts) + 1) as usize,
        height: (max_y(pts) - min_y(pts) + 1) as usize,
    }
}

/// Every coordinate of every point stays below the dimension cap.
pub open spec fn points_in_range(pts: Seq<Point>) -> bool {
    forall|i: int| 0 <= i < pts.len() ==> pts[i].x < MAX_DIM && pts[i].y < MAX_DIM
}

/// The extrema of an in-range contour lie in range and in order.
pub proof fn lemma_extrema_in_range(pts: Seq<Point>)
    requires
        pts.len() >= 1,
        points_in_range(pts),
    ensures
        0 <= min_x(pts) <= max_x(pts) < MAX_DIM,
        0 <= min_y(pts) <= max_y(pts) < MAX_DIM,
        rect_of(pts).wf(),
    decreases pts.len(),
{
    if pts.len() > 1 {
        assert(points_in_range(pts.drop_last())) by {
            assert(forall|i: int|
                0 <= i < pts.len() - 1 ==> pts.drop_last()[i] == pts[i]);
        }
        lemma_extrema_in_range(pts.drop_last());
    }
}

/// Computes the bounding rectangle of a contour: `None` exactly for an
/// empty contour, otherwise the smallest axis-aligned rectangle holding
/// every point.
pub fn bounding_rect(contour: &Vec<Point>) -> (r: Option<BoundingBox>)
    requires
        points_in_range(contour@),
    ensures
        r is Some <==> contour@.len() > 0,
        r is Some ==> r->Some_0 == rect_of(contour@) && r->Some_0.wf(),
{
    if contour.len() == 0 {
        return None;
    }
    proof {
        lemma_extrema_in_range(contour@);
    }
    let p0 = contour[0];
    let mut mnx: usize = p0.x;
    let mut mxx: usize = p0.x;
    let mut mny: usize = p0.y;
    let mut mxy: usize = p0.y;
    let mut k: usize = 1;
    proof {
        assert(contour@.take(1) =~= seq![contour@[0]]);
    }
    while k < contour.len()
        invariant
            1 <= k <= contour@.len(),
            points_in_range(contour@),
            mnx == min_x(contour@.take(k as int)),
            mxx == max_x(contour@.take(k as int)),
            mny == min_y(contour@.take(k as int)),
            mxy == max_y(contour@.take(k as int)),
        decreases contour@.len() - k,
    {
        let p = contour[k];
        proof {
            assert(contour@.take(k as int + 1).drop_last() =~= contour@.take(k as int));
            assert(contour@.take(k as int + 1).last() == contour@[k as int]);
        }
        if p.x < mnx {
            mnx = p.x;
        }
        if p.x > mxx {
            mxx = p.x;
        }
        if p.y < mny {
            mny = p.y;
        }
        if p.y > mxy {
            mxy = p.y;
        }
        k = k + 1;
    }
    proof {
        assert(contour@.take(contour@.len() as int) =~= contour@);
    }
    Some(
        BoundingBox {
            x: mnx,
            y: mny,
            width: mxx - mnx + 1,
            height: mxy - mny + 1,
        },
    )
}

/// Magnitude bound for one shoelace term: `2 * MAX_DIM * MAX_DIM`.
pub const TERM_BOUND: i64 = 0x2000_0000;

/// One shoelace term over a consecutive point pair.
pub open spec fn shoelace_term(a: Point, b: Point) -> int {
    (a.x - b.x) * (a.y + b.y)
}

/// Partial shoelace sum over the first `k` wrap-around point pairs.
pub open spec fn shoelace_partial(pts: Seq<Point>, k: int) -> int
    decreases k,
{
    if k <= 0 {
        0
    } else {
        shoelace_partial(pts, k - 1) + shoelace_term(
            pts[k - 1],
            pts[if k == pts.len() {
                0
            } else {
                k
            }],
        )
    }
}

/// Signed polygon area of a contour via the shoelace formula over
/// consecutive point pairs, wrap-around included.
pub open spec fn contour_signed_area(pts: Seq<Point>) -> int {
    shoelace_partial(pts, pts.len() as int)
}

/// Absolute polygon area of one contour.
pub open spec fn contour_area_abs(pts: Seq<Point>) -> int {
    if contour_signed_area(pts) >= 0 {
        contour_signed_area(pts)
    } else {
        -contour_signed_area(pts)
    }
}

/// Total area statistic: the absolute contour areas summed over all
/// contours.
pub open spec fn total_area(cs: Seq<Seq<Point>>) -> int
    decreases cs.len(),
{
    if cs.len() == 0 {
        0
    } else {
        total_area(cs.drop_last()) + contour_area_abs(cs.last())
    }
}

/// Number of points over all contours.
pub open spec fn total_points(cs: Seq<Seq<Point>>) -> int
    decreases cs.len(),
{
    if cs.len() == 0 {
        0
    } else {
        total_points(cs.drop_last()) + cs.last().len()
    }
}

/// Contours a detection step accepts: every point lies in the coordinate
/// range and the combined point count does not exceed one per pixel of the
/// largest admissible frame, which keeps the total area inside a `u64`.
pub open spec fn contours_admissible(cs: Seq<Seq<Point>>) -> bool {
    &&& forall|i: int| 0 <= i < cs.len() ==> points_in_range(#[trigger] cs[i])
    &&& total_points(cs) <= MAX_DIM * MAX_DIM
}

/// One shoelace term of an in-range pair is bounded by `TERM_BOUND`.
proof fn lemma_term_bound(a: Point, b: Point)
    by (nonlinear_arith)
    requires
        a.x < MAX_DIM,
        a.y < MAX_DIM,
        b.x < MAX_DIM,
        b.y < MAX_DIM,
        MAX_DIM == 16384,
    ensures
        -TERM_BOUND <= shoelace_term(a, b) <= TERM_BOUND,
{
}

/// The partial shoelace sum grows by at most `TERM_BOUND` per step.
pub proof fn lemma_shoelace_partial_bound(pts: Seq<Point>, k: int)
    requires
        points_in_range(pts),
        0 <= k <= pts.len(),
    ensures
        -TERM_BOUND * k <= shoelace_partial(pts, k) <= TERM_BOUND * k,
    decreases k,
{
    if k > 0 {
        lemma_shoelace_partial_bound(pts, k - 1);
        lemma_term_bound(
            pts[k - 1],
            pts[if k == pts.len() {
                0
            } else {
                k
            }],
        );
    }
}

/// The total area over admissible contours is bounded by `TERM_BOUND`
/// per point.
pub proof fn lemma_total_area_bound(cs: Seq<Seq<Point>>)
    requires
        forall|i: int| 0 <= i < cs.len() ==> points_in_range(#[trigger] cs[i]),
    ensures
        0 <= total_area(cs) <= TERM_BOUND * total_points(cs),
        total_points(cs) >= 0,
    decreases cs.len(),
{
    if cs.len() > 0 {
        assert(forall|i: int|
            0 <= i < cs.len() - 1 ==> points_in_range(#[trigger] cs.drop_last()[i]));
        lemma_total_area_bound(cs.drop_last());
        lemma_shoelace_partial_bound(cs.last(), cs.last().len() as int);
    }
}

/// Signed shoelace area of one contour, exactly as the specification
/// defines it, in machine integers.
pub fn contour_area(contour: &Vec<Point>) -> (r: i64)
    requires
        points_in_range(contour@),
        contour@.len() <= MAX_DIM * MAX_DIM,
    ensures
        r == contour_signed_area(contour@),
        -TERM_BOUND * (MAX_DIM * MAX_DIM) <= r <= TERM_BOUND * (MAX_DIM * MAX_DIM),
{
    let n = contour.len();
    let mut acc: i64 = 0;
    let mut k: usize = 0;
    while k < n
        invariant
            0 <= k <= n,
            n == contour@.len(),
            n <= MAX_DIM * MAX_DIM,
            points_in_range(contour@),
            acc == shoelace_partial(contour@, k as int),
            -TERM_BOUND * (k as int) <= acc <= TERM_BOUND * (k as int),
        decreases n - k,
    {
        let p1 = contour[k];
        let p2 = if k + 1 == n {
            contour[0]
        } else {
            contour[k + 1]
        };
        proof {
            lemma_term_bound(p1, p2);
            lemma_shoelace_partial_bound(contour@, k as int + 1);
        }
        let dx: i64 = (p1.x as i64) - (p2.x as i64);
        let sy: i64 = (p1.y as i64) + (p2.y as i64);
        proof {
            assert(-TERM_BOUND <= dx * sy <= TERM_BOUND) by (nonlinear_arith)
                requires
                    -16384 < dx < 16384,
                    0 <= sy < 32768,
                    TERM_BOUND == 0x2000_0000,
            ;
        }
        let term: i64 = dx * sy;
        proof {
            assert(term == shoelace_term(p1, p2));
            assert(-0x7fff_ffff_ffff_ffff <= acc + term <= 0x7fff_ffff_ffff_ffff && -TERM_BOUND * (
            k as int + 1) <= acc + term <= TERM_BOUND * (k as int + 1)) by (nonlinear_arith)
                requires
                    -TERM_BOUND * (k as int) <= acc <= TERM_BOUND * (k as int),
                    -TERM_BOUND <= term <= TERM_BOUND,
                    0 <= k < 0x1000_0000,
                    TERM_BOUND == 0x2000_0000,
            ;
        }
        acc = acc + term;
        k = k + 1;
    }
    acc
}

/// Total absolute area over all contours: per contour the absolute value
/// of its signed shoelace area, summed across contours.
pub fn contours_total_area(contours: &Vec<Vec<Point>>) -> (r: u64)
    requires
        contours_admissible(contours@.map_values(|c: Vec<Point>| c@)),
    ensures
        r == total_area(contours@.map_values(|c: Vec<Point>| c@)),
        r <= SAMPLE_MAX,
{
    let ghost cs = contours@.map_values(|c: Vec<Point>| c@);
    proof {
        lemma_total_area_bound(cs);
        lemma_total_points_monotone(cs, cs.len() as int);
    }
    let mut acc: u64 = 0;
    let mut k: usize = 0;
    while k < contours.len()
        invariant
            0 <= k <= contours@.len(),
            cs == contours@.map_values(|c: Vec<Point>| c@),
            cs.len() == contours@.len(),
            contours_admissible(cs),
            acc == total_area(cs.take(k as int)),
            acc <= TERM_BOUND * total_points(cs.take(k as int)),
        decreases contours@.len() - k,
    {
        proof {
            assert(cs.take(k as int + 1).drop_last() =~= cs.take(k as int));
            assert(cs.take(k as int + 1).last() == cs[k as int]);
            assert(cs[k as int] == contours@[k as int]@);
            assert(forall|i: int|
                0 <= i < cs.take(k as int + 1).len() ==> points_in_range(
                    #[trigger] cs.take(k as int + 1)[i]));
            lemma_total_area_bound(cs.take(k as int + 1));
            lemma_total_points_monotone(cs, k as int + 1);
            assert(contours@[k as int]@.len() <= total_points(cs.take(k as int + 1)));
        }
        let a: i64 = contour_area(&contours[k]);
        let a_abs: u64 = if a >= 0 {
            a as u64
        } else {
            (-a) as u64
        };
        acc = acc + a_abs;
        k = k + 1;
    }
    proof {
        assert(cs.take(cs.len() as int) =~= cs);
        assert(TERM_BOUND * total_points(cs) <= TERM_BOUND * (MAX_DIM * MAX_DIM));
    }
    acc
}

/// Boxes ordered by non-increasing area.
pub open spec fn sorted_desc_by_area(s: Seq<BoundingBox>) -> bool {
    forall|i: int, j: int| 0 <= i <= j < s.len() ==> box_area(s[i]) >= box_area(s[j])
}

/// The minimum-area survival predicate, as a function value so every use
/// refers to one and the same predicate.
pub open spec fn area_pred(min_area: int) -> spec_fn(BoundingBox) -> bool {
    |b: BoundingBox| box_area(b) >= min_area
}

/// Discards every box with area below `min_area` and orders the survivors
/// by descending area: exactly the boxes that survive the filter come out
/// (as a multiset), each well-formed, none below the minimum, sorted.
pub fn filter_and_sort_boxes(boxes: &Vec<BoundingBox>, min_area: usize) -> (r: Vec<BoundingBox>)
    requires
        forall|i: int| 0 <= i < boxes@.len() ==> (#[trigger] boxes@[i]).wf(),
    ensures
        forall|i: int| 0 <= i < r@.len() ==> (#[trigger] r@[i]).wf(),
        forall|i: int| 0 <= i < r@.len() ==> box_area(#[trigger] r@[i]) >= min_area,
        sorted_desc_by_area(r@),
        r@.to_multiset() == boxes@.filter(area_pred(min_area as int)).to_multiset(),
{
    broadcast use vstd::seq_lib::to_multiset_insert, vstd::seq_lib::to_multiset_build;

    let ghost pred = area_pred(min_area as int);
    let mut out: Vec<BoundingBox> = Vec::new();
    proof {
        assert(boxes@.take(0).filter(pred) =~= Seq::<BoundingBox>::empty()) by {
            reveal(Seq::filter);
            assert(boxes@.take(0) =~= Seq::<BoundingBox>::empty());
        }
        assert(out@.to_multiset() =~= boxes@.take(0).filter(pred).to_multiset());
    }
    let mut k: usize = 0;
    while k < boxes.len()
        invariant
            0 <= k <= boxes@.len(),
            forall|i: int| 0 <= i < boxes@.len() ==> (#[trigger] boxes@[i]).wf(),
            forall|i: int| 0 <= i < out@.len() ==> (#[trigger] out@[i]).wf(),
            forall|i: int| 0 <= i < out@.len() ==> box_area(#[trigger] out@[i]) >= min_area,
            sorted_desc_by_area(out@),
            pred == area_pred(min_area as int),
            out@.to_multiset() == boxes@.take(k as int).filter(pred).to_multiset(),
        decreases boxes@.len() - k,
    {
        let b = boxes[k];
        proof {
            assert(boxes@.take(k as int + 1).drop_last() =~= boxes@.take(k as int));
            assert(boxes@.take(k as int + 1).last() == b);
            reveal(Seq::filter);
        }
        let a = b.area();
        if a >= min_area {
            let mut pos: usize = 0;
            loop
                invariant_except_break
                    0 <= pos <= out@.len(),
                    forall|i: int| 0 <= i < out@.len() ==> (#[trigger] out@[i]).wf(),
                    a == box_area(b),
                    forall|i: int| 0 <= i < pos ==> box_area(#[trigger] out@[i]) >= a,
                ensures
                    0 <= pos <= out@.len(),
                    forall|i: int| 0 <= i < pos ==> box_area(#[trigger] out@[i]) >= a,
                    pos == out@.len() || box_area(out@[pos as int]) < a,
                decreases out@.len() - pos,
            {
                if pos == out.len() {
                    break;
                }
                if out[pos].area() < a {
                    break;
                }
                pos = pos + 1;
            }
            let ghost before = out@;
            out.insert(pos, b);
            proof {
                assert(out@ == before.insert(pos as int, b));
                assert forall|i: int| 0 <= i < out@.len() implies (#[trigger] out@[i]).wf()
                    && box_area(out@[i]) >= min_area by {
                    if i < pos {
                        assert(out@[i] == before[i]);
                    } else if i == pos {
                        assert(out@[i] == b);
                    } else {
                        assert(out@[i] == before[i - 1]);
                    }
                }
                assert forall|i: int, j: int|
                    0 <= i <= j < out@.len() implies box_area(out@[i]) >= box_area(out@[j]) by {
                    let vi = if i < pos {
                        before[i]
                    } else if i == pos {
                        b
                    } else {
                        before[i - 1]
                    };
                    let vj = if j < pos {
                        before[j]
                    } else if j == pos {
                        b
                    } else {
                        before[j - 1]
                    };
                    assert(out@[i] == vi && out@[j] == vj);
                    if (pos as int) < before.len() {
                        assert(!(box_area(before[pos as int]) >= a));
                    }
                }
                assert(boxes@.take(k as int + 1).filter(pred) == boxes@.take(k as int).filter(
                    pred,
                ).push(b)) by {
                    reveal(Seq::filter);
                }
                vstd::seq_lib::to_multiset_insert(before, pos as int, b);
                vstd::seq_lib::to_multiset_build(boxes@.take(k as int).filter(pred), b);
                assert(out@.to_multiset() == before.to_multiset().insert(b));
                assert(out@.to_multiset() == boxes@.take(k as int + 1).filter(pred).to_multiset());
            }
        } else {
            proof {
                assert(boxes@.take(k as int + 1).filter(pred) =~= boxes@.take(k as int).filter(
                    pred,
                ));
            }
        }
        k = k + 1;
    }
    proof {
        assert(boxes@.take(boxes@.len() as int) =~= boxes@);
    }
    out
}

/// A prefix of the contour list has no more points than the whole, and
/// each contour's length is covered by the prefix that ends with it.
pub proof fn lemma_total_points_monotone(cs: Seq<Seq<Point>>, k: int)
    requires
        0 <= k <= cs.len(),
    ensures
        0 <= total_points(cs.take(k)) <= total_points(cs),
    decreases cs.len() - k,
{
    if k == cs.len() {
        assert(cs.take(k) =~= cs);
        lemma_total_points_nonneg(cs);
    } else {
        lemma_total_points_monotone(cs, k + 1);
        assert(cs.take(k + 1).drop_last() =~= cs.take(k));
        lemma_total_points_nonneg(cs.take(k));
    }
}

/// Point counts are non-negative.
proof fn lemma_total_points_nonneg(cs: Seq<Seq<Point>>)
    ensures
        total_points(cs) >= 0,
    decreases cs.len(),
{
    if cs.len() > 0 {
        lemma_total_points_nonneg(cs.drop_last());
    }
}

/// Strictness corollary: where the surviving areas are pairwise distinct,
/// the descending order is strict.
pub proof fn lemma_sorted_distinct_strict(s: Seq<BoundingBox>)
    requires
        sorted_desc_by_area(s),
        forall|i: int, j: int|
            0 <= i < j < s.len() ==> box_area(s[i]) != box_area(s[j]),
    ensures
        forall|i: int, j: int| 0 <= i < j < s.len() ==> box_area(s[i]) > box_area(s[j]),
{
}

/// The bounding rectangles of the non-empty contours, in order.
pub open spec fn boxes_of(cs: Seq<Seq<Point>>) -> Seq<BoundingBox>
    decreases cs.len(),
{
    if cs.len() == 0 {
        Seq::empty()
    } else {
        let rest = boxes_of(cs.drop_last());
        if cs.last().len() == 0 {
            rest
        } else {
            rest.push(rect_of(cs.last()))
        }
    }
}

/// The view of a contour list as a sequence of point sequences.
pub open spec fn contours_view(contours: Seq<Vec<Point>>) -> Seq<Seq<Point>> {
    contours.map_values(|c: Vec<Point>| c@)
}

/// Law of convergence: a full window of quiet detections (every one with
/// zero total contour area, an empty contour list included) drives the
/// rolling area sum, hence the average, to exactly zero.
pub proof fn lemma_quiet_frames_converge(w: Seq<u64>, frames: Seq<Seq<Seq<Point>>>)
    requires
        w.len() == WINDOW_LEN,
        frames.len() == WINDOW_LEN,
        forall|i: int| 0 <= i < frames.len() ==> total_area(#[trigger] frames[i]) == 0,
    ensures
        sum_of(
            rolling::pushed_all(
                w,
                Seq::new(frames.len(), |i: int| total_area(frames[i]) as u64),
            ),
        ) == 0,
{
    let xs = Seq::new(frames.len(), |i: int| total_area(frames[i]) as u64);
    assert(forall|i: int| 0 <= i < xs.len() ==> xs[i] == 0);
    rolling::lemma_converges_to_zero(w, xs);
}

/// Background-subtraction-based motion detector state.
///
/// The staged mask pipeline runs outside the library; a detection step
/// takes the traced contours and the cleaned mask it produced and performs
/// every published computation exactly: bounding rectangles, the
/// minimum-area filter with descending-area order, and the shoelace total
/// area pushed into the rolling window.
pub struct MotionMog2 {
    diff_mask: Image,
    contours: Vec<Vec<Point>>,
    bounding_boxes: Vec<BoundingBox>,
    bounding_box_min_area: usize,
    mog2_values: RollingWindow,
    mog2_history: u32,
    mog2_var_threshold: Ratio,
    adaptive_block_size: u32,
    adaptive_c: Ratio,
}

/// Area floor below which a bounding box is discarded, in pixels squared.
pub const MIN_BOX_AREA: usize = 500;

impl MotionMog2 {
    /// The mask the staged pipeline last published.
    pub closed spec fn spec_diff_mask(&self) -> Image {
        self.diff_mask
    }

    /// The contours of the last successful detection step.
    pub closed spec fn spec_contours(&self) -> Seq<Seq<Point>> {
        contours_view(self.contours@)
    }

    /// The filtered, descending-area bounding boxes.
    pub closed spec fn spec_bounding_boxes(&self) -> Seq<BoundingBox> {
        self.bounding_boxes@
    }

    /// The minimum surviving box area.
    pub closed spec fn spec_min_area(&self) -> usize {
        self.bounding_box_min_area
    }

    /// The rolling window of per-frame total areas.
    pub closed spec fn spec_window(&self) -> RollingWindow {
        self.mog2_values
    }

    /// The window contents, oldest first.
    pub open spec fn values(&self) -> Seq<u64> {
        self.spec_window().view()
    }

    /// Background-model history length handed to the staged pipeline.
    pub closed spec fn spec_history(&self) -> u32 {
        self.mog2_history
    }

    /// Variance-sensitivity threshold handed to the staged pipeline.
    pub closed spec fn spec_var_threshold(&self) -> Ratio {
        self.mog2_var_threshold
    }

    /// Adaptive-threshold block size handed to the staged pipeline.
    pub closed spec fn spec_adaptive_block_size(&self) -> u32 {
        self.adaptive_block_size
    }

    /// Adaptive-threshold constant handed to the staged pipeline.
    pub closed spec fn spec_adaptive_c(&self) -> Ratio {
        self.adaptive_c
    }

    pub open spec fn wf(&self) -> bool {
        &&& self.spec_diff_mask().wf()
        &&& self.spec_window().wf()
        &&& self.spec_min_area() == MIN_BOX_AREA
    }

    /// Detector sized from a prototype frame, with the background-model
    /// and threshold configuration it hands to the staged pipeline.
    pub fn new(
        prv_frame: &Image,
        history: u32,
        var_threshold: Ratio,
        adaptive_block_size: u32,
        adaptive_c: Ratio,
    ) -> (r: MotionMog2)
        requires
            prv_frame.wf(),
        ensures
            r.wf(),
            r.spec_diff_mask().same_dims(prv_frame),
            forall|i: int|
                0 <= i < r.spec_diff_mask().view().len() ==> r.spec_diff_mask().view()[i] == 0,
            r.spec_contours() == Seq::<Seq<Point>>::empty(),
            r.spec_bounding_boxes() == Seq::<BoundingBox>::empty(),
            r.values() == rolling::zero_window(),
            r.spec_history() == history,
            r.spec_var_threshold() == var_threshold,
            r.spec_adaptive_block_size() == adaptive_block_size,
            r.spec_adaptive_c() == adaptive_c,
    {
        let r = MotionMog2 {
            diff_mask: Image::zeros(prv_frame.width(), prv_frame.height(), prv_frame.channels()),
            contours: Vec::new(),
            bounding_boxes: Vec::new(),
            bounding_box_min_area: MIN_BOX_AREA,
            mog2_values: RollingWindow::new(),
            mog2_history: history,
            mog2_var_threshold: var_threshold,
            adaptive_block_size,
            adaptive_c,
        };
        proof {
            assert(r.spec_contours() =~= Seq::<Seq<Point>>::empty());
        }
        r
    }

    /// Placeholder detector with no expected dimensions, to be replaced
    /// when a session's first frame establishes the buffer size.
    pub fn default() -> (r: MotionMog2)
        ensures
            r.wf(),
            forall|i: int|
                0 <= i < r.spec_diff_mask().view().len() ==> r.spec_diff_mask().view()[i] == 0,
            r.spec_contours() == Seq::<Seq<Point>>::empty(),
            r.spec_bounding_boxes() == Seq::<BoundingBox>::empty(),
            r.values() == rolling::zero_window(),
    {
        let r = MotionMog2 {
            diff_mask: Image::zeros(0, 0, 1),
            contours: Vec::new(),
            bounding_boxes: Vec::new(),
            bounding_box_min_area: MIN_BOX_AREA,
            mog2_values: RollingWindow::new(),
            mog2_history: 0,
            mog2_var_threshold: Ratio::new(0, 1),
            adaptive_block_size: 17,
            adaptive_c: Ratio::new(9, 1),
        };
        proof {
            assert(r.spec_contours() =~= Seq::<Seq<Point>>::empty());
        }
        r
    }

    /// Whether the given contours can be accounted exactly: every point in
    /// coordinate range and no more points in total than one per pixel of
    /// the largest admissible frame.
    pub fn check_contours(contours: &Vec<Vec<Point>>) -> (r: bool)
        ensures
            r == contours_admissible(contours_view(contours@)),
    {
        let ghost cs = contours_view(contours@);
        proof {
            lemma_total_points_monotone(cs, cs.len() as int);
        }
        let mut total: u64 = 0;
        let mut k: usize = 0;
        while k < contours.len()
            invariant
                0 <= k <= contours@.len(),
                cs == contours_view(contours@),
                cs.len() == contours@.len(),
                total == total_points(cs.take(k as int)),
                total <= 0x1000_0000,
                forall|i: int| 0 <= i < k ==> points_in_range(#[trigger] cs[i]),
            decreases contours@.len() - k,
        {
            proof {
                assert(cs.take(k as int + 1).drop_last() =~= cs.take(k as int));
                assert(cs.take(k as int + 1).last() == cs[k as int]);
                assert(cs[k as int] == contours@[k as int]@);
            }
            let c = &contours[k];
            let mut j: usize = 0;
            while j < c.len()
                invariant
                    0 <= j <= c@.len(),
                    cs == contours_view(contours@),
                    c@ == cs[k as int],
                    0 <= k < cs.len(),
                    forall|i: int|
                        0 <= i < j ==> c@[i].x < MAX_DIM && c@[i].y < MAX_DIM,
                decreases c@.len() - j,
            {
                let p = c[j];
                if p.x >= MAX_DIM || p.y >= MAX_DIM {
                    proof {
                        assert(!points_in_range(cs[k as int]));
                    }
                    return false;
                }
                j = j + 1;
            }
            proof {
                assert(points_in_range(cs[k as int]));
            }
            if c.len() as u64 > 0x1000_0000 - total {
                proof {
                    lemma_total_points_monotone(cs, k as int + 1);
                    assert(total_points(cs.take(k as int + 1)) > 0x1000_0000);
                    assert(MAX_DIM * MAX_DIM == 0x1000_0000) by (nonlinear_arith)
                        requires
                            MAX_DIM == 16384,
                    ;
                }
                return false;
            }
            total = total + (c.len() as u64);
            k = k + 1;
        }
        proof {
            assert(cs.take(cs.len() as int) =~= cs);
            assert(MAX_DIM * MAX_DIM == 0x1000_0000) by (nonlinear_arith)
                requires
                    MAX_DIM == 16384,
            ;
        }
        true
    }

    /// One detection step over the traced contours and the mask the staged
    /// pipeline produced from the current frame.
    ///
    /// On admissible contours: stores the contours and mask, recomputes
    /// the bounding boxes (minimum-area filter, descending-area order),
    /// and pushes the total absolute shoelace area into the rolling
    /// window. On inadmissible contours: returns `ProcessingError` and
    /// leaves every published statistic unchanged.
    pub fn update(&mut self, contours: Vec<Vec<Point>>, mask: Image) -> (r: Result<
        (),
        PipelineError,
    >)
        requires
            old(self).wf(),
            mask.wf(),
        ensures
            final(self).wf(),
            r is Ok <==> contours_admissible(contours_view(contours@)),
            r is Err ==> r == Result::<(), PipelineError>::Err(PipelineError::ProcessingError)
                && *final(self) == *old(self),
            r is Ok ==> {
                &&& final(self).spec_diff_mask() == mask
                &&& final(self).spec_contours() == contours_view(contours@)
                &&& final(self).values() == pushed(
                    old(self).values(),
                    total_area(contours_view(contours@)) as u64,
                )
                &&& sorted_desc_by_area(final(self).spec_bounding_boxes())
                &&& forall|i: int|
                    0 <= i < final(self).spec_bounding_boxes().len()
                        ==> box_area(#[trigger] final(self).spec_bounding_boxes()[i])
                        >= MIN_BOX_AREA && final(self).spec_bounding_boxes()[i].wf()
                &&& final(self).spec_bounding_boxes().to_multiset() == boxes_of(
                    contours_view(contours@),
                ).filter(area_pred(MIN_BOX_AREA as int)).to_multiset()
            },
    {
        let ghost cs = contours_view(contours@);
        if !Self::check_contours(&contours) {
            return Err(PipelineError::ProcessingError);
        }
        let area_total: u64 = contours_total_area(&contours);
        let mut rects: Vec<BoundingBox> = Vec::new();
        proof {
            assert(boxes_of(cs.take(0)) =~= Seq::<BoundingBox>::empty()) by {
                assert(cs.take(0) =~= Seq::<Seq<Point>>::empty());
            }
            assert(rects@ =~= boxes_of(cs.take(0)));
        }
        let mut k: usize = 0;
        while k < contours.len()
            invariant
                0 <= k <= contours@.len(),
                cs == contours_view(contours@),
                cs.len() == contours@.len(),
                contours_admissible(cs),
                rects@ == boxes_of(cs.take(k as int)),
                forall|i: int| 0 <= i < rects@.len() ==> (#[trigger] rects@[i]).wf(),
            decreases contours@.len() - k,
        {
            proof {
                assert(cs.take(k as int + 1).drop_last() =~= cs.take(k as int));
                assert(cs.take(k as int + 1).last() == cs[k as int]);
                assert(cs[k as int] == contours@[k as int]@);
            }
            match bounding_rect(&contours[k]) {
                Some(bb) => {
                    rects.push(bb);
                },
                None => {
                },
            }
            k = k + 1;
        }
        proof {
            assert(cs.take(cs.len() as int) =~= cs);
        }
        let sorted = filter_and_sort_boxes(&rects, self.bounding_box_min_area);
        self.mog2_values.push(area_total);
        self.diff_mask = mask;
        self.contours = contours;
        self.bounding_boxes = sorted;
        Ok(())
    }

    /// The background-model and threshold configuration the staged
    /// pipeline runs with: history length, variance sensitivity,
    /// adaptive-threshold block size and constant.
    pub fn get_config(&self) -> (r: (u32, Ratio, u32, Ratio))
        ensures
            r.0 == self.spec_history(),
            r.1 == self.spec_var_threshold(),
            r.2 == self.spec_adaptive_block_size(),
            r.3 == self.spec_adaptive_c(),
    {
        (self.mog2_history, self.mog2_var_threshold, self.adaptive_block_size, self.adaptive_c)
    }

    /// The mask of the last successful detection step, for visualization.
    pub fn get_diff_mask(&self) -> (r: &Image)
        ensures
            *r == self.spec_diff_mask(),
    {
        &self.diff_mask
    }

    /// The contours of the last successful detection step.
    pub fn get_contours(&self) -> (r: &Vec<Vec<Point>>)
        ensures
            contours_view(r@) == self.spec_contours(),
    {
        &self.contours
    }

    /// The rolling window's samples, oldest first.
    pub fn get_values(&self) -> (r: &Vec<u64>)
        ensures
            r@ == self.values(),
    {
        self.mog2_values.samples()
    }

    /// The filtered bounding boxes, largest area first.
    pub fn get_bounding_boxes(&self) -> (r: &Vec<BoundingBox>)
        ensures
            r@ == self.spec_bounding_boxes(),
    {
        &self.bounding_boxes
    }

    /// Most recent total-area sample.
    pub fn get_area(&self) -> (r: u64)
        requires
            self.wf(),
        ensures
            r == self.values().last(),
    {
        self.mog2_values.latest()
    }

    /// Mean total area over the full window: the exact quotient of the
    /// window sum over `WINDOW_LEN` (zero-seeded slots included).
    pub fn get_area_avg(&self) -> (r: Ratio)
        requires
            self.wf(),
        ensures
            r.num == sum_of(self.values()),
            r.den == WINDOW_LEN,
            r.wf(),
    {
        self.mog2_values.average()
    }
}

} // verus!
