//! Spatial subdivision analyzer.
//!
//! Partitions a frame into a `rows x cols` grid of regions and runs one
//! coarse change detector per region, so change can be localized. Region
//! width is `floor(width / cols)` and height `floor(height / rows)`; every
//! region in the last column extends to the true right edge and every
//! region in the last row to the true bottom edge, so the regions tile the
//! resolution exactly, whatever the divisibility.

use vstd::prelude::*;
use vstd::arithmetic::div_mod::lemma_fundamental_div_mod;
use crate::PipelineError;
use crate::coarse::{MeanSquaredError, coarse_sample};
use crate::image::{Image, MAX_DIM};
use crate::ratio::{Ratio, ratio_ge};
use crate::rolling::pushed;

verus! {

/// Axis-aligned grid cell with strictly positive extent.
#[derive(Clone, Copy, Debug, PartialEq, Eq, Structural)]
pub struct Region {
    pub x: usize,
    pub y: usize,
    pub width: usize,
    pub height: usize,
}

/// A grid is admissible when it has at least one row and one column, and
/// no more of either than the resolution has pixels, so every region gets
/// a strictly positive extent.
pub open spec fn grid_admissible(rows: int, cols: int, width: int, height: int) -> bool {
    &&& 1 <= cols <= width <= MAX_DIM
    &&& 1 <= rows <= height <= MAX_DIM
}

/// Width of the region in column `c`: the floor share, except that the
/// last column extends to the right edge.
pub open spec fn col_width(width: int, cols: int, c: int) -> int {
    if c == cols - 1 {
        width - c * (width / cols)
    } else {
        width / cols
    }
}

/// Height of the region in row `r`: the floor share, except that the last
/// row extends to the bottom edge.
pub open spec fn row_height(height: int, rows: int, r: int) -> int {
    if r == rows - 1 {
        height - r * (height / rows)
    } else {
        height / rows
    }
}

/// The region of grid cell `(r, c)`.
pub open spec fn region_at(rows: int, cols: int, width: int, height: int, r: int, c: int) -> Region {
    Region {
        x: (c * (width / cols)) as usize,
        y: (r * (height / rows)) as usize,
        width: col_width(width, cols, c) as usize,
        height: row_height(height, rows, r) as usize,
    }
}

/// One axis of the tiling: for an admissible split of `extent` into `n`
/// shares, each share is strictly positive, lies inside the extent, and
/// consecutive shares abut.
pub proof fn lemma_axis_geometry(extent: int, n: int, k: int)
    requires
        1 <= n <= extent,
        0 <= k < n,
    ensures
        1 <= extent / n,
        k * (extent / n) + (if k == n - 1 {
            extent - k * (extent / n)
        } else {
            extent / n
        }) <= extent,
        k == n - 1 ==> extent - k * (extent / n) >= extent / n,
        k * (extent / n) >= 0,
        k * (extent / n) <= (n - 1) * (extent / n),
{
    lemma_fundamental_div_mod(extent, n);
    let s = extent / n;
    assert(1 <= s) by (nonlinear_arith)
        requires
            extent == n * s + extent % n,
            0 <= extent % n < n,
            1 <= n <= extent,
    ;
    assert(k * s + s <= n * s && n * s <= extent && k * s >= 0 && k * s <= (n - 1) * s)
        by (nonlinear_arith)
        requires
            extent == n * s + extent % n,
            0 <= extent % n < n,
            0 <= k < n,
            s >= 1,
    ;
}

/// Sum of the widths of the first `c` columns.
pub open spec fn col_width_sum(width: int, cols: int, c: int) -> int
    decreases c,
{
    if c <= 0 {
        0
    } else {
        col_width_sum(width, cols, c - 1) + col_width(width, cols, c - 1)
    }
}

/// Sum of the heights of the first `r` rows.
pub open spec fn row_height_sum(height: int, rows: int, r: int) -> int
    decreases r,
{
    if r <= 0 {
        0
    } else {
        row_height_sum(height, rows, r - 1) + row_height(height, rows, r - 1)
    }
}

/// Partial column sums of the floor share accumulate linearly.
proof fn lemma_axis_sum_partial(extent: int, n: int, k: int)
    requires
        1 <= n <= extent,
        0 <= k <= n - 1,
    ensures
        col_width_sum(extent, n, k) == k * (extent / n),
    decreases k,
{
    if k > 0 {
        lemma_axis_sum_partial(extent, n, k - 1);
        assert((k - 1) * (extent / n) + extent / n == k * (extent / n)) by (nonlinear_arith);
    } else {
        assert(k * (extent / n) == 0) by (nonlinear_arith)
            requires
                k == 0,
        ;
    }
}

/// Law of exact tiling, one axis: the shares of an admissible split sum
/// to the full extent.
pub proof fn lemma_axis_sum(extent: int, n: int)
    requires
        1 <= n <= extent,
    ensures
        col_width_sum(extent, n, n) == extent,
{
    lemma_axis_sum_partial(extent, n, n - 1);
}

/// Law of exact tiling: across any single row the region widths sum to
/// the full width, down any single column the region heights sum to the
/// full height, and every region has strictly positive width and height.
/// It holds for any grid with at least one pixel per row and column; the
/// image model's dimension caps play no part in it.
pub proof fn lemma_region_tiling(rows: int, cols: int, width: int, height: int)
    requires
        1 <= cols <= width,
        1 <= rows <= height,
    ensures
        col_width_sum(width, cols, cols) == width,
        row_height_sum(height, rows, rows) == height,
        forall|c: int| 0 <= c < cols ==> #[trigger] col_width(width, cols, c) >= 1,
        forall|r: int| 0 <= r < rows ==> #[trigger] row_height(height, rows, r) >= 1,
{
    lemma_axis_sum(width, cols);
    assert forall|c: int| 0 <= c < cols implies #[trigger] col_width(width, cols, c) >= 1 by {
        lemma_axis_geometry(width, cols, c);
    }
    assert forall|r: int| 0 <= r < rows implies #[trigger] row_height(height, rows, r) >= 1 by {
        lemma_axis_geometry(height, rows, r);
    }
    assert(row_height_sum(height, rows, rows) == height) by {
        lemma_row_sum_is_col_sum(height, rows, rows);
        lemma_axis_sum(height, rows);
    }
}

/// The two axis sums are the same function of their arguments.
proof fn lemma_row_sum_is_col_sum(extent: int, n: int, k: int)
    ensures
        row_height_sum(extent, n, k) == col_width_sum(extent, n, k),
    decreases k,
{
    if k > 0 {
        lemma_row_sum_is_col_sum(extent, n, k - 1);
    }
}

/// Grid subdivision with one coarse detector per region.
pub struct MseSubdivide {
    dimensions: (usize, usize),
    resolution: (usize, usize),
    cells: Vec<MeanSquaredError>,
    regions: Vec<Region>,
}

impl MseSubdivide {
    /// Grid shape as `(rows, cols)`.
    pub closed spec fn spec_dimensions(&self) -> (usize, usize) {
        self.dimensions
    }

    /// Frame resolution as `(width, height)`.
    pub closed spec fn spec_resolution(&self) -> (usize, usize) {
        self.resolution
    }

    /// The per-region coarse detectors, row-major.
    pub closed spec fn spec_cells(&self) -> Seq<MeanSquaredError> {
        self.cells@
    }

    /// The precomputed regions, row-major.
    pub closed spec fn spec_regions(&self) -> Seq<Region> {
        self.regions@
    }

    pub open spec fn rows(&self) -> int {
        self.spec_dimensions().0 as int
    }

    pub open spec fn cols(&self) -> int {
        self.spec_dimensions().1 as int
    }

    pub open spec fn res_w(&self) -> int {
        self.spec_resolution().0 as int
    }

    pub open spec fn res_h(&self) -> int {
        self.spec_resolution().1 as int
    }

    pub open spec fn wf(&self) -> bool {
        &&& grid_admissible(self.rows(), self.cols(), self.res_w(), self.res_h())
        &&& self.spec_regions().len() == self.rows() * self.cols()
        &&& self.spec_cells().len() == self.spec_regions().len()
        &&& forall|r: int, c: int|
            0 <= r < self.rows() && 0 <= c < self.cols()
                ==> #[trigger] self.spec_regions()[r * self.cols() + c] == region_at(
                self.rows(),
                self.cols(),
                self.res_w(),
                self.res_h(),
                r,
                c,
            )
        &&& forall|i: int|
            0 <= i < self.spec_cells().len() ==> (#[trigger] self.spec_cells()[i]).wf()
                && self.spec_cells()[i].spec_is_ready() && self.spec_cells()[i].spec_width()
                == self.spec_regions()[i].width && self.spec_cells()[i].spec_height()
                == self.spec_regions()[i].height && self.spec_cells()[i].spec_channels() == 1
    }

    /// The floor share of the resolution per grid cell: `(width / cols,
    /// height / rows)`.
    pub fn calculate_region_dimension(dimensions: (usize, usize), resolution: (usize, usize)) -> (r:
        (usize, usize))
        requires
            dimensions.0 >= 1,
            dimensions.1 >= 1,
        ensures
            r.0 == resolution.0 as int / dimensions.1 as int,
            r.1 == resolution.1 as int / dimensions.0 as int,
    {
        (resolution.0 / dimensions.1, resolution.1 / dimensions.0)
    }

    /// The row-major region tiling of `resolution` by a `(rows, cols)`
    /// grid: floor shares, with the last column and last row extended to
    /// the true edges.
    pub fn calculate_regions(dimensions: (usize, usize), resolution: (usize, usize)) -> (v: Vec<
        Region,
    >)
        requires
            grid_admissible(
                dimensions.0 as int,
                dimensions.1 as int,
                resolution.0 as int,
                resolution.1 as int,
            ),
        ensures
            v@.len() == dimensions.0 * dimensions.1,
            forall|r: int, c: int|
                0 <= r < dimensions.0 && 0 <= c < dimensions.1 ==> #[trigger] v@[r * dimensions.1
                    + c] == region_at(
                    dimensions.0 as int,
                    dimensions.1 as int,
                    resolution.0 as int,
                    resolution.1 as int,
                    r,
                    c,
                ),
    {
        let rows = dimensions.0;
        let cols = dimensions.1;
        let width = resolution.0;
        let height = resolution.1;
        let rw: usize = width / cols;
        let rh: usize = height / rows;
        let mut v: Vec<Region> = Vec::new();
        let mut r: usize = 0;
        while r < rows
            invariant
                0 <= r <= rows,
                rows == dimensions.0,
                cols == dimensions.1,
                width == resolution.0,
                height == resolution.1,
                rw == width as int / cols as int,
                rh == height as int / rows as int,
                grid_admissible(rows as int, cols as int, width as int, height as int),
                v@.len() == r * cols,
                forall|rr: int, c: int|
                    0 <= rr < r && 0 <= c < cols ==> #[trigger] v@[rr * cols + c] == region_at(
                        rows as int,
                        cols as int,
                        width as int,
                        height as int,
                        rr,
                        c,
                    ),
            decreases rows - r,
        {
            let mut c: usize = 0;
            while c < cols
                invariant
                    0 <= c <= cols,
                    0 <= r < rows,
                    rows == dimensions.0,
                    cols == dimensions.1,
                    width == resolution.0,
                    height == resolution.1,
                    rw == width as int / cols as int,
                    rh == height as int / rows as int,
                    grid_admissible(rows as int, cols as int, width as int, height as int),
                    v@.len() == r * cols + c,
                    forall|rr: int, cc: int|
                        0 <= rr < r && 0 <= cc < cols ==> #[trigger] v@[rr * cols + cc]
                            == region_at(
                            rows as int,
                            cols as int,
                            width as int,
                            height as int,
                            rr,
                            cc,
                        ),
                    forall|cc: int|
                        0 <= cc < c ==> #[trigger] v@[r * cols + cc] == region_at(
                            rows as int,
                            cols as int,
                            width as int,
                            height as int,
                            r as int,
                            cc,
                        ),
                decreases cols - c,
            {
                proof {
                    lemma_axis_geometry(width as int, cols as int, c as int);
                    lemma_axis_geometry(height as int, rows as int, r as int);
                }
                let x: usize = c * rw;
                let y: usize = r * rh;
                let w: usize = if c == cols - 1 {
                    width - x
                } else {
                    rw
                };
                let h: usize = if r == rows - 1 {
                    height - y
                } else {
                    rh
                };
                let region = Region { x, y, width: w, height: h };
                v.push(region);
                proof {
                    assert forall|rr: int, cc: int|
                        0 <= rr < r && 0 <= cc < cols implies #[trigger] v@[rr * cols + cc]
                        == region_at(
                        rows as int,
                        cols as int,
                        width as int,
                        height as int,
                        rr,
                        cc,
                    ) by {
                        assert(0 <= rr * cols + cc && rr * cols + cc < r * cols + c)
                            by (nonlinear_arith)
                            requires
                                0 <= rr < r,
                                0 <= cc < cols,
                                c >= 0,
                        ;
                    }
                }
                c = c + 1;
            }
            proof {
                assert((r + 1) * cols == r * cols + cols) by (nonlinear_arith);
            }
            r = r + 1;
        }
        v
    }

    /// Analyzer over a `(rows, cols)` grid of `resolution`: precomputes
    /// the tiling and creates one zero-seeded coarse detector per region.
    pub fn new(dimensions: (usize, usize), resolution: (usize, usize)) -> (s: MseSubdivide)
        requires
            grid_admissible(
                dimensions.0 as int,
                dimensions.1 as int,
                resolution.0 as int,
                resolution.1 as int,
            ),
        ensures
            s.wf(),
            s.spec_dimensions() == dimensions,
            s.spec_resolution() == resolution,
            forall|i: int|
                0 <= i < s.spec_cells().len() ==> (#[trigger] s.spec_cells()[i]).values()
                    == crate::rolling::zero_window(),
    {
        let regions = Self::calculate_regions(dimensions, resolution);
        let rows = dimensions.0;
        let cols = dimensions.1;
        proof {
            assert(rows * cols >= 0) by (nonlinear_arith)
                requires
                    rows >= 0,
                    cols >= 0,
            ;
        }
        let mut cells: Vec<MeanSquaredError> = Vec::new();
        let mut i: usize = 0;
        while i < regions.len()
            invariant
                0 <= i <= regions@.len(),
                regions@.len() == rows * cols,
                rows == dimensions.0,
                cols == dimensions.1,
                grid_admissible(
                    rows as int,
                    cols as int,
                    resolution.0 as int,
                    resolution.1 as int,
                ),
                forall|r: int, c: int|
                    0 <= r < rows && 0 <= c < cols ==> #[trigger] regions@[r * cols + c]
                        == region_at(
                        rows as int,
                        cols as int,
                        resolution.0 as int,
                        resolution.1 as int,
                        r,
                        c,
                    ),
                cells@.len() == i,
                forall|k: int|
                    0 <= k < i ==> (#[trigger] cells@[k]).wf() && cells@[k].spec_is_ready()
                        && cells@[k].spec_width() == regions@[k].width && cells@[k].spec_height()
                        == regions@[k].height && cells@[k].spec_channels() == 1 && cells@[k].values()
                        == crate::rolling::zero_window(),
            decreases regions@.len() - i,
        {
            proof {
                lemma_index_to_grid(i as int, rows as int, cols as int);
                let r = i as int / cols as int;
                let c = i as int % cols as int;
                assert(regions@[r * cols + c] == region_at(
                    rows as int,
                    cols as int,
                    resolution.0 as int,
                    resolution.1 as int,
                    r,
                    c,
                ));
                lemma_axis_geometry(resolution.0 as int, cols as int, c);
                lemma_axis_geometry(resolution.1 as int, rows as int, r);
            }
            let region = regions[i];
            let proto = Image::zeros(region.width, region.height, 1);
            cells.push(MeanSquaredError::new(&proto));
            i = i + 1;
        }
        let s = MseSubdivide { dimensions, resolution, cells, regions };
        proof {
            assert(s.wf()) by {
                assert forall|i2: int| 0 <= i2 < s.spec_cells().len() implies (
                #[trigger] s.spec_cells()[i2]).wf() && s.spec_cells()[i2].spec_is_ready()
                    && s.spec_cells()[i2].spec_width() == s.spec_regions()[i2].width
                    && s.spec_cells()[i2].spec_height() == s.spec_regions()[i2].height
                    && s.spec_cells()[i2].spec_channels() == 1 by {}
            }
        }
        s
    }
}

/// Whether a cell's mask is painted into the composite: always, if no
/// threshold was supplied; otherwise exactly when the cell's latest
/// statistic reaches the threshold.
pub open spec fn painted(cell: MeanSquaredError, thr: Option<Ratio>) -> bool {
    match thr {
        Option::None => true,
        Option::Some(t) => ratio_ge(
            Ratio { num: cell.values().last(), den: cell.spec_num_pixels() as u64 },
            t,
        ),
    }
}

impl MseSubdivide {
    /// The per-frame statistic a region contributes: the total absolute
    /// difference over the region's crops of the two frames.
    pub open spec fn region_sample(prev: Image, cur: Image, reg: Region) -> int {
        coarse_sample(
            prev.crop_view(reg.x as int, reg.y as int, reg.width as int, reg.height as int),
            cur.crop_view(reg.x as int, reg.y as int, reg.width as int, reg.height as int),
        )
    }

    /// The diff mask a region's detector publishes after an update: the
    /// elementwise absolute difference of the region's crops.
    pub open spec fn region_mask(prev: Image, cur: Image, reg: Region) -> Seq<u8> {
        crate::coarse::abs_diff_seq(
            prev.crop_view(reg.x as int, reg.y as int, reg.width as int, reg.height as int),
            cur.crop_view(reg.x as int, reg.y as int, reg.width as int, reg.height as int),
        )
    }

    /// A frame this analyzer accepts: the configured resolution, one
    /// channel.
    pub open spec fn accepts(&self, frame: &Image) -> bool {
        &&& frame.spec_width() == self.spec_resolution().0
        &&& frame.spec_height() == self.spec_resolution().1
        &&& frame.spec_channels() == 1
    }

    /// One analysis step: crops each region out of both frames (as
    /// independent copies, never aliased views) and feeds the pair to that
    /// region's coarse detector. On mismatched frames: returns
    /// `ProcessingError` with every cell unchanged.
    pub fn calculate_mse(&mut self, prv_frame: &Image, cur_frame: &Image) -> (r: Result<
        (),
        PipelineError,
    >)
        requires
            old(self).wf(),
            prv_frame.wf(),
            cur_frame.wf(),
        ensures
            final(self).wf(),
            final(self).spec_dimensions() == old(self).spec_dimensions(),
            final(self).spec_resolution() == old(self).spec_resolution(),
            final(self).spec_regions() == old(self).spec_regions(),
            r is Ok <==> (old(self).accepts(prv_frame) && old(self).accepts(cur_frame)),
            r is Err ==> r == Result::<(), PipelineError>::Err(PipelineError::ProcessingError)
                && *final(self) == *old(self),
            r is Ok ==> {
                &&& final(self).spec_cells().len() == old(self).spec_cells().len()
                &&& forall|i: int|
                    0 <= i < final(self).spec_cells().len()
                        ==> (#[trigger] final(self).spec_cells()[i]).values() == pushed(
                        old(self).spec_cells()[i].values(),
                        Self::region_sample(
                            *prv_frame,
                            *cur_frame,
                            old(self).spec_regions()[i],
                        ) as u64,
                    ) && final(self).spec_cells()[i].spec_diff_mask().view() == Self::region_mask(
                        *prv_frame,
                        *cur_frame,
                        old(self).spec_regions()[i],
                    )
            },
    {
        let ok_prev = prv_frame.width() == self.resolution.0 && prv_frame.height()
            == self.resolution.1 && prv_frame.channels() == 1;
        let ok_cur = cur_frame.width() == self.resolution.0 && cur_frame.height()
            == self.resolution.1 && cur_frame.channels() == 1;
        if !(ok_prev && ok_cur) {
            return Err(PipelineError::ProcessingError);
        }
        let ghost old_cells = self.cells@;
        let n = self.cells.len();
        let mut i: usize = 0;
        while i < n
            invariant
                0 <= i <= n,
                self.wf(),
                prv_frame.wf(),
                cur_frame.wf(),
                self.accepts(prv_frame),
                self.accepts(cur_frame),
                n == self.spec_cells().len(),
                self.spec_dimensions() == old(self).spec_dimensions(),
                self.spec_resolution() == old(self).spec_resolution(),
                self.spec_regions() == old(self).spec_regions(),
                old_cells == old(self).spec_cells(),
                old_cells.len() == n,
                forall|k: int|
                    i <= k < n ==> #[trigger] self.spec_cells()[k] == old_cells[k],
                forall|k: int|
                    0 <= k < i ==> (#[trigger] self.spec_cells()[k]).values() == pushed(
                        old_cells[k].values(),
                        Self::region_sample(*prv_frame, *cur_frame, self.spec_regions()[k]) as u64,
                    ) && self.spec_cells()[k].spec_diff_mask().view() == Self::region_mask(
                        *prv_frame,
                        *cur_frame,
                        self.spec_regions()[k],
                    ),
            decreases n - i,
        {
            proof {
                lemma_index_to_grid(i as int, self.rows(), self.cols());
                let r = i as int / self.cols();
                let c = i as int % self.cols();
                assert(self.spec_regions()[r * self.cols() + c] == region_at(
                    self.rows(),
                    self.cols(),
                    self.res_w(),
                    self.res_h(),
                    r,
                    c,
                ));
                lemma_axis_geometry(self.res_w(), self.cols(), c);
                lemma_axis_geometry(self.res_h(), self.rows(), r);
            }
            let reg = self.regions[i];
            let pc = prv_frame.crop(reg.x, reg.y, reg.width, reg.height);
            let cc = cur_frame.crop(reg.x, reg.y, reg.width, reg.height);
            let res = self.cells[i].update(&pc, &cc);
            proof {
                assert(res is Ok);
            }
            i = i + 1;
        }
        Ok(())
    }

    /// One analysis step over a consecutive frame pair (the entry point
    /// the pipeline drives).
    pub fn update(&mut self, prv_frame: &Image, cur_frame: &Image) -> (r: Result<
        (),
        PipelineError,
    >)
        requires
            old(self).wf(),
            prv_frame.wf(),
            cur_frame.wf(),
        ensures
            final(self).wf(),
            final(self).spec_dimensions() == old(self).spec_dimensions(),
            final(self).spec_resolution() == old(self).spec_resolution(),
            final(self).spec_regions() == old(self).spec_regions(),
            r is Ok <==> (old(self).accepts(prv_frame) && old(self).accepts(cur_frame)),
            r is Err ==> r == Result::<(), PipelineError>::Err(PipelineError::ProcessingError)
                && *final(self) == *old(self),
            r is Ok ==> {
                &&& final(self).spec_cells().len() == old(self).spec_cells().len()
                &&& forall|i: int|
                    0 <= i < final(self).spec_cells().len()
                        ==> (#[trigger] final(self).spec_cells()[i]).values() == pushed(
                        old(self).spec_cells()[i].values(),
                        Self::region_sample(
                            *prv_frame,
                            *cur_frame,
                            old(self).spec_regions()[i],
                        ) as u64,
                    ) && final(self).spec_cells()[i].spec_diff_mask().view() == Self::region_mask(
                        *prv_frame,
                        *cur_frame,
                        old(self).spec_regions()[i],
                    )
            },
    {
        self.calculate_mse(prv_frame, cur_frame)
    }

    /// The diff mask of one region's detector, as an independent copy;
    /// `None` exactly when the index is out of range, never an error.
    pub fn get_region_frame(&self, index: usize) -> (r: Option<Image>)
        requires
            self.wf(),
        ensures
            r is Some <==> index < self.spec_cells().len(),
            r is Some ==> r->Some_0.view() == self.spec_cells()[index as int].spec_diff_mask().view()
                && r->Some_0.wf(),
    {
        if index >= self.cells.len() {
            return None;
        }
        Some(self.cells[index].get_diff_mask().duplicate())
    }
}

/// Locating a coordinate on one axis of the tiling: the owning share is
/// the floor quotient, clamped to the last share, and the coordinate lies
/// strictly inside that share's extent.
pub proof fn lemma_locate(v: int, n: int, extent: int)
    requires
        1 <= n <= extent,
        0 <= v < extent,
    ensures
        ({
            let s = extent / n;
            let b = if v / s >= n - 1 {
                n - 1
            } else {
                v / s
            };
            &&& 0 <= b < n
            &&& b * s <= v
            &&& v < b * s + (if b == n - 1 {
                extent - b * s
            } else {
                s
            })
        }),
{
    let s = extent / n;
    lemma_fundamental_div_mod(extent, n);
    assert(1 <= s) by (nonlinear_arith)
        requires
            extent == n * s + extent % n,
            0 <= extent % n < n,
            1 <= n <= extent,
    ;
    lemma_fundamental_div_mod(v, s);
    let q = v / s;
    assert(0 <= q) by (nonlinear_arith)
        requires
            v == s * q + v % s,
            0 <= v % s < s,
            0 <= v,
            s >= 1,
    ;
    if q >= n - 1 {
        assert((n - 1) * s <= s * q && s * q <= v) by (nonlinear_arith)
            requires
                v == s * q + v % s,
                0 <= v % s < s,
                n - 1 <= q,
                s >= 1,
        ;
    } else {
        assert(q * s <= v && v < q * s + s) by (nonlinear_arith)
            requires
                v == s * q + v % s,
                0 <= v % s < s,
        ;
    }
}

impl MseSubdivide {
    /// The grid cell a pixel belongs to, row-major.
    pub open spec fn region_index_of(&self, x: int, y: int) -> int {
        let rw = self.res_w() / self.cols();
        let rh = self.res_h() / self.rows();
        let c = if x / rw >= self.cols() - 1 {
            self.cols() - 1
        } else {
            x / rw
        };
        let r = if y / rh >= self.rows() - 1 {
            self.rows() - 1
        } else {
            y / rh
        };
        r * self.cols() + c
    }

    /// The byte the composite holds at pixel `(x, y)`: the owning cell's
    /// diff mask where that cell is painted, blank otherwise.
    pub open spec fn composite_byte(&self, thr: Option<Ratio>, x: int, y: int) -> u8 {
        let idx = self.region_index_of(x, y);
        let reg = self.spec_regions()[idx];
        let cell = self.spec_cells()[idx];
        if painted(cell, thr) {
            cell.spec_diff_mask().byte_at(y - reg.y, x - reg.x)
        } else {
            0
        }
    }

    /// Builds the full-resolution composite of the cells' diff masks,
    /// each pasted into its region. With a threshold supplied, cells
    /// whose latest statistic falls below it are painted blank instead,
    /// spatially highlighting only the regions exceeding it.
    pub fn get_frame(&self, threshold: Option<Ratio>) -> (r: Image)
        requires
            self.wf(),
        ensures
            r.wf(),
            r.spec_width() == self.spec_resolution().0,
            r.spec_height() == self.spec_resolution().1,
            r.spec_channels() == 1,
            forall|x: int, y: int|
                0 <= x < self.res_w() && 0 <= y < self.res_h() ==> #[trigger] r.byte_at(y, x)
                    == self.composite_byte(threshold, x, y),
    {
        let rows = self.dimensions.0;
        let cols = self.dimensions.1;
        let width = self.resolution.0;
        let height = self.resolution.1;
        let rw: usize = width / cols;
        let rh: usize = height / rows;
        let n = self.cells.len();
        // which cells are painted
        let mut flags: Vec<bool> = Vec::new();
        let mut i: usize = 0;
        while i < n
            invariant
                0 <= i <= n,
                self.wf(),
                n == self.spec_cells().len(),
                flags@.len() == i,
                forall|k: int|
                    0 <= k < i ==> #[trigger] flags@[k] == painted(
                        self.spec_cells()[k],
                        threshold,
                    ),
            decreases n - i,
        {
            let f: bool = match &threshold {
                Option::None => true,
                Option::Some(t) => self.cells[i].get_value().ge(t),
            };
            flags.push(f);
            i = i + 1;
        }
        // fill the composite pixel by pixel
        proof {
            lemma_axis_geometry(self.res_w(), self.cols(), 0);
            lemma_axis_geometry(self.res_h(), self.rows(), 0);
        }
        let mut data: Vec<u8> = Vec::new();
        let mut y: usize = 0;
        while y < height
            invariant
                0 <= y <= height,
                self.wf(),
                rows == self.spec_dimensions().0,
                cols == self.spec_dimensions().1,
                width == self.spec_resolution().0,
                height == self.spec_resolution().1,
                rw == self.res_w() / self.cols(),
                rh == self.res_h() / self.rows(),
                rw >= 1,
                rh >= 1,
                n == self.spec_cells().len(),
                flags@.len() == n,
                forall|k: int|
                    0 <= k < n ==> #[trigger] flags@[k] == painted(
                        self.spec_cells()[k],
                        threshold,
                    ),
                data@.len() == y * width,
                forall|xx: int, yy: int|
                    0 <= xx < width && 0 <= yy < y ==> #[trigger] data@[yy * width + xx]
                        == self.composite_byte(threshold, xx, yy),
            decreases height - y,
        {
            proof {
                crate::image::lemma_row_end(y as int, width as int, height as int);
            }
            let ghost pre = data@;
            let mut x: usize = 0;
            while x < width
                invariant
                    0 <= x <= width,
                    0 <= y < height,
                    self.wf(),
                    rows == self.spec_dimensions().0,
                    cols == self.spec_dimensions().1,
                    width == self.spec_resolution().0,
                    height == self.spec_resolution().1,
                    rw == self.res_w() / self.cols(),
                    rh == self.res_h() / self.rows(),
                    rw >= 1,
                    rh >= 1,
                    n == self.spec_cells().len(),
                    flags@.len() == n,
                    forall|k: int|
                        0 <= k < n ==> #[trigger] flags@[k] == painted(
                            self.spec_cells()[k],
                            threshold,
                        ),
                    pre.len() == y * width,
                    data@.len() == y * width + x,
                    forall|i2: int| 0 <= i2 < pre.len() ==> #[trigger] data@[i2] == pre[i2],
                    forall|xx: int|
                        0 <= xx < x ==> #[trigger] data@[y * width + xx] == self.composite_byte(
                            threshold,
                            xx,
                            y as int,
                        ),
                decreases width - x,
            {
                proof {
                    lemma_locate(x as int, cols as int, width as int);
                    lemma_locate(y as int, rows as int, height as int);
                }
                let cq: usize = x / rw;
                let c: usize = if cq >= cols - 1 {
                    cols - 1
                } else {
                    cq
                };
                let rq: usize = y / rh;
                let r: usize = if rq >= rows - 1 {
                    rows - 1
                } else {
                    rq
                };
                proof {
                    assert(0 <= (r as int) * (cols as int) + (c as int) && (r as int) * (
                    cols as int) + (c as int) < (rows as int) * (cols as int)) by (nonlinear_arith)
                        requires
                            0 <= r < rows,
                            0 <= c < cols,
                    ;
                    let idx = (r as int) * (cols as int) + (c as int);
                    assert(self.spec_regions()[idx] == region_at(
                        self.rows(),
                        self.cols(),
                        self.res_w(),
                        self.res_h(),
                        r as int,
                        c as int,
                    ));
                    assert(idx == self.region_index_of(x as int, y as int));
                }
                let idx: usize = r * cols + c;
                let reg = self.regions[idx];
                proof {
                    lemma_axis_geometry(self.res_w(), self.cols(), c as int);
                    lemma_axis_geometry(self.res_h(), self.rows(), r as int);
                    assert(reg == region_at(
                        self.rows(),
                        self.cols(),
                        self.res_w(),
                        self.res_h(),
                        r as int,
                        c as int,
                    ));
                    assert(1 <= reg.width <= 16384 && 1 <= reg.height <= 16384);
                    assert(reg.x <= x < reg.x + reg.width);
                    assert(reg.y <= y < reg.y + reg.height);
                }
                let b: u8 = if flags[idx] {
                    let cell_mask = self.cells[idx].get_diff_mask();
                    let ly: usize = y - reg.y;
                    let lx: usize = x - reg.x;
                    proof {
                        crate::image::lemma_flat_index(
                            ly as int,
                            lx as int,
                            cell_mask.row_len(),
                            cell_mask.spec_height() as int,
                        );
                        assert((ly as int) * (reg.width as int) + (lx as int) < 0x1000_0000)
                            by (nonlinear_arith)
                            requires
                                0 <= ly,
                                ly < reg.height <= 16384,
                                0 <= lx,
                                lx < reg.width <= 16384,
                        ;
                    }
                    cell_mask.data()[ly * reg.width + lx]
                } else {
                    0
                };
                data.push(b);
                x = x + 1;
            }
            proof {
                assert((y + 1) * width == y * width + width) by (nonlinear_arith);
                assert forall|xx: int, yy: int|
                    0 <= xx < width && 0 <= yy < y + 1 implies #[trigger] data@[yy * width + xx]
                    == self.composite_byte(threshold, xx, yy) by {
                    if yy < y {
                        crate::image::lemma_row_lt(yy, xx, y as int, width as int);
                        assert(data@[yy * width + xx] == pre[yy * width + xx]);
                    }
                }
            }
            y = y + 1;
        }
        let img = Image::from_raw(width, height, 1, data);
        proof {
            assert(width * 1 == width && (height * (width * 1)) == height * width
                && height * width == data@.len()) by (nonlinear_arith)
            // data length is height rows of width bytes
                requires
                    data@.len() == height * width,
            ;
            assert(img is Some);
        }
        let out = match img {
            Option::Some(im) => im,
            Option::None => Image::zeros(0, 0, 1),
        };
        proof {
            assert forall|x: int, y: int|
                0 <= x < self.res_w() && 0 <= y < self.res_h() implies #[trigger] out.byte_at(y, x)
                == self.composite_byte(threshold, x, y) by {
                assert(out.byte_at(y, x) == out.view()[y * out.row_len() + x]);
                assert(out.view()[y * (width as int) + x] == self.composite_byte(threshold, x, y));
            }
        }
        out
    }
}

/// A row-major index decomposes into its grid row and column.
pub proof fn lemma_index_to_grid(i: int, rows: int, cols: int)
    requires
        rows >= 1,
        cols >= 1,
        0 <= i < rows * cols,
    ensures
        0 <= i / cols < rows,
        0 <= i % cols < cols,
        i == (i / cols) * cols + i % cols,
{
    lemma_fundamental_div_mod(i, cols);
    assert(cols * (i / cols) == (i / cols) * cols) by (nonlinear_arith);
    assert(0 <= i / cols < rows) by (nonlinear_arith)
        requires
            i == cols * (i / cols) + i % cols,
            0 <= i % cols < cols,
            0 <= i < rows * cols,
            cols >= 1,
    ;
}

} // verus!
