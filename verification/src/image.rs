//! Owned image buffers.
//!
//! A buffer is a row-major byte matrix: `height` rows of `width * channels`
//! bytes. The heavy image-processing primitives (resizing, colorspace
//! conversion, background subtraction, morphology, contour tracing) are
//! consumed outside the library as documented buffer-to-buffer operations;
//! what the library computes itself are the exact elementwise operations the
//! detectors' statistics are defined by: absolute difference, saturating
//! elementwise product, element sum, cropping and pasting of sub-rectangles.

use vstd::prelude::*;

verus! {

/// Largest admissible width or height. Keeps every flat index and every
/// derived statistic comfortably inside the machine types.
pub const MAX_DIM: usize = 16384;

/// Largest admissible channel count (grayscale to BGRA).
pub const MAX_CHANNELS: usize = 4;

/// Absolute difference of two bytes.
pub open spec fn abs_diff(a: u8, b: u8) -> u8 {
    if a >= b {
        (a - b) as u8
    } else {
        (b - a) as u8
    }
}

/// Product of two bytes, saturated at the byte maximum.
pub open spec fn sat_mul(a: u8, b: u8) -> u8 {
    if a * b > 255 {
        255u8
    } else {
        (a * b) as u8
    }
}

/// Sum of a byte sequence, as an unbounded integer.
pub open spec fn byte_sum(s: Seq<u8>) -> int
    decreases s.len(),
{
    if s.len() == 0 {
        0
    } else {
        byte_sum(s.drop_last()) + s.last()
    }
}

/// The sum of a byte sequence is bounded by `255 * len`.
pub proof fn lemma_byte_sum_bound(s: Seq<u8>)
    ensures
        0 <= byte_sum(s) <= 255 * s.len(),
    decreases s.len(),
{
    if s.len() > 0 {
        lemma_byte_sum_bound(s.drop_last());
    }
}

/// A sequence of zero bytes sums to zero.
pub proof fn lemma_byte_sum_zero(s: Seq<u8>)
    requires
        forall|i: int| 0 <= i < s.len() ==> s[i] == 0,
    ensures
        byte_sum(s) == 0,
    decreases s.len(),
{
    if s.len() > 0 {
        lemma_byte_sum_zero(s.drop_last());
    }
}

/// Row-major image buffer: `height` rows of `width * channels` bytes.
#[derive(Debug)]
pub struct Image {
    width: usize,
    height: usize,
    channels: usize,
    data: Vec<u8>,
}

/// A flat index `y * row_len + j` stays inside a buffer of `height` rows.
pub proof fn lemma_flat_index(y: int, j: int, row_len: int, height: int)
    by (nonlinear_arith)
    requires
        0 <= y < height,
        0 <= j < row_len,
    ensures
        0 <= y * row_len + j < height * row_len,
{
}

/// A flat index of an earlier row lies strictly before the current row base.
pub proof fn lemma_row_lt(py: int, jj: int, yy: int, r: int)
    by (nonlinear_arith)
    requires
        0 <= py < yy,
        0 <= jj < r,
    ensures
        0 <= py * r + jj,
        py * r + jj < yy * r,
{
}

/// A whole row ends no later than the end of the buffer it lies in.
pub proof fn lemma_row_end(y: int, r: int, h: int)
    by (nonlinear_arith)
    requires
        0 <= y < h,
        r >= 0,
    ensures
        0 <= y * r,
        y * r + r <= h * r,
{
}

impl Image {
    /// Pixel width.
    pub closed spec fn spec_width(&self) -> usize {
        self.width
    }

    /// Pixel height.
    pub closed spec fn spec_height(&self) -> usize {
        self.height
    }

    /// Bytes per pixel.
    pub closed spec fn spec_channels(&self) -> usize {
        self.channels
    }

    /// The raw bytes, row-major.
    pub closed spec fn view(&self) -> Seq<u8> {
        self.data@
    }

    /// Bytes per row.
    pub open spec fn row_len(&self) -> int {
        self.spec_width() * self.spec_channels()
    }

    /// Dimensions are in range and the byte count matches them exactly.
    pub open spec fn wf(&self) -> bool {
        &&& self.spec_width() <= MAX_DIM
        &&& self.spec_height() <= MAX_DIM
        &&& 1 <= self.spec_channels() <= MAX_CHANNELS
        &&& self.view().len() == self.spec_height() * self.row_len()
    }

    /// An image is empty when it has no pixels; an empty frame from the
    /// source signals end of stream.
    pub open spec fn spec_is_empty(&self) -> bool {
        self.spec_width() == 0 || self.spec_height() == 0
    }

    /// The byte at row `y`, row offset `j`.
    pub open spec fn byte_at(&self, y: int, j: int) -> u8 {
        self.view()[y * self.row_len() + j]
    }

    /// Two images have identical dimensions.
    pub open spec fn same_dims(&self, other: &Image) -> bool {
        &&& self.spec_width() == other.spec_width()
        &&& self.spec_height() == other.spec_height()
        &&& self.spec_channels() == other.spec_channels()
    }

    pub fn width(&self) -> (r: usize)
        ensures
            r == self.spec_width(),
    {
        self.width
    }

    pub fn height(&self) -> (r: usize)
        ensures
            r == self.spec_height(),
    {
        self.height
    }

    pub fn channels(&self) -> (r: usize)
        ensures
            r == self.spec_channels(),
    {
        self.channels
    }

    pub fn is_empty(&self) -> (r: bool)
        ensures
            r == self.spec_is_empty(),
    {
        self.width == 0 || self.height == 0
    }

    pub fn data(&self) -> (r: &Vec<u8>)
        ensures
            r@ == self.view(),
    {
        &self.data
    }

    /// Zero-filled buffer of the given dimensions.
    pub fn zeros(width: usize, height: usize, channels: usize) -> (r: Image)
        requires
            width <= MAX_DIM,
            height <= MAX_DIM,
            1 <= channels <= MAX_CHANNELS,
        ensures
            r.wf(),
            r.spec_width() == width,
            r.spec_height() == height,
            r.spec_channels() == channels,
            forall|i: int| 0 <= i < r.view().len() ==> r.view()[i] == 0,
    {
        proof {
            assert(width * channels <= MAX_DIM * MAX_CHANNELS) by (nonlinear_arith)
                requires
                    width <= MAX_DIM,
                    channels <= MAX_CHANNELS,
            ;
            assert(height * (width * channels) <= MAX_DIM * (MAX_DIM * MAX_CHANNELS))
                by (nonlinear_arith)
                requires
                    height <= MAX_DIM,
                    width * channels <= MAX_DIM * MAX_CHANNELS,
            ;
        }
        let row: usize = width * channels;
        let total: usize = height * row;
        let mut data: Vec<u8> = Vec::new();
        let mut k: usize = 0;
        while k < total
            invariant
                k <= total,
                data@.len() == k,
                forall|i: int| 0 <= i < k ==> data@[i] == 0,
            decreases total - k,
        {
            data.push(0);
            k = k + 1;
        }
        Image { width, height, channels, data }
    }

    /// Builds an image from raw bytes, rejecting mismatched dimensions.
    /// Returns `None` exactly when the dimensions are out of range or the
    /// byte count does not match them.
    pub fn from_raw(width: usize, height: usize, channels: usize, data: Vec<u8>) -> (r: Option<
        Image,
    >)
        ensures
            r is Some <==> {
                &&& width <= MAX_DIM
                &&& height <= MAX_DIM
                &&& 1 <= channels <= MAX_CHANNELS
                &&& data@.len() == height * (width * channels)
            },
            r is Some ==> {
                &&& r->Some_0.wf()
                &&& r->Some_0.spec_width() == width
                &&& r->Some_0.spec_height() == height
                &&& r->Some_0.spec_channels() == channels
                &&& r->Some_0.view() == data@
            },
    {
        if width > MAX_DIM || height > MAX_DIM || channels < 1 || channels > MAX_CHANNELS {
            return None;
        }
        proof {
            assert(width * channels <= MAX_DIM * MAX_CHANNELS) by (nonlinear_arith)
                requires
                    width <= MAX_DIM,
                    channels <= MAX_CHANNELS,
            ;
            assert(height * (width * channels) <= MAX_DIM * (MAX_DIM * MAX_CHANNELS))
                by (nonlinear_arith)
                requires
                    height <= MAX_DIM,
                    width * channels <= MAX_DIM * MAX_CHANNELS,
            ;
        }
        let row: usize = width * channels;
        let total: usize = height * row;
        if data.len() != total {
            return None;
        }
        Some(Image { width, height, channels, data })
    }

    /// An independent copy with the same dimensions and bytes.
    pub fn duplicate(&self) -> (r: Image)
        requires
            self.wf(),
        ensures
            r.wf(),
            r.same_dims(self),
            r.view() == self.view(),
    {
        let data = self.data.clone();
        proof {
            assert(data@ =~= self.data@);
        }
        Image { width: self.width, height: self.height, channels: self.channels, data }
    }

    /// Sum of all bytes in the buffer.
    pub fn sum(&self) -> (r: u64)
        requires
            self.wf(),
        ensures
            r == byte_sum(self.view()),
    {
        proof {
            lemma_byte_sum_bound(self.data@);
            assert(self.view().len() <= 0x1_0000_0000_0000) by (nonlinear_arith)
                requires
                    self.view().len() == self.spec_height() * (self.spec_width()
                        * self.spec_channels()),
                    self.spec_height() <= MAX_DIM,
                    self.spec_width() <= MAX_DIM,
                    self.spec_channels() <= MAX_CHANNELS,
            ;
        }
        let mut acc: u64 = 0;
        let mut k: usize = 0;
        let total: usize = self.data.len();
        while k < total
            invariant
                k <= total,
                total == self.view().len(),
                self.view().len() <= 0x1_0000_0000_0000,
                acc == byte_sum(self.view().take(k as int)),
                acc <= 255 * k,
            decreases total - k,
        {
            proof {
                assert(self.view().take(k as int + 1).drop_last() =~= self.view().take(k as int));
            }
            acc = acc + (self.data[k] as u64);
            k = k + 1;
        }
        proof {
            assert(self.view().take(total as int) =~= self.view());
        }
        acc
    }
}

impl Image {
    /// The bytes of the `w x h` pixel sub-rectangle at `(x, y)`, flattened
    /// row-major exactly as `crop` lays them out.
    pub open spec fn crop_view(&self, x: int, y: int, w: int, h: int) -> Seq<u8> {
        Seq::new(
            (h * (w * self.spec_channels())) as nat,
            |i: int|
                self.view()[(y + i / (w * self.spec_channels())) * self.row_len() + x
                    * self.spec_channels() + (i % (w * self.spec_channels()))],
        )
    }

    /// Copies the `w x h` pixel sub-rectangle whose top-left pixel is
    /// `(x, y)` into an independent buffer (never an aliased view).
    #[verifier::rlimit(50)]
    pub fn crop(&self, x: usize, y: usize, w: usize, h: usize) -> (r: Image)
        requires
            self.wf(),
            x + w <= self.spec_width(),
            y + h <= self.spec_height(),
        ensures
            r.wf(),
            r.spec_width() == w,
            r.spec_height() == h,
            r.spec_channels() == self.spec_channels(),
            forall|yy: int, j: int|
                0 <= yy < h && 0 <= j < r.row_len() ==> #[trigger] r.byte_at(yy, j)
                    == self.byte_at(y + yy, x * self.spec_channels() + j),
            r.view() == self.crop_view(x as int, y as int, w as int, h as int),
    {
        let ch: usize = self.channels;
        proof {
            assert(self.spec_width() * ch <= MAX_DIM * MAX_CHANNELS) by (nonlinear_arith)
                requires
                    self.spec_width() <= MAX_DIM,
                    0 <= ch <= MAX_CHANNELS,
            ;
            assert(w * ch <= self.spec_width() * ch && x * ch + w * ch == (x + w) * ch && (x + w)
                * ch <= self.spec_width() * ch) by (nonlinear_arith)
                requires
                    x + w <= self.spec_width(),
                    ch >= 0,
            ;
        }
        let src_row: usize = self.width * ch;
        let out_row: usize = w * ch;
        let x_off: usize = x * ch;
        let src_total: usize = self.data.len();
        let mut data: Vec<u8> = Vec::new();
        let mut yy: usize = 0;
        while yy < h
            invariant
                yy <= h,
                self.wf(),
                src_total == self.view().len(),
                x + w <= self.spec_width(),
                y + h <= self.spec_height(),
                ch == self.spec_channels(),
                src_row == self.row_len(),
                out_row == w * ch,
                x_off == x * ch,
                x_off + out_row <= src_row,
                data@.len() == yy * out_row,
                forall|py: int, j: int|
                    0 <= py < yy && 0 <= j < out_row ==> #[trigger] data@[py * out_row + j]
                        == self.byte_at(y + py, x_off + j),
            decreases h - yy,
        {
            proof {
                lemma_row_end((y + yy) as int, src_row as int, self.spec_height() as int);
                lemma_row_end(yy as int, out_row as int, h as int);
            }
            let src_base: usize = (y + yy) * src_row + x_off;
            let ghost pre = data@;
            let mut j: usize = 0;
            while j < out_row
                invariant
                    j <= out_row,
                    self.wf(),
                    ch == self.spec_channels(),
                    src_row == self.row_len(),
                    src_total == self.view().len(),
                    x_off + out_row <= src_row,
                    y + yy < self.spec_height(),
                    src_base == (y + yy) * src_row + x_off,
                    src_base + out_row <= self.view().len(),
                    pre.len() == yy * out_row,
                    data@.len() == yy * out_row + j,
                    forall|i: int| 0 <= i < pre.len() ==> #[trigger] data@[i] == pre[i],
                    forall|jj: int|
                        0 <= jj < j ==> #[trigger] data@[yy * out_row + jj] == self.byte_at(
                            y + yy, x_off + jj),
                decreases out_row - j,
            {
                proof {
                    lemma_flat_index((y + yy) as int, (x_off + j) as int, src_row as int,
                        self.spec_height() as int);
                }
                let v = self.data[src_base + j];
                data.push(v);
                j = j + 1;
            }
            proof {
                assert((yy + 1) * out_row == yy * out_row + out_row) by (nonlinear_arith);
                assert forall|py: int, jj: int|
                    0 <= py < yy + 1 && 0 <= jj < out_row implies #[trigger] data@[py * out_row
                    + jj] == self.byte_at(y + py, x_off + jj) by {
                    if py < yy {
                        lemma_row_lt(py, jj, yy as int, out_row as int);
                        assert(data@[py * out_row + jj] == pre[py * out_row + jj]);
                    }
                }
            }
            yy = yy + 1;
        }
        let r = Image { width: w, height: h, channels: ch, data };
        proof {
            assert(r.row_len() == out_row);
            assert(r.wf());
            if out_row > 0 {
                assert forall|i: int|
                    0 <= i < r.view().len() implies r.view()[i] == self.crop_view(
                    x as int,
                    y as int,
                    w as int,
                    h as int,
                )[i] by {
                    vstd::arithmetic::div_mod::lemma_fundamental_div_mod(i, out_row as int);
                    let py = i / (out_row as int);
                    let jj = i % (out_row as int);
                    assert(0 <= jj < out_row);
                    assert(i == py * out_row + jj && 0 <= py < h) by (nonlinear_arith)
                        requires
                            i == out_row * py + jj,
                            0 <= jj < out_row,
                            0 <= i < h * out_row,
                            out_row > 0,
                    ;
                    assert(r.view()[py * out_row + jj] == self.byte_at(y + py, x_off + jj));
                    assert(self.crop_view(x as int, y as int, w as int, h as int)[i]
                        == self.view()[(y + py) * self.row_len() + x_off + jj]);
                }
            }
            assert(r.view() =~= self.crop_view(x as int, y as int, w as int, h as int));
        }
        r
    }

    /// Writes `src` into this buffer with its top-left pixel at `(x, y)`.
    /// Bytes inside the pasted rectangle take `src`'s values; all other
    /// bytes are unchanged.
    pub fn paste(&mut self, src: &Image, x: usize, y: usize)
        requires
            old(self).wf(),
            src.wf(),
            src.spec_channels() == old(self).spec_channels(),
            x + src.spec_width() <= old(self).spec_width(),
            y + src.spec_height() <= old(self).spec_height(),
        ensures
            final(self).wf(),
            final(self).same_dims(old(self)),
            final(self).view().len() == old(self).view().len(),
            forall|yy: int, j: int|
                0 <= yy < src.spec_height() && 0 <= j < src.row_len()
                    ==> #[trigger] final(self).byte_at(y + yy,
                    x * src.spec_channels() + j) == src.byte_at(yy, j),
            forall|py: int, j: int|
                0 <= py < old(self).spec_height() && 0 <= j < old(self).row_len() && !(y <= py < y
                    + src.spec_height() && x * src.spec_channels() <= j < x * src.spec_channels()
                    + src.row_len()) ==> #[trigger] final(self).byte_at(py, j) == old(self).byte_at(
                    py, j),
    {
        let ch: usize = self.channels;
        let src_w: usize = src.width();
        let src_h: usize = src.height();
        let ghost dst_w = old(self).spec_width();
        let ghost dst_h = old(self).spec_height();
        proof {
            assert(dst_w * ch <= MAX_DIM * MAX_CHANNELS) by (nonlinear_arith)
                requires
                    dst_w <= MAX_DIM,
                    0 <= ch <= MAX_CHANNELS,
            ;
            assert(x * ch + src_w * ch == (x + src_w) * ch && (x + src_w) * ch <= dst_w * ch)
                by (nonlinear_arith)
                requires
                    x + src_w <= dst_w,
                    ch >= 0,
            ;
        }
        let dst_row: usize = self.width * ch;
        let src_row: usize = src_w * ch;
        let x_off: usize = x * ch;
        let dst_total: usize = self.data.len();
        let src_total: usize = src.data.len();
        let ghost orig = old(self).view();
        let mut yy: usize = 0;
        while yy < src_h
            invariant
                yy <= src_h,
                self.wf(),
                src.wf(),
                self.same_dims(old(self)),
                orig == old(self).view(),
                self.view().len() == orig.len(),
                dst_total == self.view().len(),
                src_total == src.view().len(),
                ch == self.spec_channels(),
                ch == src.spec_channels(),
                dst_row == self.row_len(),
                src_row == src.row_len(),
                src_w == src.spec_width(),
                src_h == src.spec_height(),
                dst_h == self.spec_height(),
                x_off == x * ch,
                x_off + src_row <= dst_row,
                y + src_h <= dst_h,
                forall|py: int, j: int|
                    0 <= py < yy && 0 <= j < src_row ==> #[trigger] self.view()[(y + py) * dst_row
                        + x_off + j] == src.view()[py * src_row + j],
                forall|py: int, j: int|
                    0 <= py < dst_h && 0 <= j < dst_row && !(y <= py < y + yy && x_off <= j < x_off
                        + src_row) ==> #[trigger] self.view()[py * dst_row + j] == orig[py * dst_row
                        + j],
            decreases src_h - yy,
        {
            proof {
                lemma_row_end((y + yy) as int, dst_row as int, dst_h as int);
                lemma_row_end(yy as int, src_row as int, src_h as int);
            }
            let dst_base: usize = (y + yy) * dst_row + x_off;
            let src_base: usize = yy * src_row;
            let ghost pre_row = self.view();
            let mut j: usize = 0;
            while j < src_row
                invariant
                    j <= src_row,
                    self.wf(),
                    src.wf(),
                    self.same_dims(old(self)),
                    self.view().len() == pre_row.len(),
                    pre_row.len() == orig.len(),
                    dst_total == self.view().len(),
                    src_total == src.view().len(),
                    ch == self.spec_channels(),
                    dst_row == self.row_len(),
                    src_row == src.row_len(),
                    src_h == src.spec_height(),
                    dst_h == self.spec_height(),
                    yy < src_h,
                    y + src_h <= dst_h,
                    x_off + src_row <= dst_row,
                    dst_base == (y + yy) * dst_row + x_off,
                    src_base == yy * src_row,
                    dst_base + src_row <= self.view().len(),
                    src_base + src_row <= src.view().len(),
                    forall|i: int|
                        0 <= i < pre_row.len() && !(dst_base <= i < dst_base + j)
                            ==> #[trigger] self.view()[i] == pre_row[i],
                    forall|jj: int|
                        0 <= jj < j ==> #[trigger] self.view()[dst_base + jj] == src.view()[
                            src_base + jj],
                decreases src_row - j,
            {
                let v = src.data[src_base + j];
                self.data[dst_base + j] = v;
                j = j + 1;
            }
            proof {
                lemma_paste_row_frame(
                    orig,
                    pre_row,
                    self.view(),
                    src.view(),
                    y as int,
                    yy as int,
                    x_off as int,
                    dst_row as int,
                    src_row as int,
                    dst_h as int,
                    src_h as int,
                );
            }
            yy = yy + 1;
        }
        proof {
            assert forall|yy: int, j: int|
                0 <= yy < src.spec_height() && 0 <= j < src.row_len() implies #[trigger] self
                .byte_at(y + yy, x * src.spec_channels() + j) == src.byte_at(yy, j) by {
                assert(self.view()[(y + yy) * dst_row + x_off + j] == src.view()[yy * src_row
                    + j]);
            }
            assert forall|py: int, j: int|
                0 <= py < old(self).spec_height() && 0 <= j < old(self).row_len() && !(y <= py < y
                    + src.spec_height() && x * src.spec_channels() <= j < x * src.spec_channels()
                    + src.row_len()) implies #[trigger] self.byte_at(py, j) == old(self).byte_at(
                py, j) by {
                assert(self.view()[py * dst_row + j] == orig[py * dst_row + j]);
            }
        }
    }
}

/// After one row of a paste, the per-byte story of the previous rows and of
/// the untouched bytes is preserved, and the new row holds the source row.
/// This packages the nonlinear flat-index reasoning the paste loop needs.
proof fn lemma_paste_row_frame(
    orig: Seq<u8>,
    pre: Seq<u8>,
    cur: Seq<u8>,
    src: Seq<u8>,
    y: int,
    yy: int,
    x_off: int,
    dst_row: int,
    src_row: int,
    dst_h: int,
    src_h: int,
)
    requires
        dst_row >= 0,
        src_row >= 0,
        x_off >= 0,
        x_off + src_row <= dst_row,
        y >= 0,
        0 <= yy < src_h,
        y + src_h <= dst_h,
        orig.len() == dst_h * dst_row,
        pre.len() == orig.len(),
        cur.len() == orig.len(),
        src.len() >= src_h * src_row,
        // rows before yy already match the source; everything else matches orig
        forall|py: int, j: int|
            0 <= py < yy && 0 <= j < src_row ==> #[trigger] pre[(y + py) * dst_row + x_off + j]
                == src[py * src_row + j],
        forall|py: int, j: int|
            0 <= py < dst_h && 0 <= j < dst_row && !(y <= py < y + yy && x_off <= j < x_off
                + src_row) ==> #[trigger] pre[py * dst_row + j] == orig[py * dst_row + j],
        // the inner loop rewrote exactly the bytes of row y + yy
        forall|i: int|
            0 <= i < pre.len() && !((y + yy) * dst_row + x_off <= i < (y + yy) * dst_row + x_off
                + src_row) ==> #[trigger] cur[i] == pre[i],
        forall|jj: int|
            0 <= jj < src_row ==> #[trigger] cur[(y + yy) * dst_row + x_off + jj] == src[yy
                * src_row + jj],
    ensures
        forall|py: int, j: int|
            0 <= py < yy + 1 && 0 <= j < src_row ==> #[trigger] cur[(y + py) * dst_row + x_off + j]
                == src[py * src_row + j],
        forall|py: int, j: int|
            0 <= py < dst_h && 0 <= j < dst_row && !(y <= py < y + yy + 1 && x_off <= j < x_off
                + src_row) ==> #[trigger] cur[py * dst_row + j] == orig[py * dst_row + j],
{
    assert forall|py: int, j: int|
        0 <= py < yy + 1 && 0 <= j < src_row implies #[trigger] cur[(y + py) * dst_row + x_off + j]
        == src[py * src_row + j] by {
        if py == yy {
            assert(cur[(y + yy) * dst_row + x_off + j] == src[yy * src_row + j]);
        } else {
            assert(pre[(y + py) * dst_row + x_off + j] == src[py * src_row + j]);
            assert((y + py) * dst_row + x_off + j < (y + yy) * dst_row + x_off || (y + py)
                * dst_row + x_off + j >= (y + yy) * dst_row + x_off + src_row) by (nonlinear_arith)
                requires
                    0 <= py < yy,
                    0 <= j < src_row,
                    x_off >= 0,
                    x_off + src_row <= dst_row,
                    y >= 0,
            ;
            assert(0 <= (y + py) * dst_row + x_off + j < pre.len()) by (nonlinear_arith)
                requires
                    0 <= py < yy,
                    0 <= j < src_row,
                    x_off >= 0,
                    x_off + src_row <= dst_row,
                    y >= 0,
                    y + src_h <= dst_h,
                    yy < src_h,
                    pre.len() == dst_h * dst_row,
            ;
        }
    }
    assert forall|py: int, j: int|
        0 <= py < dst_h && 0 <= j < dst_row && !(y <= py < y + yy + 1 && x_off <= j < x_off
            + src_row) implies #[trigger] cur[py * dst_row + j] == orig[py * dst_row + j] by {
        assert(0 <= py * dst_row + j < dst_h * dst_row) by (nonlinear_arith)
            requires
                0 <= py < dst_h,
                0 <= j < dst_row,
        ;
        assert(py * dst_row + j < (y + yy) * dst_row + x_off || py * dst_row + j >= (y + yy)
            * dst_row + x_off + src_row) by (nonlinear_arith)
            requires
                0 <= py < dst_h,
                0 <= j < dst_row,
                !(py == y + yy && x_off <= j < x_off + src_row),
                x_off >= 0,
                x_off + src_row <= dst_row,
                0 <= y + yy,
        ;
        assert(pre[py * dst_row + j] == orig[py * dst_row + j]);
    }
}

/// A three-channel tint of a mono mask: pixels where the mask is nonzero
/// take the given color, all others stay black — the masked fill an
/// overlay paints before blending.
pub fn tint(mask: &Image, color: (u8, u8, u8)) -> (r: Image)
    requires
        mask.wf(),
        mask.spec_channels() == 1,
    ensures
        r.wf(),
        r.spec_width() == mask.spec_width(),
        r.spec_height() == mask.spec_height(),
        r.spec_channels() == 3,
        forall|p: int|
            0 <= p < mask.view().len() ==> {
                &&& #[trigger] r.view()[3 * p] == (if mask.view()[p] != 0 {
                    color.0
                } else {
                    0u8
                })
                &&& r.view()[3 * p + 1] == (if mask.view()[p] != 0 {
                    color.1
                } else {
                    0u8
                })
                &&& r.view()[3 * p + 2] == (if mask.view()[p] != 0 {
                    color.2
                } else {
                    0u8
                })
            },
{
    let total: usize = mask.data().len();
    proof {
        assert(mask.view().len() <= MAX_DIM * (MAX_DIM * 1) && 3 * (MAX_DIM * (MAX_DIM * 1))
            <= 0x3000_0000) by (nonlinear_arith)
            requires
                mask.view().len() == mask.spec_height() * (mask.spec_width() * 1),
                mask.spec_height() <= MAX_DIM,
                mask.spec_width() <= MAX_DIM,
                MAX_DIM == 16384,
        ;
    }
    let mut data: Vec<u8> = Vec::new();
    let mut p: usize = 0;
    while p < total
        invariant
            0 <= p <= total,
            total == mask.view().len(),
            total <= 0x1000_0000,
            data@.len() == 3 * p,
            forall|q: int|
                0 <= q < p ==> {
                    &&& #[trigger] data@[3 * q] == (if mask.view()[q] != 0 {
                        color.0
                    } else {
                        0u8
                    })
                    &&& data@[3 * q + 1] == (if mask.view()[q] != 0 {
                        color.1
                    } else {
                        0u8
                    })
                    &&& data@[3 * q + 2] == (if mask.view()[q] != 0 {
                        color.2
                    } else {
                        0u8
                    })
                },
        decreases total - p,
    {
        let ghost pre = data@;
        let on = mask.data()[p] != 0;
        data.push(if on {
            color.0
        } else {
            0
        });
        data.push(if on {
            color.1
        } else {
            0
        });
        data.push(if on {
            color.2
        } else {
            0
        });
        proof {
            assert forall|q: int|
                0 <= q < p + 1 implies {
                &&& #[trigger] data@[3 * q] == (if mask.view()[q] != 0 {
                    color.0
                } else {
                    0u8
                })
                &&& data@[3 * q + 1] == (if mask.view()[q] != 0 {
                    color.1
                } else {
                    0u8
                })
                &&& data@[3 * q + 2] == (if mask.view()[q] != 0 {
                    color.2
                } else {
                    0u8
                })
            } by {
                if q < p {
                    assert(data@[3 * q] == pre[3 * q]);
                    assert(data@[3 * q + 1] == pre[3 * q + 1]);
                    assert(data@[3 * q + 2] == pre[3 * q + 2]);
                } else {
                    assert(3 * q == pre.len());
                }
            }
        }
        p = p + 1;
    }
    let r = Image { width: mask.width(), height: mask.height(), channels: 3, data };
    proof {
        assert(r.view().len() == r.spec_height() * (r.spec_width() * 3)) by (nonlinear_arith)
            requires
                r.view().len() == 3 * (mask.spec_height() * (mask.spec_width() * 1)),
                r.spec_width() == mask.spec_width(),
                r.spec_height() == mask.spec_height(),
        ;
    }
    r
}

/// Elementwise absolute difference of two equally-shaped buffers.
pub fn absdiff(a: &Image, b: &Image) -> (r: Image)
    requires
        a.wf(),
        b.wf(),
        a.same_dims(b),
    ensures
        r.wf(),
        r.same_dims(a),
        r.view().len() == a.view().len(),
        forall|i: int| 0 <= i < r.view().len() ==> r.view()[i] == abs_diff(a.view()[i], b.view()[i]),
{
    let total: usize = a.data().len();
    let mut data: Vec<u8> = Vec::new();
    let mut k: usize = 0;
    while k < total
        invariant
            k <= total,
            total == a.view().len(),
            a.view().len() == b.view().len(),
            data@.len() == k,
            forall|i: int| 0 <= i < k ==> data@[i] == abs_diff(a.view()[i], b.view()[i]),
        decreases total - k,
    {
        let x = a.data()[k];
        let y = b.data()[k];
        let d: u8 = if x >= y {
            x - y
        } else {
            y - x
        };
        data.push(d);
        k = k + 1;
    }
    let r = Image {
        width: a.width(),
        height: a.height(),
        channels: a.channels(),
        data,
    };
    r
}

/// Elementwise saturating product of two equally-shaped buffers.
pub fn mul_saturating(a: &Image, b: &Image) -> (r: Image)
    requires
        a.wf(),
        b.wf(),
        a.same_dims(b),
    ensures
        r.wf(),
        r.same_dims(a),
        r.view().len() == a.view().len(),
        forall|i: int| 0 <= i < r.view().len() ==> r.view()[i] == sat_mul(a.view()[i], b.view()[i]),
{
    let total: usize = a.data().len();
    let mut data: Vec<u8> = Vec::new();
    let mut k: usize = 0;
    while k < total
        invariant
            k <= total,
            total == a.view().len(),
            a.view().len() == b.view().len(),
            data@.len() == k,
            forall|i: int| 0 <= i < k ==> data@[i] == sat_mul(a.view()[i], b.view()[i]),
        decreases total - k,
    {
        let x: u16 = a.data()[k] as u16;
        let y: u16 = b.data()[k] as u16;
        proof {
            assert(x * y <= 255 * 255) by (nonlinear_arith)
                requires
                    x <= 255,
                    y <= 255,
            ;
        }
        let p: u16 = x * y;
        let v: u8 = if p > 255 {
            255
        } else {
            p as u8
        };
        data.push(v);
        k = k + 1;
    }
    let r = Image {
        width: a.width(),
        height: a.height(),
        channels: a.channels(),
        data,
    };
    r
}

} // verus!
