//! The Sobel gradient computer: two fixed 3-by-3 kernels applied to the
//! intensity channel yield a magnitude buffer and a per-pixel quantized
//! direction field.

use vstd::prelude::*;
use crate::pixel::{Pixel, PixelBuffer, lemma_row_major_bound, lemma_row_major_coords};
use crate::kernel::{
    sobel_horizontal_kernel, sobel_horizontal_weights, sobel_vertical_kernel,
    sobel_vertical_weights, seq_sum, lemma_sobel_sums,
};
use crate::convolve::{conv_channel, conv_full, round_clamp, lemma_conv_sum_uniform};

verus! {

/// A quantized gradient direction. Both raw partial derivatives are clamped
/// to `0 ..= 255` before the angle is taken, so the angle `atan2(gy, gx)`
/// lies in the first quadrant and quantizing it to multiples of a quarter
/// turn's half (an eighth of a full turn) leaves three bins: bin 0 for
/// angles below one sixteenth of a turn, bin 2 for angles above three
/// sixteenths, bin 1 between. A pixel with zero gradient magnitude has no
/// direction.
#[derive(Clone, Copy, PartialEq, Eq, Structural, Debug)]
pub enum Direction {
    Undefined,
    Quantized(u8),
}

/// A width-by-height grid of quantized directions, row-major, produced by
/// the gradient computer and consumed by non-maximum suppression.
#[derive(Debug)]
pub struct DirectionField {
    pub width: usize,
    pub height: usize,
    pub dirs: Vec<Direction>,
}

impl View for DirectionField {
    type V = Seq<Direction>;

    open spec fn view(&self) -> Seq<Direction> {
        self.dirs@
    }
}

impl DirectionField {
    /// Well-formed: one direction per grid cell, every quantized bin at
    /// most 2.
    pub open spec fn wf(self) -> bool {
        &&& self.width >= 1
        &&& self.height >= 1
        &&& self.dirs@.len() == self.width * self.height
        &&& forall|k: int|
            0 <= k < self.dirs@.len() ==> (#[trigger] self.dirs@[k] matches Direction::Quantized(b)
                ==> b <= 2)
    }

    /// The direction at column `x`, row `y`.
    pub open spec fn dir(self, x: int, y: int) -> Direction {
        self.dirs@[y * self.width + x]
    }

    /// Whether `(x, y)` lies inside the grid.
    pub open spec fn in_bounds(self, x: int, y: int) -> bool {
        0 <= x < self.width && 0 <= y < self.height
    }

    /// Reads the direction at column `x`, row `y`.
    pub fn get(&self, x: usize, y: usize) -> (d: Direction)
        requires
            self.wf(),
            x < self.width,
            y < self.height,
        ensures
            d == self.dir(x as int, y as int),
    {
        let _n = self.dirs.len();
        proof {
            lemma_row_major_bound(x as int, y as int, self.width as int, self.height as int);
        }
        self.dirs[y * self.width + x]
    }
}

/// The rounded square root: `r` is the nearest integer to the square root
/// of `n`. Squaring the half-integer bounds `r - 1/2` and `r + 1/2` gives
/// the exact integer characterization below; a tie is impossible because
/// `4 * n` is even while the squared bounds are odd.
pub open spec fn is_rounded_sqrt(n: int, r: int) -> bool {
    &&& r >= 0
    &&& ((2 * r - 1) * (2 * r - 1) <= 4 * n || r == 0)
    &&& 4 * n < (2 * r + 1) * (2 * r + 1)
}

/// The rounded square root of `n` as a function.
pub open spec fn rounded_sqrt(n: int) -> int {
    choose|r: int| is_rounded_sqrt(n, r)
}

/// The rounded square root is unique, so any witness equals the function's
/// value.
pub proof fn lemma_rounded_sqrt_unique(n: int, r: int)
    requires
        is_rounded_sqrt(n, r),
    ensures
        rounded_sqrt(n) == r,
{
    assert(is_rounded_sqrt(n, rounded_sqrt(n)));
    let r2 = rounded_sqrt(n);
    if r2 > r {
        assert((2 * (r + 1) - 1) * (2 * (r + 1) - 1) <= (2 * r2 - 1) * (2 * r2 - 1))
            by (nonlinear_arith)
            requires
                r + 1 <= r2,
                r >= 0,
        ;
        assert(false);
    }
    if r2 < r {
        assert((2 * (r2 + 1) - 1) * (2 * (r2 + 1) - 1) <= (2 * r - 1) * (2 * r - 1))
            by (nonlinear_arith)
            requires
                r2 + 1 <= r,
                r2 >= 0,
        ;
        assert(false);
    }
}

/// Computes the rounded square root by searching upward from zero.
fn rsqrt(n: u32) -> (r: u32)
    requires
        n <= 130050,
    ensures
        r as int == rounded_sqrt(n as int),
        is_rounded_sqrt(n as int, r as int),
        r <= 361,
{
    let mut r: u32 = 0;
    loop
        invariant
            n <= 130050,
            r <= 361,
            (2 * r - 1) * (2 * r - 1) <= 4 * n || r == 0,
        ensures
            r <= 361,
            is_rounded_sqrt(n as int, r as int),
        decreases 361 - r,
    {
        let q = 2 * r + 1;
        proof {
            assert(q * q <= 522729) by (nonlinear_arith)
                requires
                    q <= 723,
            ;
        }
        if q * q > 4 * n {
            break;
        }
        proof {
            assert(q <= 721) by (nonlinear_arith)
                requires
                    q * q <= 4 * n,
                    n <= 130050,
                    q >= 1,
            ;
        }
        r = r + 1;
    }
    proof {
        lemma_rounded_sqrt_unique(n as int, r as int);
    }
    r
}

/// The quantized direction bin for clamped partial derivatives `gx` and
/// `gy`, both nonnegative. The angle `atan2(gy, gx)` is below one sixteenth
/// of a turn exactly when `gy / gx` is below the tangent of that angle,
/// which squares to the integer comparison `2 * gy * gy < (gx - gy)^2` with
/// `gx > gy`; the bin-2 bound is symmetric. No tie is possible because the
/// tangents are irrational.
pub open spec fn dir_bin(gx: int, gy: int) -> int {
    if gx > gy && 2 * gy * gy < (gx - gy) * (gx - gy) {
        0
    } else if gy > gx && 2 * gx * gx < (gy - gx) * (gy - gx) {
        2
    } else {
        1
    }
}

/// Computes the quantized direction bin.
fn dir_bin_exec(gx: u8, gy: u8) -> (b: u8)
    ensures
        b as int == dir_bin(gx as int, gy as int),
        b <= 2,
{
    let gxw = gx as u32;
    let gyw = gy as u32;
    proof {
        assert((2 * gxw) * gxw <= 130050 && (2 * gyw) * gyw <= 130050 && (gxw >= gyw ==> (gxw
            - gyw) * (gxw - gyw) <= 65025) && (gyw >= gxw ==> (gyw - gxw) * (gyw - gxw) <= 65025))
            by (nonlinear_arith)
            requires
                gxw <= 255,
                gyw <= 255,
        ;
    }
    if gxw > gyw && 2 * gyw * gyw < (gxw - gyw) * (gxw - gyw) {
        0
    } else if gyw > gxw && 2 * gxw * gxw < (gyw - gxw) * (gyw - gxw) {
        2
    } else {
        1
    }
}

/// The clamped horizontal partial derivative at `(x, y)`: the horizontal
/// Sobel kernel applied to the intensity channel, clamped to `0 ..= 255`.
pub open spec fn sobel_gx(data: Seq<Pixel>, w: int, h: int, x: int, y: int) -> int {
    round_clamp(conv_full(data, w, h, sobel_horizontal_weights(), 3, x, y, 0), 1) as int
}

/// The clamped vertical partial derivative at `(x, y)`.
pub open spec fn sobel_gy(data: Seq<Pixel>, w: int, h: int, x: int, y: int) -> int {
    round_clamp(conv_full(data, w, h, sobel_vertical_weights(), 3, x, y, 0), 1) as int
}

/// The gradient magnitude at `(x, y)`: the rounded square root of the sum
/// of squared clamped partial derivatives, clamped to `0 ..= 255`.
pub open spec fn sobel_magnitude(data: Seq<Pixel>, w: int, h: int, x: int, y: int) -> int {
    let gx = sobel_gx(data, w, h, x, y);
    let gy = sobel_gy(data, w, h, x, y);
    let m = rounded_sqrt(gx * gx + gy * gy);
    if m > 255 {
        255
    } else {
        m
    }
}

/// The direction at `(x, y)`: undefined where the magnitude is zero, else
/// the quantized angle bin.
pub open spec fn sobel_direction(data: Seq<Pixel>, w: int, h: int, x: int, y: int) -> Direction {
    if sobel_magnitude(data, w, h, x, y) == 0 {
        Direction::Undefined
    } else {
        Direction::Quantized(
            dir_bin(sobel_gx(data, w, h, x, y), sobel_gy(data, w, h, x, y)) as u8,
        )
    }
}

/// Applies the two fixed Sobel kernels to the intensity channel of `buf`,
/// reading the input as an immutable snapshot with clamp-to-edge boundary
/// handling. Returns the magnitude buffer (magnitude replicated across all
/// three channels) and the per-pixel quantized direction field.
pub fn sobel(buf: &PixelBuffer) -> (r: (PixelBuffer, DirectionField))
    requires
        buf.wf(),
    ensures
        r.0.wf(),
        r.0.width == buf.width,
        r.0.height == buf.height,
        r.1.wf(),
        r.1.width == buf.width,
        r.1.height == buf.height,
        forall|x: int, y: int|
            buf.in_bounds(x, y) ==> r.0.pix(x, y) == Pixel::splat(
                sobel_magnitude(buf@, buf.width as int, buf.height as int, x, y) as u8,
            ),
        forall|x: int, y: int|
            buf.in_bounds(x, y) ==> r.1.dir(x, y) == sobel_direction(
                buf@,
                buf.width as int,
                buf.height as int,
                x,
                y,
            ),
{
    let w = buf.width;
    let h = buf.height;
    let hker = sobel_horizontal_kernel();
    let vker = sobel_vertical_kernel();
    let mut mags: Vec<Pixel> = Vec::new();
    let mut dirs: Vec<Direction> = Vec::new();
    let mut y: usize = 0;
    while y < h
        invariant
            buf.wf(),
            w == buf.width,
            h == buf.height,
            hker.wf(),
            hker.weights@ == sobel_horizontal_weights(),
            hker.side == 3,
            hker.divisor == 1,
            vker.wf(),
            vker.weights@ == sobel_vertical_weights(),
            vker.side == 3,
            vker.divisor == 1,
            y <= h,
            mags@.len() == y * w,
            dirs@.len() == y * w,
            forall|k: int|
                0 <= k < mags@.len() ==> mags@[k] == Pixel::splat(
                    sobel_magnitude(buf@, w as int, h as int, k % (w as int), k / (w as int)) as u8,
                ),
            forall|k: int|
                0 <= k < dirs@.len() ==> dirs@[k] == sobel_direction(
                    buf@,
                    w as int,
                    h as int,
                    k % (w as int),
                    k / (w as int),
                ),
        decreases h - y,
    {
        let mut x: usize = 0;
        while x < w
            invariant
                buf.wf(),
                w == buf.width,
                h == buf.height,
                hker.wf(),
                hker.weights@ == sobel_horizontal_weights(),
                hker.side == 3,
                hker.divisor == 1,
                vker.wf(),
                vker.weights@ == sobel_vertical_weights(),
                vker.side == 3,
                vker.divisor == 1,
                y < h,
                x <= w,
                mags@.len() == y * w + x,
                dirs@.len() == y * w + x,
                forall|k: int|
                    0 <= k < mags@.len() ==> mags@[k] == Pixel::splat(
                        sobel_magnitude(
                            buf@,
                            w as int,
                            h as int,
                            k % (w as int),
                            k / (w as int),
                        ) as u8,
                    ),
                forall|k: int|
                    0 <= k < dirs@.len() ==> dirs@[k] == sobel_direction(
                        buf@,
                        w as int,
                        h as int,
                        k % (w as int),
                        k / (w as int),
                    ),
            decreases w - x,
        {
            let gx = conv_channel(buf, &hker, x, y, 0);
            let gy = conv_channel(buf, &vker, x, y, 0);
            let gxu = gx as u32;
            let gyu = gy as u32;
            proof {
                assert(gxu * gxu <= 65025 && gyu * gyu <= 65025) by (nonlinear_arith)
                    requires
                        gxu <= 255,
                        gyu <= 255,
                ;
            }
            let n = gxu * gxu + gyu * gyu;
            let m = rsqrt(n);
            let mag: u8 = if m > 255 {
                255
            } else {
                m as u8
            };
            let d: Direction = if mag == 0 {
                Direction::Undefined
            } else {
                Direction::Quantized(dir_bin_exec(gx, gy))
            };
            proof {
                lemma_row_major_coords(x as int, y as int, w as int);
                assert(mag as int == sobel_magnitude(buf@, w as int, h as int, x as int, y as int));
                assert(d == sobel_direction(buf@, w as int, h as int, x as int, y as int));
            }
            mags.push(Pixel::uniform(mag));
            dirs.push(d);
            x = x + 1;
        }
        proof {
            assert(y * w + w == (y + 1) * w) by (nonlinear_arith);
        }
        y = y + 1;
    }
    let mag_buf = PixelBuffer { width: w, height: h, data: mags };
    let dir_field = DirectionField { width: w, height: h, dirs };
    proof {
        assert(h * w == w * h) by (nonlinear_arith);
        assert forall|x: int, y: int| buf.in_bounds(x, y) implies mag_buf.pix(x, y)
            == Pixel::splat(sobel_magnitude(buf@, w as int, h as int, x, y) as u8) && dir_field.dir(
            x,
            y,
        ) == sobel_direction(buf@, w as int, h as int, x, y) by {
            lemma_row_major_bound(x, y, w as int, h as int);
            lemma_row_major_coords(x, y, w as int);
        }
        assert forall|k: int|
            0 <= k < dir_field.dirs@.len() implies (#[trigger] dir_field.dirs@[k] matches
            Direction::Quantized(b) ==> b <= 2) by {}
    }
    (mag_buf, dir_field)
}

/// On a uniform image both Sobel kernels respond zero (their weights sum to
/// zero), so the magnitude is zero everywhere and every direction is
/// undefined.
pub proof fn lemma_sobel_uniform(data: Seq<Pixel>, w: int, h: int, c: u8)
    requires
        w >= 1,
        h >= 1,
        data.len() == w * h,
        forall|k: int| 0 <= k < data.len() ==> data[k] == Pixel::splat(c),
    ensures
        forall|x: int, y: int|
            0 <= x < w && 0 <= y < h ==> sobel_magnitude(data, w, h, x, y) == 0,
        forall|x: int, y: int|
            0 <= x < w && 0 <= y < h ==> sobel_direction(data, w, h, x, y) == Direction::Undefined,
{
    lemma_sobel_sums();
    assert forall|x: int, y: int| 0 <= x < w && 0 <= y < h implies sobel_magnitude(data, w, h, x, y)
        == 0 && sobel_direction(data, w, h, x, y) == Direction::Undefined by {
        lemma_conv_sum_uniform(data, w, h, sobel_horizontal_weights(), 3, x, y, 0, c, 9);
        lemma_conv_sum_uniform(data, w, h, sobel_vertical_weights(), 3, x, y, 0, c, 9);
        assert(c * seq_sum(sobel_horizontal_weights()) == 0) by (nonlinear_arith)
            requires
                seq_sum(sobel_horizontal_weights()) == 0,
        ;
        assert(c * seq_sum(sobel_vertical_weights()) == 0) by (nonlinear_arith)
            requires
                seq_sum(sobel_vertical_weights()) == 0,
        ;
        assert(sobel_gx(data, w, h, x, y) == 0);
        assert(sobel_gy(data, w, h, x, y) == 0);
        assert(is_rounded_sqrt(0, 0));
        lemma_rounded_sqrt_unique(0, 0);
    }
}

} // verus!
