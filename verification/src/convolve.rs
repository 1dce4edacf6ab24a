//! The convolution engine: applies a kernel to a pixel buffer under the
//! clamp-to-edge boundary policy, producing a buffer of identical
//! dimensions. For each pixel and channel the engine takes the weighted sum
//! of the centered neighborhood, divides by the kernel's divisor, rounds to
//! the nearest integer, and clamps to `0 ..= 255`.

use vstd::prelude::*;
use vstd::arithmetic::div_mod::lemma_fundamental_div_mod_converse;
use crate::pixel::{Pixel, PixelBuffer, lemma_row_major_bound, lemma_row_major_coords};
use crate::kernel::{Kernel, MAX_KERNEL_WEIGHT, sum_prefix, seq_sum};

verus! {

/// Largest magnitude a convolution sum can reach: every tap contributes at
/// most the largest weight times the largest channel value (`255 *
/// MAX_KERNEL_WEIGHT`, which is 547608329985), and a kernel has at most
/// `255 * 255` taps, giving 65025 times that.
pub const MAX_CONV_SUM: i64 = 35_608_231_657_274_625;

/// Clamp-to-edge boundary policy: an out-of-range coordinate is replaced by
/// the nearest valid one.
pub open spec fn clamp_idx(v: int, len: int) -> int {
    if v < 0 {
        0
    } else if v >= len {
        len - 1
    } else {
        v
    }
}

/// The channel value read by tap `k` of a `side`-sided kernel centered on
/// `(x, y)`: tap `k` covers column offset `k / side - side / 2` and row
/// offset `k % side - side / 2`, with out-of-range neighbors clamped to the
/// edge.
pub open spec fn tap_value(
    data: Seq<Pixel>,
    w: int,
    h: int,
    side: int,
    x: int,
    y: int,
    k: int,
    chan: int,
) -> int {
    let tx = clamp_idx(x + k / side - side / 2, w);
    let ty = clamp_idx(y + k % side - side / 2, h);
    data[ty * w + tx].channel(chan) as int
}

/// The weighted sum of the first `n` taps at `(x, y)`.
pub open spec fn conv_sum(
    data: Seq<Pixel>,
    w: int,
    h: int,
    ker: Seq<i64>,
    side: int,
    x: int,
    y: int,
    chan: int,
    n: nat,
) -> int
    decreases n,
{
    if n == 0 {
        0
    } else {
        conv_sum(data, w, h, ker, side, x, y, chan, (n - 1) as nat) + ker[n - 1] * tap_value(
            data,
            w,
            h,
            side,
            x,
            y,
            n - 1,
            chan,
        )
    }
}

/// The full weighted sum over all taps of the kernel.
pub open spec fn conv_full(
    data: Seq<Pixel>,
    w: int,
    h: int,
    ker: Seq<i64>,
    side: int,
    x: int,
    y: int,
    chan: int,
) -> int {
    conv_sum(data, w, h, ker, side, x, y, chan, (side * side) as nat)
}

/// Divides a weighted sum by the divisor, rounds to the nearest integer,
/// and clamps into `0 ..= 255`. A nonpositive sum clamps to 0 either way,
/// so only positive sums are rounded: `(2 * s + d) / (2 * d)` is the nearest
/// integer to `s / d`, halves rounded up.
pub open spec fn round_clamp(s: int, d: int) -> u8 {
    if s <= 0 {
        0
    } else {
        let q = (2 * s + d) / (2 * d);
        if q >= 255 {
            255
        } else {
            q as u8
        }
    }
}

/// The output pixel of the convolution at `(x, y)`: each channel is the
/// rounded, clamped, normalized weighted sum of its neighborhood.
pub open spec fn conv_pixel(
    data: Seq<Pixel>,
    w: int,
    h: int,
    ker: Seq<i64>,
    side: int,
    divisor: int,
    x: int,
    y: int,
) -> Pixel {
    Pixel {
        r: round_clamp(conv_full(data, w, h, ker, side, x, y, 0), divisor),
        g: round_clamp(conv_full(data, w, h, ker, side, x, y, 1), divisor),
        b: round_clamp(conv_full(data, w, h, ker, side, x, y, 2), divisor),
    }
}

/// The convolution output pixel for flat row-major index `k` of a
/// `w`-by-`h` grid.
pub open spec fn conv_flat(
    data: Seq<Pixel>,
    w: int,
    h: int,
    ker: Seq<i64>,
    side: int,
    divisor: int,
    k: int,
) -> Pixel {
    conv_pixel(data, w, h, ker, side, divisor, k % w, k / w)
}

/// Clamps the neighbor coordinate `x + delta - center` to `0 ..= len - 1`.
fn clamp_coord(x: usize, delta: usize, center: usize, len: usize) -> (r: usize)
    requires
        len >= 1,
        delta <= 255,
        center <= 255,
    ensures
        r as int == clamp_idx(x + delta - center, len as int),
        r < len,
{
    let t = x as u128 + delta as u128;
    let c = center as u128;
    if t < c {
        0
    } else if t - c >= len as u128 {
        len - 1
    } else {
        (t - c) as usize
    }
}

/// Rounds and clamps a raw weighted sum, as `round_clamp` specifies.
fn round_clamp_exec(s: i64, d: i64) -> (r: u8)
    requires
        1 <= d <= MAX_KERNEL_WEIGHT,
        -MAX_CONV_SUM <= s <= MAX_CONV_SUM,
    ensures
        r == round_clamp(s as int, d as int),
{
    if s <= 0 {
        0
    } else {
        let su = s as u64;
        let du = d as u64;
        let q = (2 * su + du) / (2 * du);
        if q >= 255 {
            255
        } else {
            q as u8
        }
    }
}

/// One output channel of the convolution at `(x, y)`.
pub(crate) fn conv_channel(buf: &PixelBuffer, ker: &Kernel, x: usize, y: usize, chan: usize) -> (r: u8)
    requires
        buf.wf(),
        ker.wf(),
        x < buf.width,
        y < buf.height,
        chan < 3,
    ensures
        r == round_clamp(
            conv_full(
                buf@,
                buf.width as int,
                buf.height as int,
                ker.weights@,
                ker.side as int,
                x as int,
                y as int,
                chan as int,
            ),
            ker.divisor as int,
        ),
{
    let side = ker.side;
    let center = side / 2;
    proof {
        assert(side * side <= 65025) by (nonlinear_arith)
            requires
                0 <= side <= 255,
        ;
    }
    let n = side * side;
    let mut acc: i64 = 0;
    let mut k: usize = 0;
    while k < n
        invariant
            buf.wf(),
            ker.wf(),
            x < buf.width,
            y < buf.height,
            chan < 3,
            side == ker.side,
            center == side / 2,
            n == side * side,
            n <= 65025,
            k <= n,
            acc == conv_sum(
                buf@,
                buf.width as int,
                buf.height as int,
                ker.weights@,
                side as int,
                x as int,
                y as int,
                chan as int,
                k as nat,
            ),
            -((k as int) * 547_608_329_985) <= acc as int <= (k as int) * 547_608_329_985,
        decreases n - k,
    {
        proof {
            assert(k / side <= 255 && k % side <= 255) by (nonlinear_arith)
                requires
                    1 <= side <= 255,
                    0 <= k < side * side,
            ;
        }
        let tx = clamp_coord(x, k / side, center, buf.width);
        let ty = clamp_coord(y, k % side, center, buf.height);
        let p = buf.get(tx, ty);
        let pv: i64 = if chan == 0 {
            p.r as i64
        } else if chan == 1 {
            p.g as i64
        } else {
            p.b as i64
        };
        let wgt = ker.weights[k];
        proof {
            assert(pv == tap_value(
                buf@,
                buf.width as int,
                buf.height as int,
                side as int,
                x as int,
                y as int,
                k as int,
                chan as int,
            ));
            assert(-547_608_329_985 <= wgt * pv <= 547_608_329_985) by (nonlinear_arith)
                requires
                    -MAX_KERNEL_WEIGHT <= wgt <= MAX_KERNEL_WEIGHT,
                    0 <= pv <= 255,
            ;
            assert(-(((k + 1) as int) * 547_608_329_985) <= acc + wgt * pv <= ((k + 1) as int)
                * 547_608_329_985 && ((k + 1) as int) * 547_608_329_985
                <= 35_608_231_657_274_625) by (nonlinear_arith)
                requires
                    0 <= k < 65025,
                    -((k as int) * 547_608_329_985) <= acc as int <= (k as int) * 547_608_329_985,
                    -547_608_329_985 <= wgt * pv <= 547_608_329_985,
            ;
        }
        acc = acc + wgt * pv;
        k = k + 1;
    }
    proof {
        assert(-35_608_231_657_274_625 <= acc as int <= 35_608_231_657_274_625)
            by (nonlinear_arith)
            requires
                0 <= k <= 65025,
                -((k as int) * 547_608_329_985) <= acc as int <= (k as int) * 547_608_329_985,
        ;
    }
    round_clamp_exec(acc, ker.divisor)
}

/// Applies `ker` to `buf`, producing a new buffer of identical dimensions
/// whose every pixel is the rounded, clamped, normalized weighted sum of its
/// clamp-to-edge neighborhood in `buf`.
pub fn convolve(buf: &PixelBuffer, ker: &Kernel) -> (out: PixelBuffer)
    requires
        buf.wf(),
        ker.wf(),
    ensures
        out.wf(),
        out.width == buf.width,
        out.height == buf.height,
        forall|x: int, y: int|
            buf.in_bounds(x, y) ==> out.pix(x, y) == conv_pixel(
                buf@,
                buf.width as int,
                buf.height as int,
                ker.weights@,
                ker.side as int,
                ker.divisor as int,
                x,
                y,
            ),
{
    let w = buf.width;
    let h = buf.height;
    let mut data: Vec<Pixel> = Vec::new();
    let mut y: usize = 0;
    while y < h
        invariant
            buf.wf(),
            ker.wf(),
            w == buf.width,
            h == buf.height,
            y <= h,
            data@.len() == y * w,
            forall|k: int|
                0 <= k < data@.len() ==> data@[k] == conv_flat(
                    buf@,
                    w as int,
                    h as int,
                    ker.weights@,
                    ker.side as int,
                    ker.divisor as int,
                    k,
                ),
        decreases h - y,
    {
        let mut x: usize = 0;
        while x < w
            invariant
                buf.wf(),
                ker.wf(),
                w == buf.width,
                h == buf.height,
                y < h,
                x <= w,
                data@.len() == y * w + x,
                forall|k: int|
                    0 <= k < data@.len() ==> data@[k] == conv_flat(
                        buf@,
                        w as int,
                        h as int,
                        ker.weights@,
                        ker.side as int,
                        ker.divisor as int,
                        k,
                    ),
            decreases w - x,
        {
            let r = conv_channel(buf, ker, x, y, 0);
            let g = conv_channel(buf, ker, x, y, 1);
            let b = conv_channel(buf, ker, x, y, 2);
            data.push(Pixel { r, g, b });
            proof {
                lemma_row_major_coords(x as int, y as int, w as int);
                assert forall|k: int|
                    0 <= k < data@.len() implies data@[k] == conv_flat(
                        buf@,
                        w as int,
                        h as int,
                        ker.weights@,
                        ker.side as int,
                        ker.divisor as int,
                        k,
                    ) by {
                    if k == y * w + x {
                        assert(data@[k] == Pixel { r, g, b });
                        assert(k % (w as int) == x && k / (w as int) == y);
                    }
                }
            }
            x = x + 1;
        }
        proof {
            assert(y * w + w == (y + 1) * w) by (nonlinear_arith);
        }
        y = y + 1;
    }
    let out = PixelBuffer { width: w, height: h, data };
    proof {
        assert(h * w == w * h) by (nonlinear_arith);
        assert(out.wf());
        assert forall|x: int, y: int| buf.in_bounds(x, y) implies out.pix(x, y) == conv_pixel(
            buf@,
            buf.width as int,
            buf.height as int,
            ker.weights@,
            ker.side as int,
            ker.divisor as int,
            x,
            y,
        ) by {
            lemma_row_major_bound(x, y, w as int, h as int);
            lemma_row_major_coords(x, y, w as int);
        }
    }
    out
}

/// Every tap of a uniform buffer reads the constant, so the weighted sum of
/// the first `n` taps is the constant times the sum of the first `n`
/// weights.
pub proof fn lemma_conv_sum_uniform(
    data: Seq<Pixel>,
    w: int,
    h: int,
    ker: Seq<i64>,
    side: int,
    x: int,
    y: int,
    chan: int,
    c: u8,
    n: nat,
)
    requires
        w >= 1,
        h >= 1,
        data.len() == w * h,
        side >= 1,
        0 <= x < w,
        0 <= y < h,
        forall|k: int| 0 <= k < data.len() ==> data[k] == Pixel::splat(c),
    ensures
        conv_sum(data, w, h, ker, side, x, y, chan, n) == c * sum_prefix(ker, n),
    decreases n,
{
    if n > 0 {
        lemma_conv_sum_uniform(data, w, h, ker, side, x, y, chan, c, (n - 1) as nat);
        let k = n - 1;
        let tx = clamp_idx(x + k / side - side / 2, w);
        let ty = clamp_idx(y + k % side - side / 2, h);
        lemma_row_major_bound(tx, ty, w, h);
        assert(data[ty * w + tx] == Pixel::splat(c));
        assert(tap_value(data, w, h, side, x, y, k, chan) == c as int);
        assert(c * sum_prefix(ker, n) == c * sum_prefix(ker, (n - 1) as nat) + c * ker[n - 1])
            by (nonlinear_arith)
            requires
                sum_prefix(ker, n) == sum_prefix(ker, (n - 1) as nat) + ker[n - 1],
        ;
        assert(ker[n - 1] * (c as int) == c * ker[n - 1]) by (nonlinear_arith);
    }
}

/// Flat-field invariance: on a uniform image, any kernel whose weights sum
/// exactly to its divisor returns the same uniform image.
pub proof fn lemma_flat_field_invariance(
    data: Seq<Pixel>,
    w: int,
    h: int,
    ker: Seq<i64>,
    side: int,
    divisor: int,
    c: u8,
)
    requires
        w >= 1,
        h >= 1,
        data.len() == w * h,
        side >= 1,
        side % 2 == 1,
        ker.len() == side * side,
        divisor >= 1,
        seq_sum(ker) == divisor,
        forall|k: int| 0 <= k < data.len() ==> data[k] == Pixel::splat(c),
    ensures
        forall|x: int, y: int|
            0 <= x < w && 0 <= y < h ==> conv_pixel(data, w, h, ker, side, divisor, x, y)
                == Pixel::splat(c),
{
    assert forall|x: int, y: int| 0 <= x < w && 0 <= y < h implies conv_pixel(
        data,
        w,
        h,
        ker,
        side,
        divisor,
        x,
        y,
    ) == Pixel::splat(c) by {
        let n = (side * side) as nat;
        assert(side * side >= 1) by (nonlinear_arith)
            requires
                side >= 1,
        ;
        lemma_conv_sum_uniform(data, w, h, ker, side, x, y, 0, c, n);
        lemma_conv_sum_uniform(data, w, h, ker, side, x, y, 1, c, n);
        lemma_conv_sum_uniform(data, w, h, ker, side, x, y, 2, c, n);
        lemma_round_clamp_of_multiple(c, divisor);
    }
}

/// Rounding and clamping `c * d / d` gives back `c` for any channel value
/// `c` and positive divisor `d`.
proof fn lemma_round_clamp_of_multiple(c: u8, d: int)
    requires
        d >= 1,
    ensures
        round_clamp(c * d, d) == c,
{
    if c == 0 {
        assert(c * d == 0) by (nonlinear_arith)
            requires
                c == 0,
        ;
    } else {
        assert(c * d >= 1) by (nonlinear_arith)
            requires
                c >= 1,
                d >= 1,
        ;
        assert(2 * (c * d) + d == c * (2 * d) + d) by (nonlinear_arith);
        lemma_fundamental_div_mod_converse(2 * (c * d) + d, 2 * d, c as int, d);
        assert((2 * (c * d) + d) / (2 * d) == c);
    }
}

} // verus!
