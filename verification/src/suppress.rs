//! Non-maximum suppression: thins edges by zeroing, along each pixel's
//! gradient direction, the neighbors it dominates.
//!
//! The stage reads every intensity from an immutable snapshot of the input
//! while the output is written in place, pixel by pixel in row-major order.
//! At a pixel with a defined direction the unit step `(dx, dy)` is the sign
//! of the cosine and sine of the quantized angle (the sign of zero taken as
//! positive): the angle lies in the closed quarter turn below zero, so `dx`
//! is always 1 and `dy` is 1 exactly for bin 2. Each of the two neighbors
//! at plus and minus the step whose snapshot intensity does not exceed the
//! center's is zeroed in the output; the center itself is then rewritten
//! with its own snapshot value, so a zeroing is kept only if it lands on a
//! pixel whose own turn has already passed. A pixel with an undefined
//! direction is zeroed outright. `nms_out` captures the resulting value of
//! every pixel exactly.

use vstd::prelude::*;
use crate::pixel::{
    Pixel, PixelBuffer, lemma_row_major_bound, lemma_row_major_coords, lemma_row_major_injective,
};
use crate::sobel::{Direction, DirectionField};

verus! {

/// The vertical component of the unit step for quantized bin `b`: positive
/// only for bin 2 (angle zero, whose sine is zero and counts as positive);
/// the horizontal component is always 1.
pub open spec fn step_dy(b: int) -> int {
    if b == 2 {
        1
    } else {
        -1
    }
}

/// Whether the pass over pixel `(qx, qy)` zeroes pixel `(px, py)`: the
/// center `(qx, qy)` has a defined direction, `(px, py)` is the neighbor at
/// plus or minus its unit step, and the neighbor's snapshot intensity does
/// not exceed the center's.
pub open spec fn kills(
    snap: Seq<Pixel>,
    dirs: Seq<Direction>,
    w: int,
    h: int,
    qx: int,
    qy: int,
    px: int,
    py: int,
) -> bool {
    &&& 0 <= qx < w && 0 <= qy < h
    &&& dirs[qy * w + qx] matches Direction::Quantized(b) && ((px == qx + 1 && py == qy + step_dy(
        b as int,
    )) || (px == qx - 1 && py == qy - step_dy(b as int)))
    &&& snap[py * w + px].r <= snap[qy * w + qx].r
}

/// The final value of pixel `(px, py)`: black if its own direction is
/// undefined, black if some pixel later in row-major order zeroes it (an
/// earlier zeroing is overwritten when the pixel's own turn rewrites its
/// snapshot value), and its snapshot value otherwise.
pub open spec fn nms_out(
    snap: Seq<Pixel>,
    dirs: Seq<Direction>,
    w: int,
    h: int,
    px: int,
    py: int,
) -> Pixel {
    if dirs[py * w + px] is Undefined {
        Pixel::splat(0)
    } else if exists|qx: int, qy: int|
        #[trigger] kills(snap, dirs, w, h, qx, qy, px, py) && qy * w + qx > py * w + px {
        Pixel::splat(0)
    } else {
        snap[py * w + px]
    }
}

/// The value of pixel `(px, py)` after the passes over the first `t` pixels
/// in row-major order: its snapshot value unless its own pass has zeroed it
/// for an undefined direction, or a pass at index below `t` — and, if the
/// pixel's own rewrite has already happened, above its own index — has
/// zeroed it.
pub open spec fn nms_interim(
    snap: Seq<Pixel>,
    dirs: Seq<Direction>,
    w: int,
    h: int,
    px: int,
    py: int,
    t: int,
) -> Pixel {
    let ip = py * w + px;
    if ip < t && dirs[ip] is Undefined {
        Pixel::splat(0)
    } else if exists|qx: int, qy: int|
        #[trigger] kills(snap, dirs, w, h, qx, qy, px, py) && qy * w + qx < t && (qy * w + qx > ip
            || ip >= t) {
        Pixel::splat(0)
    } else {
        snap[py * w + px]
    }
}

/// A pass that neither is pixel `(px, py)` itself nor zeroes it leaves the
/// pixel's interim value unchanged.
proof fn lemma_interim_unchanged(
    snap: Seq<Pixel>,
    dirs: Seq<Direction>,
    w: int,
    h: int,
    px: int,
    py: int,
    qx: int,
    qy: int,
)
    requires
        0 <= px < w,
        0 <= py < h,
        0 <= qx < w,
        0 <= qy < h,
        !(px == qx && py == qy),
        !kills(snap, dirs, w, h, qx, qy, px, py),
    ensures
        nms_interim(snap, dirs, w, h, px, py, qy * w + qx + 1) == nms_interim(
            snap,
            dirs,
            w,
            h,
            px,
            py,
            qy * w + qx,
        ),
{
    let t = qy * w + qx;
    let ip = py * w + px;
    lemma_row_major_injective(w, h, px, py, qx, qy);
    assert(ip != t);
    if exists|ax: int, ay: int|
        #[trigger] kills(snap, dirs, w, h, ax, ay, px, py) && ay * w + ax < t + 1 && (ay * w + ax
            > ip || ip >= t + 1) {
        let (ax, ay) = choose|ax: int, ay: int|
            #[trigger] kills(snap, dirs, w, h, ax, ay, px, py) && ay * w + ax < t + 1 && (ay * w
                + ax > ip || ip >= t + 1);
        if ay * w + ax == t {
            lemma_row_major_injective(w, h, ax, ay, qx, qy);
            assert(false);
        }
        assert(kills(snap, dirs, w, h, ax, ay, px, py) && ay * w + ax < t && (ay * w + ax > ip
            || ip >= t));
    }
}

/// After the pass over a pixel that zeroes `(px, py)`, the interim value of
/// `(px, py)` is black.
proof fn lemma_interim_killed(
    snap: Seq<Pixel>,
    dirs: Seq<Direction>,
    w: int,
    h: int,
    px: int,
    py: int,
    qx: int,
    qy: int,
)
    requires
        0 <= px < w,
        0 <= py < h,
        !(px == qx && py == qy),
        kills(snap, dirs, w, h, qx, qy, px, py),
    ensures
        nms_interim(snap, dirs, w, h, px, py, qy * w + qx + 1) == Pixel::splat(0),
{
    let t = qy * w + qx;
    let ip = py * w + px;
    lemma_row_major_injective(w, h, px, py, qx, qy);
    assert(kills(snap, dirs, w, h, qx, qy, px, py) && t < t + 1 && (t > ip || ip >= t + 1));
}

/// After a pixel's own pass, its interim value is black if its direction is
/// undefined and its snapshot value otherwise.
proof fn lemma_interim_center(snap: Seq<Pixel>, dirs: Seq<Direction>, w: int, h: int, px: int, py: int)
    requires
        0 <= px < w,
        0 <= py < h,
    ensures
        nms_interim(snap, dirs, w, h, px, py, py * w + px + 1) == (if dirs[py * w + px]
            is Undefined {
            Pixel::splat(0)
        } else {
            snap[py * w + px]
        }),
{
    let ip = py * w + px;
    if !(dirs[ip] is Undefined) {
        assert forall|ax: int, ay: int|
            !(#[trigger] kills(snap, dirs, w, h, ax, ay, px, py) && ay * w + ax < ip + 1 && (ay * w
                + ax > ip || ip >= ip + 1)) by {}
    }
}

/// Suppresses non-maximal neighbors: the exact in-place, row-major pass
/// described at the module head. Every output pixel is either black or its
/// snapshot value, so no pixel's intensity ever increases.
pub fn non_maximum_suppression(buf: &PixelBuffer, dirs: &DirectionField) -> (out: PixelBuffer)
    requires
        buf.wf(),
        dirs.wf(),
        dirs.width == buf.width,
        dirs.height == buf.height,
    ensures
        out.wf(),
        out.width == buf.width,
        out.height == buf.height,
        forall|x: int, y: int|
            buf.in_bounds(x, y) ==> out.pix(x, y) == nms_out(
                buf@,
                dirs@,
                buf.width as int,
                buf.height as int,
                x,
                y,
            ),
        forall|x: int, y: int|
            buf.in_bounds(x, y) ==> out.pix(x, y).r <= buf.pix(x, y).r && (out.pix(x, y)
                == buf.pix(x, y) || out.pix(x, y) == Pixel::splat(0)),
{
    let w = buf.width;
    let h = buf.height;
    let mut out = buf.snapshot();
    let mut y: usize = 0;
    while y < h
        invariant
            buf.wf(),
            dirs.wf(),
            w == buf.width,
            h == buf.height,
            dirs.width == w,
            dirs.height == h,
            y <= h,
            out.wf(),
            out.width == w,
            out.height == h,
            forall|px: int, py: int|
                buf.in_bounds(px, py) ==> out.pix(px, py) == nms_interim(
                    buf@,
                    dirs@,
                    w as int,
                    h as int,
                    px,
                    py,
                    y * w,
                ),
        decreases h - y,
    {
        let mut x: usize = 0;
        while x < w
            invariant
                buf.wf(),
                dirs.wf(),
                w == buf.width,
                h == buf.height,
                dirs.width == w,
                dirs.height == h,
                y < h,
                x <= w,
                out.wf(),
                out.width == w,
                out.height == h,
                forall|px: int, py: int|
                    buf.in_bounds(px, py) ==> out.pix(px, py) == nms_interim(
                        buf@,
                        dirs@,
                        w as int,
                        h as int,
                        px,
                        py,
                        y * w + x,
                    ),
            decreases w - x,
        {
            let ghost t: int = y * w + x;
            let ghost out0: Seq<Pixel> = out@;
            proof {
                lemma_row_major_bound(x as int, y as int, w as int, h as int);
            }
            let d = dirs.get(x, y);
            let ghost t1x: int = x + 1;
            let ghost mut t1y: int = 0;
            let ghost t2x: int = x - 1;
            let ghost mut t2y: int = 0;
            match d {
                Direction::Undefined => {
                    out.set(x, y, Pixel::uniform(0));
                },
                Direction::Quantized(b) => {
                    let center = buf.get(x, y);
                    let down = b == 2;
                    proof {
                        t1y = y + step_dy(b as int);
                        t2y = y - step_dy(b as int);
                    }
                    if x + 1 < w && (if down {
                        y + 1 < h
                    } else {
                        y >= 1
                    }) {
                        let ty = if down {
                            y + 1
                        } else {
                            y - 1
                        };
                        if buf.get(x + 1, ty).r <= center.r {
                            proof {
                                lemma_row_major_bound(t1x, t1y, w as int, h as int);
                            }
                            out.set(x + 1, ty, Pixel::uniform(0));
                        }
                    }
                    if x >= 1 && (if down {
                        y >= 1
                    } else {
                        y + 1 < h
                    }) {
                        let ty2 = if down {
                            y - 1
                        } else {
                            y + 1
                        };
                        if buf.get(x - 1, ty2).r <= center.r {
                            proof {
                                lemma_row_major_bound(t2x, t2y, w as int, h as int);
                            }
                            out.set(x - 1, ty2, Pixel::uniform(0));
                        }
                    }
                    out.set(x, y, center);
                },
            }
            proof {
                lemma_interim_center(buf@, dirs@, w as int, h as int, x as int, y as int);
                assert forall|px: int, py: int| buf.in_bounds(px, py) implies out.pix(px, py)
                    == nms_interim(buf@, dirs@, w as int, h as int, px, py, t + 1) by {
                    lemma_row_major_bound(px, py, w as int, h as int);
                    lemma_row_major_injective(w as int, h as int, px, py, x as int, y as int);
                    if 0 <= t1x < w && 0 <= t1y < h {
                        lemma_row_major_injective(w as int, h as int, px, py, t1x, t1y);
                    }
                    if 0 <= t2x < w && 0 <= t2y < h {
                        lemma_row_major_injective(w as int, h as int, px, py, t2x, t2y);
                    }
                    if px == x && py == y {
                    } else {
                        if !(px == t1x && py == t1y) && !(px == t2x && py == t2y) {
                            assert(!kills(buf@, dirs@, w as int, h as int, x as int, y as int, px, py));
                            lemma_interim_unchanged(
                                buf@, dirs@, w as int, h as int, px, py, x as int, y as int,
                            );
                        } else if out.pix(px, py) == Pixel::splat(0) && kills(
                            buf@, dirs@, w as int, h as int, x as int, y as int, px, py,
                        ) {
                            lemma_interim_killed(
                                buf@, dirs@, w as int, h as int, px, py, x as int, y as int,
                            );
                        } else {
                            assert(!kills(buf@, dirs@, w as int, h as int, x as int, y as int, px, py));
                            lemma_interim_unchanged(
                                buf@, dirs@, w as int, h as int, px, py, x as int, y as int,
                            );
                        }
                    }
                }
            }
            x = x + 1;
        }
        proof {
            assert(y * w + w == (y + 1) * w) by (nonlinear_arith);
        }
        y = y + 1;
    }
    proof {
        assert forall|px: int, py: int| buf.in_bounds(px, py) implies out.pix(px, py) == nms_out(
            buf@,
            dirs@,
            w as int,
            h as int,
            px,
            py,
        ) && out.pix(px, py).r <= buf.pix(px, py).r && (out.pix(px, py) == buf.pix(px, py)
            || out.pix(px, py) == Pixel::splat(0)) by {
            lemma_row_major_bound(px, py, w as int, h as int);
            let ip = py * (w as int) + px;
            assert(out.pix(px, py) == nms_interim(buf@, dirs@, w as int, h as int, px, py, (h * w) as int));
            assert forall|qx: int, qy: int|
                #[trigger] kills(buf@, dirs@, w as int, h as int, qx, qy, px, py) implies qy * (
            w as int) + qx < (h * w) as int by {
                lemma_row_major_bound(qx, qy, w as int, h as int);
                assert(w as int * h as int == h as int * w as int) by (nonlinear_arith);
            }
        }
    }
    out
}

} // verus!
