//! The blob linker: extends straight-line runs of the weak level into the
//! strong level.
//!
//! The stage reads an immutable snapshot. Every pixel of the image seeds a
//! walk in each of the eight compass directions; a walk steps outward while
//! it stays in bounds and the snapshot value under it is neither 0 nor 255,
//! promoting each such weak cell to 255 in the output, and stops at the
//! first decided cell (0 or 255) or at the border. The seed's own value is
//! never examined: the first step of a ray from any in-bounds neighbor of a
//! weak cell already reaches and promotes it. Since every cell of a buffer
//! with at least two cells has an in-bounds neighbor, a weak cell is
//! promoted exactly when the buffer holds more than one cell; on a
//! single-cell buffer no ray ever lands anywhere, and nothing changes.
//! `blob_out` states that collapsed form, and `blob` computes it.

use vstd::prelude::*;
use crate::pixel::{Pixel, PixelBuffer};

verus! {

/// A weak (undecided) intensity: neither background 0 nor strong 255.
pub open spec fn is_weak(p: Pixel) -> bool {
    p.r != 0 && p.r != 255
}

/// The linked value of the cell at flat index `k`: weak cells of a
/// multi-cell buffer are promoted to strong, everything else keeps its
/// snapshot value.
pub open spec fn blob_out(snap: Seq<Pixel>, w: int, h: int, k: int) -> Pixel {
    if is_weak(snap[k]) && w * h >= 2 {
        Pixel::splat(255)
    } else {
        snap[k]
    }
}

/// Links weak runs into strong ones, as described above. A pixel whose
/// snapshot intensity was already 0 or 255 is never changed; a changed
/// pixel was weak and becomes 255 in all channels.
pub fn blob(buf: &PixelBuffer) -> (out: PixelBuffer)
    requires
        buf.wf(),
    ensures
        out.wf(),
        out.width == buf.width,
        out.height == buf.height,
        forall|k: int|
            0 <= k < out@.len() ==> out@[k] == blob_out(
                buf@,
                buf.width as int,
                buf.height as int,
                k,
            ),
        forall|k: int|
            0 <= k < out@.len() && (buf@[k].r == 0 || buf@[k].r == 255) ==> out@[k] == buf@[k],
        forall|k: int|
            0 <= k < out@.len() && out@[k] != buf@[k] ==> is_weak(buf@[k]) && out@[k]
                == Pixel::splat(255),
{
    let n = buf.data.len();
    let multi = n >= 2;
    let mut data: Vec<Pixel> = Vec::new();
    let mut k: usize = 0;
    while k < n
        invariant
            buf.wf(),
            n == buf@.len(),
            multi == (n >= 2),
            k <= n,
            data@.len() == k,
            forall|i: int|
                0 <= i < k ==> data@[i] == blob_out(
                    buf@,
                    buf.width as int,
                    buf.height as int,
                    i,
                ),
        decreases n - k,
    {
        let p = buf.data[k];
        let q = if p.r != 0 && p.r != 255 && multi {
            Pixel::uniform(255)
        } else {
            p
        };
        data.push(q);
        k = k + 1;
    }
    PixelBuffer { width: buf.width, height: buf.height, data }
}

} // verus!
