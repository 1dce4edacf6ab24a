//! Gaussian blur: the fixed 5-by-5 smoothing kernel applied through the
//! convolution engine.

use vstd::prelude::*;
use crate::pixel::{Pixel, PixelBuffer};
use crate::kernel::{gaussian_kernel, gaussian_weights, lemma_gaussian_sum, GAUSSIAN_DIVISOR};
use crate::convolve::{convolve, conv_pixel, lemma_flat_field_invariance};

verus! {

/// Smooths the buffer with the fixed 5-by-5 Gaussian kernel, divisor 159,
/// through the convolution engine. The output has the same dimensions as
/// the input.
pub fn gaussian_blur(buf: &PixelBuffer) -> (out: PixelBuffer)
    requires
        buf.wf(),
    ensures
        out.wf(),
        out.width == buf.width,
        out.height == buf.height,
        forall|x: int, y: int|
            buf.in_bounds(x, y) ==> out.pix(x, y) == conv_pixel(
                buf@,
                buf.width as int,
                buf.height as int,
                gaussian_weights(),
                5,
                GAUSSIAN_DIVISOR as int,
                x,
                y,
            ),
{
    let ker = gaussian_kernel();
    convolve(buf, &ker)
}

/// On a uniform image the Gaussian blur returns the same uniform value:
/// the Gaussian weights sum exactly to the divisor, so this is an instance
/// of flat-field invariance.
pub proof fn lemma_gaussian_uniform(data: Seq<Pixel>, w: int, h: int, c: u8)
    requires
        w >= 1,
        h >= 1,
        data.len() == w * h,
        forall|k: int| 0 <= k < data.len() ==> data[k] == Pixel::splat(c),
    ensures
        forall|x: int, y: int|
            0 <= x < w && 0 <= y < h ==> conv_pixel(
                data,
                w,
                h,
                gaussian_weights(),
                5,
                GAUSSIAN_DIVISOR as int,
                x,
                y,
            ) == Pixel::splat(c),
{
    lemma_gaussian_sum();
    lemma_flat_field_invariance(data, w, h, gaussian_weights(), 5, GAUSSIAN_DIVISOR as int, c);
}

} // verus!
