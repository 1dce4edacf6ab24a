//! Greyscale reduction: collapses the three color channels into one
//! intensity value replicated across all channels.

use vstd::prelude::*;
use vstd::arithmetic::div_mod::lemma_div_is_ordered;
use crate::pixel::{Pixel, PixelBuffer};

verus! {

/// One weighted channel term: `v` times a per-mille weight, rounded to the
/// nearest integer (halves up).
pub open spec fn grey_term(v: u8, weight: int) -> int {
    (v * weight + 500) / 1000
}

/// The luminance of a pixel: the sum of its channels weighted by the
/// standard per-mille luma weights 299, 587 and 114, each rounded
/// independently. The three weights sum to exactly one thousand, so a
/// uniform pixel keeps its value (subject to rounding).
pub open spec fn grey_of(p: Pixel) -> int {
    grey_term(p.r, 299) + grey_term(p.g, 587) + grey_term(p.b, 114)
}

/// The luminance always fits a channel: the three rounded terms reach at
/// most 76, 150 and 29.
pub proof fn lemma_grey_bound(p: Pixel)
    ensures
        0 <= grey_of(p) <= 255,
{
    lemma_div_is_ordered(p.r * 299 + 500, 76745, 1000);
    lemma_div_is_ordered(p.g * 587 + 500, 150185, 1000);
    lemma_div_is_ordered(p.b * 114 + 500, 29570, 1000);
}

/// Converts a buffer to greyscale: every output pixel holds its input
/// pixel's luminance in all three channels. In particular the three output
/// channels of every pixel are equal.
pub fn greyscale(buf: &PixelBuffer) -> (out: PixelBuffer)
    requires
        buf.wf(),
    ensures
        out.wf(),
        out.width == buf.width,
        out.height == buf.height,
        forall|k: int| 0 <= k < out@.len() ==> out@[k] == Pixel::splat(grey_of(buf@[k]) as u8),
        forall|k: int|
            0 <= k < out@.len() ==> #[trigger] out@[k].r == out@[k].g && out@[k].g == out@[k].b,
{
    let n = buf.data.len();
    let mut data: Vec<Pixel> = Vec::new();
    let mut k: usize = 0;
    while k < n
        invariant
            buf.wf(),
            n == buf@.len(),
            k <= n,
            data@.len() == k,
            forall|i: int| 0 <= i < k ==> data@[i] == Pixel::splat(grey_of(buf@[i]) as u8),
        decreases n - k,
    {
        let p = buf.data[k];
        let r = (p.r as u32 * 299 + 500) / 1000;
        let g = (p.g as u32 * 587 + 500) / 1000;
        let b = (p.b as u32 * 114 + 500) / 1000;
        proof {
            lemma_grey_bound(p);
        }
        let lum = (r + g + b) as u8;
        data.push(Pixel::uniform(lum));
        k = k + 1;
    }
    PixelBuffer { width: buf.width, height: buf.height, data }
}

} // verus!
