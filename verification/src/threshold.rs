//! The thresholder: maps intensities to the three fixed levels 0, 127 and
//! 255 using two caller-supplied fractional cutoffs.

use vstd::prelude::*;
use crate::pixel::{Pixel, PixelBuffer};

verus! {

/// A fraction in `0 ..= 1`, held exactly as numerator over denominator so
/// the cutoff comparisons are exact.
#[derive(Clone, Copy, PartialEq, Eq, Structural, Debug)]
pub struct Fraction {
    pub num: u32,
    pub den: u32,
}

impl Fraction {
    /// A valid fraction has a positive denominator and lies in `0 ..= 1`.
    pub open spec fn wf(self) -> bool {
        self.den >= 1 && self.num <= self.den
    }
}

/// The level assigned to intensity `v`: 255 (strong) when `v` is at least
/// the upper cutoff times 255, 0 (background) when `v` is below the lower
/// cutoff times 255, and 127 (weak) otherwise. `v >= f * 255` is compared
/// exactly as `v * den >= 255 * num`.
pub open spec fn threshold_level(v: u8, lower: Fraction, upper: Fraction) -> u8 {
    if v * upper.den >= 255 * upper.num {
        255
    } else if v * lower.den < 255 * lower.num {
        0
    } else {
        127
    }
}

/// Applies the three-level threshold to the intensity channel of every
/// pixel. Every output pixel holds one of exactly 0, 127 or 255 in all
/// three channels.
pub fn threshold(buf: &PixelBuffer, lower: Fraction, upper: Fraction) -> (out: PixelBuffer)
    requires
        buf.wf(),
        lower.wf(),
        upper.wf(),
    ensures
        out.wf(),
        out.width == buf.width,
        out.height == buf.height,
        forall|k: int|
            0 <= k < out@.len() ==> out@[k] == Pixel::splat(
                threshold_level(buf@[k].r, lower, upper),
            ),
        forall|k: int|
            0 <= k < out@.len() ==> (#[trigger] out@[k].r == 0 || out@[k].r == 127 || out@[k].r
                == 255) && out@[k].g == out@[k].r && out@[k].b == out@[k].r,
{
    let n = buf.data.len();
    let mut data: Vec<Pixel> = Vec::new();
    let mut k: usize = 0;
    while k < n
        invariant
            buf.wf(),
            lower.wf(),
            upper.wf(),
            n == buf@.len(),
            k <= n,
            data@.len() == k,
            forall|i: int|
                0 <= i < k ==> data@[i] == Pixel::splat(threshold_level(buf@[i].r, lower, upper)),
        decreases n - k,
    {
        let v = buf.data[k].r;
        proof {
            assert((v as u64) * (upper.den as u64) <= 1095216660225 && (v as u64) * (lower.den
                as u64) <= 1095216660225) by (nonlinear_arith)
                requires
                    v <= 255,
                    upper.den <= 0xffff_ffffu64,
                    lower.den <= 0xffff_ffffu64,
            ;
        }
        let level: u8 = if (v as u64) * (upper.den as u64) >= 255 * (upper.num as u64) {
            255
        } else if (v as u64) * (lower.den as u64) < 255 * (lower.num as u64) {
            0
        } else {
            127
        };
        data.push(Pixel::uniform(level));
        k = k + 1;
    }
    PixelBuffer { width: buf.width, height: buf.height, data }
}

} // verus!
