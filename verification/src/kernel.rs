//! Square convolution kernels: signed integer weights plus a divisor.

use vstd::prelude::*;
use crate::pixel::ConstructError;

verus! {

/// Largest magnitude allowed for a kernel weight or divisor. Together with
/// `MAX_KERNEL_SIDE` it keeps every convolution sum inside `i64`.
pub const MAX_KERNEL_WEIGHT: i64 = 0x7fff_ffff;

/// Largest kernel side length accepted.
pub const MAX_KERNEL_SIDE: usize = 255;

/// An odd-sided square matrix of signed weights and a normalization divisor.
/// The flat weight at index `i * side + j` multiplies the neighbor at column
/// offset `i - side / 2` and row offset `j - side / 2` from the center.
#[derive(Debug)]
pub struct Kernel {
    pub weights: Vec<i64>,
    pub side: usize,
    pub divisor: i64,
}

/// Sum of the first `n` entries of `s`.
pub open spec fn sum_prefix(s: Seq<i64>, n: nat) -> int
    decreases n,
{
    if n == 0 {
        0
    } else {
        sum_prefix(s, (n - 1) as nat) + s[n - 1]
    }
}

/// Sum of all entries of `s`.
pub open spec fn seq_sum(s: Seq<i64>) -> int {
    sum_prefix(s, s.len())
}

/// The conditions a kernel must meet, checked at construction.
pub open spec fn kernel_ok(weights: Seq<i64>, side: int, divisor: int) -> bool {
    &&& side % 2 == 1
    &&& 1 <= side <= MAX_KERNEL_SIDE
    &&& weights.len() == side * side
    &&& 1 <= divisor <= MAX_KERNEL_WEIGHT
    &&& forall|i: int|
        0 <= i < weights.len() ==> -MAX_KERNEL_WEIGHT <= #[trigger] weights[i]
            <= MAX_KERNEL_WEIGHT
}

/// The error reported for an invalid kernel: the first failing check, in the
/// order even side, oversized side, weight count, divisor, weight range.
pub open spec fn kernel_err(weights: Seq<i64>, side: int, divisor: int) -> ConstructError {
    if side % 2 == 0 {
        ConstructError::EvenSide
    } else if side > MAX_KERNEL_SIDE {
        ConstructError::SideTooLarge
    } else if weights.len() != side * side {
        ConstructError::WeightCount
    } else if divisor < 1 || divisor > MAX_KERNEL_WEIGHT {
        ConstructError::BadDivisor
    } else {
        ConstructError::WeightRange
    }
}

impl Kernel {
    /// A well-formed kernel satisfies the construction conditions.
    pub open spec fn wf(self) -> bool {
        kernel_ok(self.weights@, self.side as int, self.divisor as int)
    }

    /// Validates and builds a kernel. The side must be odd (so a unique
    /// center cell exists) and small enough, the weight list must match the
    /// side, and the divisor and weights must fit the machine bounds.
    pub fn new(weights: Vec<i64>, side: usize, divisor: i64) -> (r: Result<Kernel, ConstructError>)
        ensures
            r is Ok <==> kernel_ok(weights@, side as int, divisor as int),
            r matches Ok(k) ==> k.weights@ == weights@ && k.side == side && k.divisor == divisor
                && k.wf(),
            r matches Err(e) ==> e == kernel_err(weights@, side as int, divisor as int),
    {
        if side % 2 == 0 {
            return Err(ConstructError::EvenSide);
        }
        if side > MAX_KERNEL_SIDE {
            return Err(ConstructError::SideTooLarge);
        }
        proof {
            assert(side * side <= MAX_KERNEL_SIDE * MAX_KERNEL_SIDE) by (nonlinear_arith)
                requires
                    0 <= side <= MAX_KERNEL_SIDE,
            ;
        }
        if weights.len() != side * side {
            return Err(ConstructError::WeightCount);
        }
        if divisor < 1 || divisor > MAX_KERNEL_WEIGHT {
            return Err(ConstructError::BadDivisor);
        }
        let n = weights.len();
        let mut i: usize = 0;
        while i < n
            invariant
                i <= n,
                n == weights@.len(),
                side as int % 2 == 1,
                1 <= side <= MAX_KERNEL_SIDE,
                weights@.len() == side * side,
                1 <= divisor <= MAX_KERNEL_WEIGHT,
                forall|k: int|
                    0 <= k < i ==> -MAX_KERNEL_WEIGHT <= #[trigger] weights@[k]
                        <= MAX_KERNEL_WEIGHT,
            decreases n - i,
        {
            let w = weights[i];
            if w < -MAX_KERNEL_WEIGHT || w > MAX_KERNEL_WEIGHT {
                return Err(ConstructError::WeightRange);
            }
            i = i + 1;
        }
        Ok(Kernel { weights, side, divisor })
    }
}

/// The flat weights of the fixed 5-by-5 Gaussian smoothing kernel.
pub open spec fn gaussian_weights() -> Seq<i64> {
    seq![
        2i64, 4, 5, 4, 2,
        4, 9, 12, 9, 4,
        5, 12, 15, 12, 5,
        4, 9, 12, 9, 4,
        2, 4, 5, 4, 2,
    ]
}

/// The Gaussian divisor: the exact sum of the Gaussian weights.
pub const GAUSSIAN_DIVISOR: i64 = 159;

/// The Gaussian weights sum exactly to the Gaussian divisor, so the kernel
/// is normalized.
pub proof fn lemma_gaussian_sum()
    ensures
        seq_sum(gaussian_weights()) == GAUSSIAN_DIVISOR,
{
    reveal_with_fuel(sum_prefix, 26);
    assert(seq_sum(gaussian_weights()) == 159);
}

/// Builds the fixed 5-by-5 Gaussian smoothing kernel with divisor 159.
pub fn gaussian_kernel() -> (k: Kernel)
    ensures
        k.wf(),
        k.weights@ == gaussian_weights(),
        k.side == 5,
        k.divisor == GAUSSIAN_DIVISOR,
    {
        let weights: Vec<i64> = vec![
            2, 4, 5, 4, 2,
            4, 9, 12, 9, 4,
            5, 12, 15, 12, 5,
            4, 9, 12, 9, 4,
            2, 4, 5, 4, 2,
        ];
        proof {
            assert(weights@ =~= gaussian_weights());
        }
        Kernel { weights, side: 5, divisor: GAUSSIAN_DIVISOR }
    }

/// The flat weights of the horizontal Sobel kernel.
pub open spec fn sobel_horizontal_weights() -> Seq<i64> {
    seq![1i64, 2i64, 1i64, 0i64, 0i64, 0i64, -1i64, -2i64, -1i64]
}

/// The flat weights of the vertical Sobel kernel.
pub open spec fn sobel_vertical_weights() -> Seq<i64> {
    seq![1i64, 0i64, -1i64, 2i64, 0i64, -2i64, 1i64, 0i64, -1i64]
}

/// Both Sobel kernels have weights that sum to zero, so a flat neighborhood
/// has zero response.
pub proof fn lemma_sobel_sums()
    ensures
        seq_sum(sobel_horizontal_weights()) == 0,
        seq_sum(sobel_vertical_weights()) == 0,
{
    reveal_with_fuel(sum_prefix, 10);
    assert(seq_sum(sobel_horizontal_weights()) == 0);
    assert(seq_sum(sobel_vertical_weights()) == 0);
}

/// Builds the horizontal Sobel kernel, a raw-response kernel with divisor 1.
pub fn sobel_horizontal_kernel() -> (k: Kernel)
    ensures
        k.wf(),
        k.weights@ == sobel_horizontal_weights(),
        k.side == 3,
        k.divisor == 1,
{
    let weights: Vec<i64> = vec![1, 2, 1, 0, 0, 0, -1, -2, -1];
    proof {
        assert(weights@ =~= sobel_horizontal_weights());
    }
    Kernel { weights, side: 3, divisor: 1 }
}

/// Builds the vertical Sobel kernel, a raw-response kernel with divisor 1.
pub fn sobel_vertical_kernel() -> (k: Kernel)
    ensures
        k.wf(),
        k.weights@ == sobel_vertical_weights(),
        k.side == 3,
        k.divisor == 1,
{
    let weights: Vec<i64> = vec![1, 0, -1, 2, 0, -2, 1, 0, -1];
    proof {
        assert(weights@ =~= sobel_vertical_weights());
    }
    Kernel { weights, side: 3, divisor: 1 }
}

} // verus!
