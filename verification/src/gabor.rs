//! Combination of an oriented filter bank: the per-pixel maximum response
//! across the bank's orientation response images.

use vstd::prelude::*;
use crate::pixel::{Pixel, PixelBuffer};

verus! {

/// The views of a list of buffers.
pub open spec fn views_of(rs: Seq<PixelBuffer>) -> Seq<Seq<Pixel>> {
    rs.map_values(|b: PixelBuffer| b@)
}

/// The composite pixel at flat index `k` after folding the first `n`
/// response images in order: starting from black, a response pixel replaces
/// the running composite exactly when its intensity channel is strictly
/// greater.
pub open spec fn combined(rs: Seq<Seq<Pixel>>, k: int, n: nat) -> Pixel
    decreases n,
{
    if n == 0 {
        Pixel::splat(0)
    } else {
        let prev = combined(rs, k, (n - 1) as nat);
        if rs[n - 1][k].r > prev.r {
            rs[n - 1][k]
        } else {
            prev
        }
    }
}

/// The composite intensity never falls below any single response image's
/// intensity that entered the fold.
pub proof fn lemma_combined_ge(rs: Seq<Seq<Pixel>>, k: int, n: nat, i: int)
    requires
        0 <= i < n,
    ensures
        combined(rs, k, n).r >= rs[i][k].r,
    decreases n,
{
    if i < n - 1 {
        lemma_combined_ge(rs, k, (n - 1) as nat, i);
    }
}

/// Combines the orientation response images of a filter bank into the
/// texture-energy composite: each output pixel is the response pixel with
/// the maximum intensity across the bank, so the composite is at least
/// every individual orientation's response at every pixel.
pub fn gabor_combine(responses: &Vec<PixelBuffer>) -> (out: PixelBuffer)
    requires
        responses@.len() >= 1,
        forall|i: int| 0 <= i < responses@.len() ==> (#[trigger] responses@[i]).wf(),
        forall|i: int|
            0 <= i < responses@.len() ==> (#[trigger] responses@[i]).width == responses@[0].width
                && responses@[i].height == responses@[0].height,
    ensures
        out.wf(),
        out.width == responses@[0].width,
        out.height == responses@[0].height,
        forall|k: int|
            0 <= k < out@.len() ==> out@[k] == combined(
                views_of(responses@),
                k,
                responses@.len(),
            ),
        forall|i: int, k: int|
            0 <= i < responses@.len() && 0 <= k < out@.len() ==> out@[k].r
                >= #[trigger] responses@[i]@[k].r,
{
    let n = responses[0].data.len();
    let mut data: Vec<Pixel> = Vec::new();
    let mut k: usize = 0;
    while k < n
        invariant
            n == responses@[0]@.len(),
            k <= n,
            data@.len() == k,
            forall|j: int| 0 <= j < k ==> data@[j] == Pixel::splat(0),
        decreases n - k,
    {
        data.push(Pixel::uniform(0));
        k = k + 1;
    }
    let count = responses.len();
    let mut i: usize = 0;
    while i < count
        invariant
            count == responses@.len(),
            count >= 1,
            forall|j: int| 0 <= j < count ==> (#[trigger] responses@[j]).wf(),
            forall|j: int|
                0 <= j < count ==> (#[trigger] responses@[j]).width == responses@[0].width
                    && responses@[j].height == responses@[0].height,
            n == responses@[0]@.len(),
            i <= count,
            data@.len() == n,
            forall|j: int| 0 <= j < n ==> data@[j] == combined(views_of(responses@), j, i as nat),
        decreases count - i,
    {
        let resp = &responses[i];
        let mut k: usize = 0;
        while k < n
            invariant
                count == responses@.len(),
                count >= 1,
                forall|j: int| 0 <= j < count ==> (#[trigger] responses@[j]).wf(),
                forall|j: int|
                    0 <= j < count ==> (#[trigger] responses@[j]).width == responses@[0].width
                        && responses@[j].height == responses@[0].height,
                n == responses@[0]@.len(),
                i < count,
                resp == &responses@[i as int],
                k <= n,
                data@.len() == n,
                forall|j: int|
                    k <= j < n ==> data@[j] == combined(views_of(responses@), j, i as nat),
                forall|j: int|
                    0 <= j < k ==> data@[j] == combined(views_of(responses@), j, (i + 1) as nat),
            decreases n - k,
        {
            proof {
                assert(views_of(responses@)[i as int] == responses@[i as int]@);
            }
            let cand = resp.data[k];
            let cur = data[k];
            if cand.r > cur.r {
                data.set(k, cand);
            }
            proof {
                assert(data@[k as int] == combined(views_of(responses@), k as int, (i + 1) as nat));
            }
            k = k + 1;
        }
        i = i + 1;
    }
    let out = PixelBuffer {
        width: responses[0].width,
        height: responses[0].height,
        data,
    };
    proof {
        assert forall|i2: int, k2: int|
            0 <= i2 < responses@.len() && 0 <= k2 < out@.len() implies out@[k2].r
            >= responses@[i2]@[k2].r by {
            lemma_combined_ge(views_of(responses@), k2, responses@.len(), i2);
            assert(views_of(responses@)[i2] == responses@[i2]@);
        }
    }
    out
}

} // verus!
