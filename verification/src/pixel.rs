//! The pixel grid that every transform stage consumes and produces.

use vstd::prelude::*;

verus! {

/// One 8-bit RGB pixel. After the greyscale stage the three channels are
/// equal and channel `r` carries the intensity.
#[derive(Clone, Copy, PartialEq, Eq, Structural, Debug)]
pub struct Pixel {
    pub r: u8,
    pub g: u8,
    pub b: u8,
}

impl Pixel {
    /// The pixel whose three channels all hold `v`.
    pub open spec fn splat(v: u8) -> Pixel {
        Pixel { r: v, g: v, b: v }
    }

    /// Channel selection by index: 0 is red, 1 is green, anything else blue.
    pub open spec fn channel(self, c: int) -> u8 {
        if c == 0 {
            self.r
        } else if c == 1 {
            self.g
        } else {
            self.b
        }
    }

    /// Builds the pixel whose three channels all hold `v`.
    pub fn uniform(v: u8) -> (p: Pixel)
        ensures
            p == Pixel::splat(v),
    {
        Pixel { r: v, g: v, b: v }
    }
}

/// Why a buffer or kernel could not be constructed.
#[derive(Clone, Copy, PartialEq, Eq, Structural, Debug)]
pub enum ConstructError {
    /// A buffer must have at least one column and one row.
    ZeroArea,
    /// The requested pixel count does not fit in memory.
    TooLarge,
    /// A kernel's side length must be odd so a unique center cell exists.
    EvenSide,
    /// A kernel's weight list must hold exactly side-by-side entries.
    WeightCount,
    /// A kernel's divisor must lie in `1 ..= MAX_KERNEL_WEIGHT`.
    BadDivisor,
    /// Every kernel weight must lie in `-MAX_KERNEL_WEIGHT ..= MAX_KERNEL_WEIGHT`.
    WeightRange,
    /// A kernel's side length must be at most `MAX_KERNEL_SIDE`.
    SideTooLarge,
}

/// A width-by-height grid of pixels stored row-major: the pixel at column
/// `x` and row `y` sits at index `y * width + x`.
#[derive(Debug)]
pub struct PixelBuffer {
    pub width: usize,
    pub height: usize,
    pub data: Vec<Pixel>,
}

impl View for PixelBuffer {
    type V = Seq<Pixel>;

    open spec fn view(&self) -> Seq<Pixel> {
        self.data@
    }
}

impl PixelBuffer {
    /// A buffer is well formed when it has positive area and its data holds
    /// exactly one pixel per grid cell.
    pub open spec fn wf(self) -> bool {
        &&& self.width >= 1
        &&& self.height >= 1
        &&& self.data@.len() == self.width * self.height
    }

    /// The pixel at column `x`, row `y`.
    pub open spec fn pix(self, x: int, y: int) -> Pixel {
        self.data@[y * self.width + x]
    }

    /// Whether `(x, y)` lies inside the grid.
    pub open spec fn in_bounds(self, x: int, y: int) -> bool {
        0 <= x < self.width && 0 <= y < self.height
    }

    /// Creates a buffer of the given dimensions filled with `fill`.
    /// Zero-area requests are rejected, as is an area beyond the address
    /// space.
    pub fn new_filled(width: usize, height: usize, fill: Pixel) -> (r: Result<
        PixelBuffer,
        ConstructError,
    >)
        ensures
            r matches Ok(b) ==> {
                &&& b.wf()
                &&& b.width == width
                &&& b.height == height
                &&& forall|k: int| 0 <= k < b@.len() ==> b@[k] == fill
            },
            r matches Err(e) ==> {
                &&& (e == ConstructError::ZeroArea <==> (width == 0 || height == 0))
                &&& (e == ConstructError::TooLarge <==> (width >= 1 && height >= 1 && width
                    * height > usize::MAX))
            },
            r is Ok <==> (width >= 1 && height >= 1 && width * height <= usize::MAX),
    {
        if width == 0 || height == 0 {
            return Err(ConstructError::ZeroArea);
        }
        let area = match width.checked_mul(height) {
            Some(a) => a,
            None => {
                return Err(ConstructError::TooLarge);
            },
        };
        let mut data: Vec<Pixel> = Vec::new();
        let mut k: usize = 0;
        while k < area
            invariant
                k <= area,
                data@.len() == k,
                forall|i: int| 0 <= i < k ==> data@[i] == fill,
            decreases area - k,
        {
            data.push(fill);
            k = k + 1;
        }
        Ok(PixelBuffer { width, height, data })
    }

    /// Reads the pixel at column `x`, row `y`.
    pub fn get(&self, x: usize, y: usize) -> (p: Pixel)
        requires
            self.wf(),
            x < self.width,
            y < self.height,
        ensures
            p == self.pix(x as int, y as int),
    {
        let _n = self.data.len();
        proof {
            lemma_row_major_bound(x as int, y as int, self.width as int, self.height as int);
        }
        self.data[y * self.width + x]
    }

    /// Replaces the pixel at column `x`, row `y`.
    pub fn set(&mut self, x: usize, y: usize, p: Pixel)
        requires
            old(self).wf(),
            x < old(self).width,
            y < old(self).height,
        ensures
            final(self).wf(),
            final(self).width == old(self).width,
            final(self).height == old(self).height,
            final(self)@ == old(self)@.update(y * old(self).width + x, p),
    {
        let _n = self.data.len();
        proof {
            lemma_row_major_bound(x as int, y as int, self.width as int, self.height as int);
        }
        let i = y * self.width + x;
        self.data.set(i, p);
    }

    /// Copies the buffer, pixel for pixel: the snapshot that an in-place
    /// stage reads while it writes its output.
    pub fn snapshot(&self) -> (r: PixelBuffer)
        requires
            self.wf(),
        ensures
            r.wf(),
            r.width == self.width,
            r.height == self.height,
            r@ == self@,
    {
        let n = self.data.len();
        let mut data: Vec<Pixel> = Vec::new();
        let mut k: usize = 0;
        while k < n
            invariant
                k <= n,
                n == self.data@.len(),
                data@.len() == k,
                forall|i: int| 0 <= i < k ==> data@[i] == self.data@[i],
            decreases n - k,
        {
            data.push(self.data[k]);
            k = k + 1;
        }
        let r = PixelBuffer { width: self.width, height: self.height, data };
        proof {
            assert(r@ =~= self@);
        }
        r
    }
}

/// Row-major indexing stays inside the grid.
pub proof fn lemma_row_major_bound(x: int, y: int, w: int, h: int)
    requires
        0 <= x < w,
        0 <= y < h,
    ensures
        0 <= y * w + x < w * h,
{
    assert(0 <= y * w + x < w * h) by (nonlinear_arith)
        requires
            0 <= x < w,
            0 <= y < h,
    ;
}

/// Distinct cells have distinct flat indices.
pub proof fn lemma_row_major_injective(w: int, h: int, x1: int, y1: int, x2: int, y2: int)
    requires
        0 <= x1 < w,
        0 <= y1 < h,
        0 <= x2 < w,
        0 <= y2 < h,
    ensures
        (y1 * w + x1 == y2 * w + x2) <==> (x1 == x2 && y1 == y2),
{
    lemma_row_major_coords(x1, y1, w);
    lemma_row_major_coords(x2, y2, w);
}

/// The flat index `y * w + x` decomposes back into its column and row.
pub proof fn lemma_row_major_coords(x: int, y: int, w: int)
    requires
        0 <= x < w,
        0 <= y,
    ensures
        (y * w + x) / w == y,
        (y * w + x) % w == x,
{
    vstd::arithmetic::div_mod::lemma_fundamental_div_mod_converse(y * w + x, w, y, x);
}

} // verus!
