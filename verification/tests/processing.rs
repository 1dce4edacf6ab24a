use multispectral_filter::blob::blob;
use multispectral_filter::blur::gaussian_blur;
use multispectral_filter::convolve::convolve;
use multispectral_filter::gabor::gabor_combine;
use multispectral_filter::greyscale::greyscale;
use multispectral_filter::kernel::{gaussian_kernel, Kernel};
use multispectral_filter::pixel::{ConstructError, Pixel, PixelBuffer};
use multispectral_filter::sobel::{sobel, Direction};
use multispectral_filter::suppress::non_maximum_suppression;
use multispectral_filter::threshold::{threshold, Fraction};

fn uniform_buffer(width: usize, height: usize, v: u8) -> PixelBuffer {
    PixelBuffer::new_filled(width, height, Pixel::uniform(v)).unwrap()
}

fn grey_buffer(width: usize, height: usize, vals: &[u8]) -> PixelBuffer {
    assert_eq!(vals.len(), width * height);
    PixelBuffer {
        width,
        height,
        data: vals.iter().map(|&v| Pixel { r: v, g: v, b: v }).collect(),
    }
}

#[test]
fn flat_field_invariance_normalized_kernel() {
    // A kernel whose weights sum exactly to its divisor returns a uniform
    // image unchanged.
    let ker = Kernel::new(vec![1; 9], 3, 9).unwrap();
    let buf = uniform_buffer(5, 4, 200);
    let out = convolve(&buf, &ker);
    assert_eq!(out.width, 5);
    assert_eq!(out.height, 4);
    for p in &out.data {
        assert_eq!(*p, Pixel { r: 200, g: 200, b: 200 });
    }
}

#[test]
fn convolve_rounds_half_up() {
    // A single-cell kernel [1] with divisor 2 halves the value, rounding
    // halves up: 5 / 2 rounds to 3.
    let ker = Kernel::new(vec![1], 1, 2).unwrap();
    let buf = uniform_buffer(1, 1, 5);
    let out = convolve(&buf, &ker);
    assert_eq!(out.data[0], Pixel { r: 3, g: 3, b: 3 });
}

#[test]
fn convolve_clamps_high() {
    let ker = Kernel::new(vec![2], 1, 1).unwrap();
    let buf = uniform_buffer(2, 2, 200);
    let out = convolve(&buf, &ker);
    for p in &out.data {
        assert_eq!(*p, Pixel { r: 255, g: 255, b: 255 });
    }
}

#[test]
fn kernel_construction_errors() {
    assert_eq!(Kernel::new(vec![1; 4], 2, 1).unwrap_err(), ConstructError::EvenSide);
    assert_eq!(Kernel::new(vec![1; 9], 3, 0).unwrap_err(), ConstructError::BadDivisor);
    assert_eq!(Kernel::new(vec![1; 8], 3, 1).unwrap_err(), ConstructError::WeightCount);
    assert_eq!(
        Kernel::new(vec![0x1_0000_0000; 9], 3, 1).unwrap_err(),
        ConstructError::WeightRange
    );
    assert_eq!(Kernel::new(vec![1; 66049], 257, 1).unwrap_err(), ConstructError::SideTooLarge);
}

#[test]
fn buffer_construction_errors() {
    assert_eq!(
        PixelBuffer::new_filled(0, 3, Pixel::uniform(0)).unwrap_err(),
        ConstructError::ZeroArea
    );
    assert_eq!(
        PixelBuffer::new_filled(4, 0, Pixel::uniform(0)).unwrap_err(),
        ConstructError::ZeroArea
    );
}

#[test]
fn greyscale_weighted_sum() {
    // RGB (100, 150, 50): the three rounded terms are 30, 88 and 6, so the
    // luminance is 124 in all channels.
    let buf = PixelBuffer { width: 1, height: 1, data: vec![Pixel { r: 100, g: 150, b: 50 }] };
    let out = greyscale(&buf);
    assert_eq!(out.data[0], Pixel { r: 124, g: 124, b: 124 });
}

#[test]
fn greyscale_channels_equal() {
    let buf = PixelBuffer {
        width: 2,
        height: 2,
        data: vec![
            Pixel { r: 3, g: 250, b: 17 },
            Pixel { r: 255, g: 255, b: 255 },
            Pixel { r: 0, g: 0, b: 0 },
            Pixel { r: 9, g: 200, b: 31 },
        ],
    };
    let out = greyscale(&buf);
    for p in &out.data {
        assert_eq!(p.r, p.g);
        assert_eq!(p.g, p.b);
    }
}

#[test]
fn gaussian_blur_uniform_fixed_point() {
    let buf = uniform_buffer(7, 6, 93);
    let out = gaussian_blur(&buf);
    assert_eq!(out.width, 7);
    assert_eq!(out.height, 6);
    for p in &out.data {
        assert_eq!(*p, Pixel { r: 93, g: 93, b: 93 });
    }
}

#[test]
fn gaussian_kernel_shape() {
    let k = gaussian_kernel();
    assert_eq!(k.side, 5);
    assert_eq!(k.divisor, 159);
    assert_eq!(k.weights.iter().sum::<i64>(), 159);
}

#[test]
fn sobel_uniform_is_silent() {
    let buf = uniform_buffer(4, 5, 77);
    let (mag, dirs) = sobel(&buf);
    for p in &mag.data {
        assert_eq!(*p, Pixel { r: 0, g: 0, b: 0 });
    }
    for d in &dirs.dirs {
        assert_eq!(*d, Direction::Undefined);
    }
}

#[test]
fn sobel_vertical_step() {
    // Columns 255, 255, 0, constant down each column: at the center the
    // horizontal kernel responds 4 * 255 - 4 * 0 clamped to 255 and the
    // vertical kernel responds 0, so the direction is bin 0.
    let buf = grey_buffer(3, 3, &[255, 255, 0, 255, 255, 0, 255, 255, 0]);
    let (mag, dirs) = sobel(&buf);
    let center = mag.data[4];
    assert_eq!(center, Pixel { r: 255, g: 255, b: 255 });
    assert_eq!(dirs.dirs[4], Direction::Quantized(0));
}

#[test]
fn sobel_diagonal_gradient_exact() {
    // Intensities 6 - x - 2y: at the center the horizontal response is 8,
    // the vertical one 16, the magnitude rounds the square root of 320 to
    // 18, and the angle falls in the middle bin.
    let buf = grey_buffer(3, 3, &[6, 5, 4, 4, 3, 2, 2, 1, 0]);
    let (mag, dirs) = sobel(&buf);
    assert_eq!(mag.data[4], Pixel { r: 18, g: 18, b: 18 });
    assert_eq!(dirs.dirs[4], Direction::Quantized(1));
}

#[test]
fn suppression_bin_zero_steps_up_right() {
    // Bin 0 steps right and up. The pass over the lower-left pixel (value
    // 9) zeroes its upper-right neighbor (value 2, already past its own
    // turn); everything else keeps its snapshot value.
    let buf = grey_buffer(2, 2, &[1, 2, 9, 3]);
    let dirs = multispectral_filter::sobel::DirectionField {
        width: 2,
        height: 2,
        dirs: vec![
            Direction::Quantized(0),
            Direction::Quantized(0),
            Direction::Quantized(0),
            Direction::Quantized(0),
        ],
    };
    let out = non_maximum_suppression(&buf, &dirs);
    assert_eq!(out.data[0], Pixel { r: 1, g: 1, b: 1 });
    assert_eq!(out.data[1], Pixel { r: 0, g: 0, b: 0 });
    assert_eq!(out.data[2], Pixel { r: 9, g: 9, b: 9 });
    assert_eq!(out.data[3], Pixel { r: 3, g: 3, b: 3 });
}

#[test]
fn suppression_zeroes_dominated_neighbor() {
    // All directions quantized to bin 2 (step right-down). The pass over
    // the last pixel zeroes the first: its snapshot value 5 does not exceed
    // the last pixel's 7; every other pixel keeps its snapshot value.
    let buf = grey_buffer(2, 2, &[5, 10, 20, 7]);
    let dirs = multispectral_filter::sobel::DirectionField {
        width: 2,
        height: 2,
        dirs: vec![
            Direction::Quantized(2),
            Direction::Quantized(2),
            Direction::Quantized(2),
            Direction::Quantized(2),
        ],
    };
    let out = non_maximum_suppression(&buf, &dirs);
    assert_eq!(out.data[0], Pixel { r: 0, g: 0, b: 0 });
    assert_eq!(out.data[1], Pixel { r: 10, g: 10, b: 10 });
    assert_eq!(out.data[2], Pixel { r: 20, g: 20, b: 20 });
    assert_eq!(out.data[3], Pixel { r: 7, g: 7, b: 7 });
}

#[test]
fn suppression_zeroes_undefined_and_never_increases() {
    let buf = grey_buffer(2, 2, &[5, 10, 20, 7]);
    let dirs = multispectral_filter::sobel::DirectionField {
        width: 2,
        height: 2,
        dirs: vec![
            Direction::Quantized(2),
            Direction::Undefined,
            Direction::Quantized(2),
            Direction::Quantized(2),
        ],
    };
    let out = non_maximum_suppression(&buf, &dirs);
    assert_eq!(out.data[1], Pixel { r: 0, g: 0, b: 0 });
    for (o, i) in out.data.iter().zip(buf.data.iter()) {
        assert!(o.r <= i.r);
    }
}

#[test]
fn threshold_three_levels() {
    // Cutoffs 0.15 and 0.45 scale to 38.25 and 114.75: intensity 40 is
    // weak, 200 is strong, 30 is background, 100 is weak.
    let buf = grey_buffer(2, 2, &[40, 200, 30, 100]);
    let lower = Fraction { num: 15, den: 100 };
    let upper = Fraction { num: 45, den: 100 };
    let out = threshold(&buf, lower, upper);
    assert_eq!(out.data[0], Pixel { r: 127, g: 127, b: 127 });
    assert_eq!(out.data[1], Pixel { r: 255, g: 255, b: 255 });
    assert_eq!(out.data[2], Pixel { r: 0, g: 0, b: 0 });
    assert_eq!(out.data[3], Pixel { r: 127, g: 127, b: 127 });
    for p in &out.data {
        assert!(p.r == 0 || p.r == 127 || p.r == 255);
    }
}

#[test]
fn threshold_boundary_exact() {
    // With cutoffs 1/5 (51) and 4/5 (204) the comparisons are exact:
    // 51 is not below the lower cutoff, 204 reaches the upper one.
    let buf = grey_buffer(2, 2, &[51, 50, 204, 203]);
    let lower = Fraction { num: 1, den: 5 };
    let upper = Fraction { num: 4, den: 5 };
    let out = threshold(&buf, lower, upper);
    assert_eq!(out.data[0].r, 127);
    assert_eq!(out.data[1].r, 0);
    assert_eq!(out.data[2].r, 255);
    assert_eq!(out.data[3].r, 127);
}

#[test]
fn blob_promotes_weak_only() {
    let buf = grey_buffer(2, 2, &[127, 0, 255, 127]);
    let out = blob(&buf);
    assert_eq!(out.data[0], Pixel { r: 255, g: 255, b: 255 });
    assert_eq!(out.data[1], Pixel { r: 0, g: 0, b: 0 });
    assert_eq!(out.data[2], Pixel { r: 255, g: 255, b: 255 });
    assert_eq!(out.data[3], Pixel { r: 255, g: 255, b: 255 });
}

#[test]
fn blob_single_cell_unchanged() {
    let buf = grey_buffer(1, 1, &[127]);
    let out = blob(&buf);
    assert_eq!(out.data[0], Pixel { r: 127, g: 127, b: 127 });
}

#[test]
fn gabor_combine_takes_maximum() {
    let a = grey_buffer(2, 1, &[10, 200]);
    let b = grey_buffer(2, 1, &[30, 100]);
    let responses = vec![a, b];
    let out = gabor_combine(&responses);
    assert_eq!(out.data[0], Pixel { r: 30, g: 30, b: 30 });
    assert_eq!(out.data[1], Pixel { r: 200, g: 200, b: 200 });
    for resp in &responses {
        for (o, r) in out.data.iter().zip(resp.data.iter()) {
            assert!(o.r >= r.r);
        }
    }
}

#[test]
fn gabor_combine_breaks_ties_toward_first() {
    // A later response replaces the running maximum only when strictly
    // greater, so on a tie the earlier pixel stays.
    let a = PixelBuffer { width: 1, height: 1, data: vec![Pixel { r: 50, g: 1, b: 2 }] };
    let b = PixelBuffer { width: 1, height: 1, data: vec![Pixel { r: 50, g: 3, b: 4 }] };
    let out = gabor_combine(&vec![a, b]);
    assert_eq!(out.data[0], Pixel { r: 50, g: 1, b: 2 });
}

#[test]
fn pipeline_end_to_end_uniform() {
    // A uniform image survives greyscale and blur, silences Sobel, is
    // zeroed by suppression (all directions undefined), maps to a single
    // threshold level, and blob keeps the decided levels.
    let buf = uniform_buffer(6, 6, 160);
    let g = greyscale(&buf);
    assert_eq!(g.data[0].r, 160);
    let blurred = gaussian_blur(&g);
    assert_eq!(blurred.data[7], Pixel { r: 160, g: 160, b: 160 });
    let (mag, dirs) = sobel(&blurred);
    let s = non_maximum_suppression(&mag, &dirs);
    for p in &s.data {
        assert_eq!(p.r, 0);
    }
    let t = threshold(&s, Fraction { num: 15, den: 100 }, Fraction { num: 45, den: 100 });
    for p in &t.data {
        assert_eq!(p.r, 0);
    }
    let linked = blob(&t);
    for p in &linked.data {
        assert_eq!(p.r, 0);
    }
}
