use parblur::blur;
use parblur::boxblur::box_blur;
use parblur::boxblur::box_blur_h;
use parblur::boxblur::box_blur_v;
use parblur::boxblur::new_blur;
use parblur::channels::merge_channels;
use parblur::channels::split_channels;
use parblur::convolve::convolve_image;
use parblur::convolve::convolve_range;
use parblur::convolve::kernel_weight_at;
use parblur::convolve::KERNEL_DENOM;
use parblur::planner::boxes_for_gauss;
use parblur::BlurAlgorithm;
use parblur::Image;

fn gray_image(w: u32, h: u32, vals: &[u8]) -> Image {
    let mut pixels: Vec<u8> = Vec::new();
    for &v in vals {
        pixels.push(v);
        pixels.push(v);
        pixels.push(v);
        pixels.push(255);
    }
    Image {
        width: w,
        height: h,
        pixels,
    }
}

fn solid_image(w: u32, h: u32, v: u8) -> Image {
    Image {
        width: w,
        height: h,
        pixels: vec![v; (w * h * 4) as usize],
    }
}

#[test]
fn planner_sigma_five_narrow_wide_split() {
    let widths = boxes_for_gauss(5);
    assert_eq!(widths, vec![9, 9, 11]);
    let wl = widths[0];
    let wu = widths[2];
    assert!(wl <= wu);
    assert_eq!(wu, wl + 2);
    let narrow_count = widths.iter().filter(|&&x| x == wl).count();
    assert!(narrow_count <= 3);
    let radii: Vec<usize> = widths.iter().map(|&x| (x - 1) / 2).collect();
    assert_eq!(radii, vec![4, 4, 5]);
}

#[test]
fn planner_small_sigmas() {
    assert_eq!(boxes_for_gauss(1), vec![1, 1, 3]);
    assert_eq!(boxes_for_gauss(3), vec![5, 5, 7]);
}

#[test]
fn kernel_weights_sum_to_one() {
    let mut sum: f32 = 0.0;
    for k in 0..25 {
        sum += kernel_weight_at(k) as f32 / KERNEL_DENOM as f32;
    }
    assert!((sum - 1.0).abs() < 1e-6);
}

#[test]
fn kernel_weights_match_binomial_grid() {
    let coeffs = [1u32, 4, 6, 4, 1];
    for k in 0..25 {
        assert_eq!(kernel_weight_at(k), coeffs[k % 5] * coeffs[k / 5]);
    }
}

#[test]
fn single_row_averages_existing_values_only() {
    // Edge replication pads with the row's own first and last values,
    // never zeros: output 33 = round((0+0+100)/3), not round((0+100)/3
    // over fabricated zero padding).
    let out = box_blur_h(vec![0, 100, 200, 50], 4, 1, 1);
    assert_eq!(out, vec![33, 100, 117, 100]);
}

#[test]
fn single_column_averages_existing_values_only() {
    let out = box_blur_v(vec![0, 100, 200, 50], 1, 4, 1);
    assert_eq!(out, vec![33, 100, 117, 100]);
}

#[test]
fn box_blur_exact_three_by_three() {
    let out = box_blur(vec![10, 20, 30, 40, 50, 60, 70, 80, 90], 3, 3, 1);
    assert_eq!(out, vec![23, 30, 37, 43, 50, 57, 63, 70, 77]);
}

#[test]
fn new_blur_keeps_uniform_plane() {
    let out = new_blur(vec![7; 25], 5, 5, 1);
    assert_eq!(out, vec![7; 25]);
}

#[test]
fn split_then_merge_forces_opaque_alpha() {
    let pixels = vec![1, 2, 3, 4, 5, 6, 7, 8];
    let (r, g, b) = split_channels(&pixels);
    assert_eq!(r, vec![1, 5]);
    assert_eq!(g, vec![2, 6]);
    assert_eq!(b, vec![3, 7]);
    let merged = merge_channels(&r, &g, &b).unwrap();
    assert_eq!(merged, vec![1, 2, 3, 255, 5, 6, 7, 255]);
}

#[test]
fn merge_rejects_unequal_planes() {
    let r = vec![1, 2];
    let g = vec![3];
    let b = vec![4, 5];
    assert!(merge_channels(&r, &g, &b).is_none());
}

#[test]
fn convolution_chunking_is_deterministic() {
    let mut pixels: Vec<u8> = Vec::new();
    for i in 0..64u32 {
        pixels.push((i * 3) as u8);
        pixels.push((i * 5) as u8);
        pixels.push((i * 7) as u8);
        pixels.push(255);
    }
    let one = convolve_image(&pixels, 8, 8, 1);
    let few = convolve_image(&pixels, 8, 8, 5);
    let many = convolve_image(&pixels, 8, 8, 64);
    assert_eq!(one, few);
    assert_eq!(one, many);
}

#[test]
fn convolve_range_segments_concatenate_to_whole() {
    let mut pixels: Vec<u8> = Vec::new();
    for i in 0..12u32 {
        pixels.push((i * 11) as u8);
        pixels.push((i * 13) as u8);
        pixels.push((i * 17) as u8);
        pixels.push(255);
    }
    let whole = convolve_range(&pixels, 4, 0, 12);
    let mut parts = convolve_range(&pixels, 4, 0, 5);
    parts.extend(convolve_range(&pixels, 4, 5, 12));
    assert_eq!(whole, parts);
}

#[test]
fn convolution_three_by_three_grayscale_oracle() {
    // A 5x5 kernel on a 3x3 image exercises the clamp-to-self boundary
    // path on every pixel; the expected values follow directly from the
    // kernel table and the clamp policy.
    let img = gray_image(3, 3, &[10, 20, 30, 40, 50, 60, 70, 80, 90]);
    let out = blur(img, BlurAlgorithm::Convolution);
    let expected = [22u8, 31, 38, 44, 50, 55, 61, 68, 77];
    for i in 0..9 {
        assert_eq!(out.pixels[4 * i], expected[i]);
        assert_eq!(out.pixels[4 * i + 1], expected[i]);
        assert_eq!(out.pixels[4 * i + 2], expected[i]);
        assert_eq!(out.pixels[4 * i + 3], 255);
    }
    // The centre pixel ends at the weighted average of itself and its
    // reachable neighbours.
    assert_eq!(out.pixels[4 * 4], 50);
}

#[test]
fn solid_image_unchanged_by_box_blur() {
    let img = solid_image(4, 4, 100);
    let out = blur(img, BlurAlgorithm::BoxBlur { sigma: 1 });
    assert_eq!(out.width, 4);
    assert_eq!(out.height, 4);
    for i in 0..16 {
        assert_eq!(out.pixels[4 * i], 100);
        assert_eq!(out.pixels[4 * i + 1], 100);
        assert_eq!(out.pixels[4 * i + 2], 100);
        assert_eq!(out.pixels[4 * i + 3], 255);
    }
}

#[test]
fn solid_image_unchanged_by_convolution() {
    let img = solid_image(4, 4, 100);
    let out = blur(img, BlurAlgorithm::Convolution);
    for i in 0..16 {
        assert_eq!(out.pixels[4 * i], 100);
        assert_eq!(out.pixels[4 * i + 1], 100);
        assert_eq!(out.pixels[4 * i + 2], 100);
        assert_eq!(out.pixels[4 * i + 3], 255);
    }
}

#[test]
fn flat_field_is_fixed_point_of_both_algorithms() {
    let mut pixels: Vec<u8> = Vec::new();
    for _ in 0..64 {
        pixels.push(30);
        pixels.push(60);
        pixels.push(90);
        pixels.push(255);
    }
    let boxed = blur(
        Image {
            width: 8,
            height: 8,
            pixels: pixels.clone(),
        },
        BlurAlgorithm::BoxBlur { sigma: 2 },
    );
    assert_eq!(boxed.pixels, pixels);
    let conved = blur(
        Image {
            width: 8,
            height: 8,
            pixels: pixels.clone(),
        },
        BlurAlgorithm::Convolution,
    );
    assert_eq!(conved.pixels, pixels);
}

#[test]
fn box_blur_path_matches_per_channel_pipeline() {
    let vals: Vec<u8> = (0..36u32).map(|i| (i * 7) as u8).collect();
    let img = gray_image(6, 6, &vals);
    let out = blur(img, BlurAlgorithm::BoxBlur { sigma: 1 });
    let plane = new_blur(vals.clone(), 6, 6, 1);
    for i in 0..36 {
        assert_eq!(out.pixels[4 * i], plane[i]);
        assert_eq!(out.pixels[4 * i + 1], plane[i]);
        assert_eq!(out.pixels[4 * i + 2], plane[i]);
        assert_eq!(out.pixels[4 * i + 3], 255);
    }
}
