//! A parallel image-blurring engine.
//!
//! The engine smooths a raster image with one of two algorithms: a
//! three-pass separable box blur that approximates a Gaussian filter,
//! computed per colour channel and fanned out across the channels, or a
//! fixed 5x5 convolution kernel applied per pixel and fanned out across
//! pixel ranges. The caller hands in an already-decoded image as a
//! width/height/pixel triple and receives a same-shaped output buffer;
//! decoding and encoding are the caller's business.
use vstd::prelude::*;

pub mod boxblur;
pub mod channels;
pub mod convolve;
pub mod laws;
pub mod parallel;
pub mod planner;
pub mod window;

verus! {

use crate::boxblur::gauss3_seq;
use crate::channels::chan_seq;
use crate::channels::merge_channels;
use crate::channels::merged_seq;
use crate::channels::split_channels;
use crate::convolve::convolve_image;
use crate::convolve::convolve_seq;
use crate::parallel::blur_planes_parallel;

/// A decoded raster image: interleaved 8-bit RGBA, row-major.
pub struct Image {
    pub width: u32,
    pub height: u32,
    pub pixels: Vec<u8>,
}

impl Image {
    /// Well-formedness: the buffer holds exactly one RGBA quadruple
    /// per pixel.
    pub open spec fn wf(self) -> bool {
        self.pixels@.len() == 4 * ((self.width as int) * (self.height as int))
    }
}

/// The two interchangeable smoothing algorithms.
pub enum BlurAlgorithm {
    /// Three-pass separable box blur approximating a Gaussian of
    /// strength `sigma`, one independent pipeline per colour channel.
    BoxBlur { sigma: usize },
    /// Fixed 5x5 kernel convolution per pixel, clamp-to-self at the
    /// boundary.
    Convolution,
}

/// The box-blur path over a whole RGBA buffer: split into planes, blur
/// each plane with the three-pass pipeline, merge with opaque alpha.
pub open spec fn box_blur_image_seq(pix: Seq<u8>, w: int, h: int, sigma: int) -> Seq<u8> {
    merged_seq(
        gauss3_seq(chan_seq(pix, 0), w, h, sigma),
        gauss3_seq(chan_seq(pix, 1), w, h, sigma),
        gauss3_seq(chan_seq(pix, 2), w, h, sigma),
    )
}

/// What `blur` returns for each algorithm.
pub open spec fn blur_seq(pix: Seq<u8>, w: int, h: int, algorithm: BlurAlgorithm) -> Seq<u8> {
    match algorithm {
        BlurAlgorithm::BoxBlur { sigma } => box_blur_image_seq(pix, w, h, sigma as int),
        BlurAlgorithm::Convolution => convolve_seq(pix, w),
    }
}

/// Blur an image with the chosen algorithm. The output has the shape
/// of the input; its pixels are pinned down exactly by [`blur_seq`].
///
/// The box-blur path requires the widest planned box (width
/// `2*sigma + 1`) to fit inside both image dimensions; a violation is
/// a caller error, not a recoverable condition.
pub fn blur(image: Image, algorithm: BlurAlgorithm) -> (out: Image)
    requires
        image.wf(),
        match algorithm {
            BlurAlgorithm::BoxBlur { sigma } => 1 <= sigma && 2 * sigma + 1 <= image.width && 2
                * sigma + 1 <= image.height,
            BlurAlgorithm::Convolution => true,
        },
    ensures
        out.width == image.width,
        out.height == image.height,
        out.wf(),
        out.pixels@ == blur_seq(
            image.pixels@,
            image.width as int,
            image.height as int,
            algorithm,
        ),
{
    let w = image.width;
    let h = image.height;
    let ghost p = image.pixels@;
    proof {
        assert(p.len() == image.pixels.len());
        vstd::arithmetic::div_mod::lemma_div_multiples_vanish((w as int) * (h as int), 4);
    }
    match algorithm {
        BlurAlgorithm::BoxBlur { sigma } => {
            let (rp, gp, bp) = split_channels(&image.pixels);
            let (ro, go, bo) = blur_planes_parallel(rp, gp, bp, w, h, sigma);
            let merged = merge_channels(&ro, &go, &bo);
            let pixels = merged.unwrap();
            proof {
                assert(pixels@ =~= box_blur_image_seq(p, w as int, h as int, sigma as int));
            }
            Image { width: w, height: h, pixels }
        },
        BlurAlgorithm::Convolution => {
            let pixels = convolve_image(&image.pixels, w, h, 8);
            Image { width: w, height: h, pixels }
        },
    }
}

} // verus!
