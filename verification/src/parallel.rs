//! Trusted fan-out of independent work onto rayon's thread pool.
//!
//! Both fan-outs hand rayon closures that only call verified functions
//! of this crate on disjoint data; rayon contributes scheduling alone,
//! so each contract below restates the callee's contract over the
//! joined results.
use rayon::iter::IndexedParallelIterator;
use rayon::iter::IntoParallelRefIterator;
use rayon::iter::ParallelIterator;
use vstd::prelude::*;

verus! {

use crate::boxblur::gauss3_seq;
use crate::convolve::convolve_seq;

/// Relies on `rayon::scope`: the call blocks until every task spawned
/// in the scope has completed, so each returned plane holds the value
/// computed by the verified [`crate::boxblur::new_blur`] call for its
/// channel.
#[verifier::external_body]
pub fn blur_planes_parallel(
    rp: Vec<u8>,
    gp: Vec<u8>,
    bp: Vec<u8>,
    w: u32,
    h: u32,
    sigma: usize,
) -> (res: (Vec<u8>, Vec<u8>, Vec<u8>))
    requires
        rp@.len() == (w as int) * (h as int),
        gp@.len() == (w as int) * (h as int),
        bp@.len() == (w as int) * (h as int),
        1 <= sigma,
        2 * sigma + 1 <= w,
        2 * sigma + 1 <= h,
    ensures
        res.0@ == gauss3_seq(rp@, w as int, h as int, sigma as int),
        res.1@ == gauss3_seq(gp@, w as int, h as int, sigma as int),
        res.2@ == gauss3_seq(bp@, w as int, h as int, sigma as int),
{
    let mut ro: Vec<u8> = Vec::new();
    let mut go: Vec<u8> = Vec::new();
    let mut bo: Vec<u8> = Vec::new();
    rayon::scope(|s| {
        s.spawn(|_| ro = crate::boxblur::new_blur(rp, w, h, sigma));
        s.spawn(|_| go = crate::boxblur::new_blur(gp, w, h, sigma));
        s.spawn(|_| bo = crate::boxblur::new_blur(bp, w, h, sigma));
    });
    (ro, go, bo)
}

/// Relies on rayon's indexed parallel iterator over a slice: `map`
/// keeps the indexing and `collect_into_vec` gathers exactly one
/// output per input in the input's order, so segment `i` holds the
/// verified [`crate::convolve::convolve_range`] output for bounds
/// entry `i`.
#[verifier::external_body]
pub fn convolve_ranges_parallel(pixels: &Vec<u8>, w: u32, bounds: &Vec<(usize, usize)>) -> (segs:
    Vec<Vec<u8>>)
    requires
        pixels@.len() % 4 == 0,
        forall|i: int|
            0 <= i < bounds@.len() ==> (#[trigger] bounds@[i]).0 <= bounds@[i].1 && 4
                * bounds@[i].1 <= pixels@.len() && (bounds@[i].0 < bounds@[i].1 ==> w >= 1),
    ensures
        segs@.len() == bounds@.len(),
        forall|i: int|
            0 <= i < bounds@.len() ==> (#[trigger] segs@[i])@ == convolve_seq(
                pixels@,
                w as int,
            ).subrange(4 * bounds@[i].0, 4 * bounds@[i].1),
{
    let mut segs: Vec<Vec<u8>> = Vec::new();
    bounds.par_iter().map(
        |be: &(usize, usize)| crate::convolve::convolve_range(pixels, w, be.0, be.1),
    ).collect_into_vec(&mut segs);
    segs
}

} // verus!
