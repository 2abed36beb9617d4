//! The fixed 5x5 convolution kernel and the per-pixel convolution
//! engine with clamp-to-self boundary handling.
//!
//! The kernel is separable binomial smoothing: the weight at offset
//! `(dx, dy)` is `coeff(dx) * coeff(dy)` with coefficients
//! `[1, 4, 6, 4, 1]`, over the common denominator 256. The 25 weights
//! sum exactly to the denominator, so a uniform region keeps its
//! brightness.
//!
//! Boundary policy: a neighbour is addressed by its flat pixel index
//! `i + dx + dy*w`; if that index falls outside the buffer the centre
//! pixel's own value stands in (clamp-to-self). The flat arithmetic
//! deliberately wraps within rows at the left and right edges; this is
//! a documented approximation, weaker than the box passes' edge
//! replication, and is kept distinct from it on purpose.
use vstd::prelude::*;

verus! {

/// Common denominator of the 25 kernel weight numerators.
pub const KERNEL_DENOM: u32 = 256;

/// One row (or column) of binomial coefficients of the separable 5x5
/// kernel.
pub open spec fn kern_coeff(d: int) -> int {
    if d == -2 || d == 2 {
        1
    } else if d == -1 || d == 1 {
        4
    } else if d == 0 {
        6
    } else {
        0
    }
}

/// Weight numerator of the kernel entry at offset `(dx, dy)`.
pub open spec fn kern_weight(dx: int, dy: int) -> int {
    kern_coeff(dx) * kern_coeff(dy)
}

/// Offset along x of the kernel entry `k` (row-major over the 5x5
/// grid).
pub open spec fn kern_dx(k: int) -> int {
    k % 5 - 2
}

/// Offset along y of the kernel entry `k`.
pub open spec fn kern_dy(k: int) -> int {
    k / 5 - 2
}

/// Sum of the weight numerators of the first `k` kernel entries.
pub open spec fn kern_sum(k: nat) -> int
    decreases k,
{
    if k == 0 {
        0
    } else {
        kern_sum((k - 1) as nat) + kern_weight(kern_dx(k - 1), kern_dy(k - 1))
    }
}

/// Every kernel entry has a non-negative weight numerator.
pub proof fn lemma_kern_weight_nonneg(k: int)
    ensures
        0 <= kern_weight(kern_dx(k), kern_dy(k)) <= 36,
{
    assert(0 <= kern_coeff(kern_dx(k)) <= 6);
    assert(0 <= kern_coeff(kern_dy(k)) <= 6);
    assert(0 <= kern_coeff(kern_dx(k)) * kern_coeff(kern_dy(k)) <= 36) by (nonlinear_arith)
        requires
            0 <= kern_coeff(kern_dx(k)) <= 6,
            0 <= kern_coeff(kern_dy(k)) <= 6,
    ;
}

/// One unfolding of [`kern_sum`], with the entry's offsets given by
/// its position `k == 5*q + j` in the row-major kernel grid.
proof fn lemma_kern_sum_step(k: nat, q: int, j: int)
    requires
        k == 5 * q + j,
        0 <= j < 5,
    ensures
        kern_sum((k + 1) as nat) == kern_sum(k) + kern_weight(j - 2, q - 2),
{
    vstd::arithmetic::div_mod::lemma_fundamental_div_mod_converse(k as int, 5, q, j);
}

/// The 25 kernel weight numerators sum exactly to the common
/// denominator: the kernel's weights sum to one, so convolution
/// preserves the brightness of a uniform region.
#[verifier::rlimit(100)]
pub proof fn lemma_kernel_weights_sum()
    ensures
        kern_sum(25) == KERNEL_DENOM,
{
    assert(kern_sum(0) == 0);
    assert(kern_sum(1) == 1) by {
        lemma_kern_sum_step(0, 0, 0);
        assert(kern_sum(0) == 0);
    }
    assert(kern_sum(2) == 5) by {
        lemma_kern_sum_step(1, 0, 1);
        assert(kern_sum(1) == 1);
    }
    assert(kern_sum(3) == 11) by {
        lemma_kern_sum_step(2, 0, 2);
        assert(kern_sum(2) == 5);
    }
    assert(kern_sum(4) == 15) by {
        lemma_kern_sum_step(3, 0, 3);
        assert(kern_sum(3) == 11);
    }
    assert(kern_sum(5) == 16) by {
        lemma_kern_sum_step(4, 0, 4);
        assert(kern_sum(4) == 15);
    }
    assert(kern_sum(6) == 20) by {
        lemma_kern_sum_step(5, 1, 0);
        assert(kern_sum(5) == 16);
    }
    assert(kern_sum(7) == 36) by {
        lemma_kern_sum_step(6, 1, 1);
        assert(kern_sum(6) == 20);
    }
    assert(kern_sum(8) == 60) by {
        lemma_kern_sum_step(7, 1, 2);
        assert(kern_sum(7) == 36);
    }
    assert(kern_sum(9) == 76) by {
        lemma_kern_sum_step(8, 1, 3);
        assert(kern_sum(8) == 60);
    }
    assert(kern_sum(10) == 80) by {
        lemma_kern_sum_step(9, 1, 4);
        assert(kern_sum(9) == 76);
    }
    assert(kern_sum(11) == 86) by {
        lemma_kern_sum_step(10, 2, 0);
        assert(kern_sum(10) == 80);
    }
    assert(kern_sum(12) == 110) by {
        lemma_kern_sum_step(11, 2, 1);
        assert(kern_sum(11) == 86);
    }
    assert(kern_sum(13) == 146) by {
        lemma_kern_sum_step(12, 2, 2);
        assert(kern_sum(12) == 110);
    }
    assert(kern_sum(14) == 170) by {
        lemma_kern_sum_step(13, 2, 3);
        assert(kern_sum(13) == 146);
    }
    assert(kern_sum(15) == 176) by {
        lemma_kern_sum_step(14, 2, 4);
        assert(kern_sum(14) == 170);
    }
    assert(kern_sum(16) == 180) by {
        lemma_kern_sum_step(15, 3, 0);
        assert(kern_sum(15) == 176);
    }
    assert(kern_sum(17) == 196) by {
        lemma_kern_sum_step(16, 3, 1);
        assert(kern_sum(16) == 180);
    }
    assert(kern_sum(18) == 220) by {
        lemma_kern_sum_step(17, 3, 2);
        assert(kern_sum(17) == 196);
    }
    assert(kern_sum(19) == 236) by {
        lemma_kern_sum_step(18, 3, 3);
        assert(kern_sum(18) == 220);
    }
    assert(kern_sum(20) == 240) by {
        lemma_kern_sum_step(19, 3, 4);
        assert(kern_sum(19) == 236);
    }
    assert(kern_sum(21) == 241) by {
        lemma_kern_sum_step(20, 4, 0);
        assert(kern_sum(20) == 240);
    }
    assert(kern_sum(22) == 245) by {
        lemma_kern_sum_step(21, 4, 1);
        assert(kern_sum(21) == 241);
    }
    assert(kern_sum(23) == 251) by {
        lemma_kern_sum_step(22, 4, 2);
        assert(kern_sum(22) == 245);
    }
    assert(kern_sum(24) == 255) by {
        lemma_kern_sum_step(23, 4, 3);
        assert(kern_sum(23) == 251);
    }
    assert(kern_sum(25) == 256) by {
        lemma_kern_sum_step(24, 4, 4);
        assert(kern_sum(24) == 255);
    }
}

/// Partial weight sums grow monotonically and stay within the total.
pub proof fn lemma_kern_sum_bounds(k: nat)
    requires
        k <= 25,
    ensures
        0 <= kern_sum(k) <= 256,
    decreases 25 - k,
{
    if k == 25 {
        lemma_kernel_weights_sum();
        lemma_kern_sum_nonneg(25);
    } else {
        lemma_kern_sum_bounds((k + 1) as nat);
        lemma_kern_weight_nonneg(k as int);
        lemma_kern_sum_nonneg(k);
    }
}

/// Weight sums are non-negative.
pub proof fn lemma_kern_sum_nonneg(k: nat)
    ensures
        0 <= kern_sum(k),
    decreases k,
{
    if k > 0 {
        lemma_kern_sum_nonneg((k - 1) as nat);
        lemma_kern_weight_nonneg(k - 1);
    }
}

/// The sample used for kernel offset `(dx, dy)` at pixel `i`: the
/// neighbour's channel `c` value if the flat neighbour index hits the
/// buffer, the centre pixel's own value if not.
pub open spec fn conv_sample(p: Seq<u8>, w: int, i: int, dx: int, dy: int, c: int) -> u8 {
    let ni = i + dx + dy * w;
    if 0 <= ni < p.len() / 4 {
        p[4 * ni + c]
    } else {
        p[4 * i + c]
    }
}

/// Weighted sum of the first `k` kernel entries for channel `c` of
/// pixel `i`.
pub open spec fn conv_sum(p: Seq<u8>, w: int, i: int, c: int, k: nat) -> int
    decreases k,
{
    if k == 0 {
        0
    } else {
        conv_sum(p, w, i, c, (k - 1) as nat) + kern_weight(kern_dx(k - 1), kern_dy(k - 1))
            * conv_sample(p, w, i, kern_dx(k - 1), kern_dy(k - 1), c)
    }
}

/// The convolved value of channel `c` of pixel `i`: the weighted sum
/// over the whole kernel, divided by the common denominator and
/// truncated.
pub open spec fn conv_px(p: Seq<u8>, w: int, i: int, c: int) -> u8 {
    (conv_sum(p, w, i, c, 25) / (KERNEL_DENOM as int)) as u8
}

/// The whole convolved buffer: per-pixel kernel application on R, G
/// and B, alpha forced to 255.
pub open spec fn convolve_seq(p: Seq<u8>, w: int) -> Seq<u8> {
    Seq::new(
        p.len(),
        |j: int|
            if j % 4 == 3 {
                255u8
            } else {
                conv_px(p, w, j / 4, j % 4)
            },
    )
}

/// A partial weighted sum lies between 0 and the partial weight sum
/// times the largest sample value.
pub proof fn lemma_conv_sum_bounds(p: Seq<u8>, w: int, i: int, c: int, k: nat)
    ensures
        0 <= conv_sum(p, w, i, c, k) <= kern_sum(k) * 255,
    decreases k,
{
    if k == 0 {
        assert(kern_sum(0) * 255 == 0);
    } else {
        lemma_conv_sum_bounds(p, w, i, c, (k - 1) as nat);
        lemma_kern_weight_nonneg(k - 1);
        let wt = kern_weight(kern_dx(k - 1), kern_dy(k - 1));
        let s = conv_sample(p, w, i, kern_dx(k - 1), kern_dy(k - 1), c);
        assert(0 <= wt * s <= wt * 255) by (nonlinear_arith)
            requires
                0 <= wt,
                0 <= s <= 255,
        ;
        assert(kern_sum((k - 1) as nat) * 255 + wt * 255 == (kern_sum((k - 1) as nat) + wt) * 255)
            by (nonlinear_arith);
    }
}

/// Exec mirror of [`kern_coeff`].
fn kernel_coeff(d: i64) -> (c: u32)
    requires
        -2 <= d <= 2,
    ensures
        c == kern_coeff(d as int),
{
    if d == -2 || d == 2 {
        1
    } else if d == -1 || d == 1 {
        4
    } else {
        6
    }
}

/// Convolve the pixels of the index range `[start, end)` of an
/// interleaved RGBA buffer, producing that range's segment of the
/// convolved output. Each output pixel depends only on the read-only
/// input buffer, so ranges can be computed independently and
/// concatenated.
pub fn convolve_range(pixels: &Vec<u8>, w: u32, start: usize, end: usize) -> (out: Vec<u8>)
    requires
        pixels@.len() % 4 == 0,
        start <= end,
        4 * end <= pixels@.len(),
        start < end ==> w >= 1,
    ensures
        out@ == convolve_seq(pixels@, w as int).subrange(4 * start as int, 4 * end as int),
{
    let ghost p = pixels@;
    let ghost wi = w as int;
    proof {
        assert(p.len() == pixels.len());
    }
    let np: usize = pixels.len() / 4;
    let mut out: Vec<u8> = Vec::new();
    let mut i: usize = start;
    while i < end
        invariant
            p == pixels@,
            wi == w as int,
            p.len() % 4 == 0,
            p.len() <= usize::MAX,
            np == p.len() / 4,
            4 * np == p.len(),
            start <= i <= end,
            4 * end <= p.len(),
            i < end ==> w >= 1,
            out@.len() == 4 * (i - start),
            forall|j: int|
                0 <= j < out@.len() ==> #[trigger] out@[j] == convolve_seq(p, wi)[4 * (
                start as int) + j],
        decreases end - i,
    {
        let mut sr: u32 = 0;
        let mut sg: u32 = 0;
        let mut sb: u32 = 0;
        let mut k: usize = 0;
        while k < 25
            invariant
                p == pixels@,
                wi == w as int,
                p.len() % 4 == 0,
                p.len() <= usize::MAX,
                np == p.len() / 4,
                4 * np == p.len(),
                start <= i < end,
                4 * end <= p.len(),
                w >= 1,
                k <= 25,
                sr == conv_sum(p, wi, i as int, 0, k as nat),
                sg == conv_sum(p, wi, i as int, 1, k as nat),
                sb == conv_sum(p, wi, i as int, 2, k as nat),
            decreases 25 - k,
        {
            let dx: i64 = (k as i64) % 5 - 2;
            let dy: i64 = (k as i64) / 5 - 2;
            let cx: u32 = kernel_coeff(dx);
            let cy: u32 = kernel_coeff(dy);
            proof {
                assert((cx as int) * (cy as int) <= 36) by (nonlinear_arith)
                    requires
                        0 <= cx <= 6,
                        0 <= cy <= 6,
                ;
            }
            let wt: u32 = cx * cy;
            proof {
                assert(-2 * (w as int) <= (dy as int) * (w as int) <= 2 * (w as int))
                    by (nonlinear_arith)
                    requires
                        -2 <= dy <= 2,
                        0 <= w,
                ;
            }
            let ni: i64 = i as i64 + dx + dy * (w as i64);
            let sample_idx: usize = if 0 <= ni && ni < np as i64 {
                ni as usize
            } else {
                i
            };
            let base: usize = 4 * sample_idx;
            proof {
                assert(dx as int == kern_dx(k as int));
                assert(dy as int == kern_dy(k as int));
                assert(wt == kern_weight(kern_dx(k as int), kern_dy(k as int)));
                assert(sample_idx < np);
                assert(p[base as int] == conv_sample(p, wi, i as int, kern_dx(k as int), kern_dy(k as int), 0));
                assert(p[base + 1] == conv_sample(p, wi, i as int, kern_dx(k as int), kern_dy(k as int), 1));
                assert(p[base + 2] == conv_sample(p, wi, i as int, kern_dx(k as int), kern_dy(k as int), 2));
                assert(conv_sum(p, wi, i as int, 0, (k + 1) as nat) == conv_sum(p, wi, i as int, 0, k as nat)
                    + kern_weight(kern_dx(k as int), kern_dy(k as int)) * conv_sample(p, wi, i as int, kern_dx(k as int), kern_dy(k as int), 0));
                assert(conv_sum(p, wi, i as int, 1, (k + 1) as nat) == conv_sum(p, wi, i as int, 1, k as nat)
                    + kern_weight(kern_dx(k as int), kern_dy(k as int)) * conv_sample(p, wi, i as int, kern_dx(k as int), kern_dy(k as int), 1));
                assert(conv_sum(p, wi, i as int, 2, (k + 1) as nat) == conv_sum(p, wi, i as int, 2, k as nat)
                    + kern_weight(kern_dx(k as int), kern_dy(k as int)) * conv_sample(p, wi, i as int, kern_dx(k as int), kern_dy(k as int), 2));
                lemma_conv_sum_bounds(p, wi, i as int, 0, (k + 1) as nat);
                lemma_conv_sum_bounds(p, wi, i as int, 1, (k + 1) as nat);
                lemma_conv_sum_bounds(p, wi, i as int, 2, (k + 1) as nat);
                lemma_kern_sum_bounds((k + 1) as nat);
            }
            sr = sr + wt * pixels[base] as u32;
            sg = sg + wt * pixels[base + 1] as u32;
            sb = sb + wt * pixels[base + 2] as u32;
            k += 1;
        }
        proof {
            lemma_conv_sum_bounds(p, wi, i as int, 0, 25);
            lemma_conv_sum_bounds(p, wi, i as int, 1, 25);
            lemma_conv_sum_bounds(p, wi, i as int, 2, 25);
            lemma_kernel_weights_sum();
        }
        out.push((sr / KERNEL_DENOM) as u8);
        out.push((sg / KERNEL_DENOM) as u8);
        out.push((sb / KERNEL_DENOM) as u8);
        out.push(255u8);
        i += 1;
    }
    proof {
        assert(out@ =~= convolve_seq(p, wi).subrange(4 * start as int, 4 * end as int));
    }
    out
}

/// The weight numerator of kernel entry `k` (row-major over the 5x5
/// grid); the weight itself is this value over [`KERNEL_DENOM`].
pub fn kernel_weight_at(k: usize) -> (wtn: u32)
    requires
        k < 25,
    ensures
        wtn == kern_weight(kern_dx(k as int), kern_dy(k as int)),
{
    let dx: i64 = (k as i64) % 5 - 2;
    let dy: i64 = (k as i64) / 5 - 2;
    let cx: u32 = kernel_coeff(dx);
    let cy: u32 = kernel_coeff(dy);
    proof {
        assert((cx as int) * (cy as int) <= 36) by (nonlinear_arith)
            requires
                0 <= cx <= 6,
                0 <= cy <= 6,
        ;
    }
    cx * cy
}

/// Convolve a whole image by fanning the pixel range out into
/// `chunk_count` contiguous chunks, computing each chunk in parallel,
/// and concatenating the segments in chunk order. The contract does
/// not mention the chunking: the output is the convolution of the
/// input, byte for byte, whatever chunk count is chosen and however
/// the chunks are scheduled.
pub fn convolve_image(pixels: &Vec<u8>, w: u32, h: u32, chunk_count: usize) -> (out: Vec<u8>)
    requires
        pixels@.len() == 4 * ((w as int) * (h as int)),
        1 <= chunk_count,
    ensures
        out@ == convolve_seq(pixels@, w as int),
{
    let ghost p = pixels@;
    let ghost wi = w as int;
    proof {
        assert(p.len() == pixels.len());
        vstd::arithmetic::div_mod::lemma_div_multiples_vanish(
            (w as int) * (h as int),
            4,
        );
        assert(w == 0 ==> (w as int) * (h as int) == 0) by (nonlinear_arith);
    }
    let np: usize = pixels.len() / 4;
    let csize: usize = np / chunk_count + 1;
    let mut bounds: Vec<(usize, usize)> = Vec::new();
    let mut s: usize = 0;
    while s < np
        invariant
            p == pixels@,
            wi == w as int,
            p.len() <= usize::MAX,
            p.len() % 4 == 0,
            np == p.len() / 4,
            4 * np == p.len(),
            np > 0 ==> w >= 1,
            csize >= 1,
            s <= np,
            bounds@.len() == 0 ==> s == 0,
            bounds@.len() > 0 ==> bounds@[0].0 == 0 && bounds@[bounds@.len() - 1].1 == s,
            forall|i: int|
                0 <= i < bounds@.len() ==> (#[trigger] bounds@[i]).0 < bounds@[i].1 <= np,
            forall|i: int|
                0 <= i < bounds@.len() - 1 ==> (#[trigger] bounds@[i]).1 == bounds@[i + 1].0,
        decreases np - s,
    {
        let e: usize = if np - s > csize {
            s + csize
        } else {
            np
        };
        bounds.push((s, e));
        s = e;
    }
    let segs: Vec<Vec<u8>> = crate::parallel::convolve_ranges_parallel(pixels, w, &bounds);
    let mut out: Vec<u8> = Vec::new();
    let mut i: usize = 0;
    while i < segs.len()
        invariant
            p == pixels@,
            wi == w as int,
            p.len() <= usize::MAX,
            4 * np == p.len(),
            segs@.len() == bounds@.len(),
            bounds@.len() > 0 ==> bounds@[0].0 == 0 && bounds@[bounds@.len() - 1].1 == np,
            bounds@.len() == 0 ==> np == 0,
            forall|k: int|
                0 <= k < bounds@.len() ==> (#[trigger] bounds@[k]).0 < bounds@[k].1 <= np,
            forall|k: int|
                0 <= k < bounds@.len() - 1 ==> (#[trigger] bounds@[k]).1 == bounds@[k + 1].0,
            forall|k: int|
                0 <= k < bounds@.len() ==> (#[trigger] segs@[k])@ == convolve_seq(p, wi).subrange(
                    4 * bounds@[k].0,
                    4 * bounds@[k].1,
                ),
            i <= segs@.len(),
            out@.len() == (if i < bounds@.len() {
                4 * bounds@[i as int].0
            } else {
                4 * np
            }),
            forall|t: int| 0 <= t < out@.len() ==> #[trigger] out@[t] == convolve_seq(p, wi)[t],
        decreases segs@.len() - i,
    {
        let seg: &Vec<u8> = &segs[i];
        let mut j: usize = 0;
        while j < seg.len()
            invariant
                p == pixels@,
                wi == w as int,
                p.len() <= usize::MAX,
                4 * np == p.len(),
                i < segs@.len(),
                segs@.len() == bounds@.len(),
                seg@ == segs@[i as int]@,
                seg@ == convolve_seq(p, wi).subrange(4 * bounds@[i as int].0, 4 * bounds@[
                    i as int].1),
                bounds@[i as int].0 < bounds@[i as int].1 <= np,
                j <= seg@.len(),
                out@.len() == 4 * bounds@[i as int].0 + j,
                forall|t: int| 0 <= t < out@.len() ==> #[trigger] out@[t] == convolve_seq(p, wi)[t],
            decreases seg@.len() - j,
        {
            out.push(seg[j]);
            j += 1;
        }
        i += 1;
        proof {
            if i < bounds@.len() {
                assert(bounds@[i as int - 1].1 == bounds@[i as int].0);
            }
        }
    }
    proof {
        assert(out@ =~= convolve_seq(p, wi));
    }
    out
}

} // verus!
