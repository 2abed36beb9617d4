//! Laws of the blurring engine, proved once and for all inputs:
//! averaging never leaves the range spanned by the existing samples
//! (so degenerate single-row or single-column images are averages of
//! existing values only), and a flat field is a fixed point of both
//! algorithms.
use vstd::prelude::*;

verus! {

use crate::channels::chan_seq;
use crate::convolve::conv_sample;
use crate::convolve::conv_sum;
use crate::convolve::convolve_seq;
use crate::convolve::kern_dx;
use crate::convolve::kern_dy;
use crate::convolve::kern_sum;
use crate::convolve::kern_weight;
use crate::convolve::lemma_kernel_weights_sum;
use crate::boxblur::box_h_px;
use crate::boxblur::box_h_seq;
use crate::boxblur::box_pass_seq;
use crate::boxblur::box_v_px;
use crate::boxblur::box_v_seq;
use crate::boxblur::gauss3_seq;
use crate::window::clamp_idx;
use crate::window::lemma_col_win_sum_range;
use crate::window::lemma_round_avg_range;
use crate::window::lemma_row_win_sum_range;
use crate::window::round_avg;
use vstd::arithmetic::div_mod::lemma_fundamental_div_mod;
use vstd::arithmetic::div_mod::lemma_mod_division_less_than_divisor;

/// Every output of the horizontal pass stays within any range `[a, b]`
/// that encloses all samples of the plane: edge replication reuses
/// existing samples and fabricates no value.
pub proof fn lemma_box_h_range(p: Seq<u8>, w: int, h: int, r: int, a: int, b: int)
    requires
        p.len() == w * h,
        1 <= w,
        1 <= h,
        0 <= r,
        2 * r + 1 <= w,
        forall|i: int| 0 <= i < p.len() ==> a <= #[trigger] p[i] <= b,
        0 <= a,
        b <= 255,
    ensures
        forall|i: int| 0 <= i < p.len() ==> a <= #[trigger] box_h_seq(p, w, h, r)[i] <= b,
{
    assert forall|i: int| 0 <= i < p.len() implies a <= #[trigger] box_h_seq(p, w, h, r)[i]
        <= b by {
        lemma_fundamental_div_mod(i, w);
        lemma_mod_division_less_than_divisor(i, w);
        let row = i / w;
        let x = i % w;
        assert(0 <= row < h) by (nonlinear_arith)
            requires
                i == w * row + x,
                0 <= x < w,
                0 <= i < w * h,
                1 <= w,
        ;
        assert forall|j: int| 0 <= j < w implies a <= #[trigger] p[row * w + j] <= b by {
            assert(0 <= row * w + j < w * h) by (nonlinear_arith)
                requires
                    0 <= row < h,
                    0 <= j < w,
                    1 <= w,
            ;
        }
        lemma_row_win_sum_range(p, w, row, x - r, (2 * r + 1) as nat, a, b);
        lemma_round_avg_range(
            crate::window::row_win_sum(p, w, row, x - r, (2 * r + 1) as nat),
            r,
            a,
            b,
        );
        assert(box_h_seq(p, w, h, r)[i] == box_h_px(p, w, row, x, r));
    }
}

/// Column version of [`lemma_box_h_range`].
pub proof fn lemma_box_v_range(p: Seq<u8>, w: int, h: int, r: int, a: int, b: int)
    requires
        p.len() == w * h,
        1 <= w,
        1 <= h,
        0 <= r,
        2 * r + 1 <= h,
        forall|i: int| 0 <= i < p.len() ==> a <= #[trigger] p[i] <= b,
        0 <= a,
        b <= 255,
    ensures
        forall|i: int| 0 <= i < p.len() ==> a <= #[trigger] box_v_seq(p, w, h, r)[i] <= b,
{
    assert forall|i: int| 0 <= i < p.len() implies a <= #[trigger] box_v_seq(p, w, h, r)[i]
        <= b by {
        lemma_fundamental_div_mod(i, w);
        lemma_mod_division_less_than_divisor(i, w);
        let y = i / w;
        let col = i % w;
        assert(0 <= y < h) by (nonlinear_arith)
            requires
                i == w * y + col,
                0 <= col < w,
                0 <= i < w * h,
                1 <= w,
        ;
        assert forall|j: int| 0 <= j < h implies a <= #[trigger] p[j * w + col] <= b by {
            assert(0 <= j * w + col < w * h) by (nonlinear_arith)
                requires
                    0 <= j < h,
                    0 <= col < w,
                    1 <= w,
            ;
        }
        lemma_col_win_sum_range(p, w, h, col, y - r, (2 * r + 1) as nat, a, b);
        lemma_round_avg_range(
            crate::window::col_win_sum(p, w, h, col, y - r, (2 * r + 1) as nat),
            r,
            a,
            b,
        );
        assert(box_v_seq(p, w, h, r)[i] == box_v_px(p, w, h, col, y, r));
    }
}

/// A full box-blur pass keeps every output within any range that
/// encloses the input samples.
pub proof fn lemma_box_pass_range(p: Seq<u8>, w: int, h: int, r: int, a: int, b: int)
    requires
        p.len() == w * h,
        1 <= w,
        1 <= h,
        0 <= r,
        2 * r + 1 <= w,
        2 * r + 1 <= h,
        forall|i: int| 0 <= i < p.len() ==> a <= #[trigger] p[i] <= b,
        0 <= a,
        b <= 255,
    ensures
        forall|i: int| 0 <= i < p.len() ==> a <= #[trigger] box_pass_seq(p, w, h, r)[i] <= b,
{
    lemma_box_h_range(p, w, h, r, a, b);
    lemma_box_v_range(box_h_seq(p, w, h, r), w, h, r, a, b);
}

/// A plane whose samples all equal `v` is a fixed point of a full
/// box-blur pass: the average of a constant window is that constant.
pub proof fn lemma_box_pass_uniform(p: Seq<u8>, w: int, h: int, r: int, v: u8)
    requires
        p.len() == w * h,
        1 <= w,
        1 <= h,
        0 <= r,
        2 * r + 1 <= w,
        2 * r + 1 <= h,
        forall|i: int| 0 <= i < p.len() ==> #[trigger] p[i] == v,
    ensures
        box_pass_seq(p, w, h, r) == p,
{
    lemma_box_pass_range(p, w, h, r, v as int, v as int);
    assert(box_pass_seq(p, w, h, r) =~= p);
}

/// A plane whose samples all equal `v` is a fixed point of the whole
/// three-pass pipeline.
pub proof fn lemma_gauss3_uniform(p: Seq<u8>, w: int, h: int, sigma: int, v: u8)
    requires
        p.len() == w * h,
        1 <= w,
        1 <= h,
        1 <= sigma,
        2 * sigma + 1 <= w,
        2 * sigma + 1 <= h,
        forall|i: int| 0 <= i < p.len() ==> #[trigger] p[i] == v,
    ensures
        gauss3_seq(p, w, h, sigma) == p,
{
    lemma_box_pass_uniform(p, w, h, sigma - 1, v);
    lemma_box_pass_uniform(p, w, h, sigma - 1, v);
    lemma_box_pass_uniform(p, w, h, sigma, v);
}

/// For a degenerate single-row image the horizontal pass draws every
/// window sample from an existing pixel of the row (the clamped index
/// stays inside the row), and each output is the rounded uniform
/// average of those existing values, so it stays within the range they
/// span.
pub proof fn lemma_single_row_average(p: Seq<u8>, w: int, r: int, a: int, b: int)
    requires
        p.len() == w,
        1 <= w,
        0 <= r,
        2 * r + 1 <= w,
        forall|j: int| 0 <= j < w ==> a <= #[trigger] p[j] <= b,
        0 <= a,
        b <= 255,
    ensures
        forall|x: int, d: int|
            0 <= x < w && 0 <= d < 2 * r + 1 ==> 0 <= #[trigger] clamp_idx(x - r + d, w - 1) < w,
        forall|x: int|
            0 <= x < w ==> #[trigger] box_h_seq(p, w, 1, r)[x] == (round_avg(
                crate::window::row_win_sum(p, w, 0, x - r, (2 * r + 1) as nat),
                r,
            ) as u8),
        forall|x: int| 0 <= x < w ==> a <= #[trigger] box_h_seq(p, w, 1, r)[x] <= b,
{
    assert forall|i: int| 0 <= i < p.len() implies a <= #[trigger] p[i] <= b by {}
    lemma_box_h_range(p, w, 1, r, a, b);
    assert forall|x: int| 0 <= x < w implies #[trigger] box_h_seq(p, w, 1, r)[x] == (round_avg(
        crate::window::row_win_sum(p, w, 0, x - r, (2 * r + 1) as nat),
        r,
    ) as u8) by {
        assert(x / w == 0 && x % w == x) by {
            vstd::arithmetic::div_mod::lemma_fundamental_div_mod_converse(x, w, 0, x);
        }
        assert(box_h_seq(p, w, 1, r)[x] == box_h_px(p, w, 0, x, r));
    }
}

/// Column twin of [`lemma_single_row_average`]: for a single-column
/// image the vertical pass averages existing column values only.
pub proof fn lemma_single_column_average(p: Seq<u8>, h: int, r: int, a: int, b: int)
    requires
        p.len() == h,
        1 <= h,
        0 <= r,
        2 * r + 1 <= h,
        forall|j: int| 0 <= j < h ==> a <= #[trigger] p[j] <= b,
        0 <= a,
        b <= 255,
    ensures
        forall|y: int, d: int|
            0 <= y < h && 0 <= d < 2 * r + 1 ==> 0 <= #[trigger] clamp_idx(y - r + d, h - 1) < h,
        forall|y: int|
            0 <= y < h ==> #[trigger] box_v_seq(p, 1, h, r)[y] == (round_avg(
                crate::window::col_win_sum(p, 1, h, 0, y - r, (2 * r + 1) as nat),
                r,
            ) as u8),
        forall|y: int| 0 <= y < h ==> a <= #[trigger] box_v_seq(p, 1, h, r)[y] <= b,
{
    assert(p.len() == 1 * h);
    lemma_box_v_range(p, 1, h, r, a, b);
    assert forall|y: int| 0 <= y < h implies #[trigger] box_v_seq(p, 1, h, r)[y] == (round_avg(
        crate::window::col_win_sum(p, 1, h, 0, y - r, (2 * r + 1) as nat),
        r,
    ) as u8) by {
        assert(y / 1 == y && y % 1 == 0) by {
            vstd::arithmetic::div_mod::lemma_fundamental_div_mod_converse(y, 1, y, 0);
        }
        assert(box_v_seq(p, 1, h, r)[y] == box_v_px(p, 1, h, 0, y, r));
    }
}

/// A uniform channel makes every convolution sample that channel's
/// value, so the weighted sum is the weight sum times the value.
proof fn lemma_conv_sum_uniform(p: Seq<u8>, w: int, i: int, c: int, v: u8, k: nat)
    requires
        forall|q: int| 0 <= q < p.len() / 4 ==> #[trigger] p[4 * q + c] == v,
        0 <= i < p.len() / 4,
    ensures
        conv_sum(p, w, i, c, k) == kern_sum(k) * v,
    decreases k,
{
    if k == 0 {
        assert(kern_sum(0) * v == 0) by (nonlinear_arith)
            requires
                kern_sum(0) == 0,
        ;
    } else {
        lemma_conv_sum_uniform(p, w, i, c, v, (k - 1) as nat);
        let dx = kern_dx(k - 1);
        let dy = kern_dy(k - 1);
        let wt = kern_weight(dx, dy);
        let ni = i + dx + dy * w;
        if 0 <= ni < p.len() / 4 {
            assert(p[4 * ni + c] == v);
        } else {
            assert(p[4 * i + c] == v);
        }
        assert(conv_sample(p, w, i, dx, dy, c) == v);
        assert(kern_sum((k - 1) as nat) * v + wt * v == (kern_sum((k - 1) as nat) + wt) * v)
            by (nonlinear_arith);
    }
}

/// The flat field every pixel of which is `(rv, gv, bv, 255)`.
pub open spec fn uniform_rgba_seq(n: int, rv: u8, gv: u8, bv: u8) -> Seq<u8> {
    Seq::new(
        n as nat,
        |j: int|
            if j % 4 == 0 {
                rv
            } else if j % 4 == 1 {
                gv
            } else if j % 4 == 2 {
                bv
            } else {
                255u8
            },
    )
}

/// An image all of whose pixels carry the same RGBA value comes out of
/// the convolution as the same flat field, with alpha forced opaque:
/// the kernel's weights sum to one, so a constant neighbourhood
/// averages to itself, whichever boundary samples the clamp-to-self
/// policy picks.
pub proof fn lemma_flat_field_conv(pix: Seq<u8>, w: int, rv: u8, gv: u8, bv: u8, av: u8)
    requires
        pix.len() % 4 == 0,
        forall|q: int| 0 <= q < pix.len() / 4 ==> #[trigger] pix[4 * q] == rv,
        forall|q: int| 0 <= q < pix.len() / 4 ==> #[trigger] pix[4 * q + 1] == gv,
        forall|q: int| 0 <= q < pix.len() / 4 ==> #[trigger] pix[4 * q + 2] == bv,
    ensures
        convolve_seq(pix, w) == uniform_rgba_seq(pix.len() as int, rv, gv, bv),
{
    let n = pix.len() as int;
    assert forall|j: int| 0 <= j < n implies #[trigger] convolve_seq(pix, w)[j]
        == uniform_rgba_seq(n, rv, gv, bv)[j] by {
        lemma_fundamental_div_mod(j, 4);
        lemma_mod_division_less_than_divisor(j, 4);
        let i = j / 4;
        let c = j % 4;
        lemma_fundamental_div_mod(n, 4);
        assert(n == 4 * (n / 4));
        assert(0 <= i < n / 4) by (nonlinear_arith)
            requires
                j == 4 * i + c,
                0 <= c < 4,
                0 <= j < n,
                n == 4 * (n / 4),
        ;
        if c == 0 {
            lemma_conv_sum_uniform(pix, w, i, 0, rv, 25);
            lemma_kernel_weights_sum();
            vstd::arithmetic::div_mod::lemma_div_multiples_vanish(rv as int, 256);
        } else if c == 1 {
            lemma_conv_sum_uniform(pix, w, i, 1, gv, 25);
            lemma_kernel_weights_sum();
            vstd::arithmetic::div_mod::lemma_div_multiples_vanish(gv as int, 256);
        } else if c == 2 {
            lemma_conv_sum_uniform(pix, w, i, 2, bv, 25);
            lemma_kernel_weights_sum();
            vstd::arithmetic::div_mod::lemma_div_multiples_vanish(bv as int, 256);
        }
    }
    assert(convolve_seq(pix, w) =~= uniform_rgba_seq(n, rv, gv, bv));
}

/// An image all of whose pixels carry the same RGBA value comes out of
/// the box-blur path as the same flat field, with alpha forced opaque:
/// every channel plane is constant, a constant plane is a fixed point
/// of the three-pass pipeline, and the merge reinstates alpha as 255.
pub proof fn lemma_flat_field_box(
    pix: Seq<u8>,
    w: int,
    h: int,
    sigma: int,
    rv: u8,
    gv: u8,
    bv: u8,
)
    requires
        pix.len() == 4 * (w * h),
        1 <= w,
        1 <= h,
        1 <= sigma,
        2 * sigma + 1 <= w,
        2 * sigma + 1 <= h,
        forall|q: int| 0 <= q < pix.len() / 4 ==> #[trigger] pix[4 * q] == rv,
        forall|q: int| 0 <= q < pix.len() / 4 ==> #[trigger] pix[4 * q + 1] == gv,
        forall|q: int| 0 <= q < pix.len() / 4 ==> #[trigger] pix[4 * q + 2] == bv,
    ensures
        crate::box_blur_image_seq(pix, w, h, sigma) == uniform_rgba_seq(
            pix.len() as int,
            rv,
            gv,
            bv,
        ),
{
    let n = pix.len() as int;
    vstd::arithmetic::div_mod::lemma_div_multiples_vanish(w * h, 4);
    let cr = chan_seq(pix, 0);
    let cg = chan_seq(pix, 1);
    let cb = chan_seq(pix, 2);
    assert forall|i: int| 0 <= i < cr.len() implies #[trigger] cr[i] == rv by {
        assert(pix[4 * i] == rv);
    }
    assert forall|i: int| 0 <= i < cg.len() implies #[trigger] cg[i] == gv by {
        assert(pix[4 * i + 1] == gv);
    }
    assert forall|i: int| 0 <= i < cb.len() implies #[trigger] cb[i] == bv by {
        assert(pix[4 * i + 2] == bv);
    }
    lemma_gauss3_uniform(cr, w, h, sigma, rv);
    lemma_gauss3_uniform(cg, w, h, sigma, gv);
    lemma_gauss3_uniform(cb, w, h, sigma, bv);
    assert forall|j: int| 0 <= j < n implies #[trigger] crate::box_blur_image_seq(
        pix,
        w,
        h,
        sigma,
    )[j] == uniform_rgba_seq(n, rv, gv, bv)[j] by {
        lemma_fundamental_div_mod(j, 4);
        lemma_mod_division_less_than_divisor(j, 4);
    }
    assert(crate::box_blur_image_seq(pix, w, h, sigma) =~= uniform_rgba_seq(n, rv, gv, bv));
}

/// Flat-field invariance: an image all of whose pixels carry the same
/// RGBA value, with alpha already opaque, is returned unchanged by
/// both blur algorithms.
pub proof fn lemma_flat_field_fixed_point(
    pix: Seq<u8>,
    w: int,
    h: int,
    sigma: int,
    rv: u8,
    gv: u8,
    bv: u8,
)
    requires
        pix.len() == 4 * (w * h),
        1 <= w,
        1 <= h,
        1 <= sigma,
        2 * sigma + 1 <= w,
        2 * sigma + 1 <= h,
        forall|q: int| 0 <= q < pix.len() / 4 ==> #[trigger] pix[4 * q] == rv,
        forall|q: int| 0 <= q < pix.len() / 4 ==> #[trigger] pix[4 * q + 1] == gv,
        forall|q: int| 0 <= q < pix.len() / 4 ==> #[trigger] pix[4 * q + 2] == bv,
        forall|q: int| 0 <= q < pix.len() / 4 ==> #[trigger] pix[4 * q + 3] == 255,
    ensures
        crate::box_blur_image_seq(pix, w, h, sigma) == pix,
        convolve_seq(pix, w) == pix,
{
    let n = pix.len() as int;
    lemma_flat_field_box(pix, w, h, sigma, rv, gv, bv);
    lemma_flat_field_conv(pix, w, rv, gv, bv, 255);
    assert forall|j: int| 0 <= j < n implies #[trigger] uniform_rgba_seq(n, rv, gv, bv)[j]
        == pix[j] by {
        lemma_fundamental_div_mod(j, 4);
        lemma_mod_division_less_than_divisor(j, 4);
        let i = j / 4;
        let c = j % 4;
        lemma_fundamental_div_mod(n, 4);
        assert(0 <= i < n / 4) by (nonlinear_arith)
            requires
                j == 4 * i + c,
                0 <= c < 4,
                0 <= j < n,
                n == 4 * (n / 4),
        ;
        assert(pix[4 * i] == rv && pix[4 * i + 1] == gv && pix[4 * i + 2] == bv && pix[4 * i + 3]
            == 255);
    }
    assert(uniform_rgba_seq(n, rv, gv, bv) =~= pix);
}

} // verus!
