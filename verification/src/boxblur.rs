//! The separable box-blur passes: a horizontal and a vertical
//! sliding-window moving average over a single channel plane, and the
//! three-pass pipeline that approximates a Gaussian blur.
//!
//! Each pass keeps a running sum over a window of `2r+1` samples and
//! slides it one position at a time, subtracting the sample that leaves
//! the window and adding the one that enters it; samples outside the
//! row or column replicate the nearest edge sample.
use vstd::prelude::*;

verus! {

use crate::window::clamp_idx;
use crate::window::col_win_sum;
use crate::window::lemma_col_win_sum_extend;
use crate::window::lemma_col_win_sum_left;
use crate::window::lemma_col_win_sum_range;
use crate::window::lemma_round_avg_range;
use crate::window::lemma_row_win_sum_extend;
use crate::window::lemma_row_win_sum_left;
use crate::window::lemma_row_win_sum_range;
use crate::window::round_avg;
use crate::window::row_win_sum;
use vstd::arithmetic::div_mod::lemma_fundamental_div_mod_converse;

/// The horizontally blurred value of the pixel at column `x` of row
/// `row`: the rounded moving average of the `2r+1` row samples centred
/// at `x`, with edge replication.
pub open spec fn box_h_px(p: Seq<u8>, w: int, row: int, x: int, r: int) -> u8 {
    round_avg(row_win_sum(p, w, row, x - r, (2 * r + 1) as nat), r) as u8
}

/// One horizontal box-blur pass over a whole plane.
pub open spec fn box_h_seq(p: Seq<u8>, w: int, h: int, r: int) -> Seq<u8> {
    Seq::new(p.len(), |i: int| box_h_px(p, w, i / w, i % w, r))
}

/// The vertically blurred value of the pixel at row `y` of column
/// `col`: the rounded moving average of the `2r+1` column samples
/// centred at `y`, with edge replication.
pub open spec fn box_v_px(p: Seq<u8>, w: int, h: int, col: int, y: int, r: int) -> u8 {
    round_avg(col_win_sum(p, w, h, col, y - r, (2 * r + 1) as nat), r) as u8
}

/// One vertical box-blur pass over a whole plane.
pub open spec fn box_v_seq(p: Seq<u8>, w: int, h: int, r: int) -> Seq<u8> {
    Seq::new(p.len(), |i: int| box_v_px(p, w, h, i % w, i / w, r))
}

/// One full box-blur pass: horizontal, then vertical.
pub open spec fn box_pass_seq(p: Seq<u8>, w: int, h: int, r: int) -> Seq<u8> {
    box_v_seq(box_h_seq(p, w, h, r), w, h, r)
}

/// The three-pass pipeline for strength `sigma`: two passes with the
/// narrow radius `sigma - 1`, one with the wide radius `sigma`.
pub open spec fn gauss3_seq(p: Seq<u8>, w: int, h: int, sigma: int) -> Seq<u8> {
    box_pass_seq(
        box_pass_seq(box_pass_seq(p, w, h, sigma - 1), w, h, sigma - 1),
        w,
        h,
        sigma,
    )
}

/// Horizontal sliding-window box-blur pass over a row-major plane of
/// `h` rows of `w` samples, window radius `r`.
pub fn box_blur_h(source: Vec<u8>, w: u32, h: u32, r: usize) -> (out: Vec<u8>)
    requires
        source@.len() == (w as int) * (h as int),
        w >= 1,
        2 * r + 1 <= w,
    ensures
        out@ == box_h_seq(source@, w as int, h as int, r as int),
{
    let wu: usize = w as usize;
    let hu: usize = h as usize;
    let n: u64 = 2 * (r as u64) + 1;
    let ghost p = source@;
    let ghost wi = w as int;
    proof {
        assert(p.len() == source.len());
    }
    let mut out: Vec<u8> = Vec::new();
    let mut row: usize = 0;
    while row < hu
        invariant
            p == source@,
            wi == w as int,
            p.len() == wi * (h as int),
            p.len() <= usize::MAX,
            wu == w as usize,
            hu == h as usize,
            1 <= wu,
            2 * r + 1 <= wu,
            n == 2 * r + 1,
            row <= hu,
            out@.len() == row * wi,
            forall|k: int|
                0 <= k < out@.len() ==> out@[k] == box_h_px(p, wi, k / wi, k % wi, r as int),
        decreases hu - row,
    {
        proof {
            assert((row as int) * wi + wi <= wi * (hu as int)) by (nonlinear_arith)
                requires
                    row < hu,
                    wi >= 1,
            ;
        }
        let base: usize = row * wu;
        let fv: u64 = source[base] as u64;
        let ghost ri = r as int;
        let ghost rowi = row as int;
        assert((ri + 1) * fv <= (ri + 1) * 255) by (nonlinear_arith)
            requires
                fv <= 255,
                ri >= 0,
        ;
        let mut val: u64 = (r as u64 + 1) * fv;
        let mut j: usize = 0;
        while j < r
            invariant
                p == source@,
                wi == w as int,
                p.len() == wi * (h as int),
                p.len() <= usize::MAX,
                wu == w as usize,
                1 <= wu,
                2 * r + 1 <= wu,
                ri == r as int,
                rowi == row as int,
                row < hu,
                hu == h as usize,
                base == rowi * wi,
                base + wu <= p.len(),
                fv == p[base as int],
                j <= r,
                val == (ri + 1) * (fv as int) + row_win_sum(p, wi, rowi, 0, j as nat),
                val <= 255 * (ri + 1 + j),
            decreases r - j,
        {
            proof {
                lemma_row_win_sum_extend(p, wi, rowi, 0, j as nat);
                assert(clamp_idx(j as int, wi - 1) == j as int);
            }
            val = val + source[base + j] as u64;
            j += 1;
        }
        proof {
            lemma_row_win_sum_left(p, wi, rowi, -ri - 1, (2 * r + 1) as nat);
        }
        let mut x: usize = 0;
        while x < wu
            invariant
                p == source@,
                wi == w as int,
                p.len() == wi * (h as int),
                p.len() <= usize::MAX,
                wu == w as usize,
                hu == h as usize,
                1 <= wu,
                2 * r + 1 <= wu,
                n == 2 * r + 1,
                ri == r as int,
                rowi == row as int,
                row < hu,
                base == rowi * wi,
                base + wu <= p.len(),
                x <= wu,
                out@.len() == rowi * wi + x,
                val == row_win_sum(p, wi, rowi, x - ri - 1, (2 * r + 1) as nat),
                forall|k: int|
                    0 <= k < out@.len() ==> out@[k] == box_h_px(p, wi, k / wi, k % wi, r as int),
            decreases wu - x,
        {
            let sub_i: usize = if x <= r {
                0
            } else {
                x - r - 1
            };
            let add_i: usize = if r <= wu - 1 - x {
                x + r
            } else {
                wu - 1
            };
            proof {
                assert(sub_i as int == clamp_idx(x - ri - 1, wi - 1));
                assert(add_i as int == clamp_idx(x + ri, wi - 1));
                assert(row_win_sum(p, wi, rowi, x - ri - 1, (2 * r + 1) as nat) == p[rowi * wi
                    + clamp_idx(x - ri - 1, wi - 1)] + row_win_sum(
                    p,
                    wi,
                    rowi,
                    x - ri,
                    (2 * r) as nat,
                ));
                lemma_row_win_sum_extend(p, wi, rowi, x - ri, (2 * r) as nat);
                lemma_row_win_sum_range(p, wi, rowi, x - ri, (2 * r) as nat, 0, 255);
                lemma_row_win_sum_range(p, wi, rowi, x - ri, (2 * r + 1) as nat, 0, 255);
            }
            val = val - source[base + sub_i] as u64 + source[base + add_i] as u64;
            proof {
                lemma_round_avg_range(
                    row_win_sum(p, wi, rowi, x - ri, (2 * r + 1) as nat),
                    ri,
                    0,
                    255,
                );
            }
            let q: u8 = ((val + r as u64) / n) as u8;
            proof {
                lemma_fundamental_div_mod_converse(rowi * wi + x, wi, rowi, x as int);
            }
            out.push(q);
            x += 1;
        }
        row += 1;
        proof {
            assert(rowi * wi + wu == (rowi + 1) * wi) by (nonlinear_arith)
                requires
                    wu == wi,
            ;
        }
    }
    proof {
        assert(hu as int * wi == wi * (h as int)) by (nonlinear_arith)
            requires
                hu == h,
                wi == w,
        ;
        assert(out@ =~= box_h_seq(p, wi, h as int, r as int));
    }
    out
}

/// Vertical sliding-window box-blur pass over a row-major plane of `h`
/// rows of `w` samples, window radius `r`. The window slides down each
/// column with a row-stride step.
pub fn box_blur_v(source: Vec<u8>, w: u32, h: u32, r: usize) -> (out: Vec<u8>)
    requires
        source@.len() == (w as int) * (h as int),
        w >= 1,
        h >= 1,
        2 * r + 1 <= h,
    ensures
        out@ == box_v_seq(source@, w as int, h as int, r as int),
{
    let wu: usize = w as usize;
    let hu: usize = h as usize;
    let n: u64 = 2 * (r as u64) + 1;
    let ghost p = source@;
    let ghost wi = w as int;
    let ghost hi = h as int;
    proof {
        assert(p.len() == source.len());
    }
    let total: usize = source.len();
    let mut out: Vec<u8> = vec![0u8; total];
    let mut col: usize = 0;
    while col < wu
        invariant
            p == source@,
            wi == w as int,
            hi == h as int,
            p.len() == wi * hi,
            p.len() <= usize::MAX,
            wu == w as usize,
            hu == h as usize,
            1 <= wu,
            1 <= hu,
            2 * r + 1 <= hu,
            n == 2 * r + 1,
            col <= wu,
            out@.len() == p.len(),
            forall|yy: int, xx: int|
                0 <= yy < hi && 0 <= xx < col ==> out@[yy * wi + xx] == #[trigger] box_v_px(
                    p,
                    wi,
                    hi,
                    xx,
                    yy,
                    r as int,
                ),
        decreases wu - col,
    {
        let ghost ri = r as int;
        let ghost coli = col as int;
        proof {
            assert(coli < wi * hi) by (nonlinear_arith)
                requires
                    0 <= coli < wi,
                    hi >= 1,
            ;
        }
        let fv: u64 = source[col] as u64;
        assert((ri + 1) * fv <= (ri + 1) * 255) by (nonlinear_arith)
            requires
                fv <= 255,
                ri >= 0,
        ;
        let mut val: u64 = (r as u64 + 1) * fv;
        let mut j: usize = 0;
        while j < r
            invariant
                p == source@,
                wi == w as int,
                hi == h as int,
                p.len() == wi * hi,
                p.len() <= usize::MAX,
                wu == w as usize,
                hu == h as usize,
                1 <= wu,
                2 * r + 1 <= hu,
                ri == r as int,
                coli == col as int,
                col < wu,
                fv == p[coli],
                j <= r,
                val == (ri + 1) * (fv as int) + col_win_sum(p, wi, hi, coli, 0, j as nat),
                val <= 255 * (ri + 1 + j),
            decreases r - j,
        {
            proof {
                lemma_col_win_sum_extend(p, wi, hi, coli, 0, j as nat);
                assert(clamp_idx(j as int, hi - 1) == j as int);
                assert(j as int * wi + coli < wi * hi) by (nonlinear_arith)
                    requires
                        0 <= (j as int) < hi,
                        0 <= coli < wi,
                ;
            }
            val = val + source[j * wu + col] as u64;
            j += 1;
        }
        proof {
            lemma_col_win_sum_left(p, wi, hi, coli, -ri - 1, (2 * r + 1) as nat);
        }
        let mut y: usize = 0;
        while y < hu
            invariant
                p == source@,
                wi == w as int,
                hi == h as int,
                p.len() == wi * hi,
                p.len() <= usize::MAX,
                wu == w as usize,
                hu == h as usize,
                1 <= wu,
                1 <= hu,
                2 * r + 1 <= hu,
                n == 2 * r + 1,
                ri == r as int,
                coli == col as int,
                col < wu,
                y <= hu,
                out@.len() == p.len(),
                val == col_win_sum(p, wi, hi, coli, y - ri - 1, (2 * r + 1) as nat),
                forall|yy: int, xx: int|
                    0 <= yy < hi && 0 <= xx <= coli && (xx < coli || yy < y) ==> out@[yy * wi + xx]
                        == #[trigger] box_v_px(p, wi, hi, xx, yy, r as int),
            decreases hu - y,
        {
            let sub_y: usize = if y <= r {
                0
            } else {
                y - r - 1
            };
            let add_y: usize = if r <= hu - 1 - y {
                y + r
            } else {
                hu - 1
            };
            proof {
                assert(sub_y as int == clamp_idx(y - ri - 1, hi - 1));
                assert(add_y as int == clamp_idx(y + ri, hi - 1));
                assert(col_win_sum(p, wi, hi, coli, y - ri - 1, (2 * r + 1) as nat) == p[clamp_idx(
                    y - ri - 1,
                    hi - 1,
                ) * wi + coli] + col_win_sum(p, wi, hi, coli, y - ri, (2 * r) as nat));
                lemma_col_win_sum_extend(p, wi, hi, coli, y - ri, (2 * r) as nat);
                lemma_col_win_sum_range(p, wi, hi, coli, y - ri, (2 * r) as nat, 0, 255);
                lemma_col_win_sum_range(p, wi, hi, coli, y - ri, (2 * r + 1) as nat, 0, 255);
                assert(sub_y as int * wi + coli < wi * hi && add_y as int * wi + coli < wi * hi)
                    by (nonlinear_arith)
                    requires
                        0 <= (sub_y as int) < hi,
                        0 <= (add_y as int) < hi,
                        0 <= coli < wi,
                ;
            }
            val = val - source[sub_y * wu + col] as u64 + source[add_y * wu + col] as u64;
            proof {
                lemma_round_avg_range(
                    col_win_sum(p, wi, hi, coli, y - ri, (2 * r + 1) as nat),
                    ri,
                    0,
                    255,
                );
                assert(y as int * wi + coli < wi * hi) by (nonlinear_arith)
                    requires
                        0 <= (y as int) < hi,
                        0 <= coli < wi,
                ;
            }
            let q: u8 = ((val + r as u64) / n) as u8;
            let idx: usize = y * wu + col;
            let ghost out_before = out@;
            out[idx] = q;
            proof {
                assert(q == box_v_px(p, wi, hi, coli, y as int, ri));
                assert forall|yy: int, xx: int|
                    0 <= yy < hi && 0 <= xx <= coli && (xx < coli || yy < y + 1) implies out@[yy
                    * wi + xx] == #[trigger] box_v_px(p, wi, hi, xx, yy, r as int) by {
                    if yy == y as int && xx == coli {
                        assert(out@[yy * wi + xx] == q);
                    } else {
                        assert(0 <= yy * wi + xx < wi * hi) by (nonlinear_arith)
                            requires
                                0 <= yy < hi,
                                0 <= xx < wi,
                                wi >= 1,
                        ;
                        lemma_fundamental_div_mod_converse(yy * wi + xx, wi, yy, xx);
                        lemma_fundamental_div_mod_converse(
                            y as int * wi + coli,
                            wi,
                            y as int,
                            coli,
                        );
                        assert(yy * wi + xx != idx as int);
                        assert(out@[yy * wi + xx] == out_before[yy * wi + xx]);
                    }
                }
            }
            y += 1;
        }
        col += 1;
    }
    proof {
        assert forall|k: int| 0 <= k < p.len() implies out@[k] == box_v_px(
            p,
            wi,
            hi,
            k % wi,
            k / wi,
            r as int,
        ) by {
            vstd::arithmetic::div_mod::lemma_fundamental_div_mod(k, wi);
            vstd::arithmetic::div_mod::lemma_mod_division_less_than_divisor(k, wi);
            assert(k / wi < hi) by (nonlinear_arith)
                requires
                    k == wi * (k / wi) + k % wi,
                    0 <= k % wi < wi,
                    0 <= k < wi * hi,
                    wi >= 1,
            ;
            assert(k / wi >= 0) by (nonlinear_arith)
                requires
                    k == wi * (k / wi) + k % wi,
                    0 <= k % wi < wi,
                    0 <= k,
                    wi >= 1,
            ;
            assert((k / wi) * wi + k % wi == k);
        }
        assert(out@ =~= box_v_seq(p, wi, hi, r as int));
    }
    out
}

/// One full box-blur pass: a horizontal then a vertical sliding-window
/// pass with the same radius.
pub fn box_blur(source: Vec<u8>, w: u32, h: u32, r: usize) -> (out: Vec<u8>)
    requires
        source@.len() == (w as int) * (h as int),
        w >= 1,
        h >= 1,
        2 * r + 1 <= w,
        2 * r + 1 <= h,
    ensures
        out@ == box_pass_seq(source@, w as int, h as int, r as int),
{
    let hblur = box_blur_h(source, w, h, r);
    box_blur_v(hblur, w, h, r)
}

/// Blur one channel plane with the three-pass Gaussian approximation of
/// strength `r`: the planner turns `r` into two narrow box passes and
/// one wide one.
pub fn new_blur(source: Vec<u8>, w: u32, h: u32, r: usize) -> (out: Vec<u8>)
    requires
        source@.len() == (w as int) * (h as int),
        1 <= r,
        2 * r + 1 <= w,
        2 * r + 1 <= h,
    ensures
        out@ == gauss3_seq(source@, w as int, h as int, r as int),
{
    let bxs = crate::planner::boxes_for_gauss(r);
    let res = box_blur(source, w, h, (bxs[0] - 1) / 2);
    let res2 = box_blur(res, w, h, (bxs[1] - 1) / 2);
    box_blur(res2, w, h, (bxs[2] - 1) / 2)
}

} // verus!
