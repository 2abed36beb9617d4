//! The box-radius planner: from a target blur strength `sigma` it
//! derives the three box widths whose successive application
//! approximates a Gaussian filter.
//!
//! The ideal averaging-filter width is `sqrt(12*sigma^2/3 + 1)`; it is
//! floored to an odd width `wl`, the wide width is `wu = wl + 2`, and a
//! rounded error term decides how many of the three passes use the
//! narrow width. For a whole-number `sigma` this arithmetic always
//! yields two narrow passes of width `2*sigma - 1` followed by one wide
//! pass of width `2*sigma + 1`, which the contract states exactly.
use vstd::prelude::*;

verus! {

/// Integer square root: the greatest `s` with `s * s <= v`.
fn isqrt(v: u128) -> (s: u128)
    requires
        v <= 0xffff_ffff_ffff_ffff,
    ensures
        s * s <= v < (s + 1) * (s + 1),
{
    let mut s: u128 = 0;
    while (s + 1) * (s + 1) <= v
        invariant
            v <= 0xffff_ffff_ffff_ffff,
            s * s <= v,
            s <= 0x1_0000_0000,
            (s + 1) * (s + 1) <= 0x2_0000_0000_0000_0000,
        decreases v - s,
    {
        assert(s + 1 <= v && s + 1 <= 0x1_0000_0000) by (nonlinear_arith)
            requires
                (s + 1) * (s + 1) <= v,
                v <= 0xffff_ffff_ffff_ffff,
        ;
        s = s + 1;
        assert((s + 1) * (s + 1) <= 0x2_0000_0000_0000_0000) by (nonlinear_arith)
            requires
                s <= 0x1_0000_0000,
        ;
    }
    s
}

/// Plan the three box widths for blur strength `sigma`: two narrow
/// passes of width `2*sigma - 1`, then one wide pass of width
/// `2*sigma + 1`. Each width `wd` corresponds to the box radius
/// `(wd - 1) / 2`.
pub fn boxes_for_gauss(sigma: usize) -> (widths: Vec<usize>)
    requires
        1 <= sigma,
        2 * sigma + 1 <= u32::MAX,
    ensures
        widths@.len() == 3,
        widths@[0] == 2 * sigma - 1,
        widths@[1] == 2 * sigma - 1,
        widths@[2] == 2 * sigma + 1,
{
    let s128: u128 = sigma as u128;
    proof {
        assert(4 * s128 * s128 + 1 <= 0xffff_ffff_ffff_ffff) by (nonlinear_arith)
            requires
                s128 <= 0x7fff_ffff,
        ;
    }
    // Ideal width squared: 12*sigma^2 / 3 + 1 = 4*sigma^2 + 1.
    let ideal_sq: u128 = 4 * s128 * s128 + 1;
    let wl0: u128 = isqrt(ideal_sq);
    proof {
        assert(wl0 == 2 * s128) by (nonlinear_arith)
            requires
                wl0 * wl0 <= 4 * s128 * s128 + 1 < (wl0 + 1) * (wl0 + 1),
                1 <= s128,
                0 <= wl0,
        ;
    }
    // Floor to an odd width.
    let wl: u128 = if wl0 % 2 == 0 {
        wl0 - 1
    } else {
        wl0
    };
    let wu: u128 = wl + 2;
    proof {
        assert(3 * wl * wl + 12 * wl + 9 == 12 * s128 * s128 + 12 * s128) by (nonlinear_arith)
            requires
                wl == 2 * s128 - 1,
                s128 >= 1,
        ;
        assert(12 * s128 * s128 + 12 * s128 <= 0x4_0000_0000_0000_0000) by (nonlinear_arith)
            requires
                s128 <= 0x7fff_ffff,
        ;
    }
    // How many passes use the narrow width: the rounded quotient of the
    // residual error term. Numerator and denominator of the float form
    // are both negative; both signs are flipped here.
    let num: u128 = 3 * wl * wl + 12 * wl + 9 - 12 * s128 * s128;
    let den: u128 = 4 * wl + 4;
    proof {
        assert(num == 12 * s128);
        assert(den == 8 * s128);
    }
    let m: u128 = (2 * num + den) / (2 * den);
    proof {
        vstd::arithmetic::div_mod::lemma_div_multiples_vanish(2, 2 * (den as int));
        assert(2 * (num as int) + den == (2 * (den as int)) * 2);
        assert(m == 2);
    }
    let wl_us: usize = wl as usize;
    let wu_us: usize = wu as usize;
    let mut widths: Vec<usize> = Vec::new();
    let mut i: usize = 0;
    while i < 3
        invariant
            m == 2,
            wl_us == 2 * sigma - 1,
            wu_us == 2 * sigma + 1,
            i <= 3,
            widths@.len() == i,
            forall|k: int|
                0 <= k < i ==> widths@[k] == if k < 2 {
                    wl_us
                } else {
                    wu_us
                },
        decreases 3 - i,
    {
        if (i as u128) < m {
            widths.push(wl_us);
        } else {
            widths.push(wu_us);
        }
        i += 1;
    }
    widths
}

} // verus!
