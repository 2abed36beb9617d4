//! Mathematical model of the sliding-window moving average used by the
//! box-blur passes: clamped window sums over a row or a column of a
//! row-major channel plane, and the rounding rule for the average.
use vstd::prelude::*;

verus! {

use vstd::arithmetic::div_mod::lemma_div_is_ordered;
use vstd::arithmetic::div_mod::lemma_div_multiples_vanish_fancy;

/// Clamp an index into `[0, hi]`: the edge-replication rule. A sample
/// outside the row or column stands in for the nearest edge sample.
pub open spec fn clamp_idx(x: int, hi: int) -> int {
    if x < 0 {
        0
    } else if x > hi {
        hi
    } else {
        x
    }
}

/// Sum of `n` window samples of row `row` of plane `p` (row-major, row
/// length `w`), taken at columns `lo, lo+1, ..., lo+n-1`, each clamped
/// into the row.
pub open spec fn row_win_sum(p: Seq<u8>, w: int, row: int, lo: int, n: nat) -> int
    decreases n,
{
    if n == 0 {
        0
    } else {
        p[row * w + clamp_idx(lo, w - 1)] + row_win_sum(p, w, row, lo + 1, (n - 1) as nat)
    }
}

/// Sum of `n` window samples of column `col` of plane `p` (row-major,
/// row length `w`, `h` rows), taken at rows `lo, ..., lo+n-1`, each
/// clamped into the column.
pub open spec fn col_win_sum(p: Seq<u8>, w: int, h: int, col: int, lo: int, n: nat) -> int
    decreases n,
{
    if n == 0 {
        0
    } else {
        p[clamp_idx(lo, h - 1) * w + col] + col_win_sum(p, w, h, col, lo + 1, (n - 1) as nat)
    }
}

/// The moving average of a window of `2r+1` samples summing to `sum`,
/// rounded to the nearest integer (ties cannot arise: the window length
/// is odd).
pub open spec fn round_avg(sum: int, r: int) -> int {
    (sum + r) / (2 * r + 1)
}

/// Appending one more sample on the right of the window adds its
/// clamped value to the sum.
pub proof fn lemma_row_win_sum_extend(p: Seq<u8>, w: int, row: int, lo: int, n: nat)
    ensures
        row_win_sum(p, w, row, lo, (n + 1) as nat) == row_win_sum(p, w, row, lo, n) + p[row * w
            + clamp_idx(lo + n, w - 1)],
    decreases n,
{
    assert(row_win_sum(p, w, row, lo, (n + 1) as nat) == p[row * w + clamp_idx(lo, w - 1)]
        + row_win_sum(p, w, row, lo + 1, n));
    if n > 0 {
        lemma_row_win_sum_extend(p, w, row, lo + 1, (n - 1) as nat);
    }
}

/// Column version of [`lemma_row_win_sum_extend`].
pub proof fn lemma_col_win_sum_extend(p: Seq<u8>, w: int, h: int, col: int, lo: int, n: nat)
    ensures
        col_win_sum(p, w, h, col, lo, (n + 1) as nat) == col_win_sum(p, w, h, col, lo, n)
            + p[clamp_idx(lo + n, h - 1) * w + col],
    decreases n,
{
    assert(col_win_sum(p, w, h, col, lo, (n + 1) as nat) == p[clamp_idx(lo, h - 1) * w + col]
        + col_win_sum(p, w, h, col, lo + 1, n));
    if n > 0 {
        lemma_col_win_sum_extend(p, w, h, col, lo + 1, (n - 1) as nat);
    }
}

/// A window that starts before the row replicates the first sample of
/// the row once per out-of-range position.
pub proof fn lemma_row_win_sum_left(p: Seq<u8>, w: int, row: int, lo: int, n: nat)
    requires
        lo <= 0,
        n >= -lo,
        w >= 1,
    ensures
        row_win_sum(p, w, row, lo, n) == (-lo) * p[row * w] + row_win_sum(
            p,
            w,
            row,
            0,
            (n + lo) as nat,
        ),
    decreases -lo,
{
    if lo == 0 {
        assert(0 * p[row * w] == 0);
    } else {
        lemma_row_win_sum_left(p, w, row, lo + 1, (n - 1) as nat);
        assert(clamp_idx(lo, w - 1) == 0);
        assert((-lo) * p[row * w] == p[row * w] + (-(lo + 1)) * p[row * w]) by (nonlinear_arith);
    }
}

/// Column version of [`lemma_row_win_sum_left`].
pub proof fn lemma_col_win_sum_left(p: Seq<u8>, w: int, h: int, col: int, lo: int, n: nat)
    requires
        lo <= 0,
        n >= -lo,
        h >= 1,
    ensures
        col_win_sum(p, w, h, col, lo, n) == (-lo) * p[col] + col_win_sum(
            p,
            w,
            h,
            col,
            0,
            (n + lo) as nat,
        ),
    decreases -lo,
{
    if lo == 0 {
        assert(0 * p[col] == 0);
    } else {
        lemma_col_win_sum_left(p, w, h, col, lo + 1, (n - 1) as nat);
        assert(clamp_idx(lo, h - 1) * w + col == col);
        assert((-lo) * p[col] == p[col] + (-(lo + 1)) * p[col]) by (nonlinear_arith);
    }
}

/// Every sample of a clamped row window is an existing sample of the
/// row, so the window sum of `n` samples stays between `n*a` and `n*b`
/// whenever every sample of the row lies in `[a, b]`.
pub proof fn lemma_row_win_sum_range(p: Seq<u8>, w: int, row: int, lo: int, n: nat, a: int, b: int)
    requires
        w >= 1,
        forall|j: int| 0 <= j < w ==> a <= #[trigger] p[row * w + j] <= b,
    ensures
        n * a <= row_win_sum(p, w, row, lo, n) <= n * b,
    decreases n,
{
    if n == 0 {
        assert(0 * a == 0 && 0 * b == 0);
    } else {
        lemma_row_win_sum_range(p, w, row, lo + 1, (n - 1) as nat, a, b);
        assert(0 <= clamp_idx(lo, w - 1) < w);
        assert(n * a == a + (n - 1) * a && n * b == b + (n - 1) * b) by (nonlinear_arith);
    }
}

/// Column version of [`lemma_row_win_sum_range`].
pub proof fn lemma_col_win_sum_range(
    p: Seq<u8>,
    w: int,
    h: int,
    col: int,
    lo: int,
    n: nat,
    a: int,
    b: int,
)
    requires
        h >= 1,
        forall|j: int| 0 <= j < h ==> a <= #[trigger] p[j * w + col] <= b,
    ensures
        n * a <= col_win_sum(p, w, h, col, lo, n) <= n * b,
    decreases n,
{
    if n == 0 {
        assert(0 * a == 0 && 0 * b == 0);
    } else {
        lemma_col_win_sum_range(p, w, h, col, lo + 1, (n - 1) as nat, a, b);
        assert(0 <= clamp_idx(lo, h - 1) < h);
        assert(n * a == a + (n - 1) * a && n * b == b + (n - 1) * b) by (nonlinear_arith);
    }
}

/// The rounded average of a window of `2r+1` samples lies between the
/// bounds that enclose the sum: averaging never leaves `[a, b]`.
pub proof fn lemma_round_avg_range(sum: int, r: int, a: int, b: int)
    requires
        r >= 0,
        (2 * r + 1) * a <= sum <= (2 * r + 1) * b,
    ensures
        a <= round_avg(sum, r) <= b,
{
    let n = 2 * r + 1;
    lemma_div_multiples_vanish_fancy(a, r, n);
    lemma_div_multiples_vanish_fancy(b, r, n);
    lemma_div_is_ordered(n * a + r, sum + r, n);
    lemma_div_is_ordered(sum + r, n * b + r, n);
}

} // verus!
