use vstd::prelude::*;

use vstd::arithmetic::div_mod::{
    lemma_div_by_self, lemma_div_multiples_vanish, lemma_fundamental_div_mod,
};

use crate::model::{
    augmented, board_after, is_entering_choice, is_leaving_choice, tdiv, BoardModel,
};

verus! {

/// When the divisor divides evenly, truncating division agrees with the
/// Euclidean quotient and inverts the multiplication.
pub proof fn lemma_tdiv_exact(a: int, v: int)
    requires
        v != 0,
        a % v == 0,
    ensures
        tdiv(a, v) == a / v,
        tdiv(a, v) * v == a,
{
    lemma_fundamental_div_mod(a, v);
    let q = a / v;
    assert(a == v * q);
    if a == 0 {
        assert(v * q == 0 ==> q == 0) by (nonlinear_arith)
            requires
                v != 0,
        ;
    } else if a > 0 && v > 0 {
    } else if a < 0 && v < 0 {
        assert(a * -1 == (v * -1) * q) by (nonlinear_arith)
            requires
                a == v * q,
        ;
        lemma_div_multiples_vanish(q, v * -1);
    } else if a < 0 {
        assert(a * -1 == v * (q * -1)) by (nonlinear_arith)
            requires
                a == v * q,
        ;
        lemma_div_multiples_vanish(q * -1, v);
    } else {
        assert(a == (v * -1) * (q * -1)) by (nonlinear_arith)
            requires
                a == v * q,
        ;
        lemma_div_multiples_vanish(q * -1, v * -1);
    }
    assert(tdiv(a, v) * v == v * q) by (nonlinear_arith)
        requires
            tdiv(a, v) == q,
    ;
}

/// A nonzero value divided by itself, truncating, is one.
pub proof fn lemma_tdiv_self(v: int)
    requires
        v != 0,
    ensures
        tdiv(v, v) == 1,
{
    if v > 0 {
        lemma_div_by_self(v);
    } else {
        lemma_div_by_self(v * -1);
    }
}

/// Augmentation invariant: every constraint row is widened by exactly one
/// column per constraint, its original columns and right-hand side are kept,
/// and the appended block is all zero except a single one at the row's own
/// slack column; the objective row is widened by the same count of plain
/// zeros.
pub proof fn lemma_augmented_shape(b: BoardModel)
    ensures
        augmented(b).rows.len() == b.rows.len(),
        forall|i: int| 0 <= i < b.rows.len() ==> (#[trigger] augmented(b).rows[i]).coefs.len()
            == b.rows[i].coefs.len() + b.rows.len(),
        forall|i: int, j: int| 0 <= i < b.rows.len() && 0 <= j < b.rows[i].coefs.len()
            ==> #[trigger] augmented(b).rows[i].coefs[j] == b.rows[i].coefs[j],
        forall|i: int, j: int| 0 <= i < b.rows.len() && b.rows[i].coefs.len() <= j
            < b.rows[i].coefs.len() + b.rows.len() ==> #[trigger] augmented(b).rows[i].coefs[j]
            == (if j == b.rows[i].coefs.len() + i { 1int } else { 0int }),
        forall|i: int| 0 <= i < b.rows.len() ==> (#[trigger] augmented(b).rows[i]).rhs
            == b.rows[i].rhs,
        augmented(b).obj.coefs.len() == b.obj.coefs.len() + b.rows.len(),
        forall|j: int| 0 <= j < b.obj.coefs.len() ==> #[trigger] augmented(b).obj.coefs[j]
            == b.obj.coefs[j],
        forall|j: int| b.obj.coefs.len() <= j < b.obj.coefs.len() + b.rows.len()
            ==> #[trigger] augmented(b).obj.coefs[j] == 0,
        augmented(b).obj.rhs == b.obj.rhs,
{
}

/// Row Reducer invariant, in the only form truncating arithmetic supports:
/// in any constraint row whose entering-column coefficient is an exact
/// multiple of the pivot value, that coefficient is exactly zero after the
/// elimination.  (Without divisibility the elimination leaves the truncating
/// remainder behind instead.)
pub proof fn lemma_pivot_column_cleared(b: BoardModel, v: int, r: int, c: int, i: int)
    requires
        0 <= r < b.rows.len(),
        0 <= i < b.rows.len(),
        0 <= c < b.rows[i].coefs.len(),
        c < b.rows[r].coefs.len(),
        v == b.rows[r].coefs[c],
        v != 0,
        b.rows[i].coefs[c] % v == 0,
    ensures
        board_after(b, v, r, c).rows[i].coefs[c] == 0,
{
    lemma_tdiv_exact(b.rows[i].coefs[c], v);
}

/// The objective-row face of [`lemma_pivot_column_cleared`].
pub proof fn lemma_pivot_column_cleared_obj(b: BoardModel, v: int, r: int, c: int)
    requires
        0 <= r < b.rows.len(),
        0 <= c < b.obj.coefs.len(),
        c < b.rows[r].coefs.len(),
        v == b.rows[r].coefs[c],
        v != 0,
        b.obj.coefs[c] % v == 0,
    ensures
        board_after(b, v, r, c).obj.coefs[c] == 0,
{
    lemma_tdiv_exact(b.obj.coefs[c], v);
}

/// The deliberate departure from the textbook method: the elimination is also
/// applied to the pivot row itself, whose multiplier is exactly one, so the
/// produced pivot row is entirely zero instead of a unit row.
pub proof fn lemma_pivot_row_zeroed(b: BoardModel, v: int, r: int, c: int)
    requires
        0 <= r < b.rows.len(),
        0 <= c < b.rows[r].coefs.len(),
        v == b.rows[r].coefs[c],
        v != 0,
    ensures
        forall|j: int| 0 <= j < b.rows[r].coefs.len()
            ==> #[trigger] board_after(b, v, r, c).rows[r].coefs[j] == 0,
        board_after(b, v, r, c).rows[r].rhs == 0,
{
    lemma_tdiv_self(v);
}

/// Tie-break determinism for the entering column: when column `i` already
/// attains the maximum and column `j > i` ties with it, the chosen column is
/// never `j` — it is `i` or lower.
pub proof fn lemma_entering_tiebreak(s: Seq<int>, r: int, i: int, j: int)
    requires
        is_entering_choice(s, r),
        0 <= i < j < s.len(),
        s[i] == s[j],
        forall|t: int| 0 <= t < s.len() ==> #[trigger] s[t] <= s[i],
    ensures
        r <= i,
{
    if r > i {
        assert(s[i] < s[r]);
        assert(s[r] <= s[i]);
    }
}

/// Tie-break determinism for the leaving row: when row `i` already attains
/// the minimum ratio and row `j > i` ties with it, the chosen row is never
/// `j` — it is `i` or lower.
pub proof fn lemma_leaving_tiebreak(s: Seq<int>, r: int, i: int, j: int)
    requires
        is_leaving_choice(s, r),
        0 <= i < j < s.len(),
        s[i] == s[j],
        forall|t: int| 0 <= t < s.len() ==> s[i] <= #[trigger] s[t],
    ensures
        r <= i,
{
    if r > i {
        assert(s[r] < s[i]);
        assert(s[i] <= s[r]);
    }
}

} // verus!
