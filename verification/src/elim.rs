use vstd::prelude::*;

use crate::model::{
    augmented, board_after, elim_fits, fits, ints, row_after, row_fits, tdiv, uniform_width,
};
use crate::rows_view;
use crate::{Board, Cell, Equation};

verus! {

/// Products of two values from the 64-bit signed range stay far inside the
/// 128-bit signed range.
proof fn lemma_mul_bound(a: int, b: int)
    requires
        -0x8000_0000_0000_0000 <= a <= 0x8000_0000_0000_0000,
        -0x8000_0000_0000_0000 <= b <= 0x8000_0000_0000_0000,
    ensures
        -0x4000_0000_0000_0000_0000_0000_0000_0000 <= a * b
            <= 0x4000_0000_0000_0000_0000_0000_0000_0000,
{
    assert(-0x4000_0000_0000_0000_0000_0000_0000_0000 <= a * b
        <= 0x4000_0000_0000_0000_0000_0000_0000_0000) by (nonlinear_arith)
        requires
            -0x8000_0000_0000_0000 <= a <= 0x8000_0000_0000_0000,
            -0x8000_0000_0000_0000 <= b <= 0x8000_0000_0000_0000,
    ;
}

/// Gauss-Jordan elimination of one row against the pivot row `ligne_pivot`:
/// the result is the row minus `(a_i / pivot)` times the pivot row, the
/// multiplier truncated.  Values are combined in 128-bit arithmetic, so only
/// the multiplier and the produced row must be representable.
pub fn apply_row(eq: &Equation, a_i: isize, pivot: isize, ligne_pivot: &Equation) -> (r: Equation)
    requires
        pivot != 0,
        eq@.coefs.len() <= ligne_pivot@.coefs.len(),
        fits(tdiv(a_i as int, pivot as int)),
        row_fits(row_after(eq@, a_i as int, pivot as int, ligne_pivot@)),
    ensures
        r@ == row_after(eq@, a_i as int, pivot as int, ligne_pivot@),
{
    let ghost target = row_after(eq@, a_i as int, pivot as int, ligne_pivot@);
    let m: isize = a_i.checked_div(pivot).unwrap();
    let mi: i128 = m as i128;
    assert(mi as int == tdiv(a_i as int, pivot as int));
    let coefs = eq.multiplicateurs();
    let lp_coefs = ligne_pivot.multiplicateurs();
    let n = coefs.len();
    let mut out: Vec<isize> = Vec::new();
    let mut col: usize = 0;
    while col < n
        invariant
            n == coefs@.len(),
            col <= n,
            out@.len() == col,
            ints(coefs@) == eq@.coefs,
            ints(lp_coefs@) == ligne_pivot@.coefs,
            eq@.coefs.len() <= ligne_pivot@.coefs.len(),
            mi as int == tdiv(a_i as int, pivot as int),
            fits(mi as int),
            target == row_after(eq@, a_i as int, pivot as int, ligne_pivot@),
            row_fits(target),
            forall|j: int| 0 <= j < col ==> #[trigger] out@[j] as int == target.coefs[j],
        decreases n - col,
    {
        let c_j: i128 = coefs[col] as i128;
        let l_j: i128 = lp_coefs[col] as i128;
        proof {
            lemma_mul_bound(mi as int, l_j as int);
            assert(target.coefs[col as int] == eq@.coefs[col as int] - tdiv(
                a_i as int,
                pivot as int,
            ) * ligne_pivot@.coefs[col as int]);
            assert(fits(target.coefs[col as int]));
        }
        let v: i128 = c_j - mi * l_j;
        out.push(v as isize);
        col += 1;
    }
    proof {
        lemma_mul_bound(mi as int, ligne_pivot@.rhs);
        assert(fits(target.rhs));
    }
    let rhs: i128 = (eq.res() as i128) - mi * (ligne_pivot.res() as i128);
    let r = Equation::new(out, rhs as isize);
    proof {
        assert(ints(out@) =~= target.coefs);
        assert(r@ =~= target);
    }
    r
}

/// A fresh tableau in which every row of `board` — each constraint row and
/// the objective row — has been eliminated against the constraint row at
/// `pivot.row`, using `pivot.val` as the pivot value in column
/// `pivot.column`.  The old tableau is left untouched.
pub fn generate_new_board(board: &Board, pivot: &Cell) -> (r: Board)
    requires
        (pivot.row as int) < board@.rows.len(),
        uniform_width(board@),
        (pivot.column as int) < board@.obj.coefs.len(),
        pivot.val != 0,
        elim_fits(board@, pivot.val as int, pivot.row as int, pivot.column as int),
    ensures
        r@ == board_after(board@, pivot.val as int, pivot.row as int, pivot.column as int),
{
    let ghost b0 = board@;
    let ghost target = board_after(b0, pivot.val as int, pivot.row as int, pivot.column as int);
    let ligne_pivot = &board.eqs[pivot.row];
    assert(ligne_pivot@ == b0.rows[pivot.row as int]);
    let n = board.eqs.len();
    let mut new_eqs: Vec<Equation> = Vec::new();
    let mut i: usize = 0;
    while i < n
        invariant
            n == board.eqs@.len(),
            i <= n,
            new_eqs@.len() == i,
            b0 == board@,
            target == board_after(b0, pivot.val as int, pivot.row as int, pivot.column as int),
            (pivot.row as int) < b0.rows.len(),
            uniform_width(b0),
            (pivot.column as int) < b0.obj.coefs.len(),
            pivot.val != 0,
            elim_fits(b0, pivot.val as int, pivot.row as int, pivot.column as int),
            ligne_pivot@ == b0.rows[pivot.row as int],
            forall|j: int| 0 <= j < i ==> (#[trigger] new_eqs@[j])@ == target.rows[j],
        decreases n - i,
    {
        let eq = &board.eqs[i];
        proof {
            assert(eq@ == b0.rows[i as int]);
            assert(target.rows[i as int] == row_after(
                b0.rows[i as int],
                b0.rows[i as int].coefs[pivot.column as int],
                pivot.val as int,
                b0.rows[pivot.row as int],
            ));
        }
        let a_i = eq.multiplicateurs()[pivot.column];
        let new_eq = apply_row(eq, a_i, pivot.val, ligne_pivot);
        new_eqs.push(new_eq);
        i += 1;
    }
    let a_obj = board.func_eco.multiplicateurs()[pivot.column];
    proof {
        assert(target.obj == row_after(
            b0.obj,
            b0.obj.coefs[pivot.column as int],
            pivot.val as int,
            b0.rows[pivot.row as int],
        ));
    }
    let new_obj = apply_row(&board.func_eco, a_obj, pivot.val, ligne_pivot);
    let r = Board { eqs: new_eqs, func_eco: new_obj };
    proof {
        assert(rows_view(r.eqs@) =~= target.rows);
        assert(r@ =~~= target);
    }
    r
}

/// Widens the tableau in place with one slack column per constraint row: row
/// `i` gains the `i`-th row of the identity block after its own columns, the
/// objective row gains the same number of zero columns, and every right-hand
/// side stays as it was.
pub fn add_zeros(board: &mut Board)
    ensures
        final(board)@ == augmented(old(board)@),
{
    let ghost b0 = old(board)@;
    let ghost target = augmented(b0);
    let m = board.eqs.len();
    let mut new_eqs: Vec<Equation> = Vec::new();
    let mut i: usize = 0;
    while i < m
        invariant
            board@ == b0,
            m == board.eqs@.len(),
            i <= m,
            new_eqs@.len() == i,
            target == augmented(b0),
            forall|j: int| 0 <= j < i ==> (#[trigger] new_eqs@[j])@ == target.rows[j],
        decreases m - i,
    {
        let eq = &board.eqs[i];
        proof {
            assert(eq@ == b0.rows[i as int]);
        }
        let src = eq.multiplicateurs();
        let w = src.len();
        let mut coefs: Vec<isize> = Vec::new();
        let mut j: usize = 0;
        while j < w
            invariant
                w == src@.len(),
                j <= w,
                coefs@.len() == j,
                forall|t: int| 0 <= t < j ==> #[trigger] coefs@[t] == src@[t],
            decreases w - j,
        {
            coefs.push(src[j]);
            j += 1;
        }
        let mut k: usize = 0;
        while k < m
            invariant
                k <= m,
                w == src@.len(),
                coefs@.len() == w + k,
                forall|t: int| 0 <= t < w ==> #[trigger] coefs@[t] == src@[t],
                forall|t: int| w <= t < w + k ==> #[trigger] coefs@[t] == (if t == w + i as int {
                    1isize
                } else {
                    0isize
                }),
        decreases m - k,
        {
            if k == i {
                coefs.push(1);
            } else {
                coefs.push(0);
            }
            k += 1;
        }
        let new_eq = Equation::new(coefs, eq.res());
        proof {
            let tc = target.rows[i as int].coefs;
            assert(new_eq@.coefs.len() == w + m);
            assert(tc.len() == w + m);
            assert forall|t: int| 0 <= t < w + m implies new_eq@.coefs[t] == tc[t] by {
                assert(new_eq@.coefs[t] == coefs@[t] as int);
                if t < w {
                    assert(coefs@[t] == src@[t]);
                    assert(tc[t] == b0.rows[i as int].coefs[t]);
                    assert(b0.rows[i as int].coefs[t] == src@[t] as int);
                } else {
                    assert(tc[t] == (if t - w == i as int { 1int } else { 0int }));
                }
            }
            assert(new_eq@.coefs =~= tc);
            assert(new_eq@ =~= target.rows[i as int]);
        }
        new_eqs.push(new_eq);
        i += 1;
    }
    let src = board.func_eco.multiplicateurs();
    let w = src.len();
    let mut coefs: Vec<isize> = Vec::new();
    let mut j: usize = 0;
    while j < w
        invariant
            w == src@.len(),
            j <= w,
            coefs@.len() == j,
            forall|t: int| 0 <= t < j ==> #[trigger] coefs@[t] == src@[t],
        decreases w - j,
    {
        coefs.push(src[j]);
        j += 1;
    }
    let mut k: usize = 0;
    while k < m
        invariant
            k <= m,
            w == src@.len(),
            coefs@.len() == w + k,
            forall|t: int| 0 <= t < w ==> #[trigger] coefs@[t] == src@[t],
            forall|t: int| w <= t < w + k ==> #[trigger] coefs@[t] == 0isize,
        decreases m - k,
    {
        coefs.push(0);
        k += 1;
    }
    let new_obj = Equation::new(coefs, board.func_eco.res());
    proof {
        let tc = target.obj.coefs;
        assert(new_obj@.coefs.len() == w + m);
        assert(tc.len() == w + m);
        assert forall|t: int| 0 <= t < w + m implies new_obj@.coefs[t] == tc[t] by {
            assert(new_obj@.coefs[t] == coefs@[t] as int);
            if t < w {
                assert(coefs@[t] == src@[t]);
                assert(tc[t] == b0.obj.coefs[t]);
                assert(b0.obj.coefs[t] == src@[t] as int);
            } else {
                assert(coefs@[t] == 0isize);
                assert(tc[t] == Seq::new(b0.rows.len(), |q: int| 0int)[t - w]);
                assert(tc[t] == 0int);
            }
        }
        assert(new_obj@.coefs =~= tc);
        assert(new_obj@ =~= target.obj);
    }
    board.eqs = new_eqs;
    board.func_eco = new_obj;
    proof {
        assert(rows_view(board.eqs@) =~= target.rows);
        assert(board@ =~~= target);
    }
}

} // verus!
