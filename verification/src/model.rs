use vstd::prelude::*;

verus! {

/// Hard cap on the number of pivot iterations `simplex` performs before it
/// gives up and reports [`crate::SimplexError::Unbounded`].  The cap is the
/// largest representable count, so in practice the solver behaves like the
/// unguarded iterate-until-optimal loop.
pub const MAX_PIVOTS: usize = usize::MAX;

/// Mathematical image of one tableau row: coefficients (one per variable,
/// column index = variable index) and a right-hand side, as unbounded integers.
#[verifier::ext_equal]
pub ghost struct EqModel {
    pub coefs: Seq<int>,
    pub rhs: int,
}

/// Mathematical image of a whole tableau: the constraint rows in declaration
/// order plus the distinguished objective row.
#[verifier::ext_equal]
pub ghost struct BoardModel {
    pub rows: Seq<EqModel>,
    pub obj: EqModel,
}

/// The coefficient vectors of an executable row, as mathematical integers.
pub open spec fn ints(s: Seq<isize>) -> Seq<int> {
    s.map_values(|x: isize| x as int)
}

/// `x` is representable as an `isize`.
pub open spec fn fits(x: int) -> bool {
    isize::MIN <= x <= isize::MAX
}

/// Truncating integer division (quotient rounded toward zero), the semantics
/// of the executable `/` on signed integers.  Spec-mode `/` is Euclidean, so
/// the negative cases are spelled out through non-negative quotients.
pub open spec fn tdiv(a: int, b: int) -> int {
    if a == 0 {
        0
    } else if a > 0 && b > 0 {
        a / b
    } else if a < 0 && b < 0 {
        (a * -1) / (b * -1)
    } else if a < 0 {
        ((a * -1) / b) * -1
    } else {
        (a / (b * -1)) * -1
    }
}

/// What [`crate::divide_res`] returns: the truncated quotient, or the largest
/// representable integer as the sentinel for "no bound" when `b` is zero.
pub open spec fn divide_model(a: int, b: int) -> int {
    if b != 0 {
        tdiv(a, b)
    } else {
        isize::MAX as int
    }
}

/// The ratio the leaving-row test assigns to a row for entering column `c`:
/// `rhs / coefs[c]` truncated, with the largest representable integer as the
/// sentinel for "no bound" when the column coefficient is zero.
pub open spec fn ratio_model(e: EqModel, c: int) -> int {
    if e.coefs[c] == 0 {
        isize::MAX as int
    } else {
        tdiv(e.rhs, e.coefs[c])
    }
}

/// The ratios of all rows for entering column `c`, in row order.
pub open spec fn ratios_model(rows: Seq<EqModel>, c: int) -> Seq<int> {
    Seq::new(rows.len(), |i: int| ratio_model(rows[i], c))
}

/// `r` is the index the entering-column rule picks on `s`: a maximum, and the
/// first index attaining it.
pub open spec fn is_entering_choice(s: Seq<int>, r: int) -> bool {
    &&& 0 <= r < s.len()
    &&& forall|j: int| 0 <= j < s.len() ==> #[trigger] s[j] <= s[r]
    &&& forall|j: int| 0 <= j < r ==> #[trigger] s[j] < s[r]
}

/// `r` is the index the leaving-row rule picks on the ratio sequence `s`: a
/// minimum, and the first index attaining it.
pub open spec fn is_leaving_choice(s: Seq<int>, r: int) -> bool {
    &&& 0 <= r < s.len()
    &&& forall|j: int| 0 <= j < s.len() ==> s[r] <= #[trigger] s[j]
    &&& forall|j: int| 0 <= j < r ==> s[r] < #[trigger] s[j]
}

/// First index of a maximum of `s` (0 on sequences of length at most 1).
pub open spec fn first_max_index(s: Seq<int>) -> int
    decreases s.len(),
{
    if s.len() <= 1 {
        0
    } else {
        let r = first_max_index(s.drop_last());
        if s[s.len() - 1] > s[r] {
            s.len() - 1
        } else {
            r
        }
    }
}

/// First index of a minimum of `s` (0 on sequences of length at most 1).
pub open spec fn first_min_index(s: Seq<int>) -> int
    decreases s.len(),
{
    if s.len() <= 1 {
        0
    } else {
        let r = first_min_index(s.drop_last());
        if s[s.len() - 1] < s[r] {
            s.len() - 1
        } else {
            r
        }
    }
}

/// [`first_max_index`] satisfies the entering-column characterization.
pub proof fn lemma_first_max_char(s: Seq<int>)
    requires
        s.len() > 0,
    ensures
        is_entering_choice(s, first_max_index(s)),
    decreases s.len(),
{
    if s.len() > 1 {
        let d = s.drop_last();
        lemma_first_max_char(d);
        let r0 = first_max_index(d);
        assert forall|j: int| 0 <= j < d.len() implies #[trigger] d[j] == s[j] by {}
        if s[s.len() - 1] > s[r0] {
            assert forall|j: int| 0 <= j < s.len() implies #[trigger] s[j] <= s[s.len() - 1] by {
                if j < s.len() - 1 {
                    assert(d[j] <= d[r0]);
                }
            }
            assert forall|j: int| 0 <= j < s.len() - 1 implies #[trigger] s[j] < s[s.len() - 1] by {
                assert(d[j] <= d[r0]);
            }
        } else {
            assert forall|j: int| 0 <= j < s.len() implies #[trigger] s[j] <= s[r0] by {
                if j < s.len() - 1 {
                    assert(d[j] <= d[r0]);
                }
            }
            assert forall|j: int| 0 <= j < r0 implies #[trigger] s[j] < s[r0] by {
                assert(d[j] < d[r0]);
            }
        }
    }
}

/// [`first_min_index`] satisfies the leaving-row characterization.
pub proof fn lemma_first_min_char(s: Seq<int>)
    requires
        s.len() > 0,
    ensures
        is_leaving_choice(s, first_min_index(s)),
    decreases s.len(),
{
    if s.len() > 1 {
        let d = s.drop_last();
        lemma_first_min_char(d);
        let r0 = first_min_index(d);
        assert forall|j: int| 0 <= j < d.len() implies #[trigger] d[j] == s[j] by {}
        if s[s.len() - 1] < s[r0] {
            assert forall|j: int| 0 <= j < s.len() implies s[s.len() - 1] <= #[trigger] s[j] by {
                if j < s.len() - 1 {
                    assert(d[r0] <= d[j]);
                }
            }
            assert forall|j: int| 0 <= j < s.len() - 1 implies s[s.len() - 1] < #[trigger] s[j] by {
                assert(d[r0] <= d[j]);
            }
        } else {
            assert forall|j: int| 0 <= j < s.len() implies s[r0] <= #[trigger] s[j] by {
                if j < s.len() - 1 {
                    assert(d[r0] <= d[j]);
                }
            }
            assert forall|j: int| 0 <= j < r0 implies s[r0] < #[trigger] s[j] by {
                assert(d[r0] < d[j]);
            }
        }
    }
}

/// At most one index satisfies the entering-column characterization: the rule
/// is deterministic.
pub proof fn lemma_entering_unique(s: Seq<int>, r1: int, r2: int)
    requires
        is_entering_choice(s, r1),
        is_entering_choice(s, r2),
    ensures
        r1 == r2,
{
    if r1 < r2 {
        assert(s[r1] < s[r2]);
        assert(s[r2] <= s[r1]);
    } else if r2 < r1 {
        assert(s[r2] < s[r1]);
        assert(s[r1] <= s[r2]);
    }
}

/// At most one index satisfies the leaving-row characterization: the rule is
/// deterministic.
pub proof fn lemma_leaving_unique(s: Seq<int>, r1: int, r2: int)
    requires
        is_leaving_choice(s, r1),
        is_leaving_choice(s, r2),
    ensures
        r1 == r2,
{
    if r1 < r2 {
        assert(s[r1] < s[r2]);
        assert(s[r1] <= s[r2]);
        assert(s[r2] <= s[r1]);
    } else if r2 < r1 {
        assert(s[r2] < s[r1]);
        assert(s[r1] <= s[r2]);
    }
}

/// The entering column of a tableau: first index of the maximum objective
/// coefficient (Dantzig's rule, lowest index on ties).
pub open spec fn entering_col(b: BoardModel) -> int {
    first_max_index(b.obj.coefs)
}

/// The leaving row of a tableau for entering column `c`: first index of the
/// minimum ratio (lowest index on ties).
pub open spec fn leaving_row(b: BoardModel, c: int) -> int {
    first_min_index(ratios_model(b.rows, c))
}

/// One row after Gauss-Jordan elimination against pivot row `lp` with pivot
/// value `p`, where `a` is the row's own coefficient in the entering column.
/// The multiplier `a / p` uses truncating division.
pub open spec fn row_after(e: EqModel, a: int, p: int, lp: EqModel) -> EqModel {
    EqModel {
        coefs: Seq::new(e.coefs.len(), |j: int| e.coefs[j] - tdiv(a, p) * lp.coefs[j]),
        rhs: e.rhs - tdiv(a, p) * lp.rhs,
    }
}

/// The whole tableau after one elimination with pivot value `v` at row `r`,
/// column `c`.  Every row, the pivot row itself and the objective included,
/// is eliminated against the old row `r`.
pub open spec fn board_after(b: BoardModel, v: int, r: int, c: int) -> BoardModel {
    let lp = b.rows[r];
    BoardModel {
        rows: Seq::new(b.rows.len(), |i: int| row_after(b.rows[i], b.rows[i].coefs[c], v, lp)),
        obj: row_after(b.obj, b.obj.coefs[c], v, lp),
    }
}

/// One full pivot iteration: entering column, leaving row, elimination.
pub open spec fn step_model(b: BoardModel) -> BoardModel {
    let c = entering_col(b);
    let r = leaving_row(b, c);
    board_after(b, b.rows[r].coefs[c], r, c)
}

/// The tableau after `n` pivot iterations.
pub open spec fn iterate(b: BoardModel, n: nat) -> BoardModel
    decreases n,
{
    if n == 0 {
        b
    } else {
        step_model(iterate(b, (n - 1) as nat))
    }
}

/// A row still offers an improving direction: some coefficient is strictly
/// positive.  The loop keeps pivoting exactly while this holds of the
/// objective row.
pub open spec fn improvable(e: EqModel) -> bool {
    exists|j: int| 0 <= j < e.coefs.len() && #[trigger] e.coefs[j] > 0
}

/// The tableau widened with slack columns: each constraint row `i` gains the
/// `i`-th row of the `m`-wide identity block, the objective row gains `m`
/// zeros, right-hand sides are unchanged.
pub open spec fn augmented(b: BoardModel) -> BoardModel {
    let m = b.rows.len() as int;
    BoardModel {
        rows: Seq::new(
            b.rows.len(),
            |i: int| EqModel {
                coefs: b.rows[i].coefs + Seq::new(m as nat, |k: int| if k == i { 1int } else { 0int }),
                rhs: b.rows[i].rhs,
            },
        ),
        obj: EqModel {
            coefs: b.obj.coefs + Seq::new(m as nat, |k: int| 0int),
            rhs: b.obj.rhs,
        },
    }
}

/// Every constraint row is as wide as the objective row.
pub open spec fn uniform_width(b: BoardModel) -> bool {
    forall|i: int| 0 <= i < b.rows.len() ==> #[trigger] b.rows[i].coefs.len() == b.obj.coefs.len()
}

/// Every value of the row is representable as an `isize`.
pub open spec fn row_fits(e: EqModel) -> bool {
    &&& forall|j: int| 0 <= j < e.coefs.len() ==> fits(#[trigger] e.coefs[j])
    &&& fits(e.rhs)
}

/// Every value of the tableau is representable as an `isize`.
pub open spec fn board_fits(b: BoardModel) -> bool {
    &&& forall|i: int| 0 <= i < b.rows.len() ==> row_fits(#[trigger] b.rows[i])
    &&& row_fits(b.obj)
}

/// The elimination with pivot value `v` at row `r`, column `c` stays within
/// machine integers: every multiplier and every produced value fits `isize`.
pub open spec fn elim_fits(b: BoardModel, v: int, r: int, c: int) -> bool {
    &&& forall|i: int| 0 <= i < b.rows.len() ==> fits(tdiv(#[trigger] b.rows[i].coefs[c], v))
    &&& fits(tdiv(b.obj.coefs[c], v))
    &&& board_fits(board_after(b, v, r, c))
}

/// One pivot iteration can be performed on `b` without running outside the
/// machine: the tableau is non-empty and uniform, the ratios and the pivot
/// selection are well defined, the pivot value is nonzero, and the arithmetic
/// stays representable.
pub open spec fn step_ok(b: BoardModel) -> bool {
    &&& b.rows.len() > 0
    &&& b.obj.coefs.len() > 0
    &&& uniform_width(b)
    &&& forall|i: int| 0 <= i < b.rows.len() ==> fits(ratio_model(#[trigger] b.rows[i], entering_col(b)))
    &&& b.rows[leaving_row(b, entering_col(b))].coefs[entering_col(b)] != 0
    &&& elim_fits(b, b.rows[leaving_row(b, entering_col(b))].coefs[entering_col(b)], leaving_row(b, entering_col(b)), entering_col(b))
}

/// The objective row is still improvable after each of the first `n`
/// iterations, so the loop reaches iteration `n` (the iteration numbered 0 is
/// reached unconditionally).
pub open spec fn live_through(b: BoardModel, n: nat) -> bool {
    forall|j: nat| #![trigger iterate(b, j)] 1 <= j <= n ==> improvable(iterate(b, j).obj)
}

/// Every pivot iteration the loop actually reaches on start tableau `b` can
/// be performed: the machine-limit precondition of the whole run.
pub open spec fn run_ok(b: BoardModel) -> bool {
    forall|n: nat| #![trigger iterate(b, n)] live_through(b, n) && n < MAX_PIVOTS ==> step_ok(iterate(b, n))
}

/// The loop on start tableau `b` stops right after iteration `n`: the
/// objective row is no longer improvable there, and iteration `n` was the
/// first with that property (the loop always performs at least one).
pub open spec fn solved_at(b: BoardModel, n: nat) -> bool {
    &&& 1 <= n <= MAX_PIVOTS
    &&& !improvable(iterate(b, n).obj)
    &&& forall|j: nat| #![trigger iterate(b, j)] 1 <= j < n ==> improvable(iterate(b, j).obj)
}

} // verus!
