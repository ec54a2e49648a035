//! A small embeddable solver for linear programs in canonical maximization
//! form (maximize `c·x` subject to `A·x <= b`, `x >= 0`), using the tableau
//! (simplex) method over machine integers with truncating division.
//!
//! The solver augments the caller's tableau with slack columns, then pivots —
//! entering column by Dantzig's largest-coefficient rule, leaving row by the
//! minimum-ratio test, Gauss-Jordan elimination of the entering column — until
//! the objective row has no strictly positive coefficient, and returns that
//! row together with its accumulated scalar.

use vstd::prelude::*;

pub mod model;
pub mod selection;
pub mod elim;
pub mod laws;

pub use selection::{divide_res, max_in_eco, min_in_res, need_iterate};
pub use elim::{add_zeros, apply_row, generate_new_board};
pub use model::MAX_PIVOTS;

use model::{
    augmented, board_after, entering_col, improvable, ints, iterate, leaving_row,
    lemma_entering_unique, lemma_first_max_char, lemma_first_min_char, lemma_leaving_unique,
    live_through, ratios_model, run_ok, solved_at, step_model, step_ok, BoardModel, EqModel,
};

verus! {

/// One tableau row: a coefficient per variable (insertion order is the
/// variable index) and a scalar right-hand side.
#[derive(Clone, Debug)]
pub struct Equation {
    multiplicateurs: Vec<isize>,
    res: isize,
}

impl View for Equation {
    type V = EqModel;

    closed spec fn view(&self) -> EqModel {
        EqModel { coefs: ints(self.multiplicateurs@), rhs: self.res as int }
    }
}

impl Equation {
    /// Builds the row holding exactly the given coefficients and right-hand
    /// side.
    pub fn new(multiplicateurs: Vec<isize>, res: isize) -> (r: Equation)
        ensures
            r@ == (EqModel { coefs: ints(multiplicateurs@), rhs: res as int }),
    {
        Equation { multiplicateurs, res }
    }

    /// The row's coefficients.
    pub fn multiplicateurs(&self) -> (r: &Vec<isize>)
        ensures
            ints(r@) == self@.coefs,
            r@.len() == self@.coefs.len(),
    {
        proof {
            assert(ints(self.multiplicateurs@).len() == self.multiplicateurs@.len());
        }
        &self.multiplicateurs
    }

    /// The row's right-hand side.
    pub fn res(&self) -> (r: isize)
        ensures
            r as int == self@.rhs,
    {
        self.res
    }
}

/// The tableau: the constraint rows in declaration order (the row index names
/// the basic variable currently occupying the row) plus the objective row.
#[derive(Debug)]
pub struct Board {
    pub eqs: Vec<Equation>,
    pub func_eco: Equation,
}

/// The constraint rows of `s`, as row models in the same order.
pub open spec fn rows_view(s: Seq<Equation>) -> Seq<EqModel> {
    s.map_values(|e: Equation| e@)
}

impl View for Board {
    type V = BoardModel;

    open spec fn view(&self) -> BoardModel {
        BoardModel { rows: rows_view(self.eqs@), obj: self.func_eco@ }
    }
}

/// The pivot cell of one iteration: the coefficient `val` found at constraint
/// row `row`, column `column` before the elimination.
#[derive(Clone, Copy, Debug)]
pub struct Cell {
    pub val: isize,
    pub row: usize,
    pub column: usize,
}

impl Cell {
    /// Builds the cell holding exactly the given value and position.
    pub fn new(val: isize, row: usize, column: usize) -> (r: Cell)
        ensures
            r.val == val,
            r.row == row,
            r.column == column,
    {
        Cell { val, row, column }
    }
}

/// The errors the solver can report.  Only [`SimplexError::Unbounded`] is ever
/// produced today, when the objective row is still improvable after
/// [`MAX_PIVOTS`] iterations; the other variants are reserved for validation
/// the solver deliberately does not perform.
#[derive(Clone, Copy, Debug, PartialEq, Eq, Structural)]
pub enum SimplexError {
    MalformedTableau,
    Unbounded,
    Infeasible,
}

/// Solves the tableau: augments it with slack columns once, then repeats the
/// entering-column / leaving-row / elimination cycle until the objective row
/// has no strictly positive coefficient, and returns that row's coefficients
/// and scalar exactly as the last elimination left them.  The scalar carries
/// the sign the elimination arithmetic produces (the negative of the
/// conventional optimum for a maximization seeded with objective `rhs` 0).
///
/// The cycle always runs at least once, and every further round is gated by
/// the positivity check.  No validation is performed: the precondition only
/// rules out the runs on which the pivot arithmetic itself is undefined or
/// leaves the machine range.  If the objective row is still improvable after
/// [`MAX_PIVOTS`] rounds, the solver reports [`SimplexError::Unbounded`].
#[verifier::loop_isolation(false)]
pub fn simplex(input_board: Board) -> (r: Result<(Vec<isize>, isize), SimplexError>)
    requires
        run_ok(augmented(input_board@)),
    ensures
        (r is Ok) == exists|n: nat| solved_at(augmented(input_board@), n),
        r matches Ok(out) ==> exists|n: nat|
            #[trigger] solved_at(augmented(input_board@), n)
                && ints(out.0@) == iterate(augmented(input_board@), n).obj.coefs
                && out.1 as int == iterate(augmented(input_board@), n).obj.rhs,
        r matches Err(e) ==> e == SimplexError::Unbounded && forall|n: nat|
            1 <= n <= MAX_PIVOTS ==> improvable(
                #[trigger] iterate(augmented(input_board@), n).obj,
            ),
{
    let ghost orig = input_board@;
    let mut board: Board = input_board;
    add_zeros(&mut board);
    let ghost am = board@;
    assert(am == augmented(orig));
    let mut k: usize = 0;
    loop
        invariant
            k < MAX_PIVOTS,
            board@ == iterate(am, k as nat),
            live_through(am, k as nat),
        decreases MAX_PIVOTS - k,
    {
        proof {
            assert(step_ok(iterate(am, k as nat)));
        }
        let ghost prev = board@;
        let obj_coefs = board.func_eco.multiplicateurs();
        let max_column = max_in_eco(obj_coefs.as_slice());
        proof {
            lemma_first_max_char(prev.obj.coefs);
            lemma_entering_unique(prev.obj.coefs, entering_col(prev), max_column as int);
            assert(entering_col(prev) == max_column as int);
        }
        proof {
            assert forall|i: int| 0 <= i < board.eqs@.len() implies (max_column as int) < (
            #[trigger] board.eqs@[i])@.coefs.len() by {
                assert(prev.rows[i] == board.eqs@[i]@);
                assert(prev.rows[i].coefs.len() == prev.obj.coefs.len());
            }
            assert forall|i: int| 0 <= i < board.eqs@.len() implies model::fits(
                model::ratio_model((#[trigger] board.eqs@[i])@, max_column as int),
            ) by {
                assert(prev.rows[i] == board.eqs@[i]@);
                assert(model::fits(model::ratio_model(prev.rows[i], entering_col(prev))));
            }
        }
        let min_row = min_in_res(board.eqs.as_slice(), max_column);
        proof {
            lemma_first_min_char(ratios_model(prev.rows, max_column as int));
            lemma_leaving_unique(
                ratios_model(prev.rows, max_column as int),
                leaving_row(prev, max_column as int),
                min_row as int,
            );
            assert(leaving_row(prev, max_column as int) == min_row as int);
        }
        let pivo = Cell::new(
            board.eqs[min_row].multiplicateurs()[max_column],
            min_row,
            max_column,
        );
        proof {
            assert(pivo.val as int == prev.rows[min_row as int].coefs[max_column as int]);
            assert(step_model(prev) == board_after(
                prev,
                pivo.val as int,
                pivo.row as int,
                pivo.column as int,
            ));
        }
        board = generate_new_board(&board, &pivo);
        k = k + 1;
        proof {
            assert(iterate(am, k as nat) == step_model(iterate(am, (k - 1) as nat)));
            assert(board@ == iterate(am, k as nat));
        }
        let new_obj = board.func_eco.multiplicateurs();
        let cont = need_iterate(new_obj.as_slice());
        proof {
            let s2 = new_obj@;
            if exists|j: int| 0 <= j < s2.len() && #[trigger] s2[j] > 0 {
                let j = choose|j: int| 0 <= j < s2.len() && #[trigger] s2[j] > 0;
                assert(board@.obj.coefs[j] > 0);
                assert(improvable(board@.obj));
            }
            if improvable(board@.obj) {
                let j = choose|j: int|
                    0 <= j < board@.obj.coefs.len() && #[trigger] board@.obj.coefs[j] > 0;
                assert(s2[j] > 0);
                assert(exists|t: int| 0 <= t < s2.len() && #[trigger] s2[t] > 0);
            }
            assert(cont == improvable(iterate(am, k as nat).obj));
        }
        if !cont {
            proof {
                assert(solved_at(am, k as nat));
            }
            return Ok((board.func_eco.multiplicateurs, board.func_eco.res));
        }
        proof {
            assert forall|j: nat| 1 <= j <= k as nat implies improvable(
                #[trigger] iterate(am, j).obj,
            ) by {
                if j < k as nat {
                    assert(live_through(am, (k - 1) as nat));
                }
            }
            assert(live_through(am, k as nat));
        }
        if k == MAX_PIVOTS {
            proof {
                assert forall|n: nat| !solved_at(am, n) by {
                    if solved_at(am, n) {
                        assert(improvable(iterate(am, n).obj));
                    }
                }
            }
            return Err(SimplexError::Unbounded);
        }
    }
}

} // verus!
