use simplex::{
    add_zeros, apply_row, divide_res, generate_new_board, max_in_eco, min_in_res, need_iterate,
    Board, Cell, Equation,
};

#[test]
fn augmentation_widens_with_identity_block() {
    let mut board = Board {
        eqs: vec![Equation::new(vec![1, 2, 3], 4), Equation::new(vec![5, 6, 7], 8)],
        func_eco: Equation::new(vec![9, 10, 11], 0),
    };
    add_zeros(&mut board);
    assert_eq!(board.eqs.len(), 2);
    assert_eq!(board.eqs[0].multiplicateurs(), &vec![1, 2, 3, 1, 0]);
    assert_eq!(board.eqs[0].res(), 4);
    assert_eq!(board.eqs[1].multiplicateurs(), &vec![5, 6, 7, 0, 1]);
    assert_eq!(board.eqs[1].res(), 8);
    assert_eq!(board.func_eco.multiplicateurs(), &vec![9, 10, 11, 0, 0]);
    assert_eq!(board.func_eco.res(), 0);
}

#[test]
fn entering_column_takes_first_maximum() {
    assert_eq!(max_in_eco(&[5, 7, 7]), 1);
    assert_eq!(max_in_eco(&[4, 4, 4]), 0);
    assert_eq!(max_in_eco(&[-3]), 0);
    assert_eq!(max_in_eco(&[-1, -2, 0, -5]), 2);
}

#[test]
fn leaving_row_takes_first_minimum_ratio() {
    let eqs = vec![
        Equation::new(vec![2], 10),
        Equation::new(vec![5], 10),
        Equation::new(vec![5], 10),
    ];
    // ratios 5, 2, 2: the tie between rows 1 and 2 goes to row 1.
    assert_eq!(min_in_res(&eqs, 0), 1);
}

#[test]
fn zero_coefficient_counts_as_no_bound() {
    let eqs = vec![Equation::new(vec![0], 3), Equation::new(vec![2], 10)];
    // Row 0 has no bound on the entering variable, so row 1 must leave.
    assert_eq!(min_in_res(&eqs, 0), 1);
}

#[test]
fn negative_coefficient_is_not_excluded() {
    let eqs = vec![Equation::new(vec![2], 10), Equation::new(vec![-2], 6)];
    // Row 1's ratio is -3, sign-wrong but smaller than 5: the selector keeps
    // it anyway.
    assert_eq!(min_in_res(&eqs, 0), 1);
}

#[test]
fn division_truncates_toward_zero() {
    assert_eq!(divide_res(7, 2), 3);
    assert_eq!(divide_res(-7, 2), -3);
    assert_eq!(divide_res(7, -2), -3);
    assert_eq!(divide_res(-7, -2), 3);
}

#[test]
fn division_by_zero_yields_sentinel() {
    assert_eq!(divide_res(5, 0), isize::MAX);
    assert_eq!(divide_res(0, 0), isize::MAX);
}

#[test]
fn iteration_check_wants_a_positive_coefficient() {
    assert!(!need_iterate(&[]));
    assert!(!need_iterate(&[0, -5]));
    assert!(need_iterate(&[-1, 1]));
}

#[test]
fn row_elimination_subtracts_multiplied_pivot_row() {
    let eq = Equation::new(vec![4, 5], 6);
    let lp = Equation::new(vec![2, 3], 1);
    let out = apply_row(&eq, 4, 2, &lp);
    assert_eq!(out.multiplicateurs(), &vec![0, -1]);
    assert_eq!(out.res(), 4);
}

#[test]
fn row_elimination_truncates_the_multiplier() {
    let eq = Equation::new(vec![5, 5], 7);
    let lp = Equation::new(vec![2, 2], 3);
    // multiplier 5 / 2 truncates to 2
    let out = apply_row(&eq, 5, 2, &lp);
    assert_eq!(out.multiplicateurs(), &vec![1, 1]);
    assert_eq!(out.res(), 1);
}

#[test]
fn reduction_rebuilds_every_row() {
    let board = Board {
        eqs: vec![
            Equation::new(vec![3, 2, 1, 0, 0], 1800),
            Equation::new(vec![1, 0, 0, 1, 0], 400),
            Equation::new(vec![0, 1, 0, 0, 1], 600),
        ],
        func_eco: Equation::new(vec![30, 50, 0, 0, 0], 0),
    };
    let pivot = Cell::new(1, 2, 1);
    let next = generate_new_board(&board, &pivot);
    assert_eq!(next.eqs[0].multiplicateurs(), &vec![3, 0, 1, 0, -2]);
    assert_eq!(next.eqs[0].res(), 600);
    assert_eq!(next.eqs[1].multiplicateurs(), &vec![1, 0, 0, 1, 0]);
    assert_eq!(next.eqs[1].res(), 400);
    // The pivot row itself is eliminated to all zeros.
    assert_eq!(next.eqs[2].multiplicateurs(), &vec![0, 0, 0, 0, 0]);
    assert_eq!(next.eqs[2].res(), 0);
    assert_eq!(next.func_eco.multiplicateurs(), &vec![30, 0, 0, 0, -50]);
    assert_eq!(next.func_eco.res(), -30000);
}

#[test]
fn cell_holds_its_parts() {
    let c = Cell::new(-4, 2, 7);
    assert_eq!(c.val, -4);
    assert_eq!(c.row, 2);
    assert_eq!(c.column, 7);
}

#[test]
fn equation_exposes_its_parts() {
    let e = Equation::new(vec![8, -9], -10);
    assert_eq!(e.multiplicateurs(), &vec![8, -9]);
    assert_eq!(e.res(), -10);
}
