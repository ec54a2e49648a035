use simplex::{simplex, Board, Equation};

#[test]
fn it_works() {
    assert_eq!(
        simplex(Board {
            eqs: vec![
                Equation::new(vec![3, 2], 1800),
                Equation::new(vec![1, 0], 400),
                Equation::new(vec![0, 1], 600),
            ],
            func_eco: Equation::new(vec![30, 50], 0),
        })
        .unwrap()
        .1,
        -36000
    );
}

#[test]
fn worked_example_final_row() {
    let (coefs, val) = simplex(Board {
        eqs: vec![
            Equation::new(vec![3, 2], 1800),
            Equation::new(vec![1, 0], 400),
            Equation::new(vec![0, 1], 600),
        ],
        func_eco: Equation::new(vec![30, 50], 0),
    })
    .unwrap();
    assert_eq!(val, -36000);
    assert_eq!(coefs, vec![0, 0, -10, 0, -30]);
}

#[test]
fn two_bound_variables() {
    // maximize x + y subject to x <= 2, y <= 3: the optimum is 5, returned
    // negated.
    let (coefs, val) = simplex(Board {
        eqs: vec![Equation::new(vec![1, 0], 2), Equation::new(vec![0, 1], 3)],
        func_eco: Equation::new(vec![1, 1], 0),
    })
    .unwrap();
    assert_eq!(val, -5);
    assert_eq!(coefs, vec![0, 0, -1, -1]);
}

#[test]
fn non_improvable_objective_still_pivots_once() {
    // The cycle is a do-while: even an objective row with no positive
    // coefficient goes through one pivot before the check gates the loop.
    let (coefs, val) = simplex(Board {
        eqs: vec![Equation::new(vec![1], 5)],
        func_eco: Equation::new(vec![-1], 0),
    })
    .unwrap();
    assert_eq!(val, 0);
    assert_eq!(coefs, vec![-1, 0]);
}

#[test]
fn single_constraint_single_variable() {
    // maximize 4x subject to 2x <= 10: x = 5, optimum 20, returned negated.
    let (coefs, val) = simplex(Board {
        eqs: vec![Equation::new(vec![2], 10)],
        func_eco: Equation::new(vec![4], 0),
    })
    .unwrap();
    assert_eq!(val, -20);
    assert_eq!(coefs, vec![0, -2]);
}
