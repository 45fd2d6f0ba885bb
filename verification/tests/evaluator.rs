use stark_backend::field::extension::ExtElem;
use stark_backend::folder::GenericVerifierConstraintFolder;
use stark_backend::prover::evaluator::{ProverConstraintEvaluator, ViewPair};
use stark_backend::prover::packed::PackedExpr;
use stark_backend::symbolic::dag::build_symbolic_expr_dag;
use stark_backend::symbolic::evaluation::ExprValue;
use stark_backend::symbolic::evaluator::SymbolicEvaluator;
use stark_backend::symbolic::expression::SymbolicExpression;
use stark_backend::symbolic::variable::{Entry, SymbolicVariable};

const P: u32 = 0x78000001;

fn ext(c0: u32, c1: u32, c2: u32, c3: u32) -> ExtElem {
    ExtElem { c0, c1, c2, c3 }
}

fn main_at(offset: usize, index: usize) -> SymbolicExpression {
    SymbolicExpression::Variable(SymbolicVariable::new(
        Entry::Main {
            part_index: 0,
            offset,
        },
        index,
    ))
}

fn public(index: usize) -> SymbolicExpression {
    SymbolicExpression::Variable(SymbolicVariable::new(Entry::Public, index))
}

fn permutation(offset: usize, index: usize) -> SymbolicExpression {
    SymbolicExpression::Variable(SymbolicVariable::new(Entry::Permutation { offset }, index))
}

/// `a' = b`, `b' = c`, `c' = b + c`, with the first row and the last
/// entry given by the public values.
fn fibonacci_constraints() -> Vec<SymbolicExpression> {
    let (a, b, c) = (main_at(0, 0), main_at(0, 1), main_at(0, 2));
    let (a_next, b_next, c_next) = (main_at(1, 0), main_at(1, 1), main_at(1, 2));
    vec![
        SymbolicExpression::IsFirstRow * (a.clone() - public(0)),
        SymbolicExpression::IsFirstRow * (b.clone() - public(1)),
        SymbolicExpression::IsLastRow * (c.clone() - public(2)),
        SymbolicExpression::IsTransition * (b.clone() - a_next),
        SymbolicExpression::IsTransition * (c.clone() - b_next),
        SymbolicExpression::IsTransition * (b + c - c_next),
    ]
}

fn fibonacci_trace(n: usize) -> Vec<[u32; 3]> {
    let mut rows = vec![[0u32, 1, 1]];
    for i in 1..n {
        let [_, b, c] = rows[i - 1];
        rows.push([b, c, (b + c) % P]);
    }
    rows
}

fn rows_as_view(rows: &[[u32; 3]]) -> ViewPair<Vec<u32>> {
    let n = rows.len();
    let local = (0..3)
        .map(|col| (0..n).map(|r| rows[r][col]).collect())
        .collect();
    let next = (0..3)
        .map(|col| (0..n).map(|r| rows[(r + 1) % n][col]).collect())
        .collect();
    ViewPair::new(local, Some(next))
}

fn selector(n: usize, ones: impl Fn(usize) -> bool) -> Vec<u32> {
    (0..n).map(|r| if ones(r) { 1 } else { 0 }).collect()
}

#[test]
fn fibonacci_constraints_vanish_on_every_row_of_a_valid_trace() {
    let n = 8;
    let rows = fibonacci_trace(n);
    let constraints = fibonacci_constraints();
    let dag = build_symbolic_expr_dag(&constraints);
    assert_eq!(dag.to_symbolic_expressions(), constraints);

    let main = vec![rows_as_view(&rows)];
    let preprocessed = ViewPair::new(vec![], Some(vec![]));
    let public_values = vec![0, 1, rows[n - 1][2]];
    let evaluator = ProverConstraintEvaluator {
        preprocessed: &preprocessed,
        partitioned_main: &main,
        after_challenge: &[],
        challenges: &[],
        is_first_row: selector(n, |r| r == 0),
        is_last_row: selector(n, |r| r == n - 1),
        is_transition: selector(n, |r| r != n - 1),
        public_values: &public_values,
        exposed_values_after_challenge: &[],
    };
    let mut exprs = Vec::new();
    evaluator.eval_nodes_mut(&dag.nodes, &mut exprs);
    assert_eq!(exprs.len(), dag.nodes.len());
    for &idx in &dag.constraint_idx {
        assert_eq!(exprs[idx].lanes(), vec![ExprValue::Val(0); n]);
    }
    let alpha_powers = ext(3, 1, 4, 1).powers_highest_first(constraints.len());
    assert_eq!(
        evaluator.accumulate(&dag, &alpha_powers, &mut exprs),
        vec![ExtElem::zero(); n]
    );
}

#[test]
fn a_wrong_cell_shows_in_the_rows_that_read_it() {
    let n = 8;
    let mut rows = fibonacci_trace(n);
    rows[4][1] += 1;
    let dag = build_symbolic_expr_dag(&fibonacci_constraints());
    let main = vec![rows_as_view(&rows)];
    let preprocessed = ViewPair::new(vec![], Some(vec![]));
    let public_values = vec![0, 1, rows[n - 1][2]];
    let evaluator = ProverConstraintEvaluator {
        preprocessed: &preprocessed,
        partitioned_main: &main,
        after_challenge: &[],
        challenges: &[],
        is_first_row: selector(n, |r| r == 0),
        is_last_row: selector(n, |r| r == n - 1),
        is_transition: selector(n, |r| r != n - 1),
        public_values: &public_values,
        exposed_values_after_challenge: &[],
    };
    let mut exprs = Vec::new();
    evaluator.eval_nodes_mut(&dag.nodes, &mut exprs);
    // b' = c is broken from row 3 to row 4, and a' = b from row 4 to row 5.
    let b_next_is_c = exprs[dag.constraint_idx[4]].lanes();
    let a_next_is_b = exprs[dag.constraint_idx[3]].lanes();
    for r in 0..n {
        assert_eq!(b_next_is_c[r] == ExprValue::Val(0), r != 3);
        assert_eq!(a_next_is_b[r] == ExprValue::Val(0), r != 4);
    }
    assert_eq!(b_next_is_c[3], ExprValue::Val(P - 1));
    assert_eq!(a_next_is_b[4], ExprValue::Val(1));
}

#[test]
fn permutation_variable_makes_everything_it_touches_a_challenge() {
    let perm = permutation(0, 0);
    let main = main_at(0, 0);
    let constraints = vec![
        perm.clone(),
        main.clone(),
        perm.clone() * main.clone(),
        main.clone() - perm.clone(),
        perm.clone() - main.clone(),
        main.clone() + perm.clone(),
        -perm.clone(),
        (main.clone() * main.clone()) + SymbolicExpression::Constant(1),
    ];
    let dag = build_symbolic_expr_dag(&constraints);
    let main_view = vec![ViewPair::new(vec![vec![5u32, 6]], None)];
    let perm_view = vec![ViewPair::new(
        vec![vec![ext(1, 2, 3, 4), ext(10, 20, 30, 40)]],
        None,
    )];
    let preprocessed = ViewPair::new(vec![], None);
    let evaluator = ProverConstraintEvaluator {
        preprocessed: &preprocessed,
        partitioned_main: &main_view,
        after_challenge: &perm_view,
        challenges: &[],
        is_first_row: vec![0, 0],
        is_last_row: vec![0, 0],
        is_transition: vec![1, 1],
        public_values: &[],
        exposed_values_after_challenge: &[],
    };
    let mut exprs = Vec::new();
    evaluator.eval_nodes_mut(&dag.nodes, &mut exprs);
    let value = |k: usize| &exprs[dag.constraint_idx[k]];
    assert!(value(0).is_challenge());
    assert!(!value(1).is_challenge());
    for k in 2..7 {
        assert!(value(k).is_challenge());
    }
    assert!(!value(7).is_challenge());
    assert_eq!(
        value(0).lanes(),
        vec![
            ExprValue::Challenge(ext(1, 2, 3, 4)),
            ExprValue::Challenge(ext(10, 20, 30, 40))
        ]
    );
    assert_eq!(
        value(2).lanes(),
        vec![
            ExprValue::Challenge(ext(5, 10, 15, 20)),
            ExprValue::Challenge(ext(60, 120, 180, 240))
        ]
    );
    // A value on the left of a challenge is lifted before the subtraction.
    assert_eq!(
        value(3).lanes(),
        vec![
            ExprValue::Challenge(ext(4, P - 2, P - 3, P - 4)),
            ExprValue::Challenge(ext(P - 4, P - 20, P - 30, P - 40))
        ]
    );
    assert_eq!(
        value(4).lanes(),
        vec![
            ExprValue::Challenge(ext(P - 4, 2, 3, 4)),
            ExprValue::Challenge(ext(4, 20, 30, 40))
        ]
    );
    assert_eq!(
        value(5).lanes(),
        vec![
            ExprValue::Challenge(ext(6, 2, 3, 4)),
            ExprValue::Challenge(ext(16, 20, 30, 40))
        ]
    );
    assert_eq!(
        value(6).lanes(),
        vec![
            ExprValue::Challenge(ext(P - 1, P - 2, P - 3, P - 4)),
            ExprValue::Challenge(ext(P - 10, P - 20, P - 30, P - 40))
        ]
    );
    assert_eq!(
        value(7).lanes(),
        vec![ExprValue::Val(26), ExprValue::Val(37)]
    );
}

#[test]
fn every_kind_of_variable_is_looked_up_where_it_lives() {
    let var = |entry, index| SymbolicVariable::new(entry, index);
    let preprocessed = ViewPair::new(vec![vec![1u32], vec![2]], Some(vec![vec![3], vec![4]]));
    let main = vec![
        ViewPair::new(vec![vec![5u32]], Some(vec![vec![6]])),
        ViewPair::new(vec![vec![7u32], vec![8]], Some(vec![vec![9], vec![10]])),
    ];
    let after = vec![ViewPair::new(
        vec![vec![ext(11, 0, 0, 0)]],
        Some(vec![vec![ext(12, 0, 0, 0)]]),
    )];
    let challenges = vec![vec![ext(13, 0, 0, 0), ext(14, 0, 0, 0)]];
    let exposed = vec![vec![ext(15, 0, 0, 0)]];
    let evaluator = ProverConstraintEvaluator {
        preprocessed: &preprocessed,
        partitioned_main: &main,
        after_challenge: &after,
        challenges: &challenges,
        is_first_row: vec![1],
        is_last_row: vec![0],
        is_transition: vec![1],
        public_values: &[16, 17],
        exposed_values_after_challenge: &exposed,
    };
    let val = |v| match evaluator.eval_var(v) {
        PackedExpr::Val(lanes) => lanes,
        other => panic!("expected a value, got {:?}", other),
    };
    let challenge = |v| match evaluator.eval_var(v) {
        PackedExpr::Challenge(lanes) => lanes,
        other => panic!("expected a challenge, got {:?}", other),
    };
    assert_eq!(val(var(Entry::Preprocessed { offset: 0 }, 1)), vec![2]);
    assert_eq!(val(var(Entry::Preprocessed { offset: 1 }, 0)), vec![3]);
    assert_eq!(
        val(var(
            Entry::Main {
                part_index: 0,
                offset: 1
            },
            0
        )),
        vec![6]
    );
    assert_eq!(
        val(var(
            Entry::Main {
                part_index: 1,
                offset: 0
            },
            1
        )),
        vec![8]
    );
    assert_eq!(val(var(Entry::Public, 1)), vec![17]);
    assert_eq!(
        challenge(var(Entry::Permutation { offset: 1 }, 0)),
        vec![ext(12, 0, 0, 0)]
    );
    assert_eq!(
        challenge(var(Entry::Challenge, 1)),
        vec![ext(14, 0, 0, 0)]
    );
    assert_eq!(challenge(var(Entry::Exposed, 0)), vec![ext(15, 0, 0, 0)]);
    match evaluator.eval_const(9) {
        PackedExpr::Val(lanes) => assert_eq!(lanes, vec![9]),
        other => panic!("expected a value, got {:?}", other),
    }
}

#[test]
fn constraints_are_folded_with_the_given_factors_in_order() {
    let constraints = vec![main_at(0, 0), permutation(0, 0), SymbolicExpression::Constant(2)];
    let dag = build_symbolic_expr_dag(&constraints);
    let main_view = vec![ViewPair::new(vec![vec![5u32]], None)];
    let perm_view = vec![ViewPair::new(vec![vec![ext(1, 2, 3, 4)]], None)];
    let preprocessed = ViewPair::new(vec![], None);
    let evaluator = ProverConstraintEvaluator {
        preprocessed: &preprocessed,
        partitioned_main: &main_view,
        after_challenge: &perm_view,
        challenges: &[],
        is_first_row: vec![0],
        is_last_row: vec![0],
        is_transition: vec![0],
        public_values: &[],
        exposed_values_after_challenge: &[],
    };
    let x = ext(0, 1, 0, 0);
    let alpha_powers = x.powers_highest_first(3);
    let mut exprs = Vec::new();
    // X^2 * 5 + X * (1 + 2X + 3X^2 + 4X^3) + 2 = (44 + 2) + X + (5 + 2) X^2 + 3 X^3
    assert_eq!(
        evaluator.accumulate(&dag, &alpha_powers, &mut exprs),
        vec![ext(46, 1, 7, 3)]
    );
    // More factors than constraints: the first ones are used.
    let longer = x.powers_highest_first(4);
    // X^3 * 5 + X^2 * (1 + 2X + 3X^2 + 4X^3) + X * 2 = 33 + 46 X + X^2 + 7 X^3
    assert_eq!(
        evaluator.accumulate(&dag, &longer, &mut exprs),
        vec![ext(33, 46, 1, 7)]
    );
}

#[test]
fn verifier_folds_by_multiplying_and_adding() {
    let constraints = vec![
        main_at(0, 0) * main_at(1, 0) - public(0),
        permutation(0, 0) + SymbolicExpression::Constant(1),
        SymbolicExpression::IsFirstRow - SymbolicExpression::IsTransition,
    ];
    let mut folder = GenericVerifierConstraintFolder {
        preprocessed: ViewPair::new(vec![], None),
        partitioned_main: vec![ViewPair::new(
            vec![ext(2, 0, 0, 0)],
            Some(vec![ext(0, 3, 0, 0)]),
        )],
        after_challenge: vec![ViewPair::new(vec![ext(1, 1, 1, 1)], None)],
        challenges: &[],
        is_first_row: ext(7, 0, 0, 0),
        is_last_row: ext(0, 0, 0, 0),
        is_transition: ext(0, 0, 1, 0),
        alpha: ext(0, 1, 0, 0),
        accumulator: ext(1, 0, 0, 0),
        public_values: &[4],
        exposed_values_after_challenge: &[],
    };
    folder.eval_constraints(&constraints);
    // The values are -4 + 6X, 2 + X + X^2 + X^3 and 7 - X^2.
    // ((1 * X + (-4 + 6X)) * X + (2 + X + X^2 + X^3)) * X + (7 - X^2)
    //   = ((-4 + 7X) * X + 2 + X + X^2 + X^3) * X + 7 - X^2
    //   = (2 - 3X + 8X^2 + X^3) * X + 7 - X^2
    //   = 11 + 7 + 2X - 3X^2 - X^2 + 8X^3
    assert_eq!(folder.accumulator, ext(18, 2, P - 4, 8));
    assert_eq!(folder.alpha, ext(0, 1, 0, 0));
    folder.assert_zero(ext(1, 0, 0, 0));
    // (18 + 2X - 4X^2 + 8X^3) * X + 1 = 88 + 1 + 18X + 2X^2 - 4X^3
    assert_eq!(folder.accumulator, ext(89, 18, 2, P - 4));
}

#[test]
fn prover_and_verifier_fold_to_the_same_value() {
    let constraints = vec![
        main_at(0, 0) * main_at(0, 0) - SymbolicExpression::Constant(9),
        permutation(0, 0) * main_at(0, 0),
        SymbolicExpression::IsFirstRow * permutation(0, 0),
    ];
    let dag = build_symbolic_expr_dag(&constraints);
    let alpha = ext(12345, 678, 9, 1_000_000_007);
    let perm = ext(5, 4, 3, 2);

    let main_view = vec![ViewPair::new(vec![vec![77u32]], None)];
    let perm_view = vec![ViewPair::new(vec![vec![perm]], None)];
    let preprocessed = ViewPair::new(vec![], None);
    let evaluator = ProverConstraintEvaluator {
        preprocessed: &preprocessed,
        partitioned_main: &main_view,
        after_challenge: &perm_view,
        challenges: &[],
        is_first_row: vec![6],
        is_last_row: vec![0],
        is_transition: vec![0],
        public_values: &[],
        exposed_values_after_challenge: &[],
    };
    let mut exprs = Vec::new();
    let folded = evaluator.accumulate(&dag, &alpha.powers_highest_first(3), &mut exprs);

    let mut folder = GenericVerifierConstraintFolder {
        preprocessed: ViewPair::new(vec![], None),
        partitioned_main: vec![ViewPair::new(vec![ext(77, 0, 0, 0)], None)],
        after_challenge: vec![ViewPair::new(vec![perm], None)],
        challenges: &[],
        is_first_row: ext(6, 0, 0, 0),
        is_last_row: ExtElem::zero(),
        is_transition: ExtElem::zero(),
        alpha,
        accumulator: ExtElem::zero(),
        public_values: &[],
        exposed_values_after_challenge: &[],
    };
    folder.eval_constraints(&constraints);
    assert_eq!(vec![folder.accumulator], folded);
}
