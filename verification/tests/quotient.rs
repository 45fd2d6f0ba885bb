use p3_baby_bear::BabyBear;
use p3_dft::{Radix2Dit, TwoAdicSubgroupDft};
use p3_field::{
    BasedVectorSpace, Field, PrimeCharacteristicRing, PrimeField32, TwoAdicField,
};

use stark_backend::domain::{Domain, GENERATOR};
use stark_backend::field::extension::ExtElem;
use stark_backend::matrix::BaseMatrix;
use stark_backend::prover::quotient::committer::QuotientCommitter;
use stark_backend::prover::quotient::context::{QuotientContext, QuotientError};
use stark_backend::prover::quotient::single::{
    check_quotient_inputs, compute_single_rap_quotient_values, plan_quotient, QuotientChunk,
    QuotientPlan,
};
use stark_backend::prover::types::{PairView, RapSinglePhaseView, RapView};
use stark_backend::symbolic::dag::{
    build_symbolic_expr_dag, SymbolicExpressionDag, SymbolicExpressionNode,
};
use stark_backend::symbolic::expression::SymbolicExpression;
use stark_backend::symbolic::variable::{Entry, SymbolicVariable};

const P: u32 = 0x78000001;

fn ext(c0: u32, c1: u32, c2: u32, c3: u32) -> ExtElem {
    ExtElem { c0, c1, c2, c3 }
}

fn main_at(offset: usize, index: usize) -> SymbolicExpression {
    SymbolicExpression::Variable(SymbolicVariable::new(
        Entry::Main {
            part_index: 0,
            offset,
        },
        index,
    ))
}

fn public(index: usize) -> SymbolicExpression {
    SymbolicExpression::Variable(SymbolicVariable::new(Entry::Public, index))
}

fn fibonacci_constraints() -> Vec<SymbolicExpression> {
    let (a, b, c) = (main_at(0, 0), main_at(0, 1), main_at(0, 2));
    let (a_next, b_next, c_next) = (main_at(1, 0), main_at(1, 1), main_at(1, 2));
    vec![
        SymbolicExpression::IsFirstRow * (a.clone() - public(0)),
        SymbolicExpression::IsFirstRow * (b.clone() - public(1)),
        SymbolicExpression::IsLastRow * (c.clone() - public(2)),
        SymbolicExpression::IsTransition * (b.clone() - a_next),
        SymbolicExpression::IsTransition * (c.clone() - b_next),
        SymbolicExpression::IsTransition * (b + c - c_next),
    ]
}

fn fibonacci_trace(n: usize) -> Vec<Vec<u32>> {
    let mut rows = vec![vec![0u32, 1, 1]];
    for i in 1..n {
        let (b, c) = (rows[i - 1][1], rows[i - 1][2]);
        rows.push(vec![b, c, (b + c) % P]);
    }
    rows
}

/// The columns of a trace extended to the coset of `2^added_bits` times
/// as many points, shifted by the generator.
fn extend(rows: &[Vec<u32>], added_bits: usize) -> BaseMatrix {
    let width = rows[0].len();
    let dft = Radix2Dit::<BabyBear>::default();
    let columns: Vec<Vec<u32>> = (0..width)
        .map(|col| {
            let column: Vec<BabyBear> = rows.iter().map(|row| BabyBear::new(row[col])).collect();
            dft.coset_lde(column, added_bits, BabyBear::new(GENERATOR))
                .iter()
                .map(|x| x.as_canonical_u32())
                .collect()
        })
        .collect();
    let height = rows.len() << added_bits;
    let mut values = Vec::with_capacity(height * width);
    for r in 0..height {
        for column in &columns {
            values.push(column[r]);
        }
    }
    BaseMatrix::new(values, width)
}

/// The quotient at the points of the quotient domain in their order,
/// from the chunks, which interleave.
fn interleave(chunks: &[QuotientChunk]) -> Vec<ExtElem> {
    let quotient_degree = chunks.len();
    let height = chunks[0].matrix.height();
    let mut flat = vec![ExtElem::zero(); quotient_degree * height];
    for (c, chunk) in chunks.iter().enumerate() {
        assert_eq!(chunk.matrix.width(), 4);
        assert_eq!(chunk.matrix.height(), height);
        for r in 0..height {
            let coeff = |i| chunk.matrix.get(r, i).unwrap();
            flat[c + quotient_degree * r] = ext(coeff(0), coeff(1), coeff(2), coeff(3));
        }
    }
    flat
}

/// The coefficients of the four base field polynomials that make up the
/// quotient, from its values on the quotient domain.
fn interpolate(flat: &[ExtElem]) -> Vec<Vec<u32>> {
    let dft = Radix2Dit::<BabyBear>::default();
    (0..4)
        .map(|i| {
            let evals: Vec<BabyBear> = flat.iter().map(|q| BabyBear::new(q.coeff(i))).collect();
            dft.coset_idft(evals, BabyBear::new(GENERATOR))
                .iter()
                .map(|x| x.as_canonical_u32())
                .collect()
        })
        .collect()
}

fn fibonacci_quotient(
    rows: &[Vec<u32>],
    log_quotient_degree: usize,
    simd_width: usize,
    num_threads: usize,
) -> Vec<QuotientChunk> {
    let n = rows.len();
    let log_n = n.trailing_zeros() as usize;
    let dag = build_symbolic_expr_dag(&fibonacci_constraints());
    let main = vec![extend(rows, log_quotient_degree)];
    let alpha_powers = ext(3, 1, 4, 1).powers_highest_first(dag.constraint_idx.len());
    let public_values = vec![0, 1, rows[n - 1][2]];
    compute_single_rap_quotient_values(
        &dag,
        Domain {
            log_size: log_n,
            shift: 1,
        },
        Domain {
            log_size: log_n + log_quotient_degree,
            shift: GENERATOR,
        },
        None,
        &main,
        &[],
        &[],
        &alpha_powers,
        &public_values,
        &[],
        0,
        simd_width,
        num_threads,
    )
}

fn values_of(chunks: &[QuotientChunk]) -> Vec<Vec<Option<u32>>> {
    chunks
        .iter()
        .map(|chunk| {
            let mut values = Vec::new();
            for r in 0..chunk.matrix.height() {
                for c in 0..chunk.matrix.width() {
                    values.push(chunk.matrix.get(r, c));
                }
            }
            values
        })
        .collect()
}

#[test]
fn quotient_of_a_valid_fibonacci_trace_is_a_polynomial() {
    let n = 8;
    let chunks = fibonacci_quotient(&fibonacci_trace(n), 1, 4, 1);
    assert_eq!(chunks.len(), 2);
    let flat = interleave(&chunks);
    assert_eq!(flat.len(), 16);
    let coefficients = interpolate(&flat);
    for polynomial in &coefficients {
        assert_eq!(polynomial.len(), 16);
        assert!(polynomial[n..].iter().all(|&c| c == 0));
    }
    assert!(coefficients
        .iter()
        .any(|polynomial| polynomial.iter().any(|&c| c != 0)));
}

#[test]
fn quotient_of_a_broken_fibonacci_trace_is_no_polynomial_of_that_degree() {
    let n = 8;
    let mut rows = fibonacci_trace(n);
    rows[5][0] += 1;
    let chunks = fibonacci_quotient(&rows, 1, 4, 1);
    let coefficients = interpolate(&interleave(&chunks));
    assert!(coefficients
        .iter()
        .any(|polynomial| polynomial[n..].iter().any(|&c| c != 0)));
}

#[test]
fn quotient_times_zeroifier_is_the_folded_constraints() {
    // On the quotient domain the zeroifier of the trace domain is
    // `x^n - 1`; the quotient times it is the folded constraints, which
    // are computed here once more from the extended trace.
    let n = 8usize;
    let rows = fibonacci_trace(n);
    let chunks = fibonacci_quotient(&rows, 1, 1, 1);
    let flat = interleave(&chunks);
    let lde = extend(&rows, 1);
    let trace_domain = Domain::natural(3);
    let quotient_domain = trace_domain.create_disjoint_domain(4);
    assert_eq!(
        quotient_domain,
        Domain {
            log_size: 4,
            shift: GENERATOR
        }
    );
    let selectors = trace_domain.selectors_on_coset(quotient_domain);
    let g = BabyBear::two_adic_generator(4);
    let alpha_powers = ext(3, 1, 4, 1).powers_highest_first(6);
    let last = rows[n - 1][2];
    type EF = p3_field::extension::BinomialExtensionField<BabyBear, 4>;
    let to_ef = |e: ExtElem| EF::new(BabyBear::new_array([e.c0, e.c1, e.c2, e.c3]));
    for i in 0..16usize {
        let x = BabyBear::new(GENERATOR) * g.exp_u64(i as u64);
        let zeroifier = x.exp_u64(n as u64) - BabyBear::ONE;
        assert_eq!(
            zeroifier * BabyBear::new(selectors.inv_zeroifier[i]),
            BabyBear::ONE
        );
        let cell = |row: usize, col: usize| BabyBear::new(lde.get(row % 16, col).unwrap());
        let (a, b, c) = (cell(i, 0), cell(i, 1), cell(i, 2));
        let (a_next, b_next, c_next) = (cell(i + 2, 0), cell(i + 2, 1), cell(i + 2, 2));
        let first = BabyBear::new(selectors.is_first_row[i]);
        let last_row = BabyBear::new(selectors.is_last_row[i]);
        let transition = BabyBear::new(selectors.is_transition[i]);
        let constraints = [
            first * (a - BabyBear::ZERO),
            first * (b - BabyBear::ONE),
            last_row * (c - BabyBear::new(last)),
            transition * (b - a_next),
            transition * (c - b_next),
            transition * (b + c - c_next),
        ];
        let mut folded = EF::ZERO;
        for (k, constraint) in constraints.iter().enumerate() {
            folded += to_ef(alpha_powers[k]) * *constraint;
        }
        assert_eq!(to_ef(flat[i]) * zeroifier, folded);
    }
}

#[test]
fn selectors_single_out_the_first_and_the_last_row() {
    let n = 8u64;
    let trace_domain = Domain::natural(3);
    let quotient_domain = trace_domain.create_disjoint_domain(5);
    assert_eq!(quotient_domain.size(), 32);
    let selectors = trace_domain.selectors_on_coset(quotient_domain);
    let g = BabyBear::two_adic_generator(5);
    let h = BabyBear::two_adic_generator(3);
    for i in 0..32usize {
        let x = BabyBear::new(GENERATOR) * g.exp_u64(i as u64);
        let zeroifier = x.exp_u64(n) - BabyBear::ONE;
        assert_eq!(
            BabyBear::new(selectors.is_first_row[i]) * (x - BabyBear::ONE),
            zeroifier
        );
        assert_eq!(
            BabyBear::new(selectors.is_last_row[i]) * (x - h.inverse()),
            zeroifier
        );
        assert_eq!(BabyBear::new(selectors.is_transition[i]), x - h.inverse());
        assert_eq!(
            BabyBear::new(selectors.inv_zeroifier[i]) * zeroifier,
            BabyBear::ONE
        );
    }
}

#[test]
fn chunks_come_with_the_cosets_of_the_trace_domain() {
    let chunks = fibonacci_quotient(&fibonacci_trace(8), 2, 2, 2);
    assert_eq!(chunks.len(), 4);
    let g = BabyBear::two_adic_generator(5);
    for (c, chunk) in chunks.iter().enumerate() {
        assert_eq!(chunk.domain.log_size, 3);
        assert_eq!(
            chunk.domain.shift,
            (BabyBear::new(GENERATOR) * g.exp_u64(c as u64)).as_canonical_u32()
        );
        assert_eq!(chunk.matrix.height(), 8);
    }
    let quotient_domain = Domain {
        log_size: 5,
        shift: GENERATOR,
    };
    let domains: Vec<Domain> = chunks.iter().map(|chunk| chunk.domain).collect();
    assert_eq!(quotient_domain.split_domains(2), domains);
    assert_eq!(quotient_domain.split_domains(0), vec![quotient_domain]);
    let coefficients = interpolate(&interleave(&chunks));
    for polynomial in &coefficients {
        assert!(polynomial[8..].iter().all(|&c| c == 0));
    }
}

#[test]
fn lane_count_has_no_bearing_on_the_quotient() {
    let rows = fibonacci_trace(16);
    let scalar = values_of(&fibonacci_quotient(&rows, 1, 1, 1));
    for simd_width in [2, 3, 4, 8, 16, 32, 64] {
        let packed = values_of(&fibonacci_quotient(&rows, 1, simd_width, 1));
        assert_eq!(packed, scalar);
    }
}

#[test]
fn worker_count_has_no_bearing_on_the_quotient() {
    let rows = fibonacci_trace(32);
    let single = values_of(&fibonacci_quotient(&rows, 1, 4, 1));
    for num_threads in [2, 3, 5, 8, 12, 64] {
        let many = values_of(&fibonacci_quotient(&rows, 1, 4, num_threads));
        assert_eq!(many, single);
    }
}

#[test]
fn trace_shorter_than_a_batch_is_evaluated_all_the_same() {
    let rows = fibonacci_trace(2);
    let scalar = values_of(&fibonacci_quotient(&rows, 1, 1, 1));
    let packed = values_of(&fibonacci_quotient(&rows, 1, 8, 4));
    assert_eq!(packed, scalar);
    assert_eq!(scalar.len(), 2);
    assert_eq!(scalar[0].len(), 2 * 4);
}

#[test]
fn quotient_degree_one_needs_a_coset_of_the_size_of_the_trace() {
    // Without the constraints on single rows the quotient has a degree
    // below zero: the transition constraints have the degree of the
    // zeroifier.
    let n = 8;
    let rows = fibonacci_trace(n);
    let (b, c) = (main_at(0, 1), main_at(0, 2));
    let constraints = vec![
        SymbolicExpression::IsTransition * (b.clone() - main_at(1, 0)),
        SymbolicExpression::IsTransition * (c.clone() - main_at(1, 1)),
        SymbolicExpression::IsTransition * (b + c - main_at(1, 2)),
    ];
    let dag = build_symbolic_expr_dag(&constraints);
    let main = vec![extend(&rows, 0)];
    let alpha_powers = ext(2, 7, 1, 8).powers_highest_first(3);
    let chunks = compute_single_rap_quotient_values(
        &dag,
        Domain::natural(3),
        Domain::natural(3).create_disjoint_domain(3),
        None,
        &main,
        &[],
        &[],
        &alpha_powers,
        &[],
        &[],
        0,
        4,
        2,
    );
    assert_eq!(chunks.len(), 1);
    let flat = interleave(&chunks);
    assert_eq!(flat.len(), n);
    let coefficients = interpolate(&flat);
    for polynomial in &coefficients {
        assert!(polynomial[1..].iter().all(|&c| c == 0));
    }
}

fn single_node_dag(node: SymbolicExpressionNode) -> SymbolicExpressionDag {
    SymbolicExpressionDag {
        nodes: vec![node],
        constraint_idx: vec![0],
    }
}

fn quotient_error(
    dag: &SymbolicExpressionDag,
    main: &[BaseMatrix],
    after_challenge: &[BaseMatrix],
    challenges: &[Vec<ExtElem>],
    alpha_powers: &[ExtElem],
    public_values: &[u32],
    exposed: &[Vec<ExtElem>],
) -> Option<QuotientError> {
    check_quotient_inputs(
        dag,
        Domain::natural(2),
        Domain::natural(2).create_disjoint_domain(3),
        None,
        main,
        after_challenge,
        challenges,
        alpha_powers,
        public_values,
        exposed,
    )
}

fn variable(entry: Entry, index: usize) -> SymbolicExpressionDag {
    single_node_dag(SymbolicExpressionNode::Variable(SymbolicVariable::new(
        entry, index,
    )))
}

#[test]
fn references_to_what_is_not_there_are_structural_errors() {
    let main = vec![BaseMatrix::new(vec![0; 16], 2)];
    let one = vec![ExtElem::one()];
    let main_var = |offset, index| {
        variable(
            Entry::Main {
                part_index: 0,
                offset,
            },
            index,
        )
    };
    assert_eq!(
        quotient_error(&main_var(0, 1), &main, &[], &[], &one, &[], &[]),
        None
    );
    assert_eq!(
        quotient_error(&main_var(1, 1), &main, &[], &[], &one, &[], &[]),
        None
    );
    // column past the width
    assert_eq!(
        quotient_error(&main_var(0, 2), &main, &[], &[], &one, &[], &[]),
        Some(QuotientError::Structure)
    );
    // row offset above one
    assert_eq!(
        quotient_error(&main_var(2, 0), &main, &[], &[], &one, &[], &[]),
        Some(QuotientError::Structure)
    );
    // partition that does not exist
    let other_part = variable(
        Entry::Main {
            part_index: 1,
            offset: 0,
        },
        0,
    );
    assert_eq!(
        quotient_error(&other_part, &main, &[], &[], &one, &[], &[]),
        Some(QuotientError::Structure)
    );
    // no preprocessed trace
    assert_eq!(
        quotient_error(
            &variable(Entry::Preprocessed { offset: 0 }, 0),
            &main,
            &[],
            &[],
            &one,
            &[],
            &[]
        ),
        Some(QuotientError::Structure)
    );
    // public value past the end
    assert_eq!(
        quotient_error(&variable(Entry::Public, 1), &main, &[], &[], &one, &[7], &[]),
        Some(QuotientError::Structure)
    );
    assert_eq!(
        quotient_error(&variable(Entry::Public, 0), &main, &[], &[], &one, &[7], &[]),
        None
    );
    // challenge and exposed value past the end
    let phase = vec![vec![ExtElem::one()]];
    assert_eq!(
        quotient_error(
            &variable(Entry::Challenge, 1),
            &main,
            &[],
            &phase,
            &one,
            &[],
            &[]
        ),
        Some(QuotientError::Structure)
    );
    assert_eq!(
        quotient_error(
            &variable(Entry::Exposed, 1),
            &main,
            &[],
            &[],
            &one,
            &[],
            &phase
        ),
        Some(QuotientError::Structure)
    );
    // after-challenge column past the width: four base columns are one
    let after = vec![BaseMatrix::new(vec![0; 8 * 7], 7)];
    assert_eq!(
        quotient_error(
            &variable(Entry::Permutation { offset: 0 }, 1),
            &main,
            &after,
            &[],
            &one,
            &[],
            &[]
        ),
        Some(QuotientError::Structure)
    );
    assert_eq!(
        quotient_error(
            &variable(Entry::Permutation { offset: 0 }, 0),
            &main,
            &after,
            &[],
            &one,
            &[],
            &[]
        ),
        None
    );
    // a DAG that is out of order
    let corrupt = SymbolicExpressionDag {
        nodes: vec![SymbolicExpressionNode::Neg {
            idx: 0,
            degree_multiple: 0,
        }],
        constraint_idx: vec![0],
    };
    assert_eq!(
        quotient_error(&corrupt, &main, &[], &[], &one, &[], &[]),
        Some(QuotientError::Structure)
    );
}

#[test]
fn domains_that_do_not_fit_are_structural_errors() {
    let dag = single_node_dag(SymbolicExpressionNode::IsFirstRow);
    let one = vec![ExtElem::one()];
    let attempt = |trace_domain, quotient_domain| {
        check_quotient_inputs(
            &dag,
            trace_domain,
            quotient_domain,
            None,
            &[],
            &[],
            &[],
            &one,
            &[],
            &[],
        )
    };
    let domain = |log_size, shift| Domain { log_size, shift };
    assert_eq!(attempt(domain(2, 1), domain(3, GENERATOR)), None);
    assert_eq!(
        attempt(domain(2, 1), domain(3, 1)),
        Some(QuotientError::Structure)
    );
    assert_eq!(
        attempt(domain(2, 5), domain(3, GENERATOR)),
        Some(QuotientError::Structure)
    );
    assert_eq!(
        attempt(domain(4, 1), domain(3, GENERATOR)),
        Some(QuotientError::Structure)
    );
    assert_eq!(
        attempt(domain(2, 1), domain(28, GENERATOR)),
        Some(QuotientError::Structure)
    );
}

#[test]
fn matrices_and_factors_that_fall_short_are_capacity_errors() {
    let dag = variable(
        Entry::Main {
            part_index: 0,
            offset: 0,
        },
        0,
    );
    let one = vec![ExtElem::one()];
    // seven rows for a quotient domain of eight points
    let short = vec![BaseMatrix::new(vec![0; 7], 1)];
    assert_eq!(
        quotient_error(&dag, &short, &[], &[], &one, &[], &[]),
        Some(QuotientError::Capacity)
    );
    let enough = vec![BaseMatrix::new(vec![0; 8], 1)];
    assert_eq!(quotient_error(&dag, &enough, &[], &[], &one, &[], &[]), None);
    let more = vec![BaseMatrix::new(vec![0; 16], 1)];
    assert_eq!(quotient_error(&dag, &more, &[], &[], &one, &[], &[]), None);
    // no factor for the one constraint
    assert_eq!(
        quotient_error(&dag, &enough, &[], &[], &[], &[], &[]),
        Some(QuotientError::Capacity)
    );
    // a short after-challenge matrix
    let short_after = vec![BaseMatrix::new(vec![0; 4 * 4], 4)];
    assert_eq!(
        quotient_error(&dag, &enough, &short_after, &[], &one, &[], &[]),
        Some(QuotientError::Capacity)
    );
}

#[test]
fn challenge_phase_that_is_missing_is_an_absence_error() {
    let main = vec![BaseMatrix::new(vec![0; 8], 1)];
    let one = vec![ExtElem::one()];
    for entry in [
        Entry::Permutation { offset: 0 },
        Entry::Challenge,
        Entry::Exposed,
    ] {
        assert_eq!(
            quotient_error(&variable(entry, 0), &main, &[], &[], &one, &[], &[]),
            Some(QuotientError::Absence)
        );
    }
}

#[test]
fn first_problem_in_the_order_of_the_nodes_decides() {
    let main = vec![BaseMatrix::new(vec![0; 8], 1)];
    let two = vec![ExtElem::one(), ExtElem::one()];
    let absent = SymbolicExpressionNode::Variable(SymbolicVariable::new(Entry::Challenge, 0));
    let out_of_range = SymbolicExpressionNode::Variable(SymbolicVariable::new(Entry::Public, 0));
    let dag = |nodes: Vec<SymbolicExpressionNode>| SymbolicExpressionDag {
        nodes,
        constraint_idx: vec![0, 1],
    };
    assert_eq!(
        quotient_error(&dag(vec![absent, out_of_range]), &main, &[], &[], &two, &[], &[]),
        Some(QuotientError::Absence)
    );
    assert_eq!(
        quotient_error(&dag(vec![out_of_range, absent]), &main, &[], &[], &two, &[], &[]),
        Some(QuotientError::Structure)
    );
}

fn fibonacci_view(log_height: u8, added_bits: usize) -> RapView {
    let rows = fibonacci_trace(1 << log_height);
    let last = rows[rows.len() - 1][2];
    RapView {
        pair: PairView {
            log_trace_height: log_height,
            preprocessed: None,
            partitioned_main: vec![extend(&rows, added_bits)],
            public_values: vec![0, 1, last],
        },
        per_phase: vec![],
    }
}

#[test]
fn quotients_of_several_airs_are_committed_in_the_order_of_the_airs() {
    let dag = build_symbolic_expr_dag(&fibonacci_constraints());
    let committer = QuotientCommitter::new(ext(9, 8, 7, 6), 8, 4);
    let data = committer
        .quotient_values(
            &[&dag, &dag],
            vec![fibonacci_view(10, 1), fibonacci_view(14, 1)],
            &[2, 2],
        );
    assert_eq!(data.inner.len(), 2);
    assert_eq!(data.inner[0].quotient_degree, 2);
    assert_eq!(
        data.inner[1].quotient_domain,
        Domain {
            log_size: 15,
            shift: GENERATOR
        }
    );
    let (log_trace_heights, chunks) = committer.commit(data);
    assert_eq!(log_trace_heights, vec![10, 10, 14, 14]);
    assert_eq!(chunks.len(), 4);
    let heights: Vec<usize> = chunks.iter().map(|chunk| chunk.matrix.height()).collect();
    assert_eq!(heights, vec![1 << 10, 1 << 10, 1 << 14, 1 << 14]);
    let coefficients = interpolate(&interleave(&chunks[2..]));
    for polynomial in &coefficients {
        assert!(polynomial[1 << 14..].iter().all(|&c| c == 0));
    }
}

#[test]
fn quotient_domain_is_rounded_up_to_a_power_of_two() {
    let dag = build_symbolic_expr_dag(&fibonacci_constraints());
    let committer = QuotientCommitter::new(ext(1, 2, 3, 4), 2, 1);
    let data = committer.single_rap_quotient_values(&dag, fibonacci_view(3, 2), 3);
    assert_eq!(data.quotient_degree, 3);
    assert_eq!(data.quotient_domain.log_size, 5);
    assert_eq!(data.split().len(), 4);
}

#[test]
fn committer_reports_what_it_cannot_do() {
    let dag = build_symbolic_expr_dag(&fibonacci_constraints());
    let committer = QuotientCommitter::new(ext(1, 2, 3, 4), 2, 1);
    assert_eq!(
        committer
            .single_rap_inputs(&dag, fibonacci_view(3, 1), 0)
            .err(),
        Some(QuotientError::Structure)
    );
    let mut too_tall = fibonacci_view(3, 1);
    too_tall.pair.log_trace_height = 27;
    assert_eq!(
        committer.single_rap_inputs(&dag, too_tall, 2).err(),
        Some(QuotientError::Structure)
    );
    let mut gap = fibonacci_view(3, 1);
    gap.per_phase.push(RapSinglePhaseView {
        inner: None,
        challenges: vec![],
        exposed_values: vec![],
    });
    assert_eq!(
        committer.single_rap_inputs(&dag, gap, 2).err(),
        Some(QuotientError::Absence)
    );
    // too short a matrix
    assert_eq!(
        committer
            .single_rap_inputs(&dag, fibonacci_view(3, 0), 2)
            .err(),
        Some(QuotientError::Capacity)
    );
    assert!(committer
        .single_rap_inputs(&dag, fibonacci_view(3, 1), 2)
        .is_ok());
}

#[test]
fn after_challenge_trace_enters_the_quotient() {
    // One after-challenge column `p` with `p' = p * c` on every row but
    // the last, for a challenge `c`; the column starts at the exposed
    // value.
    let n = 8usize;
    type EF = p3_field::extension::BinomialExtensionField<BabyBear, 4>;
    let to_ef = |e: ExtElem| EF::new(BabyBear::new_array([e.c0, e.c1, e.c2, e.c3]));
    let challenge = ext(3, 5, 7, 9);
    let start = ext(2, 0, 1, 0);
    let mut column = vec![to_ef(start)];
    for r in 1..n {
        let next = column[r - 1] * to_ef(challenge);
        column.push(next);
    }
    let rows: Vec<Vec<u32>> = column
        .iter()
        .map(|e| {
            e.as_basis_coefficients_slice()
                .iter()
                .map(|x: &BabyBear| x.as_canonical_u32())
                .collect()
        })
        .collect();
    let perm = |offset| {
        SymbolicExpression::Variable(SymbolicVariable::new(Entry::Permutation { offset }, 0))
    };
    let constraints = vec![
        SymbolicExpression::IsTransition
            * (perm(1)
                - perm(0) * SymbolicExpression::Variable(SymbolicVariable::new(Entry::Challenge, 0))),
        SymbolicExpression::IsFirstRow
            * (perm(0) - SymbolicExpression::Variable(SymbolicVariable::new(Entry::Exposed, 0))),
    ];
    let dag = build_symbolic_expr_dag(&constraints);
    let view = |exposed: ExtElem| RapView {
        pair: PairView {
            log_trace_height: 3,
            preprocessed: None,
            partitioned_main: vec![],
            public_values: vec![],
        },
        per_phase: vec![RapSinglePhaseView {
            inner: Some(extend(&rows, 1)),
            challenges: vec![challenge],
            exposed_values: vec![exposed],
        }],
    };
    let committer = QuotientCommitter::new(ext(4, 3, 2, 1), 4, 2);
    let good = committer.single_rap_quotient_values(&dag, view(start), 2);
    for polynomial in &interpolate(&interleave(&good.chunks)) {
        assert!(polynomial[n..].iter().all(|&c| c == 0));
    }
    let bad = committer.single_rap_quotient_values(&dag, view(ext(2, 0, 1, 1)), 2);
    assert!(interpolate(&interleave(&bad.chunks))
        .iter()
        .any(|polynomial| polynomial[n..].iter().any(|&c| c != 0)));
}

#[test]
fn plan_fits_the_two_domains() {
    let plan = plan_quotient(Domain::natural(3), Domain::natural(3).create_disjoint_domain(5))
        .ok()
        .unwrap();
    assert_eq!((plan.trace_height, plan.quotient_degree), (8, 4));
    assert_eq!(plan.selectors.is_first_row.len(), 32);
    assert_eq!(plan.selectors.inv_zeroifier.len(), 32);
    assert_eq!(plan.chunk_domains.len(), 4);
    assert_eq!(plan.chunk_domains[0].shift, GENERATOR);
    assert!(plan.chunk_domains.iter().all(|d| d.log_size == 3));
    assert_eq!(
        plan_quotient(Domain::natural(3), Domain::natural(5)).err(),
        Some(QuotientError::Structure)
    );
}

#[test]
fn checked_inputs_are_what_the_quotient_is_computed_from() {
    let dag = build_symbolic_expr_dag(&fibonacci_constraints());
    let alpha = ext(5, 6, 7, 8);
    let committer = QuotientCommitter::new(alpha, 4, 2);
    let inputs = committer
        .single_rap_inputs(&dag, fibonacci_view(3, 2), 3)
        .ok()
        .unwrap();
    assert_eq!(inputs.trace_domain, Domain::natural(3));
    assert_eq!(
        inputs.quotient_domain,
        Domain {
            log_size: 5,
            shift: GENERATOR
        }
    );
    assert!(inputs.preprocessed.is_none());
    assert_eq!(inputs.partitioned_main.len(), 1);
    assert!(inputs.after_challenge.is_empty() && inputs.challenges.is_empty());
    assert_eq!(inputs.alpha_powers, alpha.powers_highest_first(6));
    assert_eq!(inputs.public_values.len(), 3);
    assert_eq!(inputs.check(&dag), None);
    // an extension by one bit is too short for a quotient degree of three
    assert_eq!(
        committer
            .single_rap_inputs(&dag, fibonacci_view(3, 1), 3)
            .err(),
        Some(QuotientError::Capacity)
    );
    assert_eq!(
        committer
            .single_rap_inputs(&dag, fibonacci_view(3, 1), 0)
            .err(),
        Some(QuotientError::Structure)
    );
}

#[test]
fn scan_tells_whether_a_next_row_is_read() {
    let plan = QuotientPlan::new(Domain::natural(2), Domain::natural(2).create_disjoint_domain(3));
    let main = vec![BaseMatrix::new(vec![0; 8], 1)];
    let one = vec![ExtElem::one()];
    let reads = |dag: &SymbolicExpressionDag| {
        let ctx = QuotientContext {
            constraints: dag,
            preprocessed: None,
            partitioned_main: &main,
            after_challenge: &[],
            challenges: &[],
            alpha_powers: &one,
            public_values: &[],
            exposed_values_after_challenge: &[],
            selectors: &plan.selectors,
            trace_height: plan.trace_height,
            quotient_degree: plan.quotient_degree,
        };
        assert_eq!(ctx.validate().ok(), Some(ctx.needs_next()));
        ctx.needs_next()
    };
    let local = variable(
        Entry::Main {
            part_index: 0,
            offset: 0,
        },
        0,
    );
    let next = variable(
        Entry::Main {
            part_index: 0,
            offset: 1,
        },
        0,
    );
    assert!(!reads(&local));
    assert!(reads(&next));
    assert!(!reads(&single_node_dag(SymbolicExpressionNode::IsTransition)));
}
