use vstd::prelude::*;

use vstd::arithmetic::power2::{lemma_pow2_adds, pow2};

use crate::domain::{
    coset_selectors, pow2_usize, split_shifts, Domain, Selectors, GENERATOR, TWO_ADICITY,
};
use crate::field::base::ORDER;
use crate::field::extension::ExtElem;
use crate::matrix::{matrix_values, matrix_width, spec_height, BaseMatrix};
use crate::symbolic::dag::SymbolicExpressionDag;
use crate::utils::{is_balanced_cut, parallelize_chunks};
use crate::prover::evaluator::{view_has_width, ProverConstraintEvaluator, ViewPair};
use crate::prover::packed::{ext_base_lanes, Operation, PackedExpr};
use crate::prover::quotient::context::{
    lemma_rotation_bounds, node_offset, QuotientContext, QuotientError, QuotientView,
};
use crate::prover::quotient::packing::{
    gather, is_ext_packing_of, is_packing_of, pack_ext_view, pack_view, rows_below,
};
use crate::symbolic::dag::SymbolicExpressionNode;
use crate::symbolic::evaluation::{
    constraint_value, lemma_folded_congruent, lemma_node_value_congruent, rows_agree_up_to,
};
use crate::symbolic::variable::{Entry, SymbolicVariable};

verus! {

/// Whether a view holds a matrix at the rows of one batch.
pub open spec fn view_packs(
    pair: ViewPair<Vec<u32>>,
    m: BaseMatrix,
    needs_next: bool,
    rows_local: Seq<usize>,
    rows_next: Seq<usize>,
) -> bool {
    &&& is_packing_of(pair.local@, m, rows_local)
    &&& needs_next ==> pair.next is Some && is_packing_of(pair.next->0@, m, rows_next)
}

/// Whether a view holds a matrix of flattened extension field elements at
/// the rows of one batch.
pub open spec fn ext_view_packs(
    pair: ViewPair<Vec<ExtElem>>,
    m: BaseMatrix,
    needs_next: bool,
    rows_local: Seq<usize>,
    rows_next: Seq<usize>,
) -> bool {
    &&& is_ext_packing_of(pair.local@, m, rows_local)
    &&& needs_next ==> pair.next is Some && is_ext_packing_of(pair.next->0@, m, rows_next)
}

/// Whether `packed` holds the entries of `values` at the given rows.
pub open spec fn gathers(packed: Seq<u32>, values: Seq<u32>, rows: Seq<usize>) -> bool {
    &&& packed.len() == rows.len()
    &&& forall|j: int| 0 <= j < rows.len() ==> #[trigger] packed[j] == values[rows[j] as int]
}

/// Whether an evaluator holds, lane by lane, what a quotient context
/// holds at the rows of one batch.
pub open spec fn packs(
    evaluator: ProverConstraintEvaluator,
    view: QuotientView,
    needs_next: bool,
    rows_local: Seq<usize>,
    rows_next: Seq<usize>,
) -> bool {
    &&& rows_local.len() == rows_next.len()
    &&& evaluator.well_formed()
    &&& gathers(evaluator.is_first_row@, view.is_first_row, rows_local)
    &&& gathers(evaluator.is_last_row@, view.is_last_row, rows_local)
    &&& gathers(evaluator.is_transition@, view.is_transition, rows_local)
    &&& (view.preprocessed is Some && spec_height(view.preprocessed->0) >= view.quotient_size()
        ==> view_packs(
        *evaluator.preprocessed,
        view.preprocessed->0,
        needs_next,
        rows_local,
        rows_next,
    ))
    &&& evaluator.partitioned_main@.len() == view.partitioned_main.len()
    &&& forall|p: int|
        0 <= p < view.partitioned_main.len() ==> view_packs(
            #[trigger] evaluator.partitioned_main@[p],
            view.partitioned_main[p],
            needs_next,
            rows_local,
            rows_next,
        )
    &&& evaluator.after_challenge@.len() == view.after_challenge.len()
    &&& forall|p: int|
        0 <= p < view.after_challenge.len() ==> ext_view_packs(
            #[trigger] evaluator.after_challenge@[p],
            view.after_challenge[p],
            needs_next,
            rows_local,
            rows_next,
        )
    &&& evaluator.challenges@ == view.challenges
    &&& evaluator.public_values@ == view.public_values
    &&& evaluator.exposed_values_after_challenge@ == view.exposed_values_after_challenge
}

/// A variable without a problem is held by an evaluator that packs the
/// context, and has in lane `j` the value it has at the `j`-th rows.
pub proof fn lemma_variable_agrees(
    evaluator: ProverConstraintEvaluator,
    view: QuotientView,
    needs_next: bool,
    rows_local: Seq<usize>,
    rows_next: Seq<usize>,
    v: SymbolicVariable,
    j: int,
)
    requires
        packs(evaluator, view, needs_next, rows_local, rows_next),
        view.problem(v) is None,
        node_offset(SymbolicExpressionNode::Variable(v)) > 0 ==> needs_next,
        0 <= j < rows_local.len(),
    ensures
        evaluator.supports(v),
        evaluator.variable_at(v, j) == view.variable_at(
            v,
            rows_local[j] as int,
            rows_next[j] as int,
        ),
{
    match v.entry {
        Entry::Preprocessed { offset } => {
            let m = view.preprocessed->0;
            assert(view_packs(*evaluator.preprocessed, m, needs_next, rows_local, rows_next));
            if offset == 0 {
                assert(evaluator.preprocessed.local@[v.index as int]@[j] == view.variable_at(
                    v,
                    rows_local[j] as int,
                    rows_next[j] as int,
                )->Val_0);
            } else {
                assert(evaluator.preprocessed.next->0@[v.index as int]@[j] == view.variable_at(
                    v,
                    rows_local[j] as int,
                    rows_next[j] as int,
                )->Val_0);
            }
        },
        Entry::Main { part_index, offset } => {
            let m = view.partitioned_main[part_index as int];
            let pair = evaluator.partitioned_main@[part_index as int];
            assert(view_packs(pair, m, needs_next, rows_local, rows_next));
            if offset == 0 {
                assert(pair.local@[v.index as int]@[j] == view.variable_at(
                    v,
                    rows_local[j] as int,
                    rows_next[j] as int,
                )->Val_0);
            } else {
                assert(pair.next->0@[v.index as int]@[j] == view.variable_at(
                    v,
                    rows_local[j] as int,
                    rows_next[j] as int,
                )->Val_0);
            }
        },
        Entry::Permutation { offset } => {
            let m = view.after_challenge[0];
            let pair = evaluator.after_challenge@[0];
            assert(ext_view_packs(pair, m, needs_next, rows_local, rows_next));
            if offset == 0 {
                assert(pair.local@[v.index as int]@[j] == view.variable_at(
                    v,
                    rows_local[j] as int,
                    rows_next[j] as int,
                )->Challenge_0);
            } else {
                assert(pair.next->0@[v.index as int]@[j] == view.variable_at(
                    v,
                    rows_local[j] as int,
                    rows_next[j] as int,
                )->Challenge_0);
            }
        },
        _ => {},
    }
}

/// Where an evaluator packs a context that is ready, the folded
/// constraints that the evaluator gives in lane `j` are those of the
/// context at the `j`-th rows.
pub proof fn lemma_lane_agrees(
    evaluator: ProverConstraintEvaluator,
    view: QuotientView,
    needs_next: bool,
    rows_local: Seq<usize>,
    rows_next: Seq<usize>,
    j: int,
)
    requires
        packs(evaluator, view, needs_next, rows_local, rows_next),
        view.ready(),
        needs_next == view.looks_ahead(),
        0 <= j < rows_local.len(),
    ensures
        crate::symbolic::evaluation::folded_constraints(
            view.constraints,
            view.alpha_powers,
            evaluator.row(j),
            view.constraints.constraint_idx@.len() as int,
        ) == view.folded_at(rows_local[j] as int, rows_next[j] as int),
{
    let nodes = view.constraints.nodes@;
    let a = evaluator.row(j);
    let b = view.row_values(rows_local[j] as int, rows_next[j] as int);
    assert forall|i: int| 0 <= i < nodes.len() implies (#[trigger] nodes[i]
        matches SymbolicExpressionNode::Variable(v) ==> (a.variable)(v) == (b.variable)(v)) by {
        if let SymbolicExpressionNode::Variable(v) = nodes[i] {
            view.lemma_no_problem(nodes.len() as int, i);
            lemma_rotation_bounds(nodes, nodes.len() as int, i);
            lemma_variable_agrees(evaluator, view, needs_next, rows_local, rows_next, v, j);
        }
    }
    assert forall|k: int| 0 <= k < view.constraints.constraint_idx@.len() implies constraint_value(
        view.constraints,
        k,
        a,
    ) == constraint_value(view.constraints, k, b) by {
        let idx = view.constraints.constraint_idx@[k] as int;
        assert(rows_agree_up_to(nodes, idx, a, b));
        lemma_node_value_congruent(nodes, idx, a, b);
    }
    lemma_folded_congruent(
        view.constraints,
        view.alpha_powers,
        a,
        b,
        view.constraints.constraint_idx@.len() as int,
    );
}

/// An evaluator that packs a ready context holds every variable of the
/// constraints.
pub proof fn lemma_supports_all(
    evaluator: ProverConstraintEvaluator,
    view: QuotientView,
    needs_next: bool,
    rows_local: Seq<usize>,
    rows_next: Seq<usize>,
)
    requires
        packs(evaluator, view, needs_next, rows_local, rows_next),
        view.ready(),
        needs_next == view.looks_ahead(),
        0 < rows_local.len(),
    ensures
        evaluator.supports_all(view.constraints.nodes@),
{
    let nodes = view.constraints.nodes@;
    assert forall|i: int| 0 <= i < nodes.len() implies (#[trigger] nodes[i]
        matches SymbolicExpressionNode::Variable(v) ==> evaluator.supports(v)) by {
        if let SymbolicExpressionNode::Variable(v) = nodes[i] {
            view.lemma_no_problem(nodes.len() as int, i);
            lemma_rotation_bounds(nodes, nodes.len() as int, i);
            lemma_variable_agrees(evaluator, view, needs_next, rows_local, rows_next, v, 0);
        }
    }
}

/// An empty view, for a matrix that no constraint reads.
fn empty_view(needs_next: bool, width: usize) -> (view: ViewPair<Vec<u32>>)
    ensures
        view.local@.len() == 0,
        view.next is Some == needs_next,
        needs_next ==> view.next->0@.len() == 0,
        view_has_width(view, width as nat),
{
    let local: Vec<Vec<u32>> = Vec::new();
    let next: Option<Vec<Vec<u32>>> = if needs_next {
        Some(Vec::new())
    } else {
        None
    };
    ViewPair::new(local, next)
}

/// The quotient at each row of one batch: the matrices are packed at the
/// local rows and, where the constraints look ahead, at the next rows;
/// the constraints are interpreted on the packed values, folded, and
/// multiplied by the inverse of the zeroifier at the local rows.
pub fn quotient_batch(
    ctx: &QuotientContext,
    needs_next: bool,
    rows_local: &Vec<usize>,
    rows_next: &Vec<usize>,
    exprs: &mut Vec<PackedExpr>,
) -> (quotient: Vec<ExtElem>)
    requires
        ctx@.ready(),
        needs_next == ctx@.looks_ahead(),
        0 < rows_local@.len(),
        rows_local@.len() == rows_next@.len(),
        rows_below(rows_local@, ctx@.quotient_size()),
        rows_below(rows_next@, ctx@.quotient_size()),
    ensures
        quotient@.len() == rows_local@.len(),
        forall|j: int|
            0 <= j < rows_local@.len() ==> #[trigger] quotient@[j] == ctx@.quotient_at(
                rows_local@[j] as int,
                rows_next@[j] as int,
            ),
{
    let quotient_size = ctx.trace_height * ctx.quotient_degree;
    let width = rows_local.len();
    let is_first_row = gather(&ctx.selectors.is_first_row, rows_local);
    let is_last_row = gather(&ctx.selectors.is_last_row, rows_local);
    let is_transition = gather(&ctx.selectors.is_transition, rows_local);
    let inv_zeroifier = gather(&ctx.selectors.inv_zeroifier, rows_local);

    let preprocessed_pair = match ctx.preprocessed {
        Some(m) => if m.height() >= quotient_size {
            pack_view(m, rows_local, rows_next, needs_next)
        } else {
            empty_view(needs_next, width)
        },
        None => empty_view(needs_next, width),
    };

    let mut partitioned_main_pairs: Vec<ViewPair<Vec<u32>>> = Vec::with_capacity(
        ctx.partitioned_main.len(),
    );
    let mut p: usize = 0;
    while p < ctx.partitioned_main.len()
        invariant
            p <= ctx.partitioned_main@.len(),
            ctx@.heights_cover(),
            rows_local@.len() == rows_next@.len(),
            rows_below(rows_local@, ctx@.quotient_size()),
            rows_below(rows_next@, ctx@.quotient_size()),
            partitioned_main_pairs@.len() == p,
            forall|q: int|
                0 <= q < p ==> view_packs(
                    #[trigger] partitioned_main_pairs@[q],
                    ctx.partitioned_main@[q],
                    needs_next,
                    rows_local@,
                    rows_next@,
                ),
            forall|q: int|
                0 <= q < p ==> view_has_width(
                    #[trigger] partitioned_main_pairs@[q],
                    rows_local@.len(),
                ),
        decreases ctx.partitioned_main@.len() - p,
    {
        assert(spec_height(ctx@.partitioned_main[p as int]) >= ctx@.quotient_size());
        let pair = pack_view(&ctx.partitioned_main[p], rows_local, rows_next, needs_next);
        partitioned_main_pairs.push(pair);
        p += 1;
    }

    let mut after_challenge_pairs: Vec<ViewPair<Vec<ExtElem>>> = Vec::with_capacity(
        ctx.after_challenge.len(),
    );
    let mut p: usize = 0;
    while p < ctx.after_challenge.len()
        invariant
            p <= ctx.after_challenge@.len(),
            ctx@.heights_cover(),
            rows_local@.len() == rows_next@.len(),
            rows_below(rows_local@, ctx@.quotient_size()),
            rows_below(rows_next@, ctx@.quotient_size()),
            after_challenge_pairs@.len() == p,
            forall|q: int|
                0 <= q < p ==> ext_view_packs(
                    #[trigger] after_challenge_pairs@[q],
                    ctx.after_challenge@[q],
                    needs_next,
                    rows_local@,
                    rows_next@,
                ),
            forall|q: int|
                0 <= q < p ==> view_has_width(
                    #[trigger] after_challenge_pairs@[q],
                    rows_local@.len(),
                ),
        decreases ctx.after_challenge@.len() - p,
    {
        assert(spec_height(ctx@.after_challenge[p as int]) >= ctx@.quotient_size());
        let pair = pack_ext_view(&ctx.after_challenge[p], rows_local, rows_next, needs_next);
        after_challenge_pairs.push(pair);
        p += 1;
    }

    let evaluator = ProverConstraintEvaluator {
        preprocessed: &preprocessed_pair,
        partitioned_main: partitioned_main_pairs.as_slice(),
        after_challenge: after_challenge_pairs.as_slice(),
        challenges: ctx.challenges,
        is_first_row,
        is_last_row,
        is_transition,
        public_values: ctx.public_values,
        exposed_values_after_challenge: ctx.exposed_values_after_challenge,
    };
    proof {
        assert(packs(evaluator, ctx@, needs_next, rows_local@, rows_next@));
        lemma_supports_all(evaluator, ctx@, needs_next, rows_local@, rows_next@);
    }
    let accumulator = evaluator.accumulate(ctx.constraints, ctx.alpha_powers, exprs);
    let quotient = ext_base_lanes(Operation::Mul, &accumulator, &inv_zeroifier);
    proof {
        assert forall|j: int| 0 <= j < rows_local@.len() implies #[trigger] quotient@[j]
            == ctx@.quotient_at(rows_local@[j] as int, rows_next@[j] as int) by {
            lemma_lane_agrees(evaluator, ctx@, needs_next, rows_local@, rows_next@, j);
        }
    }
    quotient
}


/// Every row of every coset is a row of the quotient domain.
pub proof fn lemma_row_in_domain(view: QuotientView, chunk: int, r: int)
    requires
        view.sized(),
        0 <= chunk < view.quotient_degree,
    ensures
        0 <= view.local_row(chunk, r) < view.quotient_size(),
{
    let th = view.trace_height as int;
    let qd = view.quotient_degree as int;
    let x = r % th;
    assert(0 <= x * qd <= (th - 1) * qd) by (nonlinear_arith)
        requires
            0 <= x <= th - 1,
            qd >= 0,
    ;
    assert((th - 1) * qd == th * qd - qd) by (nonlinear_arith);
}

/// The quotient at `count` rows of the coset `chunk`, from row `start` on.
pub open spec fn chunk_rows(view: QuotientView, chunk: int, start: int, count: nat) -> Seq<
    ExtElem,
> {
    Seq::new(count, |i: int| view.chunk_value(chunk, start + i))
}

/// Appends to `column` the quotient at `count` rows of the coset `chunk`,
/// from row `start` on.  The rows are evaluated in batches of
/// `simd_width` rows; of the last batch only the rows that are asked for
/// are kept.
pub fn quotient_rows(
    ctx: &QuotientContext,
    needs_next: bool,
    chunk: usize,
    start: usize,
    count: usize,
    simd_width: usize,
    column: &mut Vec<ExtElem>,
)
    requires
        ctx@.ready(),
        needs_next == ctx@.looks_ahead(),
        chunk < ctx.quotient_degree,
        start + count <= ctx.trace_height,
        1 <= simd_width <= 0x800_0000,
    ensures
        final(column)@ == old(column)@ + chunk_rows(ctx@, chunk as int, start as int, count as nat),
{
    let trace_height = ctx.trace_height;
    let quotient_degree = ctx.quotient_degree;
    let end = start + count;
    let mut exprs: Vec<PackedExpr> = Vec::with_capacity(ctx.constraints.nodes.len());
    let mut row: usize = start;
    assert(column@ =~= old(column)@ + chunk_rows(ctx@, chunk as int, start as int, 0));
    assert(trace_height <= 0x800_0000) by (nonlinear_arith)
        requires
            trace_height * quotient_degree <= 0x800_0000,
            quotient_degree >= 1,
            trace_height >= 0,
    ;
    while row < end
        invariant
            trace_height <= 0x800_0000,
            ctx@.ready(),
            needs_next == ctx@.looks_ahead(),
            chunk < ctx.quotient_degree,
            trace_height == ctx.trace_height,
            quotient_degree == ctx.quotient_degree,
            end == start + count,
            end <= trace_height,
            start <= row <= end,
            1 <= simd_width <= 0x800_0000,
            column@ == old(column)@ + chunk_rows(
                ctx@,
                chunk as int,
                start as int,
                (row - start) as nat,
            ),
        decreases end - row,
    {
        let mut rows_local: Vec<usize> = Vec::with_capacity(simd_width);
        let mut rows_next: Vec<usize> = Vec::with_capacity(simd_width);
        let mut j: usize = 0;
        while j < simd_width
            invariant
                trace_height <= 0x800_0000,
                ctx@.sized(),
                chunk < ctx.quotient_degree,
                trace_height == ctx.trace_height,
                quotient_degree == ctx.quotient_degree,
                row < trace_height,
                j <= simd_width <= 0x800_0000,
                rows_local@.len() == j,
                rows_next@.len() == j,
                rows_below(rows_local@, ctx@.quotient_size()),
                rows_below(rows_next@, ctx@.quotient_size()),
                forall|l: int|
                    0 <= l < j ==> #[trigger] rows_local@[l] == ctx@.local_row(
                        chunk as int,
                        row + l,
                    ),
                forall|l: int|
                    0 <= l < j ==> #[trigger] rows_next@[l] == ctx@.next_row(chunk as int, row + l),
            decreases simd_width - j,
        {
            proof {
                lemma_row_in_domain(ctx@, chunk as int, row + j);
                lemma_row_in_domain(ctx@, chunk as int, row + j + 1);
            }
            let local = chunk + ((row + j) % trace_height) * quotient_degree;
            let next = chunk + ((row + j + 1) % trace_height) * quotient_degree;
            rows_local.push(local);
            rows_next.push(next);
            j += 1;
        }
        let quotient = quotient_batch(ctx, needs_next, &rows_local, &rows_next, &mut exprs);
        let take = if end - row < simd_width {
            end - row
        } else {
            simd_width
        };
        let ghost base = column@;
        let mut l: usize = 0;
        while l < take
            invariant
                l <= take <= simd_width,
                quotient@.len() == simd_width,
                column@.len() == base.len() + l,
                forall|i: int| 0 <= i < base.len() ==> column@[i] == base[i],
                forall|i: int| 0 <= i < l ==> column@[base.len() + i] == quotient@[i],
            decreases take - l,
        {
            column.push(quotient[l]);
            l += 1;
        }
        proof {
            let longer = old(column)@ + chunk_rows(
                ctx@,
                chunk as int,
                start as int,
                (row + take - start) as nat,
            );
            assert(column@.len() == longer.len());
            assert forall|i: int| 0 <= i < column@.len() implies column@[i] == longer[i] by {
                if i >= base.len() {
                    let k = i - base.len();
                    assert(column@[base.len() + k] == quotient@[k]);
                    assert(quotient@[k] == ctx@.quotient_at(
                        rows_local@[k] as int,
                        rows_next@[k] as int,
                    ));
                    assert(rows_local@[k] == ctx@.local_row(chunk as int, row + k));
                    assert(rows_next@[k] == ctx@.next_row(chunk as int, row + k));
                } else {
                    assert(column@[i] == base[i]);
                }
            }
            assert(column@ =~= longer);
        }
        row = row + take;
    }
}

/// The coefficients of the elements of a column of extension field
/// elements, element after element: a matrix with one row per element
/// and one column per coefficient.
pub open spec fn flattened(column: Seq<ExtElem>) -> Seq<u32> {
    Seq::new(4 * column.len(), |i: int| column[i / 4].spec_coeff(i % 4))
}

/// Reshapes a column of extension field elements into the rows of a base
/// field matrix, one row of four coefficients per element.
pub fn flatten_to_base(column: &Vec<ExtElem>) -> (values: Vec<u32>)
    requires
        4 * column@.len() <= usize::MAX,
    ensures
        values@ == flattened(column@),
{
    let n = column.len();
    let mut values: Vec<u32> = Vec::with_capacity(4 * n);
    let mut i: usize = 0;
    while i < n
        invariant
            n == column@.len(),
            i <= n,
            4 * n <= usize::MAX,
            values@.len() == 4 * i,
            forall|k: int|
                0 <= k < 4 * i ==> #[trigger] values@[k] == column@[k / 4].spec_coeff(k % 4),
        decreases n - i,
    {
        let element = column[i];
        values.push(element.c0);
        values.push(element.c1);
        values.push(element.c2);
        values.push(element.c3);
        i += 1;
    }
    assert(values@ =~= flattened(column@));
    values
}


/// One coset of the quotient domain with the quotient on it.
pub struct QuotientChunk {
    /// The coset, of the size of the trace domain.
    pub domain: Domain,
    /// The quotient on the coset: one row per point of the coset, one
    /// column per coefficient of the extension field element.
    pub matrix: BaseMatrix,
}

/// Whether the two domains are the domain of a trace and a quotient
/// domain for it: the first a subgroup, the second a coset of a subgroup
/// that is at least as large, shifted by `GENERATOR`.
pub open spec fn domains_fit(trace_domain: Domain, quotient_domain: Domain) -> bool {
    &&& trace_domain.shift == 1
    &&& quotient_domain.shift == GENERATOR
    &&& trace_domain.log_size <= quotient_domain.log_size <= TWO_ADICITY
}

/// What the quotient of one AIR is computed from, with the selectors of
/// the trace domain on the quotient domain.
pub open spec fn quotient_view(
    constraints: SymbolicExpressionDag,
    trace_domain: Domain,
    quotient_domain: Domain,
    preprocessed: Option<BaseMatrix>,
    partitioned_main: Seq<BaseMatrix>,
    after_challenge: Seq<BaseMatrix>,
    challenges: Seq<Vec<ExtElem>>,
    alpha_powers: Seq<ExtElem>,
    public_values: Seq<u32>,
    exposed_values_after_challenge: Seq<Vec<ExtElem>>,
) -> QuotientView {
    let selectors = coset_selectors(
        trace_domain.log_size as nat,
        quotient_domain.log_size as nat,
    );
    QuotientView {
        constraints,
        preprocessed,
        partitioned_main,
        after_challenge,
        challenges,
        alpha_powers,
        public_values,
        exposed_values_after_challenge,
        is_first_row: selectors.0,
        is_last_row: selectors.1,
        is_transition: selectors.2,
        inv_zeroifier: selectors.3,
        trace_height: pow2(trace_domain.log_size as nat),
        quotient_degree: pow2((quotient_domain.log_size - trace_domain.log_size) as nat),
    }
}

/// Whether `chunk` is the coset `c` of the quotient domain with the
/// quotient on it: its rows are the rows `c`, `c + quotient_degree`,
/// `c + 2 * quotient_degree`, ... of the quotient domain.
pub open spec fn is_quotient_chunk(
    chunk: QuotientChunk,
    view: QuotientView,
    trace_domain: Domain,
    quotient_domain: Domain,
    c: int,
) -> bool {
    &&& chunk.domain == (Domain {
        log_size: trace_domain.log_size,
        shift: split_shifts(
            quotient_domain.log_size as nat,
            quotient_domain.shift,
            view.quotient_degree,
        )[c],
    })
    &&& matrix_width(chunk.matrix) == 4
    &&& matrix_values(chunk.matrix) == flattened(chunk_rows(view, c, 0, view.trace_height))
}

/// Rows that follow each other can be taken in two parts.
pub proof fn lemma_chunk_rows_append(view: QuotientView, chunk: int, a: nat, b: nat)
    ensures
        chunk_rows(view, chunk, 0, a) + chunk_rows(view, chunk, a as int, b) == chunk_rows(
            view,
            chunk,
            0,
            a + b,
        ),
{
    assert(chunk_rows(view, chunk, 0, a) + chunk_rows(view, chunk, a as int, b) =~= chunk_rows(
        view,
        chunk,
        0,
        a + b,
    ));
}

/// The quotient is canonical wherever it is taken.
pub proof fn lemma_chunk_rows_canonical(view: QuotientView, chunk: int, start: int, count: nat)
    ensures
        forall|r: int|
            0 <= r < count ==> (#[trigger] chunk_rows(view, chunk, start, count)[r]).is_canonical(),
{
}

/// The base field matrix with one row per element of a column of
/// canonical extension field elements and one column per coefficient.
pub fn column_matrix(column: &Vec<ExtElem>) -> (matrix: BaseMatrix)
    requires
        4 * column@.len() <= usize::MAX,
        forall|r: int| 0 <= r < column@.len() ==> (#[trigger] column@[r]).is_canonical(),
    ensures
        matrix_width(matrix) == 4,
        matrix_values(matrix) == flattened(column@),
{
    let values = flatten_to_base(column);
    let matrix = BaseMatrix::new(values, 4);
    proof {
        let expected = flattened(column@);
        assert forall|i: int| 0 <= i < expected.len() implies matrix_values(matrix)[i]
            == expected[i] by {
            assert(column@[i / 4].is_canonical());
            assert(expected[i] < ORDER);
        }
        assert(matrix_values(matrix) =~= expected);
    }
    matrix
}

/// The quotient on one coset of the quotient domain.  The rows are dealt
/// out to `num_threads` workers in whole batches, and the workers' parts
/// are put together in order.
pub fn quotient_column(
    ctx: &QuotientContext,
    needs_next: bool,
    chunk: usize,
    capacity: usize,
    simd_width: usize,
    num_threads: usize,
) -> (column: Vec<ExtElem>)
    requires
        ctx@.ready(),
        needs_next == ctx@.looks_ahead(),
        chunk < ctx.quotient_degree,
        1 <= simd_width <= 0x800_0000,
        1 <= num_threads,
    ensures
        column@ == chunk_rows(ctx@, chunk as int, 0, ctx.trace_height as nat),
{
    let trace_height = ctx.trace_height;
    let batch = if trace_height < simd_width {
        trace_height
    } else {
        simd_width
    };
    let unit = if trace_height % batch == 0 {
        batch
    } else {
        1
    };
    let plan = parallelize_chunks(trace_height, unit, num_threads);
    let mut column: Vec<ExtElem> = Vec::with_capacity(capacity);
    let mut s: usize = 0;
    assert(column@ =~= chunk_rows(ctx@, chunk as int, 0, 0));
    while s < plan.len()
        invariant
            ctx@.ready(),
            needs_next == ctx@.looks_ahead(),
            chunk < ctx.quotient_degree,
            trace_height == ctx.trace_height,
            1 <= simd_width <= 0x800_0000,
            is_balanced_cut(plan@, trace_height as nat, unit as nat, num_threads as nat),
            s <= plan@.len(),
            column@.len() == (if s == 0 {
                0
            } else {
                plan@[s - 1].0 + plan@[s - 1].1
            }),
            column@ == chunk_rows(ctx@, chunk as int, 0, column@.len()),
        decreases plan@.len() - s,
    {
        let (offset, size) = plan[s];
        assert(plan@[s as int].0 + plan@[s as int].1 <= trace_height);
        assert(offset == column@.len());
        proof {
            lemma_chunk_rows_append(ctx@, chunk as int, offset as nat, size as nat);
        }
        quotient_rows(ctx, needs_next, chunk, offset, size, simd_width, &mut column);
        s += 1;
    }
    column
}

/// The quotient on one coset of the quotient domain, as a matrix over the
/// base field.
pub fn quotient_chunk_matrix(
    ctx: &QuotientContext,
    needs_next: bool,
    chunk: usize,
    capacity: usize,
    simd_width: usize,
    num_threads: usize,
) -> (matrix: BaseMatrix)
    requires
        ctx@.ready(),
        needs_next == ctx@.looks_ahead(),
        chunk < ctx.quotient_degree,
        1 <= simd_width <= 0x800_0000,
        1 <= num_threads,
    ensures
        matrix_width(matrix) == 4,
        matrix_values(matrix) == flattened(
            chunk_rows(ctx@, chunk as int, 0, ctx.trace_height as nat),
        ),
{
    let column = quotient_column(ctx, needs_next, chunk, capacity, simd_width, num_threads);
    proof {
        lemma_chunk_rows_canonical(ctx@, chunk as int, 0, ctx.trace_height as nat);
        assert(ctx.trace_height <= 0x800_0000) by (nonlinear_arith)
            requires
                ctx.trace_height * ctx.quotient_degree <= 0x800_0000,
                ctx.quotient_degree >= 1,
                ctx.trace_height >= 0,
        ;
    }
    column_matrix(&column)
}

/// What the quotient of an AIR needs of its two domains: the sizes, the
/// selectors of the trace domain on the quotient domain, and the cosets
/// of the trace domain that the quotient domain is made of.
pub struct QuotientPlan {
    pub trace_height: usize,
    pub quotient_degree: usize,
    pub selectors: Selectors,
    pub chunk_domains: Vec<Domain>,
}

impl QuotientPlan {
    /// Whether the plan is that of the two domains.
    pub open spec fn is_plan_for(&self, trace_domain: Domain, quotient_domain: Domain) -> bool {
        &&& 0 < self.trace_height == pow2(trace_domain.log_size as nat)
        &&& 0 < self.quotient_degree == pow2(
            (quotient_domain.log_size - trace_domain.log_size) as nat,
        )
        &&& self.trace_height * self.quotient_degree == pow2(quotient_domain.log_size as nat)
        &&& self.trace_height * self.quotient_degree <= 0x800_0000
        &&& self.selectors.has_values(
            coset_selectors(trace_domain.log_size as nat, quotient_domain.log_size as nat),
        )
        &&& self.selectors.covers(pow2(quotient_domain.log_size as nat))
        &&& self.chunk_domains@.len() == self.quotient_degree
        &&& forall|i: int|
            0 <= i < self.chunk_domains@.len() ==> #[trigger] self.chunk_domains@[i] == (Domain {
                log_size: trace_domain.log_size,
                shift: split_shifts(
                    quotient_domain.log_size as nat,
                    quotient_domain.shift,
                    self.quotient_degree as nat,
                )[i],
            })
    }
}

impl QuotientPlan {
    /// The plan for the quotient of an AIR with the given domains, which
    /// fit each other.
    pub fn new(trace_domain: Domain, quotient_domain: Domain) -> (plan: QuotientPlan)
        requires
            domains_fit(trace_domain, quotient_domain),
        ensures
            plan.is_plan_for(trace_domain, quotient_domain),
    {
        let log_quotient_degree = quotient_domain.log_size - trace_domain.log_size;
        let trace_height = trace_domain.size();
        let quotient_degree = pow2_usize(log_quotient_degree);
        proof {
            lemma_pow2_adds(trace_domain.log_size as nat, log_quotient_degree as nat);
            crate::domain::lemma_pow2_bounded(quotient_domain.log_size as nat);
        }
        let selectors = trace_domain.selectors_on_coset(quotient_domain);
        let chunk_domains = quotient_domain.split_domains(log_quotient_degree);
        QuotientPlan { trace_height, quotient_degree, selectors, chunk_domains }
    }
}

/// The plan for the quotient of an AIR with the given domains, if the
/// domains fit each other.
pub fn plan_quotient(trace_domain: Domain, quotient_domain: Domain) -> (result: Result<
    QuotientPlan,
    QuotientError,
>)
    ensures
        match result {
            Ok(plan) => domains_fit(trace_domain, quotient_domain) && plan.is_plan_for(
                trace_domain,
                quotient_domain,
            ),
            Err(e) => !domains_fit(trace_domain, quotient_domain) && e == QuotientError::Structure,
        },
{
    if trace_domain.shift != 1 || quotient_domain.shift != GENERATOR || trace_domain.log_size
        > quotient_domain.log_size || quotient_domain.log_size > TWO_ADICITY {
        return Err(QuotientError::Structure);
    }
    Ok(QuotientPlan::new(trace_domain, quotient_domain))
}

/// What is wrong with what the quotient of an AIR is to be computed
/// from, if anything: the domains do not fit each other, or what the
/// scan of the constraints finds.
pub open spec fn quotient_input_error(
    constraints: SymbolicExpressionDag,
    trace_domain: Domain,
    quotient_domain: Domain,
    preprocessed: Option<BaseMatrix>,
    partitioned_main: Seq<BaseMatrix>,
    after_challenge: Seq<BaseMatrix>,
    challenges: Seq<Vec<ExtElem>>,
    alpha_powers: Seq<ExtElem>,
    public_values: Seq<u32>,
    exposed_values_after_challenge: Seq<Vec<ExtElem>>,
) -> Option<QuotientError> {
    if domains_fit(trace_domain, quotient_domain) {
        quotient_view(
            constraints,
            trace_domain,
            quotient_domain,
            preprocessed,
            partitioned_main,
            after_challenge,
            challenges,
            alpha_powers,
            public_values,
            exposed_values_after_challenge,
        ).validation_error()
    } else {
        Some(QuotientError::Structure)
    }
}

/// The check that comes before the quotient of an AIR is computed: what
/// is wrong with the input, if anything is.  Nothing is evaluated.
pub fn check_quotient_inputs(
    constraints: &SymbolicExpressionDag,
    trace_domain: Domain,
    quotient_domain: Domain,
    preprocessed_trace_on_quotient_domain: Option<&BaseMatrix>,
    partitioned_main_lde_on_quotient_domain: &[BaseMatrix],
    after_challenge_lde_on_quotient_domain: &[BaseMatrix],
    challenges: &[Vec<ExtElem>],
    alpha_powers: &[ExtElem],
    public_values: &[u32],
    exposed_values_after_challenge: &[Vec<ExtElem>],
) -> (problem: Option<QuotientError>)
    ensures
        problem == quotient_input_error(
            *constraints,
            trace_domain,
            quotient_domain,
            match preprocessed_trace_on_quotient_domain {
                Some(m) => Some(*m),
                None => None,
            },
            partitioned_main_lde_on_quotient_domain@,
            after_challenge_lde_on_quotient_domain@,
            challenges@,
            alpha_powers@,
            public_values@,
            exposed_values_after_challenge@,
        ),
{
    let plan = match plan_quotient(trace_domain, quotient_domain) {
        Ok(plan) => plan,
        Err(e) => {
            return Some(e);
        },
    };
    let ctx = QuotientContext {
        constraints,
        preprocessed: preprocessed_trace_on_quotient_domain,
        partitioned_main: partitioned_main_lde_on_quotient_domain,
        after_challenge: after_challenge_lde_on_quotient_domain,
        challenges,
        alpha_powers,
        public_values,
        exposed_values_after_challenge,
        selectors: &plan.selectors,
        trace_height: plan.trace_height,
        quotient_degree: plan.quotient_degree,
    };
    assert(ctx@ == quotient_view(
        *constraints,
        trace_domain,
        quotient_domain,
        match preprocessed_trace_on_quotient_domain {
            Some(m) => Some(*m),
            None => None,
        },
        partitioned_main_lde_on_quotient_domain@,
        after_challenge_lde_on_quotient_domain@,
        challenges@,
        alpha_powers@,
        public_values@,
        exposed_values_after_challenge@,
    ));
    match ctx.validate() {
        Ok(_) => None,
        Err(e) => Some(e),
    }
}

/// The quotient of one AIR on its quotient domain, coset by coset.
///
/// The constraints are interpreted at every point of the quotient domain
/// on the matrices extended to that domain, folded by `alpha_powers` and
/// divided by the zeroifier of the trace domain.  The quotient domain is
/// the union of `quotient_degree` cosets of the trace domain that
/// interleave: point `c + quotient_degree * r` of the quotient domain is
/// point `r` of the coset `c`.  There is one chunk per coset, in order.
///
/// The input has to be sound: the domains fit each other and the scan of
/// the constraints finds nothing wrong.  `check_quotient_inputs` tells.
///
/// `simd_width` is the number of rows that are evaluated together and
/// `num_threads` the number of workers that a coset's rows are dealt out
/// to; neither has any bearing on the result.  `extra_capacity_bits` asks
/// for room for that many doublings of a chunk's column.
pub fn compute_single_rap_quotient_values(
    constraints: &SymbolicExpressionDag,
    trace_domain: Domain,
    quotient_domain: Domain,
    preprocessed_trace_on_quotient_domain: Option<&BaseMatrix>,
    partitioned_main_lde_on_quotient_domain: &[BaseMatrix],
    after_challenge_lde_on_quotient_domain: &[BaseMatrix],
    challenges: &[Vec<ExtElem>],
    alpha_powers: &[ExtElem],
    public_values: &[u32],
    exposed_values_after_challenge: &[Vec<ExtElem>],
    extra_capacity_bits: usize,
    simd_width: usize,
    num_threads: usize,
) -> (chunks: Vec<QuotientChunk>)
    requires
        1 <= simd_width <= 0x800_0000,
        1 <= num_threads,
        quotient_input_error(
            *constraints,
            trace_domain,
            quotient_domain,
            match preprocessed_trace_on_quotient_domain {
                Some(m) => Some(*m),
                None => None,
            },
            partitioned_main_lde_on_quotient_domain@,
            after_challenge_lde_on_quotient_domain@,
            challenges@,
            alpha_powers@,
            public_values@,
            exposed_values_after_challenge@,
        ) is None,
    ensures
        ({
            let view = quotient_view(
                *constraints,
                trace_domain,
                quotient_domain,
                match preprocessed_trace_on_quotient_domain {
                    Some(m) => Some(*m),
                    None => None,
                },
                partitioned_main_lde_on_quotient_domain@,
                after_challenge_lde_on_quotient_domain@,
                challenges@,
                alpha_powers@,
                public_values@,
                exposed_values_after_challenge@,
            );
            &&& chunks@.len() == view.quotient_degree
            &&& forall|c: int|
                0 <= c < chunks@.len() ==> is_quotient_chunk(
                    #[trigger] chunks@[c],
                    view,
                    trace_domain,
                    quotient_domain,
                    c,
                )
        }),
{
    let plan = QuotientPlan::new(trace_domain, quotient_domain);
    let trace_height = plan.trace_height;
    let quotient_degree = plan.quotient_degree;
    let ctx = QuotientContext {
        constraints,
        preprocessed: preprocessed_trace_on_quotient_domain,
        partitioned_main: partitioned_main_lde_on_quotient_domain,
        after_challenge: after_challenge_lde_on_quotient_domain,
        challenges,
        alpha_powers,
        public_values,
        exposed_values_after_challenge,
        selectors: &plan.selectors,
        trace_height,
        quotient_degree,
    };
    let ghost view = quotient_view(
        *constraints,
        trace_domain,
        quotient_domain,
        match preprocessed_trace_on_quotient_domain {
            Some(m) => Some(*m),
            None => None,
        },
        partitioned_main_lde_on_quotient_domain@,
        after_challenge_lde_on_quotient_domain@,
        challenges@,
        alpha_powers@,
        public_values@,
        exposed_values_after_challenge@,
    );
    assert(view.trace_height == trace_height);
    assert(view.quotient_degree == quotient_degree);
    assert(view.quotient_size() == trace_height * quotient_degree);
    assert(ctx@ == view);
    let needs_next = ctx.needs_next();
    let capacity = if extra_capacity_bits <= TWO_ADICITY {
        match trace_height.checked_mul(pow2_usize(extra_capacity_bits)) {
            Some(capacity) => capacity,
            None => trace_height,
        }
    } else {
        trace_height
    };
    let mut chunks: Vec<QuotientChunk> = Vec::with_capacity(quotient_degree);
    let mut chunk_idx: usize = 0;
    while chunk_idx < quotient_degree
        invariant
            ctx@ == view,
            view.ready(),
            needs_next == view.looks_ahead(),
            quotient_degree == ctx.quotient_degree,
            quotient_degree == view.quotient_degree,
            trace_height == ctx.trace_height,
            1 <= simd_width <= 0x800_0000,
            1 <= num_threads,
            chunk_idx <= quotient_degree,
            plan.is_plan_for(trace_domain, quotient_domain),
            plan.chunk_domains@.len() == quotient_degree,
            chunks@.len() == chunk_idx,
            forall|c: int|
                0 <= c < chunk_idx ==> is_quotient_chunk(
                    #[trigger] chunks@[c],
                    view,
                    trace_domain,
                    quotient_domain,
                    c,
                ),
        decreases quotient_degree - chunk_idx,
    {
        let matrix = quotient_chunk_matrix(
            &ctx,
            needs_next,
            chunk_idx,
            capacity,
            simd_width,
            num_threads,
        );
        let domain = plan.chunk_domains[chunk_idx];
        assert(domain == plan.chunk_domains@[chunk_idx as int]);
        chunks.push(QuotientChunk { domain, matrix });
        chunk_idx += 1;
    }
    chunks
}

} // verus!
