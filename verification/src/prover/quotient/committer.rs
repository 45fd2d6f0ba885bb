use vstd::arithmetic::power2::pow2;
use vstd::prelude::*;

use crate::domain::{log2_ceil_u8, spec_log2_ceil, Domain, GENERATOR, TWO_ADICITY};
use crate::field::extension::ExtElem;
use crate::prover::quotient::context::{QuotientError, QuotientView};
use crate::matrix::BaseMatrix;
use crate::prover::quotient::single::{
    check_quotient_inputs, compute_single_rap_quotient_values, is_quotient_chunk,
    quotient_input_error, quotient_view, QuotientChunk,
};
use crate::prover::types::{
    has_gap, phase_challenges, phase_exposed_values, phase_matrices, unzip_phases, RapView,
};
use crate::matrix::{matrix_values, matrix_width};
use crate::symbolic::dag::SymbolicExpressionDag;
use crate::symbolic::evaluation::{constraint_value, folded_constraints, RowValues};

verus! {

/// Computes the quotients of the AIRs of one proof, all folded by the
/// powers of one challenge, and puts together what is to be committed.
pub struct QuotientCommitter {
    pub alpha: ExtElem,
    /// The number of rows that are evaluated together.
    pub simd_width: usize,
    /// The number of workers that the rows of a coset are dealt out to.
    pub num_threads: usize,
}

/// The quotient of one AIR on its quotient domain, coset by coset.
pub struct SingleQuotientData {
    /// The quotient degree of the AIR as it was given.  The quotient
    /// domain is made of the least power of two of cosets that is at
    /// least as large.
    pub quotient_degree: usize,
    pub quotient_domain: Domain,
    /// For each coset of the trace domain in the quotient domain, in
    /// order, the quotient on it.
    pub chunks: Vec<QuotientChunk>,
}

/// The quotients of the AIRs of one proof, in the order of the AIRs.
pub struct QuotientData {
    pub inner: Vec<SingleQuotientData>,
}

/// What the quotient of one AIR is computed from, with the challenge
/// phases taken apart.
pub struct SingleRapInputs {
    pub trace_domain: Domain,
    pub quotient_domain: Domain,
    pub preprocessed: Option<BaseMatrix>,
    pub partitioned_main: Vec<BaseMatrix>,
    /// For each challenge phase the trace made after it.
    pub after_challenge: Vec<BaseMatrix>,
    /// For each challenge phase the challenges drawn in it.
    pub challenges: Vec<Vec<ExtElem>>,
    pub alpha_powers: Vec<ExtElem>,
    pub public_values: Vec<u32>,
    /// For each challenge phase the values exposed after it.
    pub exposed_values_after_challenge: Vec<Vec<ExtElem>>,
}

impl SingleRapInputs {
    /// What is wrong with the inputs, if anything.
    pub open spec fn problem(&self, constraints: SymbolicExpressionDag) -> Option<QuotientError> {
        quotient_input_error(
            constraints,
            self.trace_domain,
            self.quotient_domain,
            self.preprocessed,
            self.partitioned_main@,
            self.after_challenge@,
            self.challenges@,
            self.alpha_powers@,
            self.public_values@,
            self.exposed_values_after_challenge@,
        )
    }

    /// Whether these are the inputs for the AIR with the given view,
    /// and sound.
    pub open spec fn is_inputs_of(
        &self,
        alpha: ExtElem,
        constraints: SymbolicExpressionDag,
        ldes: RapView,
        quotient_degree: u8,
    ) -> bool {
        &&& self.trace_domain == trace_domain_of(ldes.pair.log_trace_height)
        &&& self.quotient_domain == quotient_domain_of(ldes.pair.log_trace_height, quotient_degree)
        &&& self.preprocessed == ldes.pair.preprocessed
        &&& self.partitioned_main@ == ldes.pair.partitioned_main@
        &&& self.after_challenge@ == phase_matrices(ldes.per_phase@)
        &&& self.challenges@ == phase_challenges(ldes.per_phase@)
        &&& self.alpha_powers@ == powers_highest_first(alpha, constraints.constraint_idx@.len())
        &&& self.public_values@ == ldes.pair.public_values@
        &&& self.exposed_values_after_challenge@ == phase_exposed_values(ldes.per_phase@)
        &&& self.problem(constraints) is None
    }

    /// The check that comes before the quotient is computed.
    pub fn check(&self, constraints: &SymbolicExpressionDag) -> (problem: Option<QuotientError>)
        ensures
            problem == self.problem(*constraints),
    {
        let preprocessed = match &self.preprocessed {
            Some(m) => Some(m),
            None => None,
        };
        check_quotient_inputs(
            constraints,
            self.trace_domain,
            self.quotient_domain,
            preprocessed,
            self.partitioned_main.as_slice(),
            self.after_challenge.as_slice(),
            self.challenges.as_slice(),
            self.alpha_powers.as_slice(),
            self.public_values.as_slice(),
            self.exposed_values_after_challenge.as_slice(),
        )
    }
}

/// The first `count` powers of `alpha`, the highest first.
pub open spec fn powers_highest_first(alpha: ExtElem, count: nat) -> Seq<ExtElem> {
    Seq::new(count, |k: int| alpha.spec_pow((count - 1 - k) as nat))
}

/// The domain of a trace with `2^log_trace_height` rows.
pub open spec fn trace_domain_of(log_trace_height: u8) -> Domain {
    Domain { log_size: log_trace_height as usize, shift: 1 }
}

/// The quotient domain of an AIR: the coset, shifted by `GENERATOR`, of
/// the least size that is a power of two and at least `quotient_degree`
/// times the height of the trace.
pub open spec fn quotient_domain_of(log_trace_height: u8, quotient_degree: u8) -> Domain {
    Domain {
        log_size: (log_trace_height + spec_log2_ceil(quotient_degree as nat)) as usize,
        shift: GENERATOR,
    }
}

/// What the quotient of one AIR is computed from, the constraints folded
/// by the powers of `alpha`.
pub open spec fn single_rap_view(
    alpha: ExtElem,
    constraints: SymbolicExpressionDag,
    ldes: RapView,
    quotient_degree: u8,
) -> QuotientView {
    quotient_view(
        constraints,
        trace_domain_of(ldes.pair.log_trace_height),
        quotient_domain_of(ldes.pair.log_trace_height, quotient_degree),
        ldes.pair.preprocessed,
        ldes.pair.partitioned_main@,
        phase_matrices(ldes.per_phase@),
        phase_challenges(ldes.per_phase@),
        powers_highest_first(alpha, constraints.constraint_idx@.len()),
        ldes.pair.public_values@,
        phase_exposed_values(ldes.per_phase@),
    )
}

/// Why the quotient of an AIR cannot be computed, if it cannot: the
/// quotient domain does not exist; or a challenge phase lacks its matrix;
/// or what the scan of the constraints finds.
pub open spec fn single_rap_error(
    alpha: ExtElem,
    constraints: SymbolicExpressionDag,
    ldes: RapView,
    quotient_degree: u8,
) -> Option<QuotientError> {
    if quotient_degree == 0 || ldes.pair.log_trace_height + spec_log2_ceil(quotient_degree as nat)
        > TWO_ADICITY {
        Some(QuotientError::Structure)
    } else if has_gap(ldes.per_phase@) {
        Some(QuotientError::Absence)
    } else {
        single_rap_view(alpha, constraints, ldes, quotient_degree).validation_error()
    }
}

/// Whether `data` is the quotient of the AIR with the given constraints
/// and view.
pub open spec fn is_single_quotient(
    data: SingleQuotientData,
    alpha: ExtElem,
    constraints: SymbolicExpressionDag,
    ldes: RapView,
    quotient_degree: u8,
) -> bool {
    let view = single_rap_view(alpha, constraints, ldes, quotient_degree);
    &&& data.quotient_degree == quotient_degree
    &&& data.quotient_domain == quotient_domain_of(ldes.pair.log_trace_height, quotient_degree)
    &&& data.chunks@.len() == pow2(spec_log2_ceil(quotient_degree as nat))
    &&& forall|c: int|
        0 <= c < data.chunks@.len() ==> is_quotient_chunk(
            #[trigger] data.chunks@[c],
            view,
            trace_domain_of(ldes.pair.log_trace_height),
            data.quotient_domain,
            c,
        )
}

/// The random linear combination of the first `n` of the `count`
/// constraints of a DAG at one row: the sum over `k < n` of `alpha` to
/// the power `count - 1 - k` times the value of the `k`-th constraint.
pub open spec fn random_linear_combination(
    dag: SymbolicExpressionDag,
    alpha: ExtElem,
    row: RowValues,
    count: nat,
    n: int,
) -> ExtElem
    decreases n,
{
    if n <= 0 {
        ExtElem::spec_zero()
    } else {
        random_linear_combination(dag, alpha, row, count, n - 1).spec_add(
            constraint_value(dag, n - 1, row).scaled_by(alpha.spec_pow((count - n) as nat)),
        )
    }
}

/// Folding by the powers of `alpha`, the highest first, gives the random
/// linear combination of the constraints.
pub proof fn lemma_folded_is_linear_combination(
    dag: SymbolicExpressionDag,
    alpha: ExtElem,
    row: RowValues,
    count: nat,
    n: int,
)
    requires
        0 <= n <= count,
    ensures
        folded_constraints(dag, powers_highest_first(alpha, count), row, n)
            == random_linear_combination(dag, alpha, row, count, n),
    decreases n,
{
    if n > 0 {
        lemma_folded_is_linear_combination(dag, alpha, row, count, n - 1);
    }
}

/// What is computed at every point of the quotient domain is the random
/// linear combination of the constraints there, with the powers of the
/// challenge falling from the first constraint to the last, times the
/// inverse of the zeroifier of the trace domain at the point.
pub proof fn lemma_quotient_correct(
    alpha: ExtElem,
    constraints: SymbolicExpressionDag,
    ldes: RapView,
    quotient_degree: u8,
    local: int,
    next: int,
)
    ensures
        ({
            let view = single_rap_view(alpha, constraints, ldes, quotient_degree);
            let count = constraints.constraint_idx@.len();
            view.quotient_at(local, next) == random_linear_combination(
                constraints,
                alpha,
                view.row_values(local, next),
                count,
                count as int,
            ).spec_mul_base(view.inv_zeroifier[local])
        }),
{
    let count = constraints.constraint_idx@.len();
    let view = single_rap_view(alpha, constraints, ldes, quotient_degree);
    lemma_folded_is_linear_combination(
        constraints,
        alpha,
        view.row_values(local, next),
        count,
        count as int,
    );
}

/// The quotient does not depend on how many rows are evaluated together
/// nor on how many workers share the rows: two chunks that are both the
/// quotient on one coset, however they were computed, hold the same
/// domain and the same values.
pub proof fn lemma_quotient_is_determined(
    a: QuotientChunk,
    b: QuotientChunk,
    view: QuotientView,
    trace_domain: Domain,
    quotient_domain: Domain,
    c: int,
)
    requires
        is_quotient_chunk(a, view, trace_domain, quotient_domain, c),
        is_quotient_chunk(b, view, trace_domain, quotient_domain, c),
    ensures
        a.domain == b.domain,
        matrix_width(a.matrix) == matrix_width(b.matrix),
        matrix_values(a.matrix) == matrix_values(b.matrix),
{
}

/// The chunks of the quotients of all AIRs, AIR after AIR.
pub open spec fn all_chunks(inner: Seq<SingleQuotientData>) -> Seq<QuotientChunk>
    decreases inner.len(),
{
    if inner.len() == 0 {
        Seq::empty()
    } else {
        all_chunks(inner.drop_last()) + inner.last().chunks@
    }
}

impl SingleQuotientData {
    /// The chunks of the quotient, one per coset of the trace domain.
    pub fn split(self) -> (chunks: Vec<QuotientChunk>)
        ensures
            chunks == self.chunks,
    {
        self.chunks
    }
}

impl QuotientData {
    /// The chunks of all quotients in one list: those of the first AIR,
    /// then those of the second, and so on.
    pub fn split(self) -> (chunks: Vec<QuotientChunk>)
        ensures
            chunks@ == all_chunks(self.inner@),
    {
        let ghost all = self.inner@;
        let mut rest = self.inner;
        let mut chunks: Vec<QuotientChunk> = Vec::new();
        let ghost mut done: int = 0;
        assert(all.take(0) =~= Seq::empty());
        while rest.len() > 0
            invariant
                all == self.inner@,
                0 <= done <= all.len(),
                done + rest@.len() == all.len(),
                forall|p: int| 0 <= p < rest@.len() ==> rest@[p] == all[done + p],
                chunks@ == all_chunks(all.take(done)),
            decreases rest@.len(),
        {
            let single = rest.remove(0);
            let mut part = single.split();
            proof {
                assert(single == all[done]);
                assert(all.take(done + 1).drop_last() =~= all.take(done));
                assert(all.take(done + 1).last() == all[done]);
                done = done + 1;
            }
            chunks.append(&mut part);
        }
        assert(all.take(done) =~= all);
        chunks
    }
}

impl QuotientCommitter {
    pub fn new(alpha: ExtElem, simd_width: usize, num_threads: usize) -> (committer: Self)
        ensures
            committer.alpha == alpha,
            committer.simd_width == simd_width,
            committer.num_threads == num_threads,
    {
        QuotientCommitter { alpha, simd_width, num_threads }
    }

    /// The number of rows evaluated together and the number of workers
    /// are at least one, and what the machine can hold.
    pub open spec fn well_formed(&self) -> bool {
        &&& 1 <= self.simd_width <= 0x800_0000
        &&& 1 <= self.num_threads
    }

    /// What the quotient of one AIR is computed from, checked: the two
    /// domains, the matrices and values of the view with the challenge
    /// phases taken apart, and the powers of the challenge, the highest
    /// first.
    ///
    /// The trace domain is the subgroup with one point per row of the
    /// trace and the quotient domain the coset `quotient_domain_of`.
    /// There is no result where the quotient cannot be computed, and the
    /// error says why.
    pub fn single_rap_inputs(
        &self,
        constraints: &SymbolicExpressionDag,
        ldes: RapView,
        quotient_degree: u8,
    ) -> (result: Result<SingleRapInputs, QuotientError>)
        ensures
            match result {
                Ok(inputs) => single_rap_error(self.alpha, *constraints, ldes, quotient_degree)
                    is None && inputs.is_inputs_of(self.alpha, *constraints, ldes, quotient_degree),
                Err(e) => single_rap_error(self.alpha, *constraints, ldes, quotient_degree)
                    == Some(e),
            },
    {
        let log_trace_height = ldes.pair.log_trace_height as usize;
        let log_quotient_degree = log2_ceil_u8(quotient_degree);
        if quotient_degree == 0 || log_trace_height + log_quotient_degree > TWO_ADICITY {
            return Err(QuotientError::Structure);
        }
        let trace_domain = Domain::natural(log_trace_height);
        let quotient_domain = trace_domain.create_disjoint_domain(
            log_trace_height + log_quotient_degree,
        );
        let RapView { pair, per_phase } = ldes;
        let (after_challenge, challenges, exposed_values) = match unzip_phases(per_phase) {
            Some(parts) => parts,
            None => {
                return Err(QuotientError::Absence);
            },
        };
        let alpha_powers = self.alpha.powers_highest_first(constraints.constraint_idx.len());
        assert(alpha_powers@ =~= powers_highest_first(
            self.alpha,
            constraints.constraint_idx@.len(),
        ));
        let inputs = SingleRapInputs {
            trace_domain,
            quotient_domain,
            preprocessed: pair.preprocessed,
            partitioned_main: pair.partitioned_main,
            after_challenge,
            challenges,
            alpha_powers,
            public_values: pair.public_values,
            exposed_values_after_challenge: exposed_values,
        };
        match inputs.check(constraints) {
            Some(e) => Err(e),
            None => Ok(inputs),
        }
    }

    /// The quotient of one AIR, with the constraints folded by the powers
    /// of the challenge, the highest power with the first constraint.
    ///
    /// The view has to be one that the quotient can be computed from:
    /// `single_rap_inputs` tells.
    pub fn single_rap_quotient_values(
        &self,
        constraints: &SymbolicExpressionDag,
        ldes: RapView,
        quotient_degree: u8,
    ) -> (data: SingleQuotientData)
        requires
            self.well_formed(),
            single_rap_error(self.alpha, *constraints, ldes, quotient_degree) is None,
        ensures
            is_single_quotient(data, self.alpha, *constraints, ldes, quotient_degree),
    {
        let inputs = self.single_rap_inputs(constraints, ldes, quotient_degree).unwrap();
        let preprocessed = match &inputs.preprocessed {
            Some(m) => Some(m),
            None => None,
        };
        let chunks = compute_single_rap_quotient_values(
            constraints,
            inputs.trace_domain,
            inputs.quotient_domain,
            preprocessed,
            inputs.partitioned_main.as_slice(),
            inputs.after_challenge.as_slice(),
            inputs.challenges.as_slice(),
            inputs.alpha_powers.as_slice(),
            inputs.public_values.as_slice(),
            inputs.exposed_values_after_challenge.as_slice(),
            0,
            self.simd_width,
            self.num_threads,
        );
        SingleQuotientData {
            quotient_degree: quotient_degree as usize,
            quotient_domain: inputs.quotient_domain,
            chunks,
        }
    }

    /// The quotients of all AIRs, in the order of the AIRs.
    ///
    /// `constraints`, `lde_views` and `quotient_degrees` have one entry
    /// per AIR, in the same order, and the view of every AIR is one that
    /// its quotient can be computed from.
    pub fn quotient_values(
        &self,
        constraints: &[&SymbolicExpressionDag],
        lde_views: Vec<RapView>,
        quotient_degrees: &[u8],
    ) -> (data: QuotientData)
        requires
            self.well_formed(),
            constraints@.len() == lde_views@.len(),
            constraints@.len() == quotient_degrees@.len(),
            forall|i: int|
                0 <= i < constraints@.len() ==> #[trigger] single_rap_error(
                    self.alpha,
                    *constraints@[i],
                    lde_views@[i],
                    quotient_degrees@[i],
                ) is None,
        ensures
            data.inner@.len() == constraints@.len(),
            forall|i: int|
                0 <= i < data.inner@.len() ==> is_single_quotient(
                    #[trigger] data.inner@[i],
                    self.alpha,
                    *constraints@[i],
                    lde_views@[i],
                    quotient_degrees@[i],
                ),
    {
        let n = constraints.len();
        let ghost all = lde_views@;
        let mut rest = lde_views;
        let mut inner: Vec<SingleQuotientData> = Vec::with_capacity(n);
        let mut i: usize = 0;
        while i < n
            invariant
                self.well_formed(),
                all == lde_views@,
                n == constraints@.len(),
                n == all.len(),
                n == quotient_degrees@.len(),
                i <= n,
                i + rest@.len() == n,
                forall|p: int| 0 <= p < rest@.len() ==> rest@[p] == all[i + p],
                inner@.len() == i,
                forall|j: int|
                    0 <= j < n ==> #[trigger] single_rap_error(
                        self.alpha,
                        *constraints@[j],
                        all[j],
                        quotient_degrees@[j],
                    ) is None,
                forall|j: int|
                    0 <= j < i ==> is_single_quotient(
                        #[trigger] inner@[j],
                        self.alpha,
                        *constraints@[j],
                        all[j],
                        quotient_degrees@[j],
                    ),
            decreases n - i,
        {
            let ldes = rest.remove(0);
            assert(ldes == all[i as int]);
            assert(single_rap_error(
                self.alpha,
                *constraints@[i as int],
                all[i as int],
                quotient_degrees@[i as int],
            ) is None);
            let data = self.single_rap_quotient_values(constraints[i], ldes, quotient_degrees[i]);
            inner.push(data);
            i += 1;
        }
        QuotientData { inner }
    }

    /// What is handed to the commitment scheme for the quotients: the
    /// chunks of all AIRs in one list, AIR after AIR, to be committed in
    /// one commitment, and the logarithm of the height of each chunk in
    /// the same order.
    pub fn commit(&self, data: QuotientData) -> (request: (Vec<u8>, Vec<QuotientChunk>))
        ensures
            request.1@ == all_chunks(data.inner@),
            request.0@.len() == request.1@.len(),
            forall|i: int|
                0 <= i < request.1@.len() ==> #[trigger] request.0@[i]
                    == request.1@[i].domain.log_size as u8,
    {
        let chunks = data.split();
        let n = chunks.len();
        let mut log_trace_heights: Vec<u8> = Vec::with_capacity(n);
        let mut i: usize = 0;
        while i < n
            invariant
                n == chunks@.len(),
                i <= n,
                log_trace_heights@.len() == i,
                forall|j: int|
                    0 <= j < i ==> #[trigger] log_trace_heights@[j]
                        == chunks@[j].domain.log_size as u8,
            decreases n - i,
        {
            let log_size = chunks[i].domain.log_size;
            log_trace_heights.push(#[verifier::truncate] (log_size as u8));
            i += 1;
        }
        (log_trace_heights, chunks)
    }
}

} // verus!
