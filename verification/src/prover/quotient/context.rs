use vstd::prelude::*;

use crate::domain::Selectors;
use crate::field::base;
use crate::field::extension::ExtElem;
use crate::matrix::{matrix_width, spec_entry, spec_height, BaseMatrix};
use crate::prover::quotient::packing::spec_ext_entry;
use crate::symbolic::dag::{SymbolicExpressionDag, SymbolicExpressionNode};
use crate::symbolic::evaluation::{folded_constraints, ExprValue, RowValues};
use crate::symbolic::variable::{Entry, SymbolicVariable};

verus! {

/// Why the quotient of an AIR cannot be computed from what was given.
#[derive(Clone, Copy, Debug, PartialEq, Eq, Structural, Hash)]
pub enum QuotientError {
    /// The constraints are not a sound DAG, or one of them refers to a
    /// column, a value or a row offset that does not exist, or the domains
    /// do not fit each other.
    Structure,
    /// An extended matrix has fewer rows than the quotient domain has
    /// points, or there are fewer powers of the folding challenge than
    /// constraints.
    Capacity,
    /// A constraint refers to the after-challenge trace, to a challenge or
    /// to an exposed value, and no challenge phase was given.
    Absence,
}

/// All that the quotient of one AIR is computed from: its constraints,
/// its matrices extended to the quotient domain, the values shared by all
/// rows, the selectors on the quotient domain and the factors by which
/// the constraints are folded.
pub struct QuotientContext<'a> {
    pub constraints: &'a SymbolicExpressionDag,
    pub preprocessed: Option<&'a BaseMatrix>,
    pub partitioned_main: &'a [BaseMatrix],
    /// For each challenge phase, the trace made after the challenges were
    /// drawn, every extension field element flattened to its four
    /// coefficients.
    pub after_challenge: &'a [BaseMatrix],
    /// For each challenge phase, the challenges drawn.
    pub challenges: &'a [Vec<ExtElem>],
    pub alpha_powers: &'a [ExtElem],
    pub public_values: &'a [u32],
    /// For each challenge phase, the values exposed after it.
    pub exposed_values_after_challenge: &'a [Vec<ExtElem>],
    pub selectors: &'a Selectors,
    pub trace_height: usize,
    pub quotient_degree: usize,
}

/// What the quotient of one AIR is a function of: the content of a
/// [`QuotientContext`], the selectors by their values.
pub struct QuotientView {
    pub constraints: SymbolicExpressionDag,
    pub preprocessed: Option<BaseMatrix>,
    pub partitioned_main: Seq<BaseMatrix>,
    pub after_challenge: Seq<BaseMatrix>,
    pub challenges: Seq<Vec<ExtElem>>,
    pub alpha_powers: Seq<ExtElem>,
    pub public_values: Seq<u32>,
    pub exposed_values_after_challenge: Seq<Vec<ExtElem>>,
    pub is_first_row: Seq<u32>,
    pub is_last_row: Seq<u32>,
    pub is_transition: Seq<u32>,
    pub inv_zeroifier: Seq<u32>,
    pub trace_height: nat,
    pub quotient_degree: nat,
}

/// The row offset of the variable at a node, and zero for every other
/// node and for a variable that is no cell of a trace.
pub open spec fn node_offset(node: SymbolicExpressionNode) -> usize {
    match node {
        SymbolicExpressionNode::Variable(v) => match v.entry.spec_offset() {
            Some(offset) => offset,
            None => 0,
        },
        _ => 0,
    }
}

/// The largest row offset among the first `n` nodes.
pub open spec fn rotation(nodes: Seq<SymbolicExpressionNode>, n: int) -> usize
    decreases n,
{
    if n <= 0 {
        0
    } else if node_offset(nodes[n - 1]) > rotation(nodes, n - 1) {
        node_offset(nodes[n - 1])
    } else {
        rotation(nodes, n - 1)
    }
}

/// No node among the first `n` has a row offset above their rotation.
pub proof fn lemma_rotation_bounds(nodes: Seq<SymbolicExpressionNode>, n: int, i: int)
    requires
        0 <= i < n <= nodes.len(),
    ensures
        node_offset(nodes[i]) <= rotation(nodes, n),
    decreases n,
{
    if i < n - 1 {
        lemma_rotation_bounds(nodes, n - 1, i);
    }
}

impl QuotientView {
    /// The number of points of the quotient domain.
    pub open spec fn quotient_size(self) -> nat {
        self.trace_height * self.quotient_degree
    }

    /// What is wrong with a variable, if anything.
    pub open spec fn problem(self, v: SymbolicVariable) -> Option<QuotientError> {
        match v.entry {
            Entry::Preprocessed { offset } => match self.preprocessed {
                None => Some(QuotientError::Structure),
                Some(m) => if offset > 1 || v.index >= matrix_width(m) {
                    Some(QuotientError::Structure)
                } else if spec_height(m) < self.quotient_size() {
                    Some(QuotientError::Capacity)
                } else {
                    None
                },
            },
            Entry::Main { part_index, offset } => if offset > 1 || part_index
                >= self.partitioned_main.len() || v.index >= matrix_width(
                self.partitioned_main[part_index as int],
            ) {
                Some(QuotientError::Structure)
            } else {
                None
            },
            Entry::Public => if v.index >= self.public_values.len() {
                Some(QuotientError::Structure)
            } else {
                None
            },
            Entry::Permutation { offset } => if self.after_challenge.len() == 0 {
                Some(QuotientError::Absence)
            } else if offset > 1 || v.index >= matrix_width(self.after_challenge[0]) / 4 {
                Some(QuotientError::Structure)
            } else {
                None
            },
            Entry::Challenge => if self.challenges.len() == 0 {
                Some(QuotientError::Absence)
            } else if v.index >= self.challenges[0]@.len() {
                Some(QuotientError::Structure)
            } else {
                None
            },
            Entry::Exposed => if self.exposed_values_after_challenge.len() == 0 {
                Some(QuotientError::Absence)
            } else if v.index >= self.exposed_values_after_challenge[0]@.len() {
                Some(QuotientError::Structure)
            } else {
                None
            },
        }
    }

    /// What is wrong with a node, if anything.
    pub open spec fn node_problem(self, node: SymbolicExpressionNode) -> Option<QuotientError> {
        match node {
            SymbolicExpressionNode::Variable(v) => self.problem(v),
            _ => None,
        }
    }

    /// What is wrong with the first of the first `n` nodes that has a
    /// problem, if any has.
    pub open spec fn first_problem(self, n: int) -> Option<QuotientError>
        decreases n,
    {
        if n <= 0 {
            None
        } else {
            match self.first_problem(n - 1) {
                Some(e) => Some(e),
                None => self.node_problem(self.constraints.nodes@[n - 1]),
            }
        }
    }

    /// Whether every extended main and after-challenge matrix has a row
    /// for each point of the quotient domain.
    pub open spec fn heights_cover(self) -> bool {
        &&& forall|p: int|
            0 <= p < self.partitioned_main.len() ==> spec_height(
                #[trigger] self.partitioned_main[p],
            ) >= self.quotient_size()
        &&& forall|p: int|
            0 <= p < self.after_challenge.len() ==> spec_height(
                #[trigger] self.after_challenge[p],
            ) >= self.quotient_size()
    }

    /// What is checked before any row is evaluated, in this order: the
    /// DAG is sound; the matrices cover the quotient domain and there is a
    /// folding factor for every constraint; every variable refers to
    /// something that is there.
    pub open spec fn validation_error(self) -> Option<QuotientError> {
        if !self.constraints.well_formed() {
            Some(QuotientError::Structure)
        } else if !self.heights_cover() || self.alpha_powers.len()
            < self.constraints.constraint_idx@.len() {
            Some(QuotientError::Capacity)
        } else {
            self.first_problem(self.constraints.nodes@.len() as int)
        }
    }

    /// Whether the constraints look at a next row.
    pub open spec fn looks_ahead(self) -> bool {
        rotation(self.constraints.nodes@, self.constraints.nodes@.len() as int) > 0
    }

    /// The sizes are those of a trace domain and of a quotient domain,
    /// and there is a selector value for each point of the latter.
    pub open spec fn sized(self) -> bool {
        &&& 0 < self.trace_height
        &&& 0 < self.quotient_degree
        &&& self.trace_height * self.quotient_degree <= 0x800_0000
        &&& self.is_first_row.len() == self.quotient_size()
        &&& self.is_last_row.len() == self.quotient_size()
        &&& self.is_transition.len() == self.quotient_size()
        &&& self.inv_zeroifier.len() == self.quotient_size()
    }

    /// Nothing stands in the way of evaluating the constraints.
    pub open spec fn ready(self) -> bool {
        &&& self.sized()
        &&& self.validation_error() is None
    }

    /// Without a problem among the first `n` nodes, none of them has one.
    pub proof fn lemma_no_problem(self, n: int, i: int)
        requires
            0 <= i < n,
            self.first_problem(n) is None,
        ensures
            self.node_problem(self.constraints.nodes@[i]) is None,
        decreases n,
    {
        if i < n - 1 {
            self.lemma_no_problem(n - 1, i);
        }
    }

    /// The value of a variable where the local row is `local` and the
    /// next row is `next`.
    pub open spec fn variable_at(self, v: SymbolicVariable, local: int, next: int) -> ExprValue {
        match v.entry {
            Entry::Preprocessed { offset } => ExprValue::Val(
                spec_entry(
                    self.preprocessed->0,
                    if offset == 0 {
                        local
                    } else {
                        next
                    },
                    v.index as int,
                ),
            ),
            Entry::Main { part_index, offset } => ExprValue::Val(
                spec_entry(
                    self.partitioned_main[part_index as int],
                    if offset == 0 {
                        local
                    } else {
                        next
                    },
                    v.index as int,
                ),
            ),
            Entry::Public => ExprValue::Val(self.public_values[v.index as int]),
            Entry::Permutation { offset } => ExprValue::Challenge(
                spec_ext_entry(
                    self.after_challenge[0],
                    if offset == 0 {
                        local
                    } else {
                        next
                    },
                    v.index as int,
                ),
            ),
            Entry::Challenge => ExprValue::Challenge(self.challenges[0]@[v.index as int]),
            Entry::Exposed => ExprValue::Challenge(
                self.exposed_values_after_challenge[0]@[v.index as int],
            ),
        }
    }

    /// What the constraints are evaluated on where the local row is
    /// `local` and the next row is `next`.
    pub open spec fn row_values(self, local: int, next: int) -> RowValues {
        RowValues {
            constant: |c: u32| ExprValue::Val(c),
            variable: |v: SymbolicVariable| self.variable_at(v, local, next),
            is_first_row: ExprValue::Val(self.is_first_row[local]),
            is_last_row: ExprValue::Val(self.is_last_row[local]),
            is_transition: ExprValue::Val(self.is_transition[local]),
        }
    }

    /// The folded constraints where the local row is `local` and the next
    /// row is `next`.
    pub open spec fn folded_at(self, local: int, next: int) -> ExtElem {
        folded_constraints(
            self.constraints,
            self.alpha_powers,
            self.row_values(local, next),
            self.constraints.constraint_idx@.len() as int,
        )
    }

    /// The quotient where the local row is `local` and the next row is
    /// `next`: the folded constraints times the inverse of the zeroifier
    /// at the local row.
    pub open spec fn quotient_at(self, local: int, next: int) -> ExtElem {
        self.folded_at(local, next).spec_mul_base(self.inv_zeroifier[local])
    }

    /// Multiplying the quotient at a point by the zeroifier there, the
    /// value whose inverse the selectors hold, gives the folded
    /// constraints back.
    pub proof fn lemma_quotient_times_zeroifier(self, local: int, next: int, zeroifier: u32)
        requires
            base::spec_mul(self.inv_zeroifier[local], zeroifier) == 1,
        ensures
            self.quotient_at(local, next).spec_mul_base(zeroifier) == self.folded_at(local, next),
    {
        let folded = self.folded_at(local, next);
        let inverse = self.inv_zeroifier[local];
        assert(folded.is_canonical()) by {
            reveal_with_fuel(folded_constraints, 2);
        }
        base::lemma_mul_inverse_cancels(folded.c0, inverse, zeroifier);
        base::lemma_mul_inverse_cancels(folded.c1, inverse, zeroifier);
        base::lemma_mul_inverse_cancels(folded.c2, inverse, zeroifier);
        base::lemma_mul_inverse_cancels(folded.c3, inverse, zeroifier);
    }

    /// The row of the quotient domain that is row `r` of the coset
    /// `chunk`: the cosets interleave, so it is `chunk` plus
    /// `quotient_degree` times `r`.  Row numbers of the coset are taken
    /// modulo its height.
    pub open spec fn local_row(self, chunk: int, r: int) -> int {
        chunk + (r % (self.trace_height as int)) * self.quotient_degree
    }

    /// The row of the quotient domain that follows row `r` of the coset
    /// `chunk` in the coset; the first row follows the last.
    pub open spec fn next_row(self, chunk: int, r: int) -> int {
        self.local_row(chunk, r + 1)
    }

    /// The quotient at row `r` of the coset `chunk`.
    pub open spec fn chunk_value(self, chunk: int, r: int) -> ExtElem {
        self.quotient_at(self.local_row(chunk, r), self.next_row(chunk, r))
    }

    /// A problem among the first `n` nodes is the first problem of every
    /// longer initial part too.
    pub proof fn lemma_first_problem_stays(self, n: int, m: int)
        requires
            0 <= n <= m,
            self.first_problem(n) is Some,
        ensures
            self.first_problem(m) == self.first_problem(n),
        decreases m,
    {
        if n < m {
            self.lemma_first_problem_stays(n, m - 1);
        }
    }
}

impl<'a> QuotientContext<'a> {
    /// The content of the context.
    pub open spec fn view(&self) -> QuotientView {
        QuotientView {
            constraints: *self.constraints,
            preprocessed: match self.preprocessed {
                Some(m) => Some(*m),
                None => None,
            },
            partitioned_main: self.partitioned_main@,
            after_challenge: self.after_challenge@,
            challenges: self.challenges@,
            alpha_powers: self.alpha_powers@,
            public_values: self.public_values@,
            exposed_values_after_challenge: self.exposed_values_after_challenge@,
            is_first_row: self.selectors.is_first_row@,
            is_last_row: self.selectors.is_last_row@,
            is_transition: self.selectors.is_transition@,
            inv_zeroifier: self.selectors.inv_zeroifier@,
            trace_height: self.trace_height as nat,
            quotient_degree: self.quotient_degree as nat,
        }
    }

    /// Checks a variable.
    pub fn check_variable(&self, v: SymbolicVariable) -> (r: Option<QuotientError>)
        requires
            self.trace_height * self.quotient_degree <= usize::MAX,
        ensures
            r == self@.problem(v),
    {
        let quotient_size = self.trace_height * self.quotient_degree;
        match v.entry {
            Entry::Preprocessed { offset } => match self.preprocessed {
                None => Some(QuotientError::Structure),
                Some(m) => if offset > 1 || v.index >= m.width() {
                    Some(QuotientError::Structure)
                } else if m.height() < quotient_size {
                    Some(QuotientError::Capacity)
                } else {
                    None
                },
            },
            Entry::Main { part_index, offset } => if offset > 1 || part_index
                >= self.partitioned_main.len() || v.index
                >= self.partitioned_main[part_index].width() {
                Some(QuotientError::Structure)
            } else {
                None
            },
            Entry::Public => if v.index >= self.public_values.len() {
                Some(QuotientError::Structure)
            } else {
                None
            },
            Entry::Permutation { offset } => if self.after_challenge.len() == 0 {
                Some(QuotientError::Absence)
            } else if offset > 1 || v.index >= self.after_challenge[0].width() / 4 {
                Some(QuotientError::Structure)
            } else {
                None
            },
            Entry::Challenge => if self.challenges.len() == 0 {
                Some(QuotientError::Absence)
            } else if v.index >= self.challenges[0].len() {
                Some(QuotientError::Structure)
            } else {
                None
            },
            Entry::Exposed => if self.exposed_values_after_challenge.len() == 0 {
                Some(QuotientError::Absence)
            } else if v.index >= self.exposed_values_after_challenge[0].len() {
                Some(QuotientError::Structure)
            } else {
                None
            },
        }
    }

    /// Whether every extended main and after-challenge matrix has a row
    /// for each point of the quotient domain.
    pub fn check_heights(&self) -> (ok: bool)
        requires
            self.trace_height * self.quotient_degree <= usize::MAX,
        ensures
            ok == self@.heights_cover(),
    {
        let quotient_size = self.trace_height * self.quotient_degree;
        let mut p: usize = 0;
        while p < self.partitioned_main.len()
            invariant
                quotient_size == self@.quotient_size(),
                p <= self.partitioned_main@.len(),
                forall|q: int|
                    0 <= q < p ==> spec_height(#[trigger] self.partitioned_main@[q])
                        >= quotient_size,
            decreases self.partitioned_main@.len() - p,
        {
            if self.partitioned_main[p].height() < quotient_size {
                assert(spec_height(self@.partitioned_main[p as int]) < self@.quotient_size());
                return false;
            }
            p += 1;
        }
        let mut p: usize = 0;
        while p < self.after_challenge.len()
            invariant
                quotient_size == self@.quotient_size(),
                p <= self.after_challenge@.len(),
                forall|q: int|
                    0 <= q < self.partitioned_main@.len() ==> spec_height(
                        #[trigger] self.partitioned_main@[q],
                    ) >= quotient_size,
                forall|q: int|
                    0 <= q < p ==> spec_height(#[trigger] self.after_challenge@[q])
                        >= quotient_size,
            decreases self.after_challenge@.len() - p,
        {
            if self.after_challenge[p].height() < quotient_size {
                assert(spec_height(self@.after_challenge[p as int]) < self@.quotient_size());
                return false;
            }
            p += 1;
        }
        true
    }

    /// Whether the constraints look at a next row, so that the next rows
    /// have to be packed.
    pub fn needs_next(&self) -> (r: bool)
        ensures
            r == self@.looks_ahead(),
    {
        let n = self.constraints.nodes.len();
        let mut rotation_so_far: usize = 0;
        let mut i: usize = 0;
        while i < n
            invariant
                n == self.constraints.nodes@.len(),
                i <= n,
                rotation_so_far == rotation(self.constraints.nodes@, i as int),
            decreases n - i,
        {
            match self.constraints.nodes[i] {
                SymbolicExpressionNode::Variable(v) => {
                    match v.entry.offset() {
                        Some(offset) => {
                            if offset > rotation_so_far {
                                rotation_so_far = offset;
                            }
                        },
                        None => {},
                    }
                },
                _ => {},
            }
            i += 1;
        }
        rotation_so_far > 0
    }

    /// The scan before any row is evaluated.  It says what is wrong with
    /// the input, if anything is, and else whether the constraints look at
    /// a next row, so that the next rows are packed only where they are
    /// read.
    pub fn validate(&self) -> (r: Result<bool, QuotientError>)
        requires
            self.trace_height * self.quotient_degree <= usize::MAX,
        ensures
            match r {
                Ok(needs_next) => self@.validation_error() is None && needs_next
                    == self@.looks_ahead(),
                Err(e) => self@.validation_error() == Some(e),
            },
    {
        if !self.constraints.is_well_formed() {
            return Err(QuotientError::Structure);
        }
        if !self.check_heights() || self.alpha_powers.len() < self.constraints.constraint_idx.len() {
            return Err(QuotientError::Capacity);
        }
        let n = self.constraints.nodes.len();
        let mut rotation_so_far: usize = 0;
        let mut i: usize = 0;
        while i < n
            invariant
                n == self.constraints.nodes@.len(),
                i <= n,
                self.trace_height * self.quotient_degree <= usize::MAX,
                self.constraints.well_formed(),
                self@.heights_cover(),
                self.alpha_powers@.len() >= self.constraints.constraint_idx@.len(),
                self@.first_problem(i as int) is None,
                rotation_so_far == rotation(self.constraints.nodes@, i as int),
            decreases n - i,
        {
            match self.constraints.nodes[i] {
                SymbolicExpressionNode::Variable(v) => {
                    match self.check_variable(v) {
                        Some(e) => {
                            proof {
                                assert(self@.node_problem(self.constraints.nodes@[i as int])
                                    == Some(e));
                                assert(self@.first_problem(i as int + 1) == Some(e));
                                self@.lemma_first_problem_stays(i as int + 1, n as int);
                            }
                            return Err(e);
                        },
                        None => {},
                    }
                    match v.entry.offset() {
                        Some(offset) => {
                            if offset > rotation_so_far {
                                rotation_so_far = offset;
                            }
                        },
                        None => {},
                    }
                },
                _ => {},
            }
            i += 1;
        }
        Ok(rotation_so_far > 0)
    }
}

} // verus!
