use vstd::prelude::*;

use crate::field::extension::{ext_add, ext_mul, ext_mul_base, ExtElem};
use crate::prover::packed::{broadcast, copy_lanes, PackedExpr};
use crate::symbolic::dag::{topologically_sorted, SymbolicExpressionDag, SymbolicExpressionNode};
use crate::symbolic::evaluator::{eval_nodes, is_output_of, SymbolicEvaluator};
use crate::symbolic::evaluation::{
    constraint_value, folded_constraints, node_value, ExprValue, RowValues,
};
use crate::symbolic::variable::{Entry, SymbolicVariable};

verus! {

/// The columns of one matrix at the rows of one batch: for each column
/// the packed value of the local rows and, where the constraints look one
/// row ahead, that of the next rows.
pub struct ViewPair<T> {
    pub local: Vec<T>,
    pub next: Option<Vec<T>>,
}

impl<T> ViewPair<T> {
    pub fn new(local: Vec<T>, next: Option<Vec<T>>) -> (pair: Self)
        ensures
            pair.local == local,
            pair.next == next,
    {
        ViewPair { local, next }
    }

    /// Whether the view holds column `column_idx` at row offset
    /// `row_offset`.  Only the offsets zero and one exist.
    pub open spec fn holds(&self, row_offset: usize, column_idx: usize) -> bool {
        if row_offset == 0 {
            column_idx < self.local@.len()
        } else {
            row_offset == 1 && self.next is Some && column_idx < self.next->0@.len()
        }
    }

    pub open spec fn spec_get(&self, row_offset: usize, column_idx: usize) -> T {
        if row_offset == 0 {
            self.local@[column_idx as int]
        } else {
            self.next->0@[column_idx as int]
        }
    }

    /// The packed value of column `column_idx` at row offset `row_offset`.
    pub fn get(&self, row_offset: usize, column_idx: usize) -> (r: &T)
        requires
            self.holds(row_offset, column_idx),
        ensures
            *r == self.spec_get(row_offset, column_idx),
    {
        if row_offset == 0 {
            &self.local[column_idx]
        } else {
            match &self.next {
                Some(next) => &next[column_idx],
                None => {
                    proof {
                        assert(false);
                    }
                    &self.local[column_idx]
                },
            }
        }
    }
}

/// Whether every packed value of a view has `width` lanes.
pub open spec fn view_has_width<T>(view: ViewPair<Vec<T>>, width: nat) -> bool {
    &&& forall|c: int| 0 <= c < view.local@.len() ==> (#[trigger] view.local@[c])@.len() == width
    &&& view.next matches Some(next) ==> forall|c: int|
        0 <= c < next@.len() ==> (#[trigger] next@[c])@.len() == width
}

/// Evaluates the constraints of one AIR at the rows of one batch, all
/// rows at once: every value is packed, with one lane per row.
pub struct ProverConstraintEvaluator<'a> {
    pub preprocessed: &'a ViewPair<Vec<u32>>,
    pub partitioned_main: &'a [ViewPair<Vec<u32>>],
    pub after_challenge: &'a [ViewPair<Vec<ExtElem>>],
    pub challenges: &'a [Vec<ExtElem>],
    pub is_first_row: Vec<u32>,
    pub is_last_row: Vec<u32>,
    pub is_transition: Vec<u32>,
    pub public_values: &'a [u32],
    pub exposed_values_after_challenge: &'a [Vec<ExtElem>],
}

impl<'a> ProverConstraintEvaluator<'a> {
    /// The number of rows in the batch.
    pub open spec fn width(&self) -> nat {
        self.is_first_row@.len()
    }

    /// Every packed value that the evaluator holds has one lane per row
    /// of the batch.
    pub open spec fn well_formed(&self) -> bool {
        &&& self.is_last_row@.len() == self.width()
        &&& self.is_transition@.len() == self.width()
        &&& view_has_width(*self.preprocessed, self.width())
        &&& forall|p: int|
            0 <= p < self.partitioned_main@.len() ==> view_has_width(
                #[trigger] self.partitioned_main@[p],
                self.width(),
            )
        &&& forall|p: int|
            0 <= p < self.after_challenge@.len() ==> view_has_width(
                #[trigger] self.after_challenge@[p],
                self.width(),
            )
    }

    /// Whether the evaluator holds what the variable refers to.  Of the
    /// challenge phases only the first is looked at.
    pub open spec fn supports(&self, v: SymbolicVariable) -> bool {
        match v.entry {
            Entry::Preprocessed { offset } => self.preprocessed.holds(offset, v.index),
            Entry::Main { part_index, offset } => part_index < self.partitioned_main@.len()
                && self.partitioned_main@[part_index as int].holds(offset, v.index),
            Entry::Public => v.index < self.public_values@.len(),
            Entry::Permutation { offset } => 0 < self.after_challenge@.len()
                && self.after_challenge@[0].holds(offset, v.index),
            Entry::Challenge => 0 < self.challenges@.len() && v.index < self.challenges@[0]@.len(),
            Entry::Exposed => 0 < self.exposed_values_after_challenge@.len() && v.index
                < self.exposed_values_after_challenge@[0]@.len(),
        }
    }

    /// Whether the evaluator holds what every variable among the nodes
    /// refers to.
    pub open spec fn supports_all(&self, nodes: Seq<SymbolicExpressionNode>) -> bool {
        forall|i: int|
            0 <= i < nodes.len() ==> (#[trigger] nodes[i] matches SymbolicExpressionNode::Variable(
                v,
            ) ==> self.supports(v))
    }

    /// The value of a variable at the `j`-th row of the batch: a cell of
    /// a trace matrix or a public value in the base field; a cell of the
    /// after-challenge trace, a challenge or an exposed value in the
    /// extension field.
    pub open spec fn variable_at(&self, v: SymbolicVariable, j: int) -> ExprValue {
        match v.entry {
            Entry::Preprocessed { offset } => ExprValue::Val(
                self.preprocessed.spec_get(offset, v.index)@[j],
            ),
            Entry::Main { part_index, offset } => ExprValue::Val(
                self.partitioned_main@[part_index as int].spec_get(offset, v.index)@[j],
            ),
            Entry::Public => ExprValue::Val(self.public_values@[v.index as int]),
            Entry::Permutation { offset } => ExprValue::Challenge(
                self.after_challenge@[0].spec_get(offset, v.index)@[j],
            ),
            Entry::Challenge => ExprValue::Challenge(self.challenges@[0]@[v.index as int]),
            Entry::Exposed => ExprValue::Challenge(
                self.exposed_values_after_challenge@[0]@[v.index as int],
            ),
        }
    }

    /// What the constraints are evaluated on at the `j`-th row of the
    /// batch.
    pub open spec fn row(&self, j: int) -> RowValues {
        RowValues {
            constant: |c: u32| ExprValue::Val(c),
            variable: |v: SymbolicVariable| self.variable_at(v, j),
            is_first_row: ExprValue::Val(self.is_first_row@[j]),
            is_last_row: ExprValue::Val(self.is_last_row@[j]),
            is_transition: ExprValue::Val(self.is_transition@[j]),
        }
    }

    /// Whether `value` is the packed value of the node at position `i`.
    pub open spec fn is_node_value(
        &self,
        nodes: Seq<SymbolicExpressionNode>,
        i: int,
        value: PackedExpr,
    ) -> bool {
        &&& value.width() == self.width()
        &&& forall|j: int|
            0 <= j < self.width() ==> #[trigger] value.lane(j) == node_value(nodes, i, self.row(j))
    }

    /// Interprets the nodes in order into `exprs`, which afterwards holds
    /// the packed value of each node at its position.  What `exprs` held
    /// before is dropped; its allocation is used again.
    pub fn eval_nodes_mut(&self, nodes: &[SymbolicExpressionNode], exprs: &mut Vec<PackedExpr>)
        requires
            self.well_formed(),
            topologically_sorted(nodes@),
            self.supports_all(nodes@),
        ensures
            final(exprs)@.len() == nodes@.len(),
            forall|i: int|
                0 <= i < nodes@.len() ==> self.is_node_value(nodes@, i, #[trigger] final(exprs)@[i]),
    {
        eval_nodes(self, nodes, exprs);
        proof {
            assert forall|i: int| 0 <= i < nodes@.len() implies self.is_node_value(
                nodes@,
                i,
                #[trigger] exprs@[i],
            ) by {
                assert(is_output_of(self, nodes@, i, &exprs@[i]));
                assert forall|j: int| 0 <= j < self.width() implies #[trigger] exprs@[i].lane(j)
                    == node_value(nodes@, i, self.row(j)) by {
                    assert(self.denotes(&exprs@[i], j) == node_value(
                        nodes@,
                        i,
                        self.row_values(j),
                    ));
                }
            }
        }
    }

    /// Folds the constraints into one packed extension field value: the
    /// sum over the constraints `k` of `alpha_powers[k]` times the value of
    /// the `k`-th constraint.
    ///
    /// With the powers of the folding challenge in `alpha_powers`, highest
    /// power first, this is the random linear combination of the
    /// constraints.  `exprs` is working space.
    pub fn accumulate(
        &self,
        constraints: &SymbolicExpressionDag,
        alpha_powers: &[ExtElem],
        exprs: &mut Vec<PackedExpr>,
    ) -> (accumulator: Vec<ExtElem>)
        requires
            self.well_formed(),
            constraints.well_formed(),
            self.supports_all(constraints.nodes@),
            alpha_powers@.len() >= constraints.constraint_idx@.len(),
        ensures
            accumulator@.len() == self.width(),
            forall|j: int|
                0 <= j < self.width() ==> #[trigger] accumulator@[j] == folded_constraints(
                    *constraints,
                    alpha_powers@,
                    self.row(j),
                    constraints.constraint_idx@.len() as int,
                ),
    {
        self.eval_nodes_mut(constraints.nodes.as_slice(), exprs);
        let width = self.is_first_row.len();
        let count = constraints.constraint_idx.len();
        let mut accumulator: Vec<ExtElem> = broadcast(ExtElem::zero(), width);
        let mut k: usize = 0;
        while k < count
            invariant
                width == self.width(),
                count == constraints.constraint_idx@.len(),
                k <= count,
                alpha_powers@.len() >= count,
                constraints.well_formed(),
                exprs@.len() == constraints.nodes@.len(),
                forall|i: int|
                    0 <= i < constraints.nodes@.len() ==> self.is_node_value(
                        constraints.nodes@,
                        i,
                        #[trigger] exprs@[i],
                    ),
                accumulator@.len() == width,
                forall|j: int|
                    0 <= j < width ==> #[trigger] accumulator@[j] == folded_constraints(
                        *constraints,
                        alpha_powers@,
                        self.row(j),
                        k as int,
                    ),
            decreases count - k,
        {
            let alpha_pow = alpha_powers[k];
            let node_idx = constraints.constraint_idx[k];
            assert(self.is_node_value(constraints.nodes@, node_idx as int, exprs@[node_idx as int]));
            let ghost before = accumulator@;
            let mut j: usize = 0;
            while j < width
                invariant
                    width == self.width(),
                    j <= width,
                    k < count,
                    count == constraints.constraint_idx@.len(),
                    alpha_powers@.len() >= count,
                    alpha_pow == alpha_powers@[k as int],
                    node_idx == constraints.constraint_idx@[k as int],
                    node_idx < exprs@.len(),
                    self.is_node_value(constraints.nodes@, node_idx as int, exprs@[node_idx as int]),
                    accumulator@.len() == width,
                    before.len() == width,
                    forall|l: int| j <= l < width ==> accumulator@[l] == before[l],
                    forall|l: int|
                        0 <= l < j ==> #[trigger] accumulator@[l] == before[l].spec_add(
                            exprs@[node_idx as int].lane(l).scaled_by(alpha_pow),
                        ),
                decreases width - j,
            {
                let term = match &exprs[node_idx] {
                    PackedExpr::Val(x) => ext_mul_base(alpha_pow, x[j]),
                    PackedExpr::Challenge(x) => ext_mul(alpha_pow, x[j]),
                };
                let sum = ext_add(accumulator[j], term);
                accumulator.set(j, sum);
                j += 1;
            }
            proof {
                assert forall|l: int| 0 <= l < width implies #[trigger] accumulator@[l]
                    == folded_constraints(*constraints, alpha_powers@, self.row(l), k as int + 1) by {
                    assert(exprs@[node_idx as int].lane(l) == node_value(
                        constraints.nodes@,
                        node_idx as int,
                        self.row(l),
                    ));
                    assert(before[l] == folded_constraints(
                        *constraints,
                        alpha_powers@,
                        self.row(l),
                        k as int,
                    ));
                    assert(constraint_value(*constraints, k as int, self.row(l)) == node_value(
                        constraints.nodes@,
                        node_idx as int,
                        self.row(l),
                    ));
                }
            }
            k += 1;
        }
        accumulator
    }
}

impl<'a> SymbolicEvaluator for ProverConstraintEvaluator<'a> {
    type Output = PackedExpr;

    open spec fn ready(&self) -> bool {
        self.well_formed()
    }

    open spec fn lanes(&self) -> nat {
        self.width()
    }

    open spec fn row_values(&self, j: int) -> RowValues {
        self.row(j)
    }

    open spec fn can_eval(&self, v: SymbolicVariable) -> bool {
        self.supports(v)
    }

    open spec fn valid(&self, value: &PackedExpr) -> bool {
        value.width() == self.width()
    }

    open spec fn denotes(&self, value: &PackedExpr, j: int) -> ExprValue {
        value.lane(j)
    }

    /// A constant, in every lane, packed in the base field.
    fn eval_const(&self, c: u32) -> (r: PackedExpr)
        ensures
            !r.spec_is_challenge(),
    {
        PackedExpr::Val(broadcast(c, self.is_first_row.len()))
    }

    /// The packed value of a variable: packed in the base field for a
    /// cell of the preprocessed or main trace and for a public value,
    /// packed in the extension field for a cell of the after-challenge
    /// trace, a challenge and an exposed value.
    fn eval_var(&self, symbolic_var: SymbolicVariable) -> (r: PackedExpr)
        ensures
            r.spec_is_challenge() == (symbolic_var.entry is Permutation || symbolic_var.entry
                is Challenge || symbolic_var.entry is Exposed),
    {
        let index = symbolic_var.index;
        let width = self.is_first_row.len();
        match symbolic_var.entry {
            Entry::Preprocessed { offset } => PackedExpr::Val(
                copy_lanes(self.preprocessed.get(offset, index)),
            ),
            Entry::Main { part_index, offset } => PackedExpr::Val(
                copy_lanes(self.partitioned_main[part_index].get(offset, index)),
            ),
            Entry::Public => PackedExpr::Val(broadcast(self.public_values[index], width)),
            Entry::Permutation { offset } => PackedExpr::Challenge(
                copy_lanes(self.after_challenge[0].get(offset, index)),
            ),
            Entry::Challenge => PackedExpr::Challenge(broadcast(self.challenges[0][index], width)),
            Entry::Exposed => PackedExpr::Challenge(
                broadcast(self.exposed_values_after_challenge[0][index], width),
            ),
        }
    }

    fn eval_is_first_row(&self) -> (r: PackedExpr)
        ensures
            !r.spec_is_challenge(),
    {
        PackedExpr::Val(copy_lanes(&self.is_first_row))
    }

    fn eval_is_last_row(&self) -> (r: PackedExpr)
        ensures
            !r.spec_is_challenge(),
    {
        PackedExpr::Val(copy_lanes(&self.is_last_row))
    }

    fn eval_is_transition(&self) -> (r: PackedExpr)
        ensures
            !r.spec_is_challenge(),
    {
        PackedExpr::Val(copy_lanes(&self.is_transition))
    }

    fn add(&self, x: &PackedExpr, y: &PackedExpr) -> (r: PackedExpr)
        ensures
            r.spec_is_challenge() == (x.spec_is_challenge() || y.spec_is_challenge()),
    {
        x.add(y)
    }

    fn sub(&self, x: &PackedExpr, y: &PackedExpr) -> (r: PackedExpr)
        ensures
            r.spec_is_challenge() == (x.spec_is_challenge() || y.spec_is_challenge()),
    {
        x.sub(y)
    }

    fn mul(&self, x: &PackedExpr, y: &PackedExpr) -> (r: PackedExpr)
        ensures
            r.spec_is_challenge() == (x.spec_is_challenge() || y.spec_is_challenge()),
    {
        x.mul(y)
    }

    fn neg(&self, x: &PackedExpr) -> (r: PackedExpr)
        ensures
            r.spec_is_challenge() == x.spec_is_challenge(),
    {
        x.neg()
    }
}

} // verus!
