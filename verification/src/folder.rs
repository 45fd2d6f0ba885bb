use vstd::prelude::*;

use crate::field::extension::{ext_add, ext_lift, ext_mul, ext_neg, ext_sub, ExtElem};
use crate::prover::evaluator::ViewPair;
use crate::symbolic::dag::{
    build_symbolic_expr_dag, expr_at, occurs_in_some, SymbolicExpressionNode,
};
use crate::symbolic::evaluator::{eval_nodes, is_output_of, SymbolicEvaluator};
use crate::symbolic::evaluation::{
    expr_value, lemma_node_value_is_expr_value, node_value, ExprValue, RowValues,
};
use crate::symbolic::expression::SymbolicExpression;
use crate::symbolic::variable::{Entry, SymbolicVariable};

verus! {

/// Folds the constraints of one AIR at the point where the verifier
/// checks them.  Every value is an element of the extension field: the
/// opened values of the trace polynomials, the selectors at the point,
/// and the public values and constants lifted to the extension field.
pub struct GenericVerifierConstraintFolder<'a> {
    pub preprocessed: ViewPair<ExtElem>,
    pub partitioned_main: Vec<ViewPair<ExtElem>>,
    pub after_challenge: Vec<ViewPair<ExtElem>>,
    pub challenges: &'a [Vec<ExtElem>],
    pub is_first_row: ExtElem,
    pub is_last_row: ExtElem,
    pub is_transition: ExtElem,
    pub alpha: ExtElem,
    pub accumulator: ExtElem,
    pub public_values: &'a [u32],
    pub exposed_values_after_challenge: &'a [Vec<ExtElem>],
}

/// The accumulator after the values were folded into it one after the
/// other: each time the accumulator is multiplied by `alpha` and the
/// value is added.
pub open spec fn horner_fold(accumulator: ExtElem, alpha: ExtElem, values: Seq<ExtElem>) -> ExtElem
    decreases values.len(),
{
    if values.len() == 0 {
        accumulator
    } else {
        horner_fold(accumulator, alpha, values.drop_last()).spec_mul(alpha).spec_add(values.last())
    }
}

/// The extension field element of a value that is in the extension field.
pub open spec fn challenge_of(value: ExprValue) -> ExtElem {
    match value {
        ExprValue::Challenge(x) => x,
        ExprValue::Val(x) => ExtElem::spec_lift(x),
    }
}

impl<'a> GenericVerifierConstraintFolder<'a> {
    /// Whether the folder holds what the variable refers to.  Of the
    /// challenge phases only the first is looked at.
    pub open spec fn supports(&self, v: SymbolicVariable) -> bool {
        match v.entry {
            Entry::Preprocessed { offset } => self.preprocessed.holds(offset, v.index),
            Entry::Main { part_index, offset } => part_index < self.partitioned_main@.len()
                && self.partitioned_main@[part_index as int].holds(offset, v.index),
            Entry::Public => v.index < self.public_values@.len(),
            Entry::Permutation { offset } => 0 < self.after_challenge@.len()
                && self.after_challenge@[0].holds(offset, v.index),
            Entry::Challenge => 0 < self.challenges@.len() && v.index < self.challenges@[0]@.len(),
            Entry::Exposed => 0 < self.exposed_values_after_challenge@.len() && v.index
                < self.exposed_values_after_challenge@[0]@.len(),
        }
    }

    /// Whether the folder holds what every variable of the expression
    /// refers to.
    pub open spec fn supports_expr(&self, expr: SymbolicExpression) -> bool
        decreases expr,
    {
        match expr {
            SymbolicExpression::Variable(v) => self.supports(v),
            SymbolicExpression::Add { x, y, .. } => self.supports_expr(*x) && self.supports_expr(
                *y,
            ),
            SymbolicExpression::Sub { x, y, .. } => self.supports_expr(*x) && self.supports_expr(
                *y,
            ),
            SymbolicExpression::Mul { x, y, .. } => self.supports_expr(*x) && self.supports_expr(
                *y,
            ),
            SymbolicExpression::Neg { x, .. } => self.supports_expr(*x),
            _ => true,
        }
    }

    /// The value of a variable.
    pub open spec fn variable_value(&self, v: SymbolicVariable) -> ExtElem {
        match v.entry {
            Entry::Preprocessed { offset } => self.preprocessed.spec_get(offset, v.index),
            Entry::Main { part_index, offset } => self.partitioned_main@[part_index as int].spec_get(
                offset,
                v.index,
            ),
            Entry::Public => ExtElem::spec_lift(self.public_values@[v.index as int]),
            Entry::Permutation { offset } => self.after_challenge@[0].spec_get(offset, v.index),
            Entry::Challenge => self.challenges@[0]@[v.index as int],
            Entry::Exposed => self.exposed_values_after_challenge@[0]@[v.index as int],
        }
    }

    /// What the constraints are evaluated on.
    pub open spec fn row(&self) -> RowValues {
        RowValues {
            constant: |c: u32| ExprValue::Challenge(ExtElem::spec_lift(c)),
            variable: |v: SymbolicVariable| ExprValue::Challenge(self.variable_value(v)),
            is_first_row: ExprValue::Challenge(self.is_first_row),
            is_last_row: ExprValue::Challenge(self.is_last_row),
            is_transition: ExprValue::Challenge(self.is_transition),
        }
    }

    /// The values of the expressions, in order.
    pub open spec fn values_of(&self, constraints: Seq<SymbolicExpression>) -> Seq<ExtElem> {
        Seq::new(constraints.len(), |k: int| challenge_of(expr_value(constraints[k], self.row())))
    }

    /// Whether `other` differs from the folder in the accumulator at most.
    pub open spec fn same_inputs(&self, other: &Self) -> bool {
        &&& self.preprocessed == other.preprocessed
        &&& self.partitioned_main == other.partitioned_main
        &&& self.after_challenge == other.after_challenge
        &&& self.challenges == other.challenges
        &&& self.is_first_row == other.is_first_row
        &&& self.is_last_row == other.is_last_row
        &&& self.is_transition == other.is_transition
        &&& self.alpha == other.alpha
        &&& self.public_values == other.public_values
        &&& self.exposed_values_after_challenge == other.exposed_values_after_challenge
    }

    /// An expression that occurs in a supported expression is supported.
    pub proof fn lemma_supports_operand(&self, part: SymbolicExpression, whole: SymbolicExpression)
        requires
            self.supports_expr(whole),
            part.occurs_in(whole),
        ensures
            self.supports_expr(part),
        decreases whole,
    {
        if part != whole {
            if whole is Neg {
                self.lemma_supports_operand(part, whole.left());
            } else if part.occurs_in(whole.left()) {
                self.lemma_supports_operand(part, whole.left());
            } else {
                self.lemma_supports_operand(part, whole.right());
            }
        }
    }

    /// Folds one more value into the accumulator: the accumulator is
    /// multiplied by `alpha` and the value is added.
    pub fn assert_zero(&mut self, x: ExtElem)
        ensures
            final(self).accumulator == old(self).accumulator.spec_mul(old(self).alpha).spec_add(x),
            final(self).same_inputs(old(self)),
    {
        let scaled = ext_mul(self.accumulator, self.alpha);
        self.accumulator = ext_add(scaled, x);
    }

    /// Folds the constraints into the accumulator, in order.
    ///
    /// The constraints are brought into DAG form first and interpreted
    /// node by node, so that an expression that is shared is evaluated
    /// once.  Afterwards the accumulator is what `horner_fold` makes of
    /// the accumulator before and the values of the constraints.
    pub fn eval_constraints(&mut self, constraints: &[SymbolicExpression])
        requires
            forall|k: int|
                0 <= k < constraints@.len() ==> old(self).supports_expr(#[trigger] constraints@[k]),
        ensures
            final(self).accumulator == horner_fold(
                old(self).accumulator,
                old(self).alpha,
                old(self).values_of(constraints@),
            ),
            final(self).same_inputs(old(self)),
    {
        let dag = build_symbolic_expr_dag(constraints);
        let mut exprs: Vec<ExtElem> = Vec::with_capacity(dag.nodes.len());
        proof {
            assert forall|i: int| 0 <= i < dag.nodes@.len() implies (#[trigger] dag.nodes@[i]
                matches SymbolicExpressionNode::Variable(v) ==> self.supports(v)) by {
                if let SymbolicExpressionNode::Variable(v) = dag.nodes@[i] {
                    let e = expr_at(dag.nodes@, i);
                    assert(dag.nodes@[i].operands_below(i));
                    assert(occurs_in_some(e, constraints@));
                    let k = choose|k: int|
                        0 <= k < constraints@.len() && e.occurs_in(#[trigger] constraints@[k]);
                    self.lemma_supports_operand(e, constraints@[k]);
                }
            }
        }
        eval_nodes(&*self, dag.nodes.as_slice(), &mut exprs);
        proof {
            assert forall|j: int| 0 <= j < dag.nodes@.len() implies ExprValue::Challenge(
                #[trigger] exprs@[j],
            ) == node_value(dag.nodes@, j, self.row()) by {
                assert(is_output_of(&*self, dag.nodes@, j, &exprs@[j]));
                assert(self.denotes(&exprs@[j], 0) == node_value(dag.nodes@, j, self.row_values(0)));
            }
        }
        let m = dag.constraint_idx.len();
        let ghost values = old(self).values_of(constraints@);
        let mut k: usize = 0;
        assert(values.take(0) =~= Seq::empty());
        while k < m
            invariant
                m == dag.constraint_idx@.len(),
                m == constraints@.len(),
                k <= m,
                dag.well_formed(),
                exprs@.len() == dag.nodes@.len(),
                values == old(self).values_of(constraints@),
                self.same_inputs(old(self)),
                forall|j: int|
                    0 <= j < m ==> expr_at(dag.nodes@, dag.constraint_idx@[j] as int)
                        == #[trigger] constraints@[j],
                forall|j: int|
                    0 <= j < dag.nodes@.len() ==> ExprValue::Challenge(#[trigger] exprs@[j])
                        == node_value(dag.nodes@, j, old(self).row()),
                self.accumulator == horner_fold(
                    old(self).accumulator,
                    old(self).alpha,
                    values.take(k as int),
                ),
            decreases m - k,
        {
            let idx = dag.constraint_idx[k];
            proof {
                lemma_node_value_is_expr_value(dag.nodes@, idx as int, old(self).row());
                assert(dag.constraint_expr(k as int) == constraints@[k as int]);
                assert(ExprValue::Challenge(exprs@[idx as int]) == expr_value(
                    constraints@[k as int],
                    old(self).row(),
                ));
                assert(exprs@[idx as int] == values[k as int]);
                assert(values.take(k as int + 1).drop_last() =~= values.take(k as int));
                assert(values.take(k as int + 1).last() == values[k as int]);
            }
            self.assert_zero(exprs[idx]);
            k += 1;
        }
        assert(values.take(m as int) =~= values);
    }
}

impl<'a> SymbolicEvaluator for GenericVerifierConstraintFolder<'a> {
    type Output = ExtElem;

    open spec fn ready(&self) -> bool {
        true
    }

    open spec fn lanes(&self) -> nat {
        1
    }

    open spec fn row_values(&self, j: int) -> RowValues {
        self.row()
    }

    open spec fn can_eval(&self, v: SymbolicVariable) -> bool {
        self.supports(v)
    }

    open spec fn valid(&self, value: &ExtElem) -> bool {
        true
    }

    open spec fn denotes(&self, value: &ExtElem, j: int) -> ExprValue {
        ExprValue::Challenge(*value)
    }

    /// A constant of the base field, lifted to the extension field.
    fn eval_const(&self, c: u32) -> (r: ExtElem) {
        ext_lift(c)
    }

    /// The value of a variable: an opened value, a challenge or an
    /// exposed value as it is, a public value lifted to the extension
    /// field.
    fn eval_var(&self, symbolic_var: SymbolicVariable) -> (r: ExtElem)
        ensures
            r == self.variable_value(symbolic_var),
    {
        let index = symbolic_var.index;
        match symbolic_var.entry {
            Entry::Preprocessed { offset } => *self.preprocessed.get(offset, index),
            Entry::Main { part_index, offset } => *self.partitioned_main[part_index].get(
                offset,
                index,
            ),
            Entry::Public => ext_lift(self.public_values[index]),
            Entry::Permutation { offset } => *self.after_challenge[0].get(offset, index),
            Entry::Challenge => self.challenges[0][index],
            Entry::Exposed => self.exposed_values_after_challenge[0][index],
        }
    }

    fn eval_is_first_row(&self) -> (r: ExtElem) {
        self.is_first_row
    }

    fn eval_is_last_row(&self) -> (r: ExtElem) {
        self.is_last_row
    }

    fn eval_is_transition(&self) -> (r: ExtElem) {
        self.is_transition
    }

    fn add(&self, x: &ExtElem, y: &ExtElem) -> (r: ExtElem) {
        ext_add(*x, *y)
    }

    fn sub(&self, x: &ExtElem, y: &ExtElem) -> (r: ExtElem) {
        ext_sub(*x, *y)
    }

    fn mul(&self, x: &ExtElem, y: &ExtElem) -> (r: ExtElem) {
        ext_mul(*x, *y)
    }

    fn neg(&self, x: &ExtElem) -> (r: ExtElem) {
        ext_neg(*x)
    }
}

} // verus!
