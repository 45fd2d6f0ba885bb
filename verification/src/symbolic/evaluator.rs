use vstd::prelude::*;

use crate::symbolic::dag::{topologically_sorted, SymbolicExpressionNode};
use crate::symbolic::evaluation::{node_value, ExprValue, RowValues};
use crate::symbolic::variable::SymbolicVariable;

verus! {

/// What interprets symbolic expressions in some output algebra.
///
/// An evaluator says what a constant, a variable and the three row
/// selectors are in its algebra, and how its algebra adds, subtracts,
/// multiplies and negates.  It may evaluate at several rows at once: an
/// output then has one lane per row.  What an output means is told by
/// `denotes`, lane by lane, and what the evaluator evaluates on by
/// `row_values`.
pub trait SymbolicEvaluator {
    /// The algebra that expressions are evaluated in.
    type Output;

    /// Whether the evaluator is in a state to evaluate.
    spec fn ready(&self) -> bool;

    /// The number of rows that are evaluated at once.
    spec fn lanes(&self) -> nat;

    /// What is evaluated on at the row of lane `j`.
    spec fn row_values(&self, j: int) -> RowValues;

    /// Whether the evaluator holds what the variable refers to.
    spec fn can_eval(&self, v: SymbolicVariable) -> bool;

    /// Whether an output is one of this evaluator.
    spec fn valid(&self, value: &Self::Output) -> bool;

    /// The value that an output holds in lane `j`.
    spec fn denotes(&self, value: &Self::Output, j: int) -> ExprValue;

    fn eval_const(&self, c: u32) -> (r: Self::Output)
        requires
            self.ready(),
        ensures
            self.valid(&r),
            forall|j: int|
                0 <= j < self.lanes() ==> #[trigger] self.denotes(&r, j) == (self.row_values(
                    j,
                ).constant)(c),
    ;

    fn eval_var(&self, symbolic_var: SymbolicVariable) -> (r: Self::Output)
        requires
            self.ready(),
            self.can_eval(symbolic_var),
        ensures
            self.valid(&r),
            forall|j: int|
                0 <= j < self.lanes() ==> #[trigger] self.denotes(&r, j) == (self.row_values(
                    j,
                ).variable)(symbolic_var),
    ;

    fn eval_is_first_row(&self) -> (r: Self::Output)
        requires
            self.ready(),
        ensures
            self.valid(&r),
            forall|j: int|
                0 <= j < self.lanes() ==> #[trigger] self.denotes(&r, j) == self.row_values(
                    j,
                ).is_first_row,
    ;

    fn eval_is_last_row(&self) -> (r: Self::Output)
        requires
            self.ready(),
        ensures
            self.valid(&r),
            forall|j: int|
                0 <= j < self.lanes() ==> #[trigger] self.denotes(&r, j) == self.row_values(
                    j,
                ).is_last_row,
    ;

    fn eval_is_transition(&self) -> (r: Self::Output)
        requires
            self.ready(),
        ensures
            self.valid(&r),
            forall|j: int|
                0 <= j < self.lanes() ==> #[trigger] self.denotes(&r, j) == self.row_values(
                    j,
                ).is_transition,
    ;

    /// The sum of two outputs.
    fn add(&self, x: &Self::Output, y: &Self::Output) -> (r: Self::Output)
        requires
            self.ready(),
            self.valid(x),
            self.valid(y),
        ensures
            self.valid(&r),
            forall|j: int|
                0 <= j < self.lanes() ==> #[trigger] self.denotes(&r, j) == self.denotes(
                    x,
                    j,
                ).spec_add(self.denotes(y, j)),
    ;

    /// The difference of two outputs.
    fn sub(&self, x: &Self::Output, y: &Self::Output) -> (r: Self::Output)
        requires
            self.ready(),
            self.valid(x),
            self.valid(y),
        ensures
            self.valid(&r),
            forall|j: int|
                0 <= j < self.lanes() ==> #[trigger] self.denotes(&r, j) == self.denotes(
                    x,
                    j,
                ).spec_sub(self.denotes(y, j)),
    ;

    /// The product of two outputs.
    fn mul(&self, x: &Self::Output, y: &Self::Output) -> (r: Self::Output)
        requires
            self.ready(),
            self.valid(x),
            self.valid(y),
        ensures
            self.valid(&r),
            forall|j: int|
                0 <= j < self.lanes() ==> #[trigger] self.denotes(&r, j) == self.denotes(
                    x,
                    j,
                ).spec_mul(self.denotes(y, j)),
    ;

    /// The negation of an output.
    fn neg(&self, x: &Self::Output) -> (r: Self::Output)
        requires
            self.ready(),
            self.valid(x),
        ensures
            self.valid(&r),
            forall|j: int|
                0 <= j < self.lanes() ==> #[trigger] self.denotes(&r, j) == self.denotes(
                    x,
                    j,
                ).spec_neg(),
    ;
}

/// Whether the evaluator holds what every variable among the nodes refers
/// to.
pub open spec fn can_eval_all<E: SymbolicEvaluator>(
    evaluator: &E,
    nodes: Seq<SymbolicExpressionNode>,
) -> bool {
    forall|i: int|
        0 <= i < nodes.len() ==> (#[trigger] nodes[i] matches SymbolicExpressionNode::Variable(v)
            ==> evaluator.can_eval(v))
}

/// Whether `value` is the output of the evaluator for the node at
/// position `i`: in every lane it holds the value of the node at the row
/// of the lane.
pub open spec fn is_output_of<E: SymbolicEvaluator>(
    evaluator: &E,
    nodes: Seq<SymbolicExpressionNode>,
    i: int,
    value: &E::Output,
) -> bool {
    &&& evaluator.valid(value)
    &&& forall|j: int|
        0 <= j < evaluator.lanes() ==> #[trigger] evaluator.denotes(value, j) == node_value(
            nodes,
            i,
            evaluator.row_values(j),
        )
}

/// The output of a node holds in each lane the value of the node at the
/// row of the lane.
pub proof fn lemma_lane_of_output<E: SymbolicEvaluator>(
    evaluator: &E,
    nodes: Seq<SymbolicExpressionNode>,
    i: int,
    value: &E::Output,
    j: int,
)
    requires
        is_output_of(evaluator, nodes, i, value),
        0 <= j < evaluator.lanes(),
    ensures
        evaluator.denotes(value, j) == node_value(nodes, i, evaluator.row_values(j)),
{
}

/// Interprets the nodes in order into `exprs`, which afterwards holds the
/// output of each node at its position.  Every node is evaluated once,
/// from the outputs of its operands, however often it is used.  What
/// `exprs` held before is dropped; its allocation is used again.
pub fn eval_nodes<E: SymbolicEvaluator>(
    evaluator: &E,
    nodes: &[SymbolicExpressionNode],
    exprs: &mut Vec<E::Output>,
)
    requires
        evaluator.ready(),
        topologically_sorted(nodes@),
        can_eval_all(evaluator, nodes@),
    ensures
        final(exprs)@.len() == nodes@.len(),
        forall|i: int|
            0 <= i < nodes@.len() ==> is_output_of(evaluator, nodes@, i, &#[trigger] final(exprs)@[i]),
{
    exprs.clear();
    let n = nodes.len();
    let mut i: usize = 0;
    while i < n
        invariant
            n == nodes@.len(),
            i <= n,
            exprs@.len() == i,
            evaluator.ready(),
            topologically_sorted(nodes@),
            can_eval_all(evaluator, nodes@),
            forall|k: int| 0 <= k < i ==> is_output_of(evaluator, nodes@, k, &#[trigger] exprs@[k]),
        decreases n - i,
    {
        assert(nodes@[i as int].operands_below(i as int));
        let value = match nodes[i] {
            SymbolicExpressionNode::Variable(var) => evaluator.eval_var(var),
            SymbolicExpressionNode::Constant(c) => evaluator.eval_const(c),
            SymbolicExpressionNode::Add { left_idx, right_idx, .. } => {
                assert(is_output_of(evaluator, nodes@, left_idx as int, &exprs@[left_idx as int]));
                assert(is_output_of(evaluator, nodes@, right_idx as int, &exprs@[right_idx as int]));
                evaluator.add(&exprs[left_idx], &exprs[right_idx])
            },
            SymbolicExpressionNode::Sub { left_idx, right_idx, .. } => {
                assert(is_output_of(evaluator, nodes@, left_idx as int, &exprs@[left_idx as int]));
                assert(is_output_of(evaluator, nodes@, right_idx as int, &exprs@[right_idx as int]));
                evaluator.sub(&exprs[left_idx], &exprs[right_idx])
            },
            SymbolicExpressionNode::Neg { idx, .. } => {
                assert(is_output_of(evaluator, nodes@, idx as int, &exprs@[idx as int]));
                evaluator.neg(&exprs[idx])
            },
            SymbolicExpressionNode::Mul { left_idx, right_idx, .. } => {
                assert(is_output_of(evaluator, nodes@, left_idx as int, &exprs@[left_idx as int]));
                assert(is_output_of(evaluator, nodes@, right_idx as int, &exprs@[right_idx as int]));
                evaluator.mul(&exprs[left_idx], &exprs[right_idx])
            },
            SymbolicExpressionNode::IsFirstRow => evaluator.eval_is_first_row(),
            SymbolicExpressionNode::IsLastRow => evaluator.eval_is_last_row(),
            SymbolicExpressionNode::IsTransition => evaluator.eval_is_transition(),
        };
        assert(is_output_of(evaluator, nodes@, i as int, &value)) by {
            assert forall|j: int| 0 <= j < evaluator.lanes() implies #[trigger] evaluator.denotes(
                &value,
                j,
            ) == node_value(nodes@, i as int, evaluator.row_values(j)) by {
                match nodes@[i as int] {
                    SymbolicExpressionNode::Add { left_idx, right_idx, .. }
                    | SymbolicExpressionNode::Sub { left_idx, right_idx, .. }
                    | SymbolicExpressionNode::Mul { left_idx, right_idx, .. } => {
                        lemma_lane_of_output(evaluator, nodes@, left_idx as int, &exprs@[left_idx as int], j);
                        lemma_lane_of_output(evaluator, nodes@, right_idx as int, &exprs@[right_idx as int], j);
                    },
                    SymbolicExpressionNode::Neg { idx, .. } => {
                        lemma_lane_of_output(evaluator, nodes@, idx as int, &exprs@[idx as int], j);
                    },
                    _ => {},
                }
            }
        }
        exprs.push(value);
        i += 1;
    }
}

} // verus!
