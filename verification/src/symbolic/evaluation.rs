use vstd::prelude::*;

use crate::field::base;
use crate::field::extension::ExtElem;
use crate::symbolic::dag::{expr_at, is_dag_of, SymbolicExpressionDag, SymbolicExpressionNode};
use crate::symbolic::expression::SymbolicExpression;
use crate::symbolic::variable::{Entry, SymbolicVariable};

verus! {

/// The value of an expression at one row.  It stays in the base field as
/// long as nothing from the extension field enters it.
#[derive(Clone, Copy, Debug, PartialEq, Eq, Structural, Hash)]
pub enum ExprValue {
    Val(u32),
    Challenge(ExtElem),
}

impl ExprValue {
    /// The sum: in the base field for two base field values, else in the
    /// extension field.
    pub open spec fn spec_add(self, rhs: ExprValue) -> ExprValue {
        match (self, rhs) {
            (ExprValue::Val(x), ExprValue::Val(y)) => ExprValue::Val(base::spec_add(x, y)),
            (ExprValue::Val(x), ExprValue::Challenge(y)) => ExprValue::Challenge(
                y.spec_add_base(x),
            ),
            (ExprValue::Challenge(x), ExprValue::Val(y)) => ExprValue::Challenge(
                x.spec_add_base(y),
            ),
            (ExprValue::Challenge(x), ExprValue::Challenge(y)) => ExprValue::Challenge(
                x.spec_add(y),
            ),
        }
    }

    /// The difference.  A base field value on the left of an extension
    /// field value is lifted to the extension field first.
    pub open spec fn spec_sub(self, rhs: ExprValue) -> ExprValue {
        match (self, rhs) {
            (ExprValue::Val(x), ExprValue::Val(y)) => ExprValue::Val(base::spec_sub(x, y)),
            (ExprValue::Val(x), ExprValue::Challenge(y)) => ExprValue::Challenge(
                ExtElem::spec_lift(x).spec_sub(y),
            ),
            (ExprValue::Challenge(x), ExprValue::Val(y)) => ExprValue::Challenge(
                x.spec_sub_base(y),
            ),
            (ExprValue::Challenge(x), ExprValue::Challenge(y)) => ExprValue::Challenge(
                x.spec_sub(y),
            ),
        }
    }

    /// The product: in the base field for two base field values, else in
    /// the extension field.
    pub open spec fn spec_mul(self, rhs: ExprValue) -> ExprValue {
        match (self, rhs) {
            (ExprValue::Val(x), ExprValue::Val(y)) => ExprValue::Val(base::spec_mul(x, y)),
            (ExprValue::Val(x), ExprValue::Challenge(y)) => ExprValue::Challenge(
                y.spec_mul_base(x),
            ),
            (ExprValue::Challenge(x), ExprValue::Val(y)) => ExprValue::Challenge(
                x.spec_mul_base(y),
            ),
            (ExprValue::Challenge(x), ExprValue::Challenge(y)) => ExprValue::Challenge(
                x.spec_mul(y),
            ),
        }
    }

    /// The negation, in the field of the operand.
    pub open spec fn spec_neg(self) -> ExprValue {
        match self {
            ExprValue::Val(x) => ExprValue::Val(base::spec_neg(x)),
            ExprValue::Challenge(x) => ExprValue::Challenge(x.spec_neg()),
        }
    }

    /// The product of an extension field element with the value.
    pub open spec fn scaled_by(self, factor: ExtElem) -> ExtElem {
        match self {
            ExprValue::Val(x) => factor.spec_mul_base(x),
            ExprValue::Challenge(x) => factor.spec_mul(x),
        }
    }
}

/// What an expression is evaluated on at one row: what a constant, a
/// symbolic variable and each of the three row selectors stand for.
/// These five are all that an evaluator has to say; the value of every
/// expression follows from them.
pub struct RowValues {
    pub constant: spec_fn(u32) -> ExprValue,
    pub variable: spec_fn(SymbolicVariable) -> ExprValue,
    pub is_first_row: ExprValue,
    pub is_last_row: ExprValue,
    pub is_transition: ExprValue,
}

/// The value at one row of the node at position `i`, from the values of
/// its operands.
///
/// On a position outside the array, or at a node with an operand that is
/// not below it, the value is zero, as that of the expression there.
pub open spec fn node_value(nodes: Seq<SymbolicExpressionNode>, i: int, row: RowValues)
    -> ExprValue
    decreases i,
{
    if 0 <= i < nodes.len() && nodes[i].operands_below(i) {
        match nodes[i] {
            SymbolicExpressionNode::Variable(v) => (row.variable)(v),
            SymbolicExpressionNode::IsFirstRow => row.is_first_row,
            SymbolicExpressionNode::IsLastRow => row.is_last_row,
            SymbolicExpressionNode::IsTransition => row.is_transition,
            SymbolicExpressionNode::Constant(c) => (row.constant)(c),
            SymbolicExpressionNode::Add { left_idx, right_idx, .. } => node_value(
                nodes,
                left_idx as int,
                row,
            ).spec_add(node_value(nodes, right_idx as int, row)),
            SymbolicExpressionNode::Sub { left_idx, right_idx, .. } => node_value(
                nodes,
                left_idx as int,
                row,
            ).spec_sub(node_value(nodes, right_idx as int, row)),
            SymbolicExpressionNode::Neg { idx, .. } => node_value(nodes, idx as int, row).spec_neg(),
            SymbolicExpressionNode::Mul { left_idx, right_idx, .. } => node_value(
                nodes,
                left_idx as int,
                row,
            ).spec_mul(node_value(nodes, right_idx as int, row)),
        }
    } else {
        (row.constant)(0)
    }
}

/// The value at one row of an expression, from the values of its
/// sub-expressions.
pub open spec fn expr_value(expr: SymbolicExpression, row: RowValues) -> ExprValue
    decreases expr,
{
    match expr {
        SymbolicExpression::Variable(v) => (row.variable)(v),
        SymbolicExpression::IsFirstRow => row.is_first_row,
        SymbolicExpression::IsLastRow => row.is_last_row,
        SymbolicExpression::IsTransition => row.is_transition,
        SymbolicExpression::Constant(c) => (row.constant)(c),
        SymbolicExpression::Add { x, y, .. } => expr_value(*x, row).spec_add(expr_value(*y, row)),
        SymbolicExpression::Sub { x, y, .. } => expr_value(*x, row).spec_sub(expr_value(*y, row)),
        SymbolicExpression::Neg { x, .. } => expr_value(*x, row).spec_neg(),
        SymbolicExpression::Mul { x, y, .. } => expr_value(*x, row).spec_mul(expr_value(*y, row)),
    }
}

/// Interpreting the DAG agrees with evaluating the expressions it stands
/// for: at every row, the value of a node is the value of the expression
/// at that node.
pub proof fn lemma_node_value_is_expr_value(
    nodes: Seq<SymbolicExpressionNode>,
    i: int,
    row: RowValues,
)
    ensures
        node_value(nodes, i, row) == expr_value(expr_at(nodes, i), row),
    decreases i,
{
    if 0 <= i < nodes.len() && nodes[i].operands_below(i) {
        match nodes[i] {
            SymbolicExpressionNode::Add { left_idx, right_idx, .. }
            | SymbolicExpressionNode::Sub { left_idx, right_idx, .. }
            | SymbolicExpressionNode::Mul { left_idx, right_idx, .. } => {
                lemma_node_value_is_expr_value(nodes, left_idx as int, row);
                lemma_node_value_is_expr_value(nodes, right_idx as int, row);
            },
            SymbolicExpressionNode::Neg { idx, .. } => {
                lemma_node_value_is_expr_value(nodes, idx as int, row);
            },
            _ => {},
        }
    }
}

/// Two rows agree on the constants, on the selectors and on every
/// variable that occurs in the nodes up to position `i`.
pub open spec fn rows_agree_up_to(
    nodes: Seq<SymbolicExpressionNode>,
    i: int,
    a: RowValues,
    b: RowValues,
) -> bool {
    &&& forall|c: u32| #[trigger] (a.constant)(c) == (b.constant)(c)
    &&& a.is_first_row == b.is_first_row
    &&& a.is_last_row == b.is_last_row
    &&& a.is_transition == b.is_transition
    &&& forall|j: int|
        0 <= j <= i && j < nodes.len() ==> (#[trigger] nodes[j] matches SymbolicExpressionNode::Variable(
            v,
        ) ==> (a.variable)(v) == (b.variable)(v))
}

/// The value of a node depends only on the constants, on the selectors
/// and on the variables that occur at or below it.
pub proof fn lemma_node_value_congruent(
    nodes: Seq<SymbolicExpressionNode>,
    i: int,
    a: RowValues,
    b: RowValues,
)
    requires
        rows_agree_up_to(nodes, i, a, b),
    ensures
        node_value(nodes, i, a) == node_value(nodes, i, b),
    decreases i,
{
    if 0 <= i < nodes.len() && nodes[i].operands_below(i) {
        match nodes[i] {
            SymbolicExpressionNode::Add { left_idx, right_idx, .. }
            | SymbolicExpressionNode::Sub { left_idx, right_idx, .. }
            | SymbolicExpressionNode::Mul { left_idx, right_idx, .. } => {
                lemma_node_value_congruent(nodes, left_idx as int, a, b);
                lemma_node_value_congruent(nodes, right_idx as int, a, b);
            },
            SymbolicExpressionNode::Neg { idx, .. } => {
                lemma_node_value_congruent(nodes, idx as int, a, b);
            },
            _ => {},
        }
    }
}

/// The value at one row of the `k`-th constraint of a DAG.
pub open spec fn constraint_value(dag: SymbolicExpressionDag, k: int, row: RowValues)
    -> ExprValue {
    node_value(dag.nodes@, dag.constraint_idx@[k] as int, row)
}

/// Interpreting the DAG of some constraints agrees with evaluating the
/// constraints themselves: at every row, the DAG gives for each
/// constraint the value of its expression.  So where a row satisfies the
/// constraints, each of them being zero there, the interpreter returns
/// zero for each constraint.
pub proof fn lemma_interpreter_agrees(
    exprs: Seq<SymbolicExpression>,
    dag: SymbolicExpressionDag,
    row: RowValues,
    k: int,
)
    requires
        is_dag_of(dag, exprs),
        0 <= k < exprs.len(),
    ensures
        constraint_value(dag, k, row) == expr_value(exprs[k], row),
{
    lemma_node_value_is_expr_value(dag.nodes@, dag.constraint_idx@[k] as int, row);
    assert(dag.constraint_expr(k) == exprs[k]);
}

/// An expression that has something of the extension field among its
/// leaves has a value in the extension field, and one that has not has a
/// value in the base field, provided the constants and the selectors are
/// in the base field and the variables are as `is_challenge` says.
pub open spec fn touches_challenge(
    expr: SymbolicExpression,
    is_challenge: spec_fn(SymbolicVariable) -> bool,
) -> bool
    decreases expr,
{
    match expr {
        SymbolicExpression::Variable(v) => is_challenge(v),
        SymbolicExpression::Add { x, y, .. } => touches_challenge(*x, is_challenge)
            || touches_challenge(*y, is_challenge),
        SymbolicExpression::Sub { x, y, .. } => touches_challenge(*x, is_challenge)
            || touches_challenge(*y, is_challenge),
        SymbolicExpression::Mul { x, y, .. } => touches_challenge(*x, is_challenge)
            || touches_challenge(*y, is_challenge),
        SymbolicExpression::Neg { x, .. } => touches_challenge(*x, is_challenge),
        _ => false,
    }
}

/// The value of an expression is in the extension field exactly if the
/// expression has a variable of the extension field among its leaves.
pub proof fn lemma_challenge_propagates(
    expr: SymbolicExpression,
    row: RowValues,
    is_challenge: spec_fn(SymbolicVariable) -> bool,
)
    requires
        forall|c: u32| #[trigger] (row.constant)(c) is Val,
        row.is_first_row is Val,
        row.is_last_row is Val,
        row.is_transition is Val,
        forall|v: SymbolicVariable| #[trigger] (row.variable)(v) is Challenge == is_challenge(v),
    ensures
        expr_value(expr, row) is Challenge == touches_challenge(expr, is_challenge),
    decreases expr,
{
    if !expr.is_leaf() {
        lemma_challenge_propagates(expr.left(), row, is_challenge);
        if !(expr is Neg) {
            lemma_challenge_propagates(expr.right(), row, is_challenge);
        }
    }
}

/// The first `n` constraints of a DAG folded into one extension field
/// element: the sum over `k < n` of `factors[k]` times the value of the
/// `k`-th constraint, summed from `k = 0` upwards.
pub open spec fn folded_constraints(
    dag: SymbolicExpressionDag,
    factors: Seq<ExtElem>,
    row: RowValues,
    n: int,
) -> ExtElem
    decreases n,
{
    if n <= 0 {
        ExtElem::spec_zero()
    } else {
        folded_constraints(dag, factors, row, n - 1).spec_add(
            constraint_value(dag, n - 1, row).scaled_by(factors[n - 1]),
        )
    }
}

/// Folding depends only on the values of the constraints.
pub proof fn lemma_folded_congruent(
    dag: SymbolicExpressionDag,
    factors: Seq<ExtElem>,
    a: RowValues,
    b: RowValues,
    n: int,
)
    requires
        n <= dag.constraint_idx@.len(),
        forall|k: int| 0 <= k < n ==> constraint_value(dag, k, a) == constraint_value(dag, k, b),
    ensures
        folded_constraints(dag, factors, a, n) == folded_constraints(dag, factors, b, n),
    decreases n,
{
    if n > 0 {
        lemma_folded_congruent(dag, factors, a, b, n - 1);
    }
}

} // verus!
