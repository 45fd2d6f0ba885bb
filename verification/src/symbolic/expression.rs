use std::ops::{Add, Mul, Neg, Sub};
use std::sync::Arc;
use vstd::prelude::*;
use vstd::std_specs::convert::FromSpecImpl;
use vstd::std_specs::ops::{AddSpecImpl, MulSpecImpl, NegSpecImpl, SubSpecImpl};

use crate::symbolic::variable::SymbolicVariable;

verus! {

/// An arithmetic expression over symbolic variables, constants of the base
/// field and the three row selectors.
///
/// Sub-expressions are reference counted, so one sub-expression can be an
/// operand of any number of parents without being copied.  `degree_multiple`
/// is the algebraic degree of the expression.
#[derive(Clone, Debug, PartialEq, Eq)]
pub enum SymbolicExpression {
    Variable(SymbolicVariable),
    IsFirstRow,
    IsLastRow,
    IsTransition,
    Constant(u32),
    Add { x: Arc<SymbolicExpression>, y: Arc<SymbolicExpression>, degree_multiple: usize },
    Sub { x: Arc<SymbolicExpression>, y: Arc<SymbolicExpression>, degree_multiple: usize },
    Neg { x: Arc<SymbolicExpression>, degree_multiple: usize },
    Mul { x: Arc<SymbolicExpression>, y: Arc<SymbolicExpression>, degree_multiple: usize },
}

pub open spec fn spec_max_usize(a: usize, b: usize) -> usize {
    if a >= b {
        a
    } else {
        b
    }
}

impl SymbolicExpression {
    /// Whether the expression has no sub-expressions.
    pub open spec fn is_leaf(self) -> bool {
        match self {
            SymbolicExpression::Variable(_) => true,
            SymbolicExpression::IsFirstRow => true,
            SymbolicExpression::IsLastRow => true,
            SymbolicExpression::IsTransition => true,
            SymbolicExpression::Constant(_) => true,
            _ => false,
        }
    }

    /// The number of nodes of the expression seen as a tree, shared
    /// sub-expressions counted once per use.
    pub open spec fn tree_size(self) -> nat
        decreases self,
    {
        match self {
            SymbolicExpression::Add { x, y, .. } => 1 + (*x).tree_size() + (*y).tree_size(),
            SymbolicExpression::Sub { x, y, .. } => 1 + (*x).tree_size() + (*y).tree_size(),
            SymbolicExpression::Mul { x, y, .. } => 1 + (*x).tree_size() + (*y).tree_size(),
            SymbolicExpression::Neg { x, .. } => 1 + (*x).tree_size(),
            _ => 1,
        }
    }

    /// The first operand of a compound expression.
    pub open spec fn left(self) -> SymbolicExpression {
        match self {
            SymbolicExpression::Add { x, .. } => *x,
            SymbolicExpression::Sub { x, .. } => *x,
            SymbolicExpression::Mul { x, .. } => *x,
            SymbolicExpression::Neg { x, .. } => *x,
            _ => self,
        }
    }

    /// The second operand of a compound expression that has two.
    pub open spec fn right(self) -> SymbolicExpression {
        match self {
            SymbolicExpression::Add { y, .. } => *y,
            SymbolicExpression::Sub { y, .. } => *y,
            SymbolicExpression::Mul { y, .. } => *y,
            _ => self,
        }
    }

    /// Whether the expression is `other` or occurs in it as an operand,
    /// as an operand of an operand, and so on.
    pub open spec fn occurs_in(self, other: SymbolicExpression) -> bool
        decreases other,
    {
        self == other || match other {
            SymbolicExpression::Add { x, y, .. } => self.occurs_in(*x) || self.occurs_in(*y),
            SymbolicExpression::Sub { x, y, .. } => self.occurs_in(*x) || self.occurs_in(*y),
            SymbolicExpression::Mul { x, y, .. } => self.occurs_in(*x) || self.occurs_in(*y),
            SymbolicExpression::Neg { x, .. } => self.occurs_in(*x),
            _ => false,
        }
    }

    /// The algebraic degree: one for a variable, zero for a constant or a
    /// row selector, and the recorded degree for a compound expression.
    pub open spec fn spec_degree_multiple(self) -> usize {
        match self {
            SymbolicExpression::Variable(v) => v.spec_degree_multiple(),
            SymbolicExpression::IsFirstRow => 0,
            SymbolicExpression::IsLastRow => 0,
            SymbolicExpression::IsTransition => 0,
            SymbolicExpression::Constant(_) => 0,
            SymbolicExpression::Add { degree_multiple, .. } => degree_multiple,
            SymbolicExpression::Sub { degree_multiple, .. } => degree_multiple,
            SymbolicExpression::Neg { degree_multiple, .. } => degree_multiple,
            SymbolicExpression::Mul { degree_multiple, .. } => degree_multiple,
        }
    }

    /// The algebraic degree of the expression.
    pub fn degree_multiple(&self) -> (d: usize)
        ensures
            d == self.spec_degree_multiple(),
    {
        match self {
            SymbolicExpression::Variable(v) => v.degree_multiple(),
            SymbolicExpression::IsFirstRow => 0,
            SymbolicExpression::IsLastRow => 0,
            SymbolicExpression::IsTransition => 0,
            SymbolicExpression::Constant(_) => 0,
            SymbolicExpression::Add { degree_multiple, .. } => *degree_multiple,
            SymbolicExpression::Sub { degree_multiple, .. } => *degree_multiple,
            SymbolicExpression::Neg { degree_multiple, .. } => *degree_multiple,
            SymbolicExpression::Mul { degree_multiple, .. } => *degree_multiple,
        }
    }

    /// The sum `a + b`: its degree is the larger of the operands' degrees.
    pub open spec fn sum(a: Self, b: Self) -> Self {
        SymbolicExpression::Add {
            x: Arc::new(a),
            y: Arc::new(b),
            degree_multiple: spec_max_usize(a.spec_degree_multiple(), b.spec_degree_multiple()),
        }
    }

    /// The difference `a - b`: its degree is the larger of the operands' degrees.
    pub open spec fn difference(a: Self, b: Self) -> Self {
        SymbolicExpression::Sub {
            x: Arc::new(a),
            y: Arc::new(b),
            degree_multiple: spec_max_usize(a.spec_degree_multiple(), b.spec_degree_multiple()),
        }
    }

    /// The product `a * b`: its degree is the sum of the operands' degrees.
    pub open spec fn product(a: Self, b: Self) -> Self {
        SymbolicExpression::Mul {
            x: Arc::new(a),
            y: Arc::new(b),
            degree_multiple: (a.spec_degree_multiple() + b.spec_degree_multiple()) as usize,
        }
    }

    /// The negation `-a`, of the same degree as `a`.
    pub open spec fn negation(a: Self) -> Self {
        SymbolicExpression::Neg { x: Arc::new(a), degree_multiple: a.spec_degree_multiple() }
    }

    /// A copy of the top node of the expression that shares every
    /// sub-expression with the expression it was made from.
    pub fn shallow_clone(&self) -> (r: Self)
        ensures
            r == *self,
    {
        match self {
            SymbolicExpression::Variable(v) => SymbolicExpression::Variable(*v),
            SymbolicExpression::IsFirstRow => SymbolicExpression::IsFirstRow,
            SymbolicExpression::IsLastRow => SymbolicExpression::IsLastRow,
            SymbolicExpression::IsTransition => SymbolicExpression::IsTransition,
            SymbolicExpression::Constant(c) => SymbolicExpression::Constant(*c),
            SymbolicExpression::Add { x, y, degree_multiple } => SymbolicExpression::Add {
                x: x.clone(),
                y: y.clone(),
                degree_multiple: *degree_multiple,
            },
            SymbolicExpression::Sub { x, y, degree_multiple } => SymbolicExpression::Sub {
                x: x.clone(),
                y: y.clone(),
                degree_multiple: *degree_multiple,
            },
            SymbolicExpression::Neg { x, degree_multiple } => SymbolicExpression::Neg {
                x: x.clone(),
                degree_multiple: *degree_multiple,
            },
            SymbolicExpression::Mul { x, y, degree_multiple } => SymbolicExpression::Mul {
                x: x.clone(),
                y: y.clone(),
                degree_multiple: *degree_multiple,
            },
        }
    }
}

impl From<SymbolicVariable> for SymbolicExpression {
    fn from(v: SymbolicVariable) -> (e: Self) {
        SymbolicExpression::Variable(v)
    }
}

impl FromSpecImpl<SymbolicVariable> for SymbolicExpression {
    open spec fn obeys_from_spec() -> bool {
        true
    }

    open spec fn from_spec(v: SymbolicVariable) -> Self {
        SymbolicExpression::Variable(v)
    }
}

impl Add for SymbolicExpression {
    type Output = SymbolicExpression;

    fn add(self, rhs: SymbolicExpression) -> (r: SymbolicExpression) {
        let a = self.degree_multiple();
        let b = rhs.degree_multiple();
        let degree_multiple = if a >= b { a } else { b };
        SymbolicExpression::Add { x: Arc::new(self), y: Arc::new(rhs), degree_multiple }
    }
}

impl AddSpecImpl for SymbolicExpression {
    open spec fn obeys_add_spec() -> bool {
        true
    }

    open spec fn add_req(self, rhs: SymbolicExpression) -> bool {
        true
    }

    open spec fn add_spec(self, rhs: SymbolicExpression) -> SymbolicExpression {
        SymbolicExpression::sum(self, rhs)
    }
}

impl Sub for SymbolicExpression {
    type Output = SymbolicExpression;

    fn sub(self, rhs: SymbolicExpression) -> (r: SymbolicExpression) {
        let a = self.degree_multiple();
        let b = rhs.degree_multiple();
        let degree_multiple = if a >= b { a } else { b };
        SymbolicExpression::Sub { x: Arc::new(self), y: Arc::new(rhs), degree_multiple }
    }
}

impl SubSpecImpl for SymbolicExpression {
    open spec fn obeys_sub_spec() -> bool {
        true
    }

    open spec fn sub_req(self, rhs: SymbolicExpression) -> bool {
        true
    }

    open spec fn sub_spec(self, rhs: SymbolicExpression) -> SymbolicExpression {
        SymbolicExpression::difference(self, rhs)
    }
}

impl Mul for SymbolicExpression {
    type Output = SymbolicExpression;

    fn mul(self, rhs: SymbolicExpression) -> (r: SymbolicExpression) {
        let degree_multiple = self.degree_multiple() + rhs.degree_multiple();
        SymbolicExpression::Mul { x: Arc::new(self), y: Arc::new(rhs), degree_multiple }
    }
}

impl MulSpecImpl for SymbolicExpression {
    open spec fn obeys_mul_spec() -> bool {
        true
    }

    /// The degree of the product has to fit the machine word.
    open spec fn mul_req(self, rhs: SymbolicExpression) -> bool {
        self.spec_degree_multiple() + rhs.spec_degree_multiple() <= usize::MAX
    }

    open spec fn mul_spec(self, rhs: SymbolicExpression) -> SymbolicExpression {
        SymbolicExpression::product(self, rhs)
    }
}

impl Neg for SymbolicExpression {
    type Output = SymbolicExpression;

    fn neg(self) -> (r: SymbolicExpression) {
        let degree_multiple = self.degree_multiple();
        SymbolicExpression::Neg { x: Arc::new(self), degree_multiple }
    }
}

impl NegSpecImpl for SymbolicExpression {
    open spec fn obeys_neg_spec() -> bool {
        true
    }

    open spec fn neg_req(self) -> bool {
        true
    }

    open spec fn neg_spec(self) -> SymbolicExpression {
        SymbolicExpression::negation(self)
    }
}

} // verus!
