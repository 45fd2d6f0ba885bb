use vstd::prelude::*;

use crate::field::base;
use crate::field::base::{base_add, base_mul, base_neg, base_sub};
use crate::field::extension::{
    ext_add, ext_add_base, ext_lift, ext_mul, ext_mul_base, ext_neg, ext_sub, ext_sub_base,
    ExtElem,
};
use crate::symbolic::evaluation::ExprValue;

verus! {

/// One of the three binary operations of an expression.
#[derive(Clone, Copy, Debug, PartialEq, Eq, Structural)]
pub enum Operation {
    Add,
    Sub,
    Mul,
}

impl Operation {
    pub open spec fn on_base(self, x: u32, y: u32) -> u32 {
        match self {
            Operation::Add => base::spec_add(x, y),
            Operation::Sub => base::spec_sub(x, y),
            Operation::Mul => base::spec_mul(x, y),
        }
    }

    pub open spec fn on_ext(self, x: ExtElem, y: ExtElem) -> ExtElem {
        match self {
            Operation::Add => x.spec_add(y),
            Operation::Sub => x.spec_sub(y),
            Operation::Mul => x.spec_mul(y),
        }
    }

    pub open spec fn on_ext_and_base(self, x: ExtElem, y: u32) -> ExtElem {
        match self {
            Operation::Add => x.spec_add_base(y),
            Operation::Sub => x.spec_sub_base(y),
            Operation::Mul => x.spec_mul_base(y),
        }
    }

    /// The operation on two values at one row.
    pub open spec fn on_values(self, x: ExprValue, y: ExprValue) -> ExprValue {
        match self {
            Operation::Add => x.spec_add(y),
            Operation::Sub => x.spec_sub(y),
            Operation::Mul => x.spec_mul(y),
        }
    }
}

/// A copy of the lanes of a packed value.
pub fn copy_lanes<T: Copy>(v: &Vec<T>) -> (r: Vec<T>)
    ensures
        r@ == v@,
{
    let n = v.len();
    let mut r: Vec<T> = Vec::with_capacity(n);
    let mut j: usize = 0;
    while j < n
        invariant
            n == v@.len(),
            j <= n,
            r@ == v@.take(j as int),
        decreases n - j,
    {
        r.push(v[j]);
        assert(v@.take(j as int + 1) == v@.take(j as int).push(v@[j as int]));
        j += 1;
    }
    assert(v@.take(n as int) == v@);
    r
}

/// The packed value with `x` in each of `width` lanes.
pub fn broadcast<T: Copy>(x: T, width: usize) -> (r: Vec<T>)
    ensures
        r@.len() == width,
        forall|j: int| 0 <= j < width ==> r@[j] == x,
{
    let mut r: Vec<T> = Vec::with_capacity(width);
    let mut j: usize = 0;
    while j < width
        invariant
            j <= width,
            r@.len() == j,
            forall|i: int| 0 <= i < j ==> r@[i] == x,
        decreases width - j,
    {
        r.push(x);
        j += 1;
    }
    r
}

/// Lane by lane, the operation on two packed base field values.
pub fn base_lanes(op: Operation, a: &Vec<u32>, b: &Vec<u32>) -> (r: Vec<u32>)
    requires
        a@.len() == b@.len(),
    ensures
        r@.len() == a@.len(),
        forall|j: int| 0 <= j < r@.len() ==> r@[j] == op.on_base(a@[j], b@[j]),
{
    let n = a.len();
    let mut r: Vec<u32> = Vec::with_capacity(n);
    let mut j: usize = 0;
    while j < n
        invariant
            n == a@.len(),
            n == b@.len(),
            j <= n,
            r@.len() == j,
            forall|i: int| 0 <= i < j ==> r@[i] == op.on_base(a@[i], b@[i]),
        decreases n - j,
    {
        let x = match op {
            Operation::Add => base_add(a[j], b[j]),
            Operation::Sub => base_sub(a[j], b[j]),
            Operation::Mul => base_mul(a[j], b[j]),
        };
        r.push(x);
        j += 1;
    }
    r
}

/// Lane by lane, the operation on two packed extension field values.
pub fn ext_lanes(op: Operation, a: &Vec<ExtElem>, b: &Vec<ExtElem>) -> (r: Vec<ExtElem>)
    requires
        a@.len() == b@.len(),
    ensures
        r@.len() == a@.len(),
        forall|j: int| 0 <= j < r@.len() ==> r@[j] == op.on_ext(a@[j], b@[j]),
{
    let n = a.len();
    let mut r: Vec<ExtElem> = Vec::with_capacity(n);
    let mut j: usize = 0;
    while j < n
        invariant
            n == a@.len(),
            n == b@.len(),
            j <= n,
            r@.len() == j,
            forall|i: int| 0 <= i < j ==> r@[i] == op.on_ext(a@[i], b@[i]),
        decreases n - j,
    {
        let x = match op {
            Operation::Add => ext_add(a[j], b[j]),
            Operation::Sub => ext_sub(a[j], b[j]),
            Operation::Mul => ext_mul(a[j], b[j]),
        };
        r.push(x);
        j += 1;
    }
    r
}

/// Lane by lane, the operation on a packed extension field value and a
/// packed base field value.
pub fn ext_base_lanes(op: Operation, a: &Vec<ExtElem>, b: &Vec<u32>) -> (r: Vec<ExtElem>)
    requires
        a@.len() == b@.len(),
    ensures
        r@.len() == a@.len(),
        forall|j: int| 0 <= j < r@.len() ==> r@[j] == op.on_ext_and_base(a@[j], b@[j]),
{
    let n = a.len();
    let mut r: Vec<ExtElem> = Vec::with_capacity(n);
    let mut j: usize = 0;
    while j < n
        invariant
            n == a@.len(),
            n == b@.len(),
            j <= n,
            r@.len() == j,
            forall|i: int| 0 <= i < j ==> r@[i] == op.on_ext_and_base(a@[i], b@[i]),
        decreases n - j,
    {
        let x = match op {
            Operation::Add => ext_add_base(a[j], b[j]),
            Operation::Sub => ext_sub_base(a[j], b[j]),
            Operation::Mul => ext_mul_base(a[j], b[j]),
        };
        r.push(x);
        j += 1;
    }
    r
}

/// Lane by lane, a packed base field value as a packed extension field
/// value.
pub fn lift_lanes(a: &Vec<u32>) -> (r: Vec<ExtElem>)
    ensures
        r@.len() == a@.len(),
        forall|j: int| 0 <= j < r@.len() ==> r@[j] == ExtElem::spec_lift(a@[j]),
{
    let n = a.len();
    let mut r: Vec<ExtElem> = Vec::with_capacity(n);
    let mut j: usize = 0;
    while j < n
        invariant
            n == a@.len(),
            j <= n,
            r@.len() == j,
            forall|i: int| 0 <= i < j ==> r@[i] == ExtElem::spec_lift(a@[i]),
        decreases n - j,
    {
        r.push(ext_lift(a[j]));
        j += 1;
    }
    r
}

/// Lane by lane, the negation of a packed base field value.
pub fn neg_base_lanes(a: &Vec<u32>) -> (r: Vec<u32>)
    ensures
        r@.len() == a@.len(),
        forall|j: int| 0 <= j < r@.len() ==> r@[j] == base::spec_neg(a@[j]),
{
    let n = a.len();
    let mut r: Vec<u32> = Vec::with_capacity(n);
    let mut j: usize = 0;
    while j < n
        invariant
            n == a@.len(),
            j <= n,
            r@.len() == j,
            forall|i: int| 0 <= i < j ==> r@[i] == base::spec_neg(a@[i]),
        decreases n - j,
    {
        r.push(base_neg(a[j]));
        j += 1;
    }
    r
}

/// Lane by lane, the negation of a packed extension field value.
pub fn neg_ext_lanes(a: &Vec<ExtElem>) -> (r: Vec<ExtElem>)
    ensures
        r@.len() == a@.len(),
        forall|j: int| 0 <= j < r@.len() ==> r@[j] == a@[j].spec_neg(),
{
    let n = a.len();
    let mut r: Vec<ExtElem> = Vec::with_capacity(n);
    let mut j: usize = 0;
    while j < n
        invariant
            n == a@.len(),
            j <= n,
            r@.len() == j,
            forall|i: int| 0 <= i < j ==> r@[i] == a@[i].spec_neg(),
        decreases n - j,
    {
        r.push(ext_neg(a[j]));
        j += 1;
    }
    r
}

/// The value of an expression at each of the rows of one batch.  To keep
/// extension field arithmetic to a minimum, the value is packed in the
/// base field unless something from the extension field went into it.
#[derive(Debug)]
pub enum PackedExpr {
    Val(Vec<u32>),
    Challenge(Vec<ExtElem>),
}

impl PackedExpr {
    /// The number of rows in the batch.
    pub open spec fn width(&self) -> nat {
        match self {
            PackedExpr::Val(v) => v@.len(),
            PackedExpr::Challenge(v) => v@.len(),
        }
    }

    /// The value at the `j`-th row of the batch.
    pub open spec fn lane(&self, j: int) -> ExprValue {
        match self {
            PackedExpr::Val(v) => ExprValue::Val(v@[j]),
            PackedExpr::Challenge(v) => ExprValue::Challenge(v@[j]),
        }
    }

    /// Whether the value is packed in the extension field.
    pub open spec fn spec_is_challenge(&self) -> bool {
        self is Challenge
    }

    /// Whether the value is packed in the extension field.
    pub fn is_challenge(&self) -> (r: bool)
        ensures
            r == self.spec_is_challenge(),
            r == (self.lane(0) is Challenge),
    {
        match self {
            PackedExpr::Val(_) => false,
            PackedExpr::Challenge(_) => true,
        }
    }

    /// The values at the rows of the batch, in order.
    pub fn lanes(&self) -> (r: Vec<ExprValue>)
        ensures
            r@.len() == self.width(),
            forall|j: int| 0 <= j < r@.len() ==> r@[j] == self.lane(j),
    {
        let mut r: Vec<ExprValue> = Vec::new();
        match self {
            PackedExpr::Val(v) => {
                let n = v.len();
                let mut j: usize = 0;
                while j < n
                    invariant
                        n == v@.len(),
                        j <= n,
                        r@.len() == j,
                        forall|i: int| 0 <= i < j ==> r@[i] == ExprValue::Val(v@[i]),
                    decreases n - j,
                {
                    r.push(ExprValue::Val(v[j]));
                    j += 1;
                }
            },
            PackedExpr::Challenge(v) => {
                let n = v.len();
                let mut j: usize = 0;
                while j < n
                    invariant
                        n == v@.len(),
                        j <= n,
                        r@.len() == j,
                        forall|i: int| 0 <= i < j ==> r@[i] == ExprValue::Challenge(v@[i]),
                    decreases n - j,
                {
                    r.push(ExprValue::Challenge(v[j]));
                    j += 1;
                }
            },
        }
        r
    }

    /// Lane by lane, the operation on two packed values.  Two base field
    /// values give a base field value; everything else gives an extension
    /// field value.
    pub fn combine(&self, op: Operation, rhs: &PackedExpr) -> (r: PackedExpr)
        requires
            self.width() == rhs.width(),
        ensures
            r.width() == self.width(),
            r.spec_is_challenge() == (self.spec_is_challenge() || rhs.spec_is_challenge()),
            forall|j: int|
                0 <= j < r.width() ==> #[trigger] r.lane(j) == op.on_values(
                    self.lane(j),
                    rhs.lane(j),
                ),
    {
        match self {
            PackedExpr::Val(x) => match rhs {
                PackedExpr::Val(y) => PackedExpr::Val(base_lanes(op, x, y)),
                PackedExpr::Challenge(y) => match op {
                    Operation::Sub => {
                        let lifted = lift_lanes(x);
                        PackedExpr::Challenge(ext_lanes(op, &lifted, y))
                    },
                    _ => PackedExpr::Challenge(ext_base_lanes(op, y, x)),
                },
            },
            PackedExpr::Challenge(x) => match rhs {
                PackedExpr::Val(y) => PackedExpr::Challenge(ext_base_lanes(op, x, y)),
                PackedExpr::Challenge(y) => PackedExpr::Challenge(ext_lanes(op, x, y)),
            },
        }
    }

    /// Lane by lane, the sum.
    pub fn add(&self, rhs: &PackedExpr) -> (r: PackedExpr)
        requires
            self.width() == rhs.width(),
        ensures
            r.width() == self.width(),
            r.spec_is_challenge() == (self.spec_is_challenge() || rhs.spec_is_challenge()),
            forall|j: int|
                0 <= j < r.width() ==> #[trigger] r.lane(j) == self.lane(j).spec_add(rhs.lane(j)),
    {
        self.combine(Operation::Add, rhs)
    }

    /// Lane by lane, the difference.
    pub fn sub(&self, rhs: &PackedExpr) -> (r: PackedExpr)
        requires
            self.width() == rhs.width(),
        ensures
            r.width() == self.width(),
            r.spec_is_challenge() == (self.spec_is_challenge() || rhs.spec_is_challenge()),
            forall|j: int|
                0 <= j < r.width() ==> #[trigger] r.lane(j) == self.lane(j).spec_sub(rhs.lane(j)),
    {
        self.combine(Operation::Sub, rhs)
    }

    /// Lane by lane, the product.
    pub fn mul(&self, rhs: &PackedExpr) -> (r: PackedExpr)
        requires
            self.width() == rhs.width(),
        ensures
            r.width() == self.width(),
            r.spec_is_challenge() == (self.spec_is_challenge() || rhs.spec_is_challenge()),
            forall|j: int|
                0 <= j < r.width() ==> #[trigger] r.lane(j) == self.lane(j).spec_mul(rhs.lane(j)),
    {
        self.combine(Operation::Mul, rhs)
    }

    /// Lane by lane, the negation.
    pub fn neg(&self) -> (r: PackedExpr)
        ensures
            r.width() == self.width(),
            r.spec_is_challenge() == self.spec_is_challenge(),
            forall|j: int| 0 <= j < r.width() ==> #[trigger] r.lane(j) == self.lane(j).spec_neg(),
    {
        match self {
            PackedExpr::Val(x) => PackedExpr::Val(neg_base_lanes(x)),
            PackedExpr::Challenge(x) => PackedExpr::Challenge(neg_ext_lanes(x)),
        }
    }
}

} // verus!
