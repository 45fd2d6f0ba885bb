use p3_baby_bear::BabyBear;
use p3_field::extension::BinomialExtensionField;
use p3_field::{BasedVectorSpace, PrimeField32};
use vstd::prelude::*;

use crate::field::base::{reduce, ORDER};

verus! {

/// The degree of the extension over the base field.
pub const DEGREE: usize = 4;

/// An element `c0 + c1 X + c2 X^2 + c3 X^3` of the extension field
/// `F[X] / (X^4 - 11)`, by its four coefficients in the base field.
#[derive(Clone, Copy, Debug, PartialEq, Eq, Structural, Hash)]
pub struct ExtElem {
    pub c0: u32,
    pub c1: u32,
    pub c2: u32,
    pub c3: u32,
}

/// What `X^4` equals in the extension field.
pub open spec fn w() -> int {
    11
}

impl ExtElem {
    pub open spec fn spec_zero() -> ExtElem {
        ExtElem { c0: 0, c1: 0, c2: 0, c3: 0 }
    }

    /// The base field element `a` as an element of the extension.
    pub open spec fn spec_lift(a: u32) -> ExtElem {
        ExtElem { c0: reduce(a as int), c1: 0, c2: 0, c3: 0 }
    }

    pub open spec fn spec_add(self, rhs: ExtElem) -> ExtElem {
        ExtElem {
            c0: reduce(self.c0 + rhs.c0),
            c1: reduce(self.c1 + rhs.c1),
            c2: reduce(self.c2 + rhs.c2),
            c3: reduce(self.c3 + rhs.c3),
        }
    }

    pub open spec fn spec_sub(self, rhs: ExtElem) -> ExtElem {
        ExtElem {
            c0: reduce(self.c0 - rhs.c0),
            c1: reduce(self.c1 - rhs.c1),
            c2: reduce(self.c2 - rhs.c2),
            c3: reduce(self.c3 - rhs.c3),
        }
    }

    pub open spec fn spec_neg(self) -> ExtElem {
        ExtElem {
            c0: reduce(-self.c0),
            c1: reduce(-self.c1),
            c2: reduce(-self.c2),
            c3: reduce(-self.c3),
        }
    }

    /// The product of two polynomials of degree three, reduced by
    /// `X^4 = 11`.
    pub open spec fn spec_mul(self, rhs: ExtElem) -> ExtElem {
        let a = self;
        let b = rhs;
        ExtElem {
            c0: reduce(a.c0 * b.c0 + w() * (a.c1 * b.c3 + a.c2 * b.c2 + a.c3 * b.c1)),
            c1: reduce(a.c0 * b.c1 + a.c1 * b.c0 + w() * (a.c2 * b.c3 + a.c3 * b.c2)),
            c2: reduce(a.c0 * b.c2 + a.c1 * b.c1 + a.c2 * b.c0 + w() * (a.c3 * b.c3)),
            c3: reduce(a.c0 * b.c3 + a.c1 * b.c2 + a.c2 * b.c1 + a.c3 * b.c0),
        }
    }

    /// The sum with a base field element, which goes to the constant
    /// coefficient.
    pub open spec fn spec_add_base(self, rhs: u32) -> ExtElem {
        ExtElem {
            c0: reduce(self.c0 + rhs),
            c1: reduce(self.c1 as int),
            c2: reduce(self.c2 as int),
            c3: reduce(self.c3 as int),
        }
    }

    /// The difference with a base field element, which is taken from the
    /// constant coefficient.
    pub open spec fn spec_sub_base(self, rhs: u32) -> ExtElem {
        ExtElem {
            c0: reduce(self.c0 - rhs),
            c1: reduce(self.c1 as int),
            c2: reduce(self.c2 as int),
            c3: reduce(self.c3 as int),
        }
    }

    /// The product with a base field element, coefficient by coefficient.
    pub open spec fn spec_mul_base(self, rhs: u32) -> ExtElem {
        ExtElem {
            c0: reduce(self.c0 * rhs),
            c1: reduce(self.c1 * rhs),
            c2: reduce(self.c2 * rhs),
            c3: reduce(self.c3 * rhs),
        }
    }

    /// Every coefficient is below the order of the base field.
    pub open spec fn is_canonical(self) -> bool {
        &&& self.c0 < ORDER
        &&& self.c1 < ORDER
        &&& self.c2 < ORDER
        &&& self.c3 < ORDER
    }

    /// The coefficient of `X^i`.
    pub open spec fn spec_coeff(self, i: int) -> u32 {
        if i == 0 {
            self.c0
        } else if i == 1 {
            self.c1
        } else if i == 2 {
            self.c2
        } else {
            self.c3
        }
    }

    pub open spec fn spec_one() -> ExtElem {
        ExtElem { c0: 1, c1: 0, c2: 0, c3: 0 }
    }

    /// The `n`-th power: one for `n = 0`, and the power before times the
    /// element after that.
    pub open spec fn spec_pow(self, n: nat) -> ExtElem
        decreases n,
    {
        if n == 0 {
            ExtElem::spec_one()
        } else {
            self.spec_pow((n - 1) as nat).spec_mul(self)
        }
    }

    pub fn zero() -> (r: ExtElem)
        ensures
            r == ExtElem::spec_zero(),
    {
        ExtElem { c0: 0, c1: 0, c2: 0, c3: 0 }
    }

    pub fn one() -> (r: ExtElem)
        ensures
            r == ExtElem::spec_one(),
    {
        ExtElem { c0: 1, c1: 0, c2: 0, c3: 0 }
    }

    /// The first `count` powers of the element, the highest first:
    /// `x^(count - 1), ..., x, 1`.
    pub fn powers_highest_first(&self, count: usize) -> (powers: Vec<ExtElem>)
        ensures
            powers@.len() == count,
            forall|k: int|
                0 <= k < count ==> #[trigger] powers@[k] == self.spec_pow((count - 1 - k) as nat),
    {
        let mut powers: Vec<ExtElem> = crate::prover::packed::broadcast(ExtElem::one(), count);
        if count == 0 {
            return powers;
        }
        let mut current = ExtElem::one();
        let mut n: usize = 0;
        while n < count
            invariant
                n <= count,
                powers@.len() == count,
                current == self.spec_pow(n as nat),
                forall|k: int|
                    count - n <= k < count ==> #[trigger] powers@[k] == self.spec_pow(
                        (count - 1 - k) as nat,
                    ),
            decreases count - n,
        {
            powers.set(count - 1 - n, current);
            current = ext_mul(current, *self);
            n += 1;
        }
        powers
    }

    /// The coefficient of `X^i`.
    pub fn coeff(&self, i: usize) -> (r: u32)
        requires
            i < DEGREE,
        ensures
            r == self.spec_coeff(i as int),
    {
        if i == 0 {
            self.c0
        } else if i == 1 {
            self.c1
        } else if i == 2 {
            self.c2
        } else {
            self.c3
        }
    }
}

/// `From<BabyBear>` of `BinomialExtensionField<BabyBear, 4>`: the base
/// field element becomes the constant coefficient.
#[verifier::external_body]
pub(crate) fn ext_lift(a: u32) -> (r: ExtElem)
    ensures
        r == ExtElem::spec_lift(a),
{
    let z = BinomialExtensionField::<BabyBear, 4>::from(BabyBear::new(a));
    let c: &[BabyBear] = z.as_basis_coefficients_slice();
    ExtElem {
        c0: c[0].as_canonical_u32(),
        c1: c[1].as_canonical_u32(),
        c2: c[2].as_canonical_u32(),
        c3: c[3].as_canonical_u32(),
    }
}

/// `+` of `BinomialExtensionField<BabyBear, 4>`: the sum, coefficient by
/// coefficient.
#[verifier::external_body]
pub(crate) fn ext_add(a: ExtElem, b: ExtElem) -> (r: ExtElem)
    ensures
        r == a.spec_add(b),
{
    let x = BinomialExtensionField::<BabyBear, 4>::new(BabyBear::new_array([a.c0, a.c1, a.c2, a.c3]));
    let y = BinomialExtensionField::<BabyBear, 4>::new(BabyBear::new_array([b.c0, b.c1, b.c2, b.c3]));
    let z = x + y;
    let c: &[BabyBear] = z.as_basis_coefficients_slice();
    ExtElem {
        c0: c[0].as_canonical_u32(),
        c1: c[1].as_canonical_u32(),
        c2: c[2].as_canonical_u32(),
        c3: c[3].as_canonical_u32(),
    }
}

/// `-` of `BinomialExtensionField<BabyBear, 4>`: the difference,
/// coefficient by coefficient.
#[verifier::external_body]
pub(crate) fn ext_sub(a: ExtElem, b: ExtElem) -> (r: ExtElem)
    ensures
        r == a.spec_sub(b),
{
    let x = BinomialExtensionField::<BabyBear, 4>::new(BabyBear::new_array([a.c0, a.c1, a.c2, a.c3]));
    let y = BinomialExtensionField::<BabyBear, 4>::new(BabyBear::new_array([b.c0, b.c1, b.c2, b.c3]));
    let z = x - y;
    let c: &[BabyBear] = z.as_basis_coefficients_slice();
    ExtElem {
        c0: c[0].as_canonical_u32(),
        c1: c[1].as_canonical_u32(),
        c2: c[2].as_canonical_u32(),
        c3: c[3].as_canonical_u32(),
    }
}

/// `*` of `BinomialExtensionField<BabyBear, 4>`: the product of the two
/// polynomials, reduced by `X^4 = 11`.
#[verifier::external_body]
pub(crate) fn ext_mul(a: ExtElem, b: ExtElem) -> (r: ExtElem)
    ensures
        r == a.spec_mul(b),
{
    let x = BinomialExtensionField::<BabyBear, 4>::new(BabyBear::new_array([a.c0, a.c1, a.c2, a.c3]));
    let y = BinomialExtensionField::<BabyBear, 4>::new(BabyBear::new_array([b.c0, b.c1, b.c2, b.c3]));
    let z = x * y;
    let c: &[BabyBear] = z.as_basis_coefficients_slice();
    ExtElem {
        c0: c[0].as_canonical_u32(),
        c1: c[1].as_canonical_u32(),
        c2: c[2].as_canonical_u32(),
        c3: c[3].as_canonical_u32(),
    }
}

/// Unary `-` of `BinomialExtensionField<BabyBear, 4>`: the negation,
/// coefficient by coefficient.
#[verifier::external_body]
pub(crate) fn ext_neg(a: ExtElem) -> (r: ExtElem)
    ensures
        r == a.spec_neg(),
{
    let x = BinomialExtensionField::<BabyBear, 4>::new(BabyBear::new_array([a.c0, a.c1, a.c2, a.c3]));
    let z = -x;
    let c: &[BabyBear] = z.as_basis_coefficients_slice();
    ExtElem {
        c0: c[0].as_canonical_u32(),
        c1: c[1].as_canonical_u32(),
        c2: c[2].as_canonical_u32(),
        c3: c[3].as_canonical_u32(),
    }
}

/// `+` of `BinomialExtensionField<BabyBear, 4>` with a `BabyBear` on the
/// right: the base field element is added to the constant coefficient.
#[verifier::external_body]
pub(crate) fn ext_add_base(a: ExtElem, b: u32) -> (r: ExtElem)
    ensures
        r == a.spec_add_base(b),
{
    let x = BinomialExtensionField::<BabyBear, 4>::new(BabyBear::new_array([a.c0, a.c1, a.c2, a.c3]));
    let z = x + BabyBear::new(b);
    let c: &[BabyBear] = z.as_basis_coefficients_slice();
    ExtElem {
        c0: c[0].as_canonical_u32(),
        c1: c[1].as_canonical_u32(),
        c2: c[2].as_canonical_u32(),
        c3: c[3].as_canonical_u32(),
    }
}

/// `-` of `BinomialExtensionField<BabyBear, 4>` with a `BabyBear` on the
/// right: the base field element is taken from the constant coefficient.
#[verifier::external_body]
pub(crate) fn ext_sub_base(a: ExtElem, b: u32) -> (r: ExtElem)
    ensures
        r == a.spec_sub_base(b),
{
    let x = BinomialExtensionField::<BabyBear, 4>::new(BabyBear::new_array([a.c0, a.c1, a.c2, a.c3]));
    let z = x - BabyBear::new(b);
    let c: &[BabyBear] = z.as_basis_coefficients_slice();
    ExtElem {
        c0: c[0].as_canonical_u32(),
        c1: c[1].as_canonical_u32(),
        c2: c[2].as_canonical_u32(),
        c3: c[3].as_canonical_u32(),
    }
}

/// `*` of `BinomialExtensionField<BabyBear, 4>` with a `BabyBear` on the
/// right: every coefficient is multiplied by the base field element.
#[verifier::external_body]
pub(crate) fn ext_mul_base(a: ExtElem, b: u32) -> (r: ExtElem)
    ensures
        r == a.spec_mul_base(b),
{
    let x = BinomialExtensionField::<BabyBear, 4>::new(BabyBear::new_array([a.c0, a.c1, a.c2, a.c3]));
    let z = x * BabyBear::new(b);
    let c: &[BabyBear] = z.as_basis_coefficients_slice();
    ExtElem {
        c0: c[0].as_canonical_u32(),
        c1: c[1].as_canonical_u32(),
        c2: c[2].as_canonical_u32(),
        c3: c[3].as_canonical_u32(),
    }
}

} // verus!
