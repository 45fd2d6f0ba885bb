use p3_baby_bear::BabyBear;
use p3_field::PrimeField32;
use vstd::prelude::*;

verus! {

/// The order of the base field, the prime `2^31 - 2^27 + 1`.
pub const ORDER: u32 = 0x78000001;

/// The canonical representative of the residue class of `x`.  An element
/// of the base field is held as a `u32` that stands for its residue class;
/// every result of an operation is canonical, that is below the order.
pub open spec fn reduce(x: int) -> u32 {
    (x % (ORDER as int)) as u32
}

pub open spec fn spec_add(a: u32, b: u32) -> u32 {
    reduce(a + b)
}

pub open spec fn spec_sub(a: u32, b: u32) -> u32 {
    reduce(a - b)
}

pub open spec fn spec_mul(a: u32, b: u32) -> u32 {
    reduce(a * b)
}

pub open spec fn spec_neg(a: u32) -> u32 {
    reduce(-a)
}

/// The sum in `BabyBear`, by its `+`: the canonical representative of
/// `a + b` modulo the order.
#[verifier::external_body]
pub(crate) fn base_add(a: u32, b: u32) -> (r: u32)
    ensures
        r == spec_add(a, b),
{
    (BabyBear::new(a) + BabyBear::new(b)).as_canonical_u32()
}

/// The difference in `BabyBear`, by its `-`: the canonical representative
/// of `a - b` modulo the order.
#[verifier::external_body]
pub(crate) fn base_sub(a: u32, b: u32) -> (r: u32)
    ensures
        r == spec_sub(a, b),
{
    (BabyBear::new(a) - BabyBear::new(b)).as_canonical_u32()
}

/// The product in `BabyBear`, by its `*`: the canonical representative of
/// `a * b` modulo the order.
#[verifier::external_body]
pub(crate) fn base_mul(a: u32, b: u32) -> (r: u32)
    ensures
        r == spec_mul(a, b),
{
    (BabyBear::new(a) * BabyBear::new(b)).as_canonical_u32()
}

/// The negation in `BabyBear`, by its unary `-`: the canonical
/// representative of `-a` modulo the order.
#[verifier::external_body]
pub(crate) fn base_neg(a: u32) -> (r: u32)
    ensures
        r == spec_neg(a),
{
    (-BabyBear::new(a)).as_canonical_u32()
}

/// Multiplying by a unit and then by its inverse gives a canonical
/// element back.
pub proof fn lemma_mul_inverse_cancels(x: u32, unit: u32, inverse: u32)
    requires
        x < ORDER,
        spec_mul(unit, inverse) == 1,
    ensures
        spec_mul(spec_mul(x, unit), inverse) == x,
{
    let m = ORDER as int;
    let (a, b, c) = (x as int, unit as int, inverse as int);
    vstd::arithmetic::div_mod::lemma_mul_mod_noop_left(a * b, c, m);
    vstd::arithmetic::mul::lemma_mul_is_associative(a, b, c);
    vstd::arithmetic::div_mod::lemma_mul_mod_noop_right(a, b * c, m);
    assert(((a * b) % m) * c % m == (a * b * c) % m);
    assert(a * ((b * c) % m) % m == (a * (b * c)) % m);
    assert((b * c) % m == 1);
    assert(a * 1 == a);
    vstd::arithmetic::div_mod::lemma_small_mod(a as nat, m as nat);
}

} // verus!
