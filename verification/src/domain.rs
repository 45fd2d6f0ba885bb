use p3_baby_bear::BabyBear;
use p3_commit::PolynomialSpace;
use p3_field::coset::TwoAdicMultiplicativeCoset;
use p3_field::PrimeField32;
use p3_util::log2_strict_usize;
use vstd::arithmetic::power2::{
    is_pow2, lemma2_to64, lemma_pow2_adds, lemma_pow2_pos, lemma_pow2_strictly_increases, pow2,
};
use vstd::bits::lemma_usize_shl_is_mul;
use vstd::prelude::*;

use crate::field::base::{spec_mul, ORDER};

verus! {

/// The largest `k` for which the base field has a subgroup of order `2^k`.
pub const TWO_ADICITY: usize = 27;

/// The generator of the multiplicative group of the base field by which
/// disjoint cosets are shifted.
pub const GENERATOR: u32 = 31;

/// The coset `shift * H` of the subgroup `H` of order `2^log_size` of the
/// multiplicative group of the base field.
#[derive(Clone, Copy, Debug, PartialEq, Eq, Structural, Hash)]
pub struct Domain {
    pub log_size: usize,
    pub shift: u32,
}

/// The selectors of a trace domain at the points of a coset: the Lagrange
/// selectors of the first row, of the last row and of all rows but the
/// last, and the inverse of the polynomial that vanishes on the trace
/// domain.
#[derive(Debug)]
pub struct Selectors {
    pub is_first_row: Vec<u32>,
    pub is_last_row: Vec<u32>,
    pub is_transition: Vec<u32>,
    pub inv_zeroifier: Vec<u32>,
}

/// `2^k` fits the machine word for every `k` up to the two-adicity.
pub proof fn lemma_pow2_bounded(k: nat)
    requires
        k <= TWO_ADICITY,
    ensures
        0 < pow2(k) <= 0x800_0000,
        pow2(k) <= usize::MAX,
{
    lemma2_to64();
    lemma_pow2_pos(k);
    if k < 27 {
        lemma_pow2_strictly_increases(k, 27);
    }
}

/// `2^k`, for `k` up to the two-adicity.
pub fn pow2_usize(k: usize) -> (r: usize)
    requires
        k <= TWO_ADICITY,
    ensures
        r == pow2(k as nat),
        0 < r <= 0x800_0000,
{
    proof {
        lemma_pow2_bounded(k as nat);
        lemma_usize_shl_is_mul(1usize, k);
    }
    1usize << k
}

/// `p3_util::log2_strict_usize`: the exponent of a power of two.
#[verifier::external_body]
fn log2_strict(n: usize) -> (k: usize)
    requires
        is_pow2(n as int),
    ensures
        pow2(k as nat) == n,
{
    log2_strict_usize(n)
}

/// The shifts of the cosets that `split_domains` cuts a coset of size
/// `2^log_size` with the given shift into, in order.
pub uninterp spec fn split_shifts(log_size: nat, shift: u32, num_chunks: nat) -> Seq<u32>;

/// The selectors that `selectors_on_coset` gives for the subgroup of
/// order `2^trace_log_size` at the points of the coset of size
/// `2^coset_log_size` with the shift `GENERATOR`: the first-row,
/// last-row and transition selectors and the inverse zeroifier.
pub uninterp spec fn coset_selectors(trace_log_size: nat, coset_log_size: nat) -> (
    Seq<u32>,
    Seq<u32>,
    Seq<u32>,
    Seq<u32>,
);

/// `PolynomialSpace::create_disjoint_domain` of a two-adic coset over
/// `BabyBear`: the coset of size `min_size`, a power of two, whose shift
/// is the shift of `domain` times `GENERATOR`.  The new shift is not
/// zero, as a product of two units.
#[verifier::external_body]
fn disjoint_domain(domain: Domain, min_size: usize) -> (r: Domain)
    requires
        domain.well_formed(),
        exists|k: nat| k <= TWO_ADICITY && pow2(k) == min_size,
    ensures
        pow2(r.log_size as nat) == min_size,
        r.log_size <= TWO_ADICITY,
        r.shift == spec_mul(domain.shift, GENERATOR),
        r.shift != 0,
{
    let coset = TwoAdicMultiplicativeCoset::new(BabyBear::new(domain.shift), domain.log_size).unwrap();
    let disjoint = coset.create_disjoint_domain(min_size);
    Domain { log_size: disjoint.log_size(), shift: disjoint.shift().as_canonical_u32() }
}

/// `PolynomialSpace::split_domains` of a two-adic coset over `BabyBear`:
/// `num_chunks` cosets of the subgroup of order `2^log_size / num_chunks`,
/// the first of them with the shift of `domain`.
#[verifier::external_body]
fn split_domain(domain: Domain, num_chunks: usize) -> (r: Vec<Domain>)
    requires
        domain.well_formed(),
        exists|k: nat| k <= domain.log_size && pow2(k) == num_chunks,
    ensures
        r@.len() == num_chunks,
        forall|i: int|
            0 <= i < r@.len() ==> pow2((#[trigger] r@[i]).log_size as nat) * num_chunks == pow2(
                domain.log_size as nat,
            ),
        forall|i: int| 0 <= i < r@.len() ==> (#[trigger] r@[i]).log_size <= domain.log_size,
        forall|i: int|
            0 <= i < r@.len() ==> (#[trigger] r@[i]).shift == split_shifts(
                domain.log_size as nat,
                domain.shift,
                num_chunks as nat,
            )[i],
        forall|i: int| 0 <= i < r@.len() ==> 0 < (#[trigger] r@[i]).shift < ORDER,
        r@[0].shift == domain.shift,
{
    let coset = TwoAdicMultiplicativeCoset::new(BabyBear::new(domain.shift), domain.log_size).unwrap();
    coset
        .split_domains(num_chunks)
        .into_iter()
        .map(|d| Domain { log_size: d.log_size(), shift: d.shift().as_canonical_u32() })
        .collect()
}

/// `PolynomialSpace::selectors_on_coset` of the subgroup of order
/// `2^trace.log_size` over `BabyBear`, at the coset with the shift
/// `GENERATOR`, which shares no point with the subgroup: four vectors,
/// each with one entry for every point of the coset.
#[verifier::external_body]
fn selectors_on_coset(trace: Domain, coset: Domain) -> (r: Selectors)
    requires
        trace.log_size <= coset.log_size <= TWO_ADICITY,
        trace.shift == 1,
        coset.shift == GENERATOR,
    ensures
        r.is_first_row@ == coset_selectors(trace.log_size as nat, coset.log_size as nat).0,
        r.is_last_row@ == coset_selectors(trace.log_size as nat, coset.log_size as nat).1,
        r.is_transition@ == coset_selectors(trace.log_size as nat, coset.log_size as nat).2,
        r.inv_zeroifier@ == coset_selectors(trace.log_size as nat, coset.log_size as nat).3,
        r.is_first_row@.len() == pow2(coset.log_size as nat),
        r.is_last_row@.len() == pow2(coset.log_size as nat),
        r.is_transition@.len() == pow2(coset.log_size as nat),
        r.inv_zeroifier@.len() == pow2(coset.log_size as nat),
{
    let h = TwoAdicMultiplicativeCoset::new(BabyBear::new(trace.shift), trace.log_size).unwrap();
    let k = TwoAdicMultiplicativeCoset::new(BabyBear::new(coset.shift), coset.log_size).unwrap();
    let sels = h.selectors_on_coset(k);
    Selectors {
        is_first_row: sels.is_first_row.iter().map(|x| x.as_canonical_u32()).collect(),
        is_last_row: sels.is_last_row.iter().map(|x| x.as_canonical_u32()).collect(),
        is_transition: sels.is_transition.iter().map(|x| x.as_canonical_u32()).collect(),
        inv_zeroifier: sels.inv_vanishing.iter().map(|x| x.as_canonical_u32()).collect(),
    }
}

impl Domain {
    /// The shift is a canonical unit and the subgroup exists.
    pub open spec fn well_formed(self) -> bool {
        &&& self.log_size <= TWO_ADICITY
        &&& 0 < self.shift < ORDER
    }

    /// The number of points of the domain.
    pub open spec fn spec_size(self) -> nat {
        pow2(self.log_size as nat)
    }

    /// The number of points of the domain.
    pub fn size(&self) -> (n: usize)
        requires
            self.log_size <= TWO_ADICITY,
        ensures
            n == self.spec_size(),
            0 < n <= 0x800_0000,
    {
        pow2_usize(self.log_size)
    }

    /// The subgroup of order `2^log_size` itself, the domain of a trace
    /// with that many rows.
    pub fn natural(log_size: usize) -> (domain: Domain)
        requires
            log_size <= TWO_ADICITY,
        ensures
            domain == (Domain { log_size, shift: 1 }),
            domain.well_formed(),
    {
        Domain { log_size, shift: 1 }
    }

    /// The coset of size `2^log_size` that shares no point with `self`:
    /// its shift is the shift of `self` times `GENERATOR`.
    pub fn create_disjoint_domain(&self, log_size: usize) -> (domain: Domain)
        requires
            self.well_formed(),
            log_size <= TWO_ADICITY,
        ensures
            domain == (Domain { log_size, shift: spec_mul(self.shift, GENERATOR) }),
            domain.well_formed(),
    {
        let min_size = pow2_usize(log_size);
        let r = disjoint_domain(*self, min_size);
        proof {
            lemma_pow2_injective(r.log_size as nat, log_size as nat);
        }
        r
    }

    /// Cuts the domain into `2^log_chunks` cosets of equal size.  The
    /// `i`-th of them holds the points `i`, `i + 2^log_chunks`,
    /// `i + 2 * 2^log_chunks`, ... of the domain, in this order.
    pub fn split_domains(&self, log_chunks: usize) -> (chunks: Vec<Domain>)
        requires
            self.well_formed(),
            log_chunks <= self.log_size,
        ensures
            chunks@.len() == pow2(log_chunks as nat),
            forall|i: int|
                0 <= i < chunks@.len() ==> #[trigger] chunks@[i] == (Domain {
                    log_size: (self.log_size - log_chunks) as usize,
                    shift: split_shifts(
                        self.log_size as nat,
                        self.shift,
                        pow2(log_chunks as nat),
                    )[i],
                }),
            forall|i: int| 0 <= i < chunks@.len() ==> (#[trigger] chunks@[i]).well_formed(),
            chunks@[0].shift == self.shift,
    {
        let num_chunks = pow2_usize(log_chunks);
        let chunks = split_domain(*self, num_chunks);
        proof {
            assert forall|i: int| 0 <= i < chunks@.len() implies (#[trigger] chunks@[i]).log_size
                == self.log_size - log_chunks by {
                lemma_pow2_adds(chunks@[i].log_size as nat, log_chunks as nat);
                lemma_pow2_injective(
                    (chunks@[i].log_size + log_chunks) as nat,
                    self.log_size as nat,
                );
            }
        }
        chunks
    }

    /// The selectors of the subgroup `self` at the points of `coset`.
    pub fn selectors_on_coset(&self, coset: Domain) -> (selectors: Selectors)
        requires
            self.log_size <= coset.log_size <= TWO_ADICITY,
            self.shift == 1,
            coset.shift == GENERATOR,
        ensures
            selectors.has_values(coset_selectors(self.log_size as nat, coset.log_size as nat)),
            selectors.covers(coset.spec_size()),
    {
        selectors_on_coset(*self, coset)
    }
}

impl Selectors {
    /// Whether the four vectors hold the given values.
    pub open spec fn has_values(&self, values: (Seq<u32>, Seq<u32>, Seq<u32>, Seq<u32>)) -> bool {
        &&& self.is_first_row@ == values.0
        &&& self.is_last_row@ == values.1
        &&& self.is_transition@ == values.2
        &&& self.inv_zeroifier@ == values.3
    }

    /// Whether each of the four vectors has exactly `size` entries.
    pub open spec fn covers(&self, size: nat) -> bool {
        &&& self.is_first_row@.len() == size
        &&& self.is_last_row@.len() == size
        &&& self.is_transition@.len() == size
        &&& self.inv_zeroifier@.len() == size
    }
}

/// The least `k` with `2^k >= n`.
pub open spec fn spec_log2_ceil(n: nat) -> nat
    decreases n,
{
    if n <= 1 {
        0
    } else {
        1 + spec_log2_ceil(((n + 1) / 2) as nat)
    }
}

/// The least `k` with `2^k >= n`, for a number of one byte.
pub fn log2_ceil_u8(n: u8) -> (k: usize)
    ensures
        k == spec_log2_ceil(n as nat),
        k <= 8,
{
    proof {
        reveal_with_fuel(spec_log2_ceil, 10);
    }
    if n <= 1 {
        0
    } else if n <= 2 {
        1
    } else if n <= 4 {
        2
    } else if n <= 8 {
        3
    } else if n <= 16 {
        4
    } else if n <= 32 {
        5
    } else if n <= 64 {
        6
    } else if n <= 128 {
        7
    } else {
        8
    }
}

/// Distinct exponents give distinct powers of two.
pub proof fn lemma_pow2_injective(a: nat, b: nat)
    requires
        pow2(a) == pow2(b),
    ensures
        a == b,
{
    if a < b {
        lemma_pow2_strictly_increases(a, b);
    } else if b < a {
        lemma_pow2_strictly_increases(b, a);
    }
}

/// The exponent of a power of two.
pub fn log2_strict_usize_checked(n: usize) -> (k: Option<usize>)
    ensures
        k matches Some(e) ==> pow2(e as nat) == n,
        k is None <==> !is_pow2(n as int),
{
    if is_power_of_two(n) {
        Some(log2_strict(n))
    } else {
        None
    }
}

/// Whether `n` is a power of two.
pub fn is_power_of_two(n: usize) -> (r: bool)
    ensures
        r == is_pow2(n as int),
{
    let mut m = n;
    reveal(is_pow2);
    if m == 0 {
        return false;
    }
    while m % 2 == 0
        invariant
            0 < m <= n,
            is_pow2(m as int) == is_pow2(n as int),
        decreases m,
    {
        reveal(is_pow2);
        m = m / 2;
    }
    m == 1
}

} // verus!
