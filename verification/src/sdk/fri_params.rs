use vstd::prelude::*;

verus! {

/// The parameters of the FRI protocol.
#[derive(Clone, Copy, Debug, PartialEq, Eq, Structural, Hash)]
pub struct FriParameters {
    pub log_blowup: usize,
    pub log_final_poly_len: usize,
    pub num_queries: usize,
    pub proof_of_work_bits: usize,
}

pub open spec fn spec_min(a: int, b: int) -> int {
    if a <= b {
        a
    } else {
        b
    }
}

/// The number of queries of the standard parameters for a blowup.
pub open spec fn standard_num_queries(log_blowup: usize) -> usize {
    if log_blowup == 1 {
        100
    } else if log_blowup == 2 {
        44
    } else if log_blowup == 3 {
        30
    } else {
        23
    }
}

/// The standard parameters for a blowup between two and sixteen.
pub open spec fn standard_params(log_blowup: usize) -> FriParameters {
    FriParameters {
        log_blowup,
        log_final_poly_len: 0,
        num_queries: standard_num_queries(log_blowup),
        proof_of_work_bits: 16,
    }
}

impl FriParameters {
    /// The conjectured bits of security: the bits that the queries and
    /// the proof of work give, but no more than the challenge field has.
    pub open spec fn spec_conjectured_security_bits(self, challenge_field_bits: usize) -> int {
        spec_min(
            challenge_field_bits as int,
            self.num_queries * self.log_blowup + self.proof_of_work_bits,
        )
    }

    /// The conjectured bits of security, where `challenge_field_bits` is
    /// the number of bits of the challenge field.
    pub fn get_conjectured_security_bits(&self, challenge_field_bits: usize) -> (bits: usize)
        requires
            self.num_queries * self.log_blowup + self.proof_of_work_bits <= usize::MAX,
        ensures
            bits == self.spec_conjectured_security_bits(challenge_field_bits),
    {
        assert(self.num_queries * self.log_blowup <= usize::MAX) by (nonlinear_arith)
            requires
                self.num_queries * self.log_blowup + self.proof_of_work_bits <= usize::MAX,
                self.proof_of_work_bits >= 0,
        ;
        let fri_query_security_bits = self.num_queries * self.log_blowup + self.proof_of_work_bits;
        if challenge_field_bits <= fri_query_security_bits {
            challenge_field_bits
        } else {
            fri_query_security_bits
        }
    }

    /// The standard parameters with the least blowup.
    pub fn standard_fast() -> (params: Self)
        ensures
            params == standard_params(1),
    {
        standard_fri_params_with_100_bits_conjectured_security(1)
    }

    pub fn standard_with_100_bits_conjectured_security(log_blowup: usize) -> (params: Self)
        requires
            1 <= log_blowup <= 4,
        ensures
            params == standard_params(log_blowup),
    {
        standard_fri_params_with_100_bits_conjectured_security(log_blowup)
    }

    /// Parameters for tests with the given blowup: if `fast_test`, two
    /// queries and no proof of work, which is not secure; else the
    /// standard parameters.
    pub fn new_for_testing(log_blowup: usize, fast_test: bool) -> (params: Self)
        requires
            fast_test || 1 <= log_blowup <= 4,
        ensures
            params == (if fast_test {
                FriParameters {
                    log_blowup,
                    log_final_poly_len: 0,
                    num_queries: 2,
                    proof_of_work_bits: 0,
                }
            } else {
                standard_params(log_blowup)
            }),
    {
        if fast_test {
            FriParameters { log_blowup, log_final_poly_len: 0, num_queries: 2, proof_of_work_bits: 0 }
        } else {
            Self::standard_with_100_bits_conjectured_security(log_blowup)
        }
    }

    /// The largest constraint degree that the blowup leaves room for.
    pub fn max_constraint_degree(&self) -> (degree: usize)
        requires
            self.log_blowup < usize::BITS,
        ensures
            degree == vstd::arithmetic::power2::pow2(self.log_blowup as nat) + 1,
    {
        proof {
            vstd::bits::lemma_usize_pow2_no_overflow(self.log_blowup as nat);
            vstd::bits::lemma_usize_shl_is_mul(1usize, self.log_blowup);
        }
        (1usize << self.log_blowup) + 1
    }
}

/// The standard parameters with a hundred bits of conjectured security
/// over a challenge field of more than a hundred bits, for a blowup
/// between two and sixteen.
pub fn standard_fri_params_with_100_bits_conjectured_security(log_blowup: usize) -> (fri_params:
    FriParameters)
    requires
        1 <= log_blowup <= 4,
    ensures
        fri_params == standard_params(log_blowup),
        fri_params.spec_conjectured_security_bits(100) >= 100,
{
    let num_queries: usize = if log_blowup == 1 {
        100
    } else if log_blowup == 2 {
        44
    } else if log_blowup == 3 {
        30
    } else {
        23
    };
    let fri_params = FriParameters {
        log_blowup,
        log_final_poly_len: 0,
        num_queries,
        proof_of_work_bits: 16,
    };
    fri_params
}

} // verus!
