use p3_baby_bear::BabyBear;
use p3_field::PrimeField32;
use vstd::prelude::*;

use crate::field::base::{spec_mul, ORDER};

verus! {

/// `p3_field::batch_multiplicative_inverse` over `BabyBear`: the inverse
/// of each of the given units, in the same order.
#[verifier::external_body]
fn batch_inverse(values: &Vec<u32>) -> (inverses: Vec<u32>)
    requires
        forall|i: int| 0 <= i < values@.len() ==> (#[trigger] values@[i]) % ORDER != 0,
    ensures
        inverses@.len() == values@.len(),
        forall|i: int|
            0 <= i < values@.len() ==> spec_mul(values@[i], #[trigger] inverses@[i]) == 1,
        forall|i: int| 0 <= i < values@.len() ==> (#[trigger] inverses@[i]) < ORDER,
{
    let units: Vec<BabyBear> = values.iter().map(|x| BabyBear::new(*x)).collect();
    p3_field::batch_multiplicative_inverse(&units).iter().map(|x| x.as_canonical_u32()).collect()
}

/// `rayon::current_num_threads`: the number of threads of the pool that
/// the caller runs in.  It depends on the machine and on how the pool was
/// set up, so nothing is claimed of it.
#[verifier::external_body]
fn current_num_threads() -> (n: usize) {
    rayon::current_num_threads()
}

/// The number of workers to deal work out to: the number of threads of
/// the pool, and one if the pool reports none.
pub fn worker_count() -> (n: usize)
    ensures
        n >= 1,
{
    workers_for(current_num_threads())
}

/// The number of workers for a pool that reports `threads` threads: one
/// worker per thread, and one worker if the pool reports none.
pub open spec fn spec_workers_for(threads: usize) -> usize {
    if threads == 0 {
        1
    } else {
        threads
    }
}

/// The number of workers for a pool that reports `threads` threads.
pub fn workers_for(threads: usize) -> (n: usize)
    ensures
        n == spec_workers_for(threads),
        n >= 1,
{
    if threads == 0 {
        1
    } else {
        threads
    }
}

/// Whether `inverse` is what inversion that lets zero stand gives for
/// `value`: zero as it was given, else the canonical inverse.
pub open spec fn is_inverse_or_zero(value: u32, inverse: u32) -> bool {
    if value % ORDER == 0 {
        inverse == value
    } else {
        spec_mul(value, inverse) == 1 && inverse < ORDER
    }
}

/// The multiplicative inverse of each field element, with the zeros
/// left as they are.
pub fn batch_multiplicative_inverse_allowing_zero(values: Vec<u32>) -> (result: Vec<u32>)
    ensures
        result@.len() == values@.len(),
        forall|i: int|
            0 <= i < values@.len() ==> is_inverse_or_zero(values@[i], #[trigger] result@[i]),
{
    let n = values.len();
    let mut nonzero_values: Vec<u32> = Vec::with_capacity(n);
    let mut indices: Vec<usize> = Vec::with_capacity(n);
    let mut i: usize = 0;
    while i < n
        invariant
            n == values@.len(),
            i <= n,
            nonzero_values@.len() == indices@.len(),
            indices@.len() <= i,
            forall|k: int|
                0 <= k < indices@.len() ==> (#[trigger] indices@[k]) < i && nonzero_values@[k]
                    == values@[indices@[k] as int] && values@[indices@[k] as int] % ORDER != 0,
            forall|k: int, l: int|
                0 <= k < l < indices@.len() ==> (#[trigger] indices@[k]) < (
                #[trigger] indices@[l]),
            forall|j: int|
                0 <= j < i && (#[trigger] values@[j]) % ORDER != 0 ==> exists|k: int|
                    0 <= k < indices@.len() && #[trigger] indices@[k] == j,
        decreases n - i,
    {
        let value = values[i];
        if value % ORDER != 0 {
            let ghost before = indices@;
            nonzero_values.push(value);
            indices.push(i);
            proof {
                assert forall|j: int|
                    0 <= j < i + 1 && (#[trigger] values@[j]) % ORDER != 0 implies exists|k: int|
                    0 <= k < indices@.len() && #[trigger] indices@[k] == j by {
                    if j < i {
                        let k = choose|k: int| 0 <= k < before.len() && #[trigger] before[k] == j;
                        assert(indices@[k] == j);
                    } else {
                        assert(indices@[before.len() as int] == j);
                    }
                }
            }
        }
        i += 1;
    }
    proof {
        assert forall|k: int| 0 <= k < nonzero_values@.len() implies (
        #[trigger] nonzero_values@[k]) % ORDER != 0 by {
            assert(indices@[k] < n);
        }
    }
    let inverse_nonzero_values = batch_inverse(&nonzero_values);
    let mut result = values;
    let ghost given = result@;
    let m = indices.len();
    let mut k: usize = 0;
    while k < m
        invariant
            m == indices@.len(),
            k <= m,
            n == given.len(),
            result@.len() == n,
            inverse_nonzero_values@.len() == m,
            nonzero_values@.len() == m,
            forall|l: int|
                0 <= l < m ==> (#[trigger] indices@[l]) < n && nonzero_values@[l]
                    == given[indices@[l] as int],
            forall|a: int, b: int|
                0 <= a < b < m ==> (#[trigger] indices@[a]) < (#[trigger] indices@[b]),
            forall|l: int|
                0 <= l < k ==> result@[(#[trigger] indices@[l]) as int]
                    == inverse_nonzero_values@[l],
            forall|j: int|
                0 <= j < n && (forall|l: int| 0 <= l < k ==> (#[trigger] indices@[l]) != j)
                    ==> #[trigger] result@[j] == given[j],
        decreases m - k,
    {
        let index = indices[k];
        let ghost before = result@;
        result.set(index, inverse_nonzero_values[k]);
        proof {
            assert forall|l: int| 0 <= l < k + 1 implies result@[(#[trigger] indices@[l]) as int]
                == inverse_nonzero_values@[l] by {
                if l < k {
                    assert(indices@[l] < indices@[k as int]);
                }
            }
        }
        k += 1;
    }
    proof {
        assert forall|i: int| 0 <= i < n implies is_inverse_or_zero(
            given[i],
            #[trigger] result@[i],
        ) by {
            if given[i] % ORDER != 0 {
                let l = choose|l: int| 0 <= l < indices@.len() && #[trigger] indices@[l] == i;
                assert(result@[indices@[l] as int] == inverse_nonzero_values@[l]);
                assert(spec_mul(nonzero_values@[l], inverse_nonzero_values@[l]) == 1);
            } else {
                assert forall|l: int| 0 <= l < m implies (#[trigger] indices@[l]) != i by {
                    if indices@[l] == i {
                        assert(given[indices@[l] as int] % ORDER != 0);
                    }
                }
            }
        }
    }
    result
}

/// The slices `(offset, length)` that a slice of `len` items in chunks of
/// `chunk_size` is cut into for `num_threads` workers.
///
/// Whether `slices` is that cut: there is one slice per worker, or one per
/// chunk where there are fewer chunks than workers; the slices follow
/// each other and cover every item; each holds whole chunks, at least
/// one; and no slice is more than one chunk longer than another, the
/// longer ones first.
pub open spec fn is_balanced_cut(
    slices: Seq<(usize, usize)>,
    len: nat,
    chunk_size: nat,
    num_threads: nat,
) -> bool {
    &&& slices.len() == if len / chunk_size < num_threads {
        len / chunk_size
    } else {
        num_threads
    }
    &&& forall|i: int|
        0 <= i < slices.len() ==> (#[trigger] slices[i]).1 > 0 && (slices[i].1 as int) % (chunk_size as int)
            == 0
    &&& forall|i: int|
        0 <= i < slices.len() ==> (#[trigger] slices[i]).0 == if i == 0 {
            0
        } else {
            slices[i - 1].0 + slices[i - 1].1
        }
    &&& forall|i: int| 0 <= i < slices.len() ==> (#[trigger] slices[i]).0 + slices[i].1 <= len
    &&& if slices.len() == 0 {
        len == 0
    } else {
        slices[slices.len() - 1].0 + slices[slices.len() - 1].1 == len
    }
    &&& forall|i: int, j: int|
        0 <= i <= j < slices.len() ==> (#[trigger] slices[j]).1 <= (#[trigger] slices[i]).1
            <= slices[j].1 + chunk_size
}

/// Cuts a slice of `len` items, a whole number of chunks of `chunk_size`
/// items, into slices for `num_threads` workers to work on side by side.
///
/// The chunks are dealt out evenly: where they cannot all get equally
/// many, the first workers get one chunk more than the others, so that
/// no worker has much more to do than another.
pub fn parallelize_chunks(len: usize, chunk_size: usize, num_threads: usize) -> (slices: Vec<
    (usize, usize),
>)
    requires
        chunk_size > 0,
        num_threads > 0,
        len % chunk_size == 0,
    ensures
        is_balanced_cut(slices@, len as nat, chunk_size as nat, num_threads as nat),
{
    let total_iters = len / chunk_size;
    let lo_iters = total_iters / num_threads;
    let cutoff_thread_idx = total_iters % num_threads;
    let count = if total_iters < num_threads {
        total_iters
    } else {
        num_threads
    };
    proof {
        assert(total_iters * chunk_size == len) by (nonlinear_arith)
            requires
                total_iters == len / chunk_size,
                len % chunk_size == 0,
                chunk_size > 0,
        ;
        assert(lo_iters * num_threads + cutoff_thread_idx == total_iters) by (nonlinear_arith)
            requires
                lo_iters == total_iters / num_threads,
                cutoff_thread_idx == total_iters % num_threads,
                num_threads > 0,
        ;
        if total_iters < num_threads {
            assert(lo_iters == 0) by (nonlinear_arith)
                requires
                    lo_iters == total_iters / num_threads,
                    0 <= total_iters < num_threads,
            ;
        } else {
            assert(lo_iters >= 1) by (nonlinear_arith)
                requires
                    lo_iters == total_iters / num_threads,
                    total_iters >= num_threads,
                    num_threads > 0,
            ;
        }
    }
    let mut slices: Vec<(usize, usize)> = Vec::with_capacity(count);
    let mut offset: usize = 0;
    let mut done: usize = 0;
    let mut i: usize = 0;
    while i < count
        invariant
            chunk_size > 0,
            num_threads > 0,
            i <= count,
            count <= num_threads,
            count == if total_iters < num_threads {
                total_iters
            } else {
                num_threads
            },
            total_iters * chunk_size == len,
            lo_iters * num_threads + cutoff_thread_idx == total_iters,
            cutoff_thread_idx < num_threads,
            total_iters < num_threads ==> lo_iters == 0,
            total_iters >= num_threads ==> lo_iters >= 1,
            done == if i <= cutoff_thread_idx {
                i * (lo_iters + 1)
            } else {
                cutoff_thread_idx * (lo_iters + 1) + (i - cutoff_thread_idx) * lo_iters
            },
            done <= total_iters,
            offset == done * chunk_size,
            slices@.len() == i,
            forall|k: int|
                0 <= k < i ==> (#[trigger] slices@[k]).1 == (if k < cutoff_thread_idx {
                    lo_iters + 1
                } else {
                    lo_iters as int
                }) * chunk_size,
            forall|k: int|
                0 <= k < i ==> (#[trigger] slices@[k]).0 == if k == 0 {
                    0
                } else {
                    slices@[k - 1].0 + slices@[k - 1].1
                },
            i > 0 ==> slices@[i - 1].0 + slices@[i - 1].1 == offset,
            forall|k: int| 0 <= k < i ==> (#[trigger] slices@[k]).0 + slices@[k].1 <= len,
        decreases count - i,
    {
        let iters = if i < cutoff_thread_idx {
            assert(lo_iters + 1 <= total_iters) by (nonlinear_arith)
                requires
                    lo_iters * num_threads + cutoff_thread_idx == total_iters,
                    cutoff_thread_idx > 0,
                    num_threads >= 1,
                    lo_iters >= 0,
            ;
            lo_iters + 1
        } else {
            lo_iters
        };
        proof {
            let next_done: int = if i + 1 <= cutoff_thread_idx {
                (i + 1) * (lo_iters + 1)
            } else {
                cutoff_thread_idx * (lo_iters + 1) + (i + 1 - cutoff_thread_idx) * lo_iters
            };
            assert(next_done == done + iters) by (nonlinear_arith)
                requires
                    done == if i <= cutoff_thread_idx {
                        i * (lo_iters + 1)
                    } else {
                        cutoff_thread_idx * (lo_iters + 1) + (i - cutoff_thread_idx) * lo_iters
                    },
                    next_done == if i + 1 <= cutoff_thread_idx {
                        (i + 1) * (lo_iters + 1)
                    } else {
                        cutoff_thread_idx * (lo_iters + 1) + (i + 1 - cutoff_thread_idx)
                            * lo_iters
                    },
                    iters == if i < cutoff_thread_idx {
                        lo_iters + 1
                    } else {
                        lo_iters as int
                    },
            ;
            assert(next_done <= total_iters) by (nonlinear_arith)
                requires
                    next_done == if i + 1 <= cutoff_thread_idx {
                        (i + 1) * (lo_iters + 1)
                    } else {
                        cutoff_thread_idx * (lo_iters + 1) + (i + 1 - cutoff_thread_idx)
                            * lo_iters
                    },
                    lo_iters * num_threads + cutoff_thread_idx == total_iters,
                    i + 1 <= num_threads,
                    cutoff_thread_idx < num_threads,
                    total_iters < num_threads ==> lo_iters == 0,
                    i + 1 <= (if total_iters < num_threads {
                        total_iters
                    } else {
                        num_threads
                    }),
                    i >= 0,
                    lo_iters >= 0,
                    cutoff_thread_idx >= 0,
            ;
            assert((done + iters) * chunk_size == done * chunk_size + iters * chunk_size)
                by (nonlinear_arith);
            assert((done + iters) * chunk_size <= total_iters * chunk_size) by (nonlinear_arith)
                requires
                    done + iters <= total_iters,
                    chunk_size > 0,
            ;
            assert(iters * chunk_size > 0) by (nonlinear_arith)
                requires
                    iters >= 1,
                    chunk_size > 0,
            ;
            assert((iters * chunk_size) % (chunk_size as int) == 0) by (nonlinear_arith)
                requires
                    chunk_size > 0,
                    iters >= 0,
            ;
        }
        let size = iters * chunk_size;
        slices.push((offset, size));
        offset = offset + size;
        done = done + iters;
        i += 1;
    }
    proof {
        assert(done == total_iters) by (nonlinear_arith)
            requires
                done == if count <= cutoff_thread_idx {
                    count * (lo_iters + 1)
                } else {
                    cutoff_thread_idx * (lo_iters + 1) + (count - cutoff_thread_idx) * lo_iters
                },
                count == if total_iters < num_threads {
                    total_iters
                } else {
                    num_threads
                },
                lo_iters * num_threads + cutoff_thread_idx == total_iters,
                cutoff_thread_idx < num_threads,
                total_iters < num_threads ==> lo_iters == 0,
                cutoff_thread_idx >= 0,
                lo_iters >= 0,
        ;
        assert(len as int / chunk_size as int == total_iters);
        assert forall|a: int, b: int| 0 <= a <= b < slices@.len() implies (
        #[trigger] slices@[b]).1 <= (#[trigger] slices@[a]).1 <= slices@[b].1 + chunk_size by {
            assert((lo_iters + 1) * chunk_size == lo_iters * chunk_size + chunk_size)
                by (nonlinear_arith);
        }
        assert forall|k: int| 0 <= k < slices@.len() implies (#[trigger] slices@[k]).1 > 0
            && (slices@[k].1 as int) % (chunk_size as int) == 0 by {
            let iters: int = if k < cutoff_thread_idx {
                lo_iters + 1
            } else {
                lo_iters as int
            };
            assert(iters >= 1) by {
                if total_iters < num_threads {
                    assert(cutoff_thread_idx == total_iters);
                }
            }
            assert(iters * chunk_size > 0) by (nonlinear_arith)
                requires
                    iters >= 1,
                    chunk_size > 0,
            ;
            assert((iters * chunk_size) % (chunk_size as int) == 0) by (nonlinear_arith)
                requires
                    chunk_size > 0,
                    iters >= 0,
            ;
        }
    }
    slices
}

} // verus!
