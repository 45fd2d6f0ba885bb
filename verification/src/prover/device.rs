use std::marker::PhantomData;
use vstd::arithmetic::power2::{is_pow2, pow2};
use vstd::prelude::*;

use crate::domain::{log2_strict_usize_checked, Domain, TWO_ADICITY};
use crate::prover::types::RapSinglePhaseView;

verus! {

/// Proves several AIRs with interactions together.
pub struct MultiTraceStarkProver<'c, SC> {
    pub config: &'c SC,
}

/// The backend that works on the host, with matrices in main memory.
pub struct CpuBackend<SC> {
    pub phantom: PhantomData<SC>,
}

/// The device of the host backend.
pub struct CpuDevice<'a, SC> {
    pub config: &'a SC,
}

impl<'a, SC> CpuDevice<'a, SC> {
    pub fn new(config: &'a SC) -> (device: Self)
        ensures
            device.config == config,
    {
        CpuDevice { config }
    }

    pub fn config(&self) -> (config: &SC)
        ensures
            config == self.config,
    {
        self.config
    }
}

/// Whether the heights are those of traces: powers of two that the base
/// field has a subgroup for.
pub open spec fn are_trace_heights(heights: Seq<usize>) -> bool {
    forall|i: int|
        0 <= i < heights.len() ==> is_pow2((#[trigger] heights[i]) as int) && heights[i]
            <= 0x800_0000
}

/// For each matrix that is to be committed the logarithm of its height
/// and its domain, the subgroup with one point per row.  There is no
/// result if a height is no power of two or too large for the field.
pub fn trace_domains(heights: &[usize]) -> (domains: Option<Vec<(u8, Domain)>>)
    ensures
        domains is Some <==> are_trace_heights(heights@),
        domains matches Some(d) ==> {
            &&& d@.len() == heights@.len()
            &&& forall|i: int|
                0 <= i < d@.len() ==> {
                    &&& pow2((#[trigger] d@[i]).0 as nat) == heights@[i]
                    &&& d@[i].1 == (Domain { log_size: d@[i].0 as usize, shift: 1 })
                }
        },
{
    let mut domains: Vec<(u8, Domain)> = Vec::with_capacity(heights.len());
    let mut i: usize = 0;
    while i < heights.len()
        invariant
            i <= heights@.len(),
            domains@.len() == i,
            forall|j: int|
                0 <= j < i ==> is_pow2((#[trigger] heights@[j]) as int) && heights@[j]
                    <= 0x800_0000,
            forall|j: int|
                0 <= j < i ==> {
                    &&& pow2((#[trigger] domains@[j]).0 as nat) == heights@[j]
                    &&& domains@[j].1 == (Domain { log_size: domains@[j].0 as usize, shift: 1 })
                },
        decreases heights@.len() - i,
    {
        let height = heights[i];
        if height > 0x800_0000 {
            return None;
        }
        let log_height = match log2_strict_usize_checked(height) {
            Some(log_height) => log_height,
            None => {
                return None;
            },
        };
        proof {
            vstd::arithmetic::power2::lemma2_to64();
            if log_height > TWO_ADICITY {
                vstd::arithmetic::power2::lemma_pow2_strictly_increases(27, log_height as nat);
            }
        }
        domains.push((log_height as u8, Domain::natural(log_height)));
        i += 1;
    }
    Some(domains)
}

/// The number of AIRs among the first `n` that have a trace.
pub open spec fn count_traces(has_trace: Seq<bool>, n: int) -> nat
    decreases n,
{
    if n <= 0 {
        0
    } else if has_trace[n - 1] {
        count_traces(has_trace, n - 1) + 1
    } else {
        count_traces(has_trace, n - 1)
    }
}

/// The number of traces is at most the number of AIRs.
pub proof fn lemma_count_traces_bounded(has_trace: Seq<bool>, n: int)
    requires
        0 <= n,
    ensures
        count_traces(has_trace, n) <= n,
    decreases n,
{
    if n > 0 {
        lemma_count_traces_bounded(has_trace, n - 1);
    }
}

/// For each AIR the position of its after-challenge trace in the shared
/// commitment of the phase: the AIRs that have such a trace are numbered
/// in their order, the others have none.
pub fn assign_phase_matrices(has_trace: &[bool]) -> (matrix_idx: Vec<Option<usize>>)
    ensures
        matrix_idx@.len() == has_trace@.len(),
        forall|i: int|
            0 <= i < has_trace@.len() ==> #[trigger] matrix_idx@[i] == (if has_trace@[i] {
                Some(count_traces(has_trace@, i) as usize)
            } else {
                None
            }),
{
    let mut matrix_idx: Vec<Option<usize>> = Vec::with_capacity(has_trace.len());
    let mut perm_matrix_idx: usize = 0;
    let mut i: usize = 0;
    while i < has_trace.len()
        invariant
            i <= has_trace@.len(),
            matrix_idx@.len() == i,
            perm_matrix_idx == count_traces(has_trace@, i as int),
            forall|j: int|
                0 <= j < i ==> #[trigger] matrix_idx@[j] == (if has_trace@[j] {
                    Some(count_traces(has_trace@, j) as usize)
                } else {
                    None
                }),
        decreases has_trace@.len() - i,
    {
        proof {
            lemma_count_traces_bounded(has_trace@, i as int);
        }
        if has_trace[i] {
            matrix_idx.push(Some(perm_matrix_idx));
            perm_matrix_idx += 1;
        } else {
            matrix_idx.push(None);
        }
        i += 1;
    }
    matrix_idx
}

/// Whether the height of the trace of the AIR at position `i` is known:
/// an AIR with a common main trace has its place among the heights of
/// the common main traces; another AIR has a first cached trace whose
/// height is a power of two.
pub open spec fn height_known(
    has_common_main: Seq<bool>,
    common_log_heights: Seq<u8>,
    first_cached_height: Seq<Option<usize>>,
    i: int,
) -> bool {
    if has_common_main[i] {
        count_traces(has_common_main, i) < common_log_heights.len()
    } else {
        i < first_cached_height.len() && first_cached_height[i] is Some && is_pow2(
            first_cached_height[i]->0 as int,
        )
    }
}

/// Whether `entry` says the height of the trace of the AIR at position
/// `i`: for an AIR with a common main trace the logarithm of the height
/// of that trace and its position among the common main traces, which
/// are numbered in the order of the AIRs that have one; for another AIR
/// the logarithm of the height of its first cached trace and no
/// position.
pub open spec fn is_trace_height(
    has_common_main: Seq<bool>,
    common_log_heights: Seq<u8>,
    first_cached_height: Seq<Option<usize>>,
    i: int,
    entry: (u8, Option<usize>),
) -> bool {
    if has_common_main[i] {
        entry == (
            common_log_heights[count_traces(has_common_main, i) as int],
            Some(count_traces(has_common_main, i) as usize),
        )
    } else {
        pow2(entry.0 as nat) == first_cached_height[i]->0 && entry.1 is None
    }
}

/// For each AIR the logarithm of the height of its trace and, if it has
/// a common main trace, the position of that trace among the common main
/// traces.  There is no result if a height is not known.
pub fn air_trace_heights(
    has_common_main: &[bool],
    common_log_heights: &[u8],
    first_cached_height: &[Option<usize>],
) -> (heights: Option<Vec<(u8, Option<usize>)>>)
    ensures
        heights is Some <==> forall|i: int|
            0 <= i < has_common_main@.len() ==> #[trigger] height_known(
                has_common_main@,
                common_log_heights@,
                first_cached_height@,
                i,
            ),
        heights matches Some(h) ==> {
            &&& h@.len() == has_common_main@.len()
            &&& forall|i: int|
                0 <= i < h@.len() ==> is_trace_height(
                    has_common_main@,
                    common_log_heights@,
                    first_cached_height@,
                    i,
                    #[trigger] h@[i],
                )
        },
{
    let n = has_common_main.len();
    let mut heights: Vec<(u8, Option<usize>)> = Vec::with_capacity(n);
    let mut common_main_idx: usize = 0;
    let mut i: usize = 0;
    while i < n
        invariant
            n == has_common_main@.len(),
            i <= n,
            heights@.len() == i,
            common_main_idx == count_traces(has_common_main@, i as int),
            forall|j: int|
                0 <= j < i ==> #[trigger] height_known(
                    has_common_main@,
                    common_log_heights@,
                    first_cached_height@,
                    j,
                ),
            forall|j: int|
                0 <= j < i ==> is_trace_height(
                    has_common_main@,
                    common_log_heights@,
                    first_cached_height@,
                    j,
                    #[trigger] heights@[j],
                ),
        decreases n - i,
    {
        proof {
            lemma_count_traces_bounded(has_common_main@, i as int);
        }
        if has_common_main[i] {
            if common_main_idx >= common_log_heights.len() {
                assert(!height_known(
                    has_common_main@,
                    common_log_heights@,
                    first_cached_height@,
                    i as int,
                ));
                return None;
            }
            heights.push((common_log_heights[common_main_idx], Some(common_main_idx)));
            common_main_idx += 1;
        } else {
            let log_height = if i < first_cached_height.len() {
                match first_cached_height[i] {
                    Some(height) => log2_strict_usize_checked(height),
                    None => None,
                }
            } else {
                None
            };
            match log_height {
                Some(log_height) => {
                    proof {
                        let height = first_cached_height@[i as int]->0;
                        if log_height >= usize::BITS {
                            vstd::bits::lemma_usize_pow2_no_overflow((usize::BITS - 1) as nat);
                            vstd::arithmetic::power2::lemma_pow2_unfold(usize::BITS as nat);
                            if log_height > usize::BITS {
                                vstd::arithmetic::power2::lemma_pow2_strictly_increases(
                                    usize::BITS as nat,
                                    log_height as nat,
                                );
                            }
                            vstd::arithmetic::power2::lemma2_to64();
                            assert(false);
                        }
                    }
                    heights.push((log_height as u8, None));
                },
                None => {
                    assert(!height_known(
                        has_common_main@,
                        common_log_heights@,
                        first_cached_height@,
                        i as int,
                    ));
                    return None;
                },
            }
        }
        i += 1;
    }
    Some(heights)
}

/// The number of phases up to the last one that is there.
pub open spec fn phases_kept(per_phase: Seq<Option<RapSinglePhaseView>>) -> nat
    decreases per_phase.len(),
{
    if per_phase.len() == 0 {
        0
    } else if per_phase.last() is Some {
        per_phase.len()
    } else {
        phases_kept(per_phase.drop_last())
    }
}

/// The phase view of a phase in which an AIR takes no part.
pub open spec fn empty_phase(view: RapSinglePhaseView) -> bool {
    &&& view.inner is None
    &&& view.challenges@.len() == 0
    &&& view.exposed_values@.len() == 0
}

/// The views of an AIR in the challenge phases, without the phases at
/// the end in which it takes no part.  A phase in between in which it
/// takes no part gets an empty view.
pub fn trim_phases(per_phase: Vec<Option<RapSinglePhaseView>>) -> (views: Vec<RapSinglePhaseView>)
    ensures
        views@.len() == phases_kept(per_phase@),
        views@.len() <= per_phase@.len(),
        forall|p: int|
            0 <= p < views@.len() ==> match per_phase@[p] {
                Some(view) => #[trigger] views@[p] == view,
                None => empty_phase(views@[p]),
            },
{
    let ghost all = per_phase@;
    let mut rest = per_phase;
    while rest.len() > 0 && rest[rest.len() - 1].is_none()
        invariant
            all == per_phase@,
            rest@.len() <= all.len(),
            forall|p: int| 0 <= p < rest@.len() ==> rest@[p] == all[p],
            phases_kept(rest@) == phases_kept(all),
        decreases rest@.len(),
    {
        let ghost before = rest@;
        rest.pop();
        assert(rest@ =~= before.drop_last());
    }
    assert(phases_kept(rest@) == rest@.len());
    let ghost kept = rest@;
    let mut views: Vec<RapSinglePhaseView> = Vec::with_capacity(rest.len());
    while rest.len() > 0
        invariant
            all == per_phase@,
            kept.len() <= all.len(),
            forall|p: int| 0 <= p < kept.len() ==> kept[p] == all[p],
            views@.len() + rest@.len() == kept.len(),
            forall|p: int| 0 <= p < rest@.len() ==> rest@[p] == kept[views@.len() + p],
            forall|p: int|
                0 <= p < views@.len() ==> match all[p] {
                    Some(view) => #[trigger] views@[p] == view,
                    None => empty_phase(views@[p]),
                },
        decreases rest@.len(),
    {
        let ghost done = views@.len();
        let view = rest.remove(0);
        assert(view == all[done as int]);
        match view {
            Some(view) => {
                views.push(view);
            },
            None => {
                views.push(
                    RapSinglePhaseView {
                        inner: None,
                        challenges: Vec::new(),
                        exposed_values: Vec::new(),
                    },
                );
            },
        }
    }
    views
}

} // verus!
