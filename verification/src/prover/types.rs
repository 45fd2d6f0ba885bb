use std::sync::Arc;
use vstd::prelude::*;

use crate::field::extension::ExtElem;
use crate::matrix::BaseMatrix;

verus! {

/// The matrices of one AIR that exist before any challenge is drawn, and
/// its public values.
pub struct PairView {
    /// The logarithm of the number of rows of the trace.
    pub log_trace_height: u8,
    pub preprocessed: Option<BaseMatrix>,
    pub partitioned_main: Vec<BaseMatrix>,
    pub public_values: Vec<u32>,
}

/// What one challenge phase adds to the view of an AIR.
pub struct RapSinglePhaseView {
    /// The trace made after the challenges were drawn, if the AIR has
    /// one, every extension field element flattened to its coefficients.
    pub inner: Option<BaseMatrix>,
    /// The challenges drawn in the phase.
    pub challenges: Vec<ExtElem>,
    /// The values exposed to the verifier after the phase.
    pub exposed_values: Vec<ExtElem>,
}

/// The view of one AIR across all challenge phases.
pub struct RapView {
    pub pair: PairView,
    pub per_phase: Vec<RapSinglePhaseView>,
}

/// What was committed to in one commitment.
pub struct PcsData<D> {
    /// The preimage of the commitment, as the commitment scheme keeps it.
    pub data: Arc<D>,
    /// The logarithms of the heights of the committed matrices, in the
    /// order in which they were committed.
    pub log_trace_heights: Vec<u8>,
}

impl<D> PcsData<D> {
    pub fn new(data: D, log_trace_heights: Vec<u8>) -> (r: Self)
        ensures
            *r.data == data,
            r.log_trace_heights == log_trace_heights,
    {
        PcsData { data: Arc::new(data), log_trace_heights }
    }
}

/// The matrices of the challenge phases, in order.
pub open spec fn phase_matrices(per_phase: Seq<RapSinglePhaseView>) -> Seq<BaseMatrix> {
    Seq::new(per_phase.len(), |p: int| per_phase[p].inner->0)
}

/// The challenges of the challenge phases, in order.
pub open spec fn phase_challenges(per_phase: Seq<RapSinglePhaseView>) -> Seq<Vec<ExtElem>> {
    Seq::new(per_phase.len(), |p: int| per_phase[p].challenges)
}

/// The exposed values of the challenge phases, in order.
pub open spec fn phase_exposed_values(per_phase: Seq<RapSinglePhaseView>) -> Seq<Vec<ExtElem>> {
    Seq::new(per_phase.len(), |p: int| per_phase[p].exposed_values)
}

/// Whether a challenge phase lacks its matrix.
pub open spec fn has_gap(per_phase: Seq<RapSinglePhaseView>) -> bool {
    exists|p: int| 0 <= p < per_phase.len() && (#[trigger] per_phase[p]).inner is None
}

/// Takes the views of the challenge phases apart into the matrices, the
/// challenges and the exposed values.  A phase without a matrix is not
/// supported: there is no result then.
pub fn unzip_phases(per_phase: Vec<RapSinglePhaseView>) -> (r: Option<
    (Vec<BaseMatrix>, Vec<Vec<ExtElem>>, Vec<Vec<ExtElem>>),
>)
    ensures
        r is None <==> has_gap(per_phase@),
        r matches Some(parts) ==> parts.0@ == phase_matrices(per_phase@) && parts.1@
            == phase_challenges(per_phase@) && parts.2@ == phase_exposed_values(per_phase@),
{
    let ghost all = per_phase@;
    let mut rest = per_phase;
    let mut matrices: Vec<BaseMatrix> = Vec::new();
    let mut challenges: Vec<Vec<ExtElem>> = Vec::new();
    let mut exposed_values: Vec<Vec<ExtElem>> = Vec::new();
    while rest.len() > 0
        invariant
            all == per_phase@,
            matrices@.len() + rest@.len() == all.len(),
            challenges@.len() == matrices@.len(),
            exposed_values@.len() == matrices@.len(),
            forall|p: int| 0 <= p < rest@.len() ==> rest@[p] == all[matrices@.len() + p],
            forall|p: int| 0 <= p < matrices@.len() ==> (#[trigger] all[p]).inner is Some,
            forall|p: int| 0 <= p < matrices@.len() ==> #[trigger] matrices@[p] == all[p].inner->0,
            forall|p: int| 0 <= p < matrices@.len() ==> #[trigger] challenges@[p] == all[p].challenges,
            forall|p: int|
                0 <= p < matrices@.len() ==> #[trigger] exposed_values@[p] == all[p].exposed_values,
        decreases rest@.len(),
    {
        let ghost done = matrices@.len();
        let view = rest.remove(0);
        assert(view == all[done as int]);
        match view.inner {
            Some(matrix) => {
                matrices.push(matrix);
                challenges.push(view.challenges);
                exposed_values.push(view.exposed_values);
            },
            None => {
                assert(all[done as int].inner is None);
                return None;
            },
        }
    }
    assert(matrices@ =~= phase_matrices(all));
    assert(challenges@ =~= phase_challenges(all));
    assert(exposed_values@ =~= phase_exposed_values(all));
    Some((matrices, challenges, exposed_values))
}

} // verus!
