use vstd::prelude::*;

verus! {

/// The number of challenges that the log-up phase draws.
pub const STARK_LU_NUM_CHALLENGES: usize = 2;

/// The number of values that the log-up phase exposes per AIR.
pub const STARK_LU_NUM_EXPOSED_VALUES: usize = 1;

/// Whether an interaction puts a message on a bus or takes one off it.
#[derive(Clone, Copy, Debug, PartialEq, Eq, Structural, Hash)]
pub enum InteractionType {
    Send,
    Receive,
}

/// A message that an AIR sends to or receives from a bus, `count` times.
#[derive(Clone, Debug, PartialEq, Eq)]
pub struct Interaction<Expr> {
    pub fields: Vec<Expr>,
    pub count: Expr,
    pub bus_index: usize,
    pub interaction_type: InteractionType,
}

/// What one challenge phase asks of the prover and the verifier.
#[derive(Debug)]
pub struct RapPhaseShape {
    pub num_challenges: usize,
    pub num_exposed_values: usize,
    /// The rotations at which the after-challenge trace is opened besides
    /// the point itself and the next point.
    pub extra_opening_rots: Vec<usize>,
}

/// The supported sequences of challenge phases.
#[derive(Clone, Copy, Debug, PartialEq, Eq, Structural, Hash)]
pub enum RapPhaseSeqKind {
    /// One phase, the log-up argument.
    FriLogUp,
    /// No phase.
    NoPhase,
}

impl RapPhaseSeqKind {
    /// The shape of each phase of the sequence: for the log-up argument
    /// one phase with its challenges and exposed values and no extra
    /// opening; else no phase.
    pub fn shape(&self) -> (phases: Vec<RapPhaseShape>)
        ensures
            match self {
                RapPhaseSeqKind::FriLogUp => {
                    &&& phases@.len() == 1
                    &&& phases@[0].num_challenges == STARK_LU_NUM_CHALLENGES
                    &&& phases@[0].num_exposed_values == STARK_LU_NUM_EXPOSED_VALUES
                    &&& phases@[0].extra_opening_rots@.len() == 0
                },
                RapPhaseSeqKind::NoPhase => phases@.len() == 0,
            },
    {
        match self {
            RapPhaseSeqKind::FriLogUp => {
                let mut phases: Vec<RapPhaseShape> = Vec::new();
                phases.push(
                    RapPhaseShape {
                        num_challenges: STARK_LU_NUM_CHALLENGES,
                        num_exposed_values: STARK_LU_NUM_EXPOSED_VALUES,
                        extra_opening_rots: Vec::new(),
                    },
                );
                phases
            },
            RapPhaseSeqKind::NoPhase => Vec::new(),
        }
    }
}

} // verus!
