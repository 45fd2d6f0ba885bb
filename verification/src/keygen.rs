use vstd::prelude::*;

use crate::symbolic::dag::SymbolicExpressionDag;

verus! {

/// The widths of the matrices of one AIR.
#[derive(Clone, Debug)]
pub struct TraceWidth {
    pub preprocessed: Option<usize>,
    pub cached_mains: Vec<usize>,
    pub common_main: usize,
    /// For each challenge phase, the width of the trace made after it.
    pub after_challenge: Vec<usize>,
}

/// The numbers that the verifier needs to know of one AIR.
#[derive(Clone, Debug)]
pub struct StarkVerifyingParams {
    pub width: TraceWidth,
    pub num_public_values: usize,
    /// For each challenge phase, the number of values exposed after it.
    pub num_exposed_values_after_challenge: Vec<usize>,
    /// For each challenge phase, the number of challenges drawn in it.
    pub num_challenges_to_sample: Vec<usize>,
}

/// What the verifier keeps of the preprocessed trace of an AIR.
pub struct VerifierSinglePreprocessedData<Com> {
    pub commit: Com,
}

/// The verifying key of one AIR.
pub struct StarkVerifyingKey<Com> {
    pub preprocessed_data: Option<VerifierSinglePreprocessedData<Com>>,
    pub params: StarkVerifyingParams,
    pub symbolic_constraints: SymbolicExpressionDag,
    /// The number of cosets of the trace domain that the quotient domain
    /// is made of.
    pub quotient_degree: u8,
}

/// The verifying keys of all AIRs of a system.
pub struct MultiStarkVerifyingKey<Com> {
    pub per_air: Vec<StarkVerifyingKey<Com>>,
}

impl<Com> MultiStarkVerifyingKey<Com> {
    /// The view of the AIRs with the given positions, in the order given.
    pub fn view<'a>(&'a self, air_ids: &[usize]) -> (view: MultiStarkVerifyingKeyView<'a, Com>)
        requires
            forall|i: int| 0 <= i < air_ids@.len() ==> (#[trigger] air_ids@[i]) < self.per_air@.len(),
        ensures
            view.per_air@.len() == air_ids@.len(),
            forall|i: int|
                0 <= i < air_ids@.len() ==> *(#[trigger] view.per_air@[i])
                    == self.per_air@[air_ids@[i] as int],
    {
        let mut per_air: Vec<&'a StarkVerifyingKey<Com>> = Vec::with_capacity(air_ids.len());
        let mut i: usize = 0;
        while i < air_ids.len()
            invariant
                i <= air_ids@.len(),
                forall|j: int|
                    0 <= j < air_ids@.len() ==> (#[trigger] air_ids@[j]) < self.per_air@.len(),
                per_air@.len() == i,
                forall|j: int|
                    0 <= j < i ==> *(#[trigger] per_air@[j]) == self.per_air@[air_ids@[j] as int],
            decreases air_ids@.len() - i,
        {
            per_air.push(&self.per_air[air_ids[i]]);
            i += 1;
        }
        MultiStarkVerifyingKeyView { per_air }
    }

    /// The view of all AIRs.
    pub fn full_view<'a>(&'a self) -> (view: MultiStarkVerifyingKeyView<'a, Com>)
        ensures
            view.per_air@.len() == self.per_air@.len(),
            forall|i: int|
                0 <= i < self.per_air@.len() ==> *(#[trigger] view.per_air@[i]) == self.per_air@[i],
    {
        let mut per_air: Vec<&'a StarkVerifyingKey<Com>> = Vec::with_capacity(self.per_air.len());
        let mut i: usize = 0;
        while i < self.per_air.len()
            invariant
                i <= self.per_air@.len(),
                per_air@.len() == i,
                forall|j: int| 0 <= j < i ==> *(#[trigger] per_air@[j]) == self.per_air@[j],
            decreases self.per_air@.len() - i,
        {
            per_air.push(&self.per_air[i]);
            i += 1;
        }
        MultiStarkVerifyingKeyView { per_air }
    }
}

/// The verifying keys of some of the AIRs of a system, in their order.
pub struct MultiStarkVerifyingKeyView<'a, Com> {
    pub per_air: Vec<&'a StarkVerifyingKey<Com>>,
}

impl StarkVerifyingParams {
    /// The number of challenge phases of the AIR, if its parameters
    /// agree on it.
    pub open spec fn consistent(&self) -> bool {
        &&& self.width.after_challenge@.len() == self.num_challenges_to_sample@.len()
        &&& self.width.after_challenge@.len() == self.num_exposed_values_after_challenge@.len()
    }
}

/// The commitments to the preprocessed traces of those of the first `n`
/// AIRs that have one, in the order of the AIRs.
pub open spec fn present_commits<Com>(per_air: Seq<&StarkVerifyingKey<Com>>, n: int) -> Seq<Com>
    decreases n,
{
    if n <= 0 {
        Seq::empty()
    } else {
        match per_air[n - 1].preprocessed_data {
            Some(data) => present_commits(per_air, n - 1).push(data.commit),
            None => present_commits(per_air, n - 1),
        }
    }
}

/// The largest number of challenge phases among the first `n` AIRs.
pub open spec fn max_phases<Com>(per_air: Seq<&StarkVerifyingKey<Com>>, n: int) -> nat
    decreases n,
{
    if n <= 0 {
        0
    } else {
        let here = per_air[n - 1].params.width.after_challenge@.len();
        let before = max_phases(per_air, n - 1);
        if here > before {
            here
        } else {
            before
        }
    }
}

/// The largest number of challenges that one of the first `n` AIRs draws
/// in the phase, if one of them has the phase.
pub open spec fn max_challenges<Com>(
    per_air: Seq<&StarkVerifyingKey<Com>>,
    phase_idx: int,
    n: int,
) -> Option<usize>
    decreases n,
{
    if n <= 0 {
        None
    } else {
        let before = max_challenges(per_air, phase_idx, n - 1);
        let sampled = per_air[n - 1].params.num_challenges_to_sample@;
        if phase_idx < sampled.len() {
            match before {
                Some(m) => if sampled[phase_idx] > m {
                    Some(sampled[phase_idx])
                } else {
                    Some(m)
                },
                None => Some(sampled[phase_idx]),
            }
        } else {
            before
        }
    }
}

/// An AIR with more phases than `phase_idx` makes `max_challenges`
/// something, from that AIR on.
pub proof fn lemma_phase_has_challenges<Com>(
    per_air: Seq<&StarkVerifyingKey<Com>>,
    phase_idx: int,
    n: int,
    i: int,
)
    requires
        0 <= i < n <= per_air.len(),
        0 <= phase_idx < per_air[i].params.num_challenges_to_sample@.len(),
    ensures
        max_challenges(per_air, phase_idx, n) is Some,
    decreases n,
{
    if i < n - 1 {
        lemma_phase_has_challenges(per_air, phase_idx, n - 1, i);
    }
}

/// Where there are more phases than `phase_idx`, one AIR has that many.
pub proof fn lemma_max_phases_attained<Com>(per_air: Seq<&StarkVerifyingKey<Com>>, n: int) -> (i:
    int)
    requires
        0 <= n <= per_air.len(),
        max_phases(per_air, n) > 0,
    ensures
        0 <= i < n,
        per_air[i].params.width.after_challenge@.len() == max_phases(per_air, n),
    decreases n,
{
    if per_air[n - 1].params.width.after_challenge@.len() > max_phases(per_air, n - 1) {
        n - 1
    } else {
        lemma_max_phases_attained(per_air, n - 1)
    }
}

impl<'a, Com: Clone> MultiStarkVerifyingKeyView<'a, Com> {
    pub fn new(per_air: Vec<&'a StarkVerifyingKey<Com>>) -> (view: Self)
        ensures
            view.per_air == per_air,
    {
        MultiStarkVerifyingKeyView { per_air }
    }

    /// The parameters of every AIR agree on its number of phases.
    pub open spec fn consistent(&self) -> bool {
        forall|i: int| 0 <= i < self.per_air@.len() ==> (#[trigger] self.per_air@[i]).params.consistent()
    }

    /// Checks that the parameters of every AIR agree on its number of
    /// phases.
    pub fn is_consistent(&self) -> (ok: bool)
        ensures
            ok == self.consistent(),
    {
        let mut i: usize = 0;
        while i < self.per_air.len()
            invariant
                i <= self.per_air@.len(),
                forall|j: int| 0 <= j < i ==> (#[trigger] self.per_air@[j]).params.consistent(),
            decreases self.per_air@.len() - i,
        {
            let params = &self.per_air[i].params;
            let num = params.width.after_challenge.len();
            if num != params.num_challenges_to_sample.len() || num
                != params.num_exposed_values_after_challenge.len() {
                return false;
            }
            i += 1;
        }
        true
    }

    /// For each AIR the commitment to its preprocessed trace, if it has
    /// one.
    pub fn preprocessed_commits(&self) -> (commits: Vec<Option<Com>>)
        ensures
            commits@.len() == self.per_air@.len(),
            forall|i: int|
                0 <= i < commits@.len() ==> match self.per_air@[i].preprocessed_data {
                    Some(data) => (#[trigger] commits@[i]) is Some && cloned(
                        data.commit,
                        commits@[i]->0,
                    ),
                    None => commits@[i] is None,
                },
    {
        let mut commits: Vec<Option<Com>> = Vec::with_capacity(self.per_air.len());
        let mut i: usize = 0;
        while i < self.per_air.len()
            invariant
                i <= self.per_air@.len(),
                commits@.len() == i,
                forall|j: int|
                    0 <= j < i ==> match self.per_air@[j].preprocessed_data {
                        Some(data) => (#[trigger] commits@[j]) is Some && cloned(
                            data.commit,
                            commits@[j]->0,
                        ),
                        None => commits@[j] is None,
                    },
            decreases self.per_air@.len() - i,
        {
            let commit = match &self.per_air[i].preprocessed_data {
                Some(data) => Some(data.commit.clone()),
                None => None,
            };
            commits.push(commit);
            i += 1;
        }
        commits
    }

    /// The commitments to the preprocessed traces of the AIRs that have
    /// one, in the order of the AIRs.
    pub fn flattened_preprocessed_commits(&self) -> (commits: Vec<Com>)
        ensures
            commits@.len() == present_commits(self.per_air@, self.per_air@.len() as int).len(),
            forall|k: int|
                0 <= k < commits@.len() ==> cloned(
                    present_commits(self.per_air@, self.per_air@.len() as int)[k],
                    #[trigger] commits@[k],
                ),
    {
        let mut commits: Vec<Com> = Vec::new();
        let mut i: usize = 0;
        while i < self.per_air.len()
            invariant
                i <= self.per_air@.len(),
                commits@.len() == present_commits(self.per_air@, i as int).len(),
                forall|k: int|
                    0 <= k < commits@.len() ==> cloned(
                        present_commits(self.per_air@, i as int)[k],
                        #[trigger] commits@[k],
                    ),
            decreases self.per_air@.len() - i,
        {
            match &self.per_air[i].preprocessed_data {
                Some(data) => {
                    commits.push(data.commit.clone());
                },
                None => {},
            }
            i += 1;
        }
        commits
    }

    /// The number of challenge phases: the largest number that an AIR has.
    pub fn num_phases(&self) -> (phases: usize)
        requires
            self.consistent(),
        ensures
            phases == max_phases(self.per_air@, self.per_air@.len() as int),
    {
        let mut phases: usize = 0;
        let mut i: usize = 0;
        while i < self.per_air.len()
            invariant
                i <= self.per_air@.len(),
                phases == max_phases(self.per_air@, i as int),
            decreases self.per_air@.len() - i,
        {
            let num = self.per_air[i].params.width.after_challenge.len();
            if num > phases {
                phases = num;
            }
            i += 1;
        }
        phases
    }

    /// The number of challenges to draw in a phase: the largest number
    /// that an AIR draws in it.  Some AIR has to have the phase.
    pub fn num_challenges_in_phase(&self, phase_idx: usize) -> (challenges: usize)
        requires
            max_challenges(self.per_air@, phase_idx as int, self.per_air@.len() as int) is Some,
        ensures
            Some(challenges) == max_challenges(
                self.per_air@,
                phase_idx as int,
                self.per_air@.len() as int,
            ),
    {
        let mut best: Option<usize> = None;
        let mut i: usize = 0;
        while i < self.per_air.len()
            invariant
                i <= self.per_air@.len(),
                best == max_challenges(self.per_air@, phase_idx as int, i as int),
            decreases self.per_air@.len() - i,
        {
            let sampled = &self.per_air[i].params.num_challenges_to_sample;
            if phase_idx < sampled.len() {
                let here = sampled[phase_idx];
                best = match best {
                    Some(m) => if here > m {
                        Some(here)
                    } else {
                        Some(m)
                    },
                    None => Some(here),
                };
            }
            i += 1;
        }
        best.unwrap()
    }

    /// For each phase the number of challenges to draw in it.
    pub fn num_challenges_per_phase(&self) -> (challenges: Vec<usize>)
        requires
            self.consistent(),
        ensures
            challenges@.len() == max_phases(self.per_air@, self.per_air@.len() as int),
            forall|p: int|
                0 <= p < challenges@.len() ==> Some(#[trigger] challenges@[p]) == max_challenges(
                    self.per_air@,
                    p,
                    self.per_air@.len() as int,
                ),
    {
        let num_phases = self.num_phases();
        let mut challenges: Vec<usize> = Vec::with_capacity(num_phases);
        let mut phase_idx: usize = 0;
        while phase_idx < num_phases
            invariant
                self.consistent(),
                num_phases == max_phases(self.per_air@, self.per_air@.len() as int),
                phase_idx <= num_phases,
                challenges@.len() == phase_idx,
                forall|p: int|
                    0 <= p < phase_idx ==> Some(#[trigger] challenges@[p]) == max_challenges(
                        self.per_air@,
                        p,
                        self.per_air@.len() as int,
                    ),
            decreases num_phases - phase_idx,
        {
            proof {
                let i = lemma_max_phases_attained(self.per_air@, self.per_air@.len() as int);
                assert(self.per_air@[i].params.consistent());
                lemma_phase_has_challenges(
                    self.per_air@,
                    phase_idx as int,
                    self.per_air@.len() as int,
                    i,
                );
            }
            challenges.push(self.num_challenges_in_phase(phase_idx));
            phase_idx += 1;
        }
        challenges
    }
}

} // verus!
