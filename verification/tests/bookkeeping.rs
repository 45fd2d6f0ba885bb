use stark_backend::domain::Domain;
use stark_backend::field::extension::ExtElem;
use stark_backend::interaction::{
    Interaction, InteractionType, RapPhaseSeqKind, STARK_LU_NUM_CHALLENGES,
    STARK_LU_NUM_EXPOSED_VALUES,
};
use stark_backend::keygen::{
    MultiStarkVerifyingKey, MultiStarkVerifyingKeyView, StarkVerifyingKey, StarkVerifyingParams, TraceWidth,
    VerifierSinglePreprocessedData,
};
use stark_backend::matrix::BaseMatrix;
use stark_backend::prover::device::{
    air_trace_heights, assign_phase_matrices, trace_domains, trim_phases, CpuDevice,
};
use stark_backend::prover::types::{unzip_phases, PcsData, RapSinglePhaseView};
use stark_backend::sdk::dummy_airs::{
    generate_traces_with_partition, generate_traces_without_partition, next_power_of_two, DummyInteractionAir,
    DummyInteractionCols, DummyInteractionData, FibonacciCols, NUM_FIBONACCI_COLS,
};
use stark_backend::sdk::ordering::order_by_height_descending;
use stark_backend::sdk::fri_params::{
    standard_fri_params_with_100_bits_conjectured_security, FriParameters,
};
use stark_backend::symbolic::dag::SymbolicExpressionDag;

fn vk(
    commit: Option<&str>,
    after_challenge: Vec<usize>,
    challenges: Vec<usize>,
    exposed: Vec<usize>,
) -> StarkVerifyingKey<String> {
    StarkVerifyingKey {
        preprocessed_data: commit.map(|c| VerifierSinglePreprocessedData {
            commit: c.to_string(),
        }),
        params: StarkVerifyingParams {
            width: TraceWidth {
                preprocessed: commit.map(|_| 1),
                cached_mains: vec![],
                common_main: 2,
                after_challenge,
            },
            num_public_values: 0,
            num_exposed_values_after_challenge: exposed,
            num_challenges_to_sample: challenges,
        },
        symbolic_constraints: SymbolicExpressionDag {
            nodes: vec![],
            constraint_idx: vec![],
        },
        quotient_degree: 2,
    }
}

#[test]
fn verifying_key_view_counts_phases_and_challenges() {
    let keys = vec![
        vk(Some("first"), vec![], vec![], vec![]),
        vk(None, vec![4], vec![2], vec![1]),
        vk(Some("third"), vec![8, 4], vec![1, 5], vec![0, 0]),
    ];
    let view = MultiStarkVerifyingKeyView::new(keys.iter().collect());
    assert!(view.is_consistent());
    assert_eq!(
        view.preprocessed_commits(),
        vec![Some("first".to_string()), None, Some("third".to_string())]
    );
    assert_eq!(
        view.flattened_preprocessed_commits(),
        vec!["first".to_string(), "third".to_string()]
    );
    assert_eq!(view.num_phases(), 2);
    assert_eq!(view.num_challenges_in_phase(0), 2);
    assert_eq!(view.num_challenges_in_phase(1), 5);
    assert_eq!(view.num_challenges_per_phase(), vec![2, 5]);

    let none = MultiStarkVerifyingKeyView::<String>::new(vec![]);
    assert_eq!(none.num_phases(), 0);
    assert_eq!(none.num_challenges_per_phase(), Vec::<usize>::new());
    assert!(none.preprocessed_commits().is_empty());

    let odd = vec![vk(None, vec![4], vec![2, 3], vec![1])];
    assert!(!MultiStarkVerifyingKeyView::new(odd.iter().collect()).is_consistent());
}

#[test]
fn log_up_is_one_phase_and_none_is_none() {
    let shape = RapPhaseSeqKind::FriLogUp.shape();
    assert_eq!(shape.len(), 1);
    assert_eq!(shape[0].num_challenges, STARK_LU_NUM_CHALLENGES);
    assert_eq!(shape[0].num_exposed_values, STARK_LU_NUM_EXPOSED_VALUES);
    assert!(shape[0].extra_opening_rots.is_empty());
    assert_eq!((STARK_LU_NUM_CHALLENGES, STARK_LU_NUM_EXPOSED_VALUES), (2, 1));
    assert!(RapPhaseSeqKind::NoPhase.shape().is_empty());
    let interaction = Interaction {
        fields: vec![1u32, 2],
        count: 3u32,
        bus_index: 4,
        interaction_type: InteractionType::Send,
    };
    assert_eq!(interaction.clone(), interaction);
    assert_ne!(InteractionType::Send, InteractionType::Receive);
}

#[test]
fn standard_fri_parameters() {
    let params = |log_blowup, num_queries| FriParameters {
        log_blowup,
        log_final_poly_len: 0,
        num_queries,
        proof_of_work_bits: 16,
    };
    assert_eq!(
        standard_fri_params_with_100_bits_conjectured_security(1),
        params(1, 100)
    );
    assert_eq!(
        standard_fri_params_with_100_bits_conjectured_security(2),
        params(2, 44)
    );
    assert_eq!(
        standard_fri_params_with_100_bits_conjectured_security(3),
        params(3, 30)
    );
    assert_eq!(
        standard_fri_params_with_100_bits_conjectured_security(4),
        params(4, 23)
    );
    assert_eq!(FriParameters::standard_fast(), params(1, 100));
    assert_eq!(
        FriParameters::standard_with_100_bits_conjectured_security(3),
        params(3, 30)
    );
    for log_blowup in 1..=4 {
        let standard = standard_fri_params_with_100_bits_conjectured_security(log_blowup);
        assert!(standard.get_conjectured_security_bits(100) >= 100);
        assert_eq!(standard.max_constraint_degree(), (1 << log_blowup) + 1);
    }
    let widest = FriParameters {
        log_blowup: usize::BITS as usize - 1,
        log_final_poly_len: 0,
        num_queries: 1,
        proof_of_work_bits: 0,
    };
    assert_eq!(widest.max_constraint_degree(), usize::MAX / 2 + 2);
    assert_eq!(params(1, 100).get_conjectured_security_bits(100), 100);
    assert_eq!(params(1, 100).get_conjectured_security_bits(128), 116);
    assert_eq!(params(2, 44).get_conjectured_security_bits(128), 104);
    assert_eq!(params(4, 23).get_conjectured_security_bits(50), 50);
    assert_eq!(
        FriParameters::new_for_testing(3, true),
        FriParameters {
            log_blowup: 3,
            log_final_poly_len: 0,
            num_queries: 2,
            proof_of_work_bits: 0
        }
    );
    assert_eq!(FriParameters::new_for_testing(3, false), params(3, 30));
}

#[test]
fn columns_of_the_test_airs() {
    let cols = FibonacciCols::new(3u32, 5u32);
    assert_eq!((cols.left, cols.right), (3, 5));
    assert_eq!(NUM_FIBONACCI_COLS, 2);
    assert_eq!(DummyInteractionCols::count_col(), 0);
    assert_eq!(DummyInteractionCols::field_col(0), 1);
    assert_eq!(DummyInteractionCols::field_col(4), 5);
    let air = DummyInteractionAir::new(3, true, 7);
    assert_eq!(air.field_width(), 3);
    assert!(air.is_send && !air.partition);
    assert_eq!((air.bus_index, air.count_weight), (7, 0));
    assert_eq!(air.width(), 4);
    assert_eq!(air.common_main_width(), 4);
    assert!(air.cached_main_widths().is_empty());
    let partitioned = air.partition();
    assert!(partitioned.partition);
    assert_eq!(partitioned.common_main_width(), 1);
    assert_eq!(partitioned.cached_main_widths(), vec![3]);
    assert_eq!(partitioned.width(), 4);
}

#[test]
fn interaction_trace_is_padded_to_a_power_of_two() {
    let data = DummyInteractionData {
        count: vec![1, 2, 4],
        fields: vec![vec![10, 11], vec![20, 21], vec![40, 41]],
    };
    assert!(data.check(2));
    assert!(!data.check(3));
    let (values, width) = generate_traces_without_partition(&data, 2);
    assert_eq!(width, 3);
    assert_eq!(
        values,
        vec![1, 10, 11, 2, 20, 21, 4, 40, 41, 0, 0, 0]
    );
    let (common, cached) = generate_traces_with_partition(&data, 2);
    assert_eq!(common, vec![1, 2, 4, 0]);
    assert_eq!(cached, vec![10, 11, 20, 21, 40, 41, 0, 0]);
    let ragged = DummyInteractionData {
        count: vec![1, 2],
        fields: vec![vec![1], vec![1, 2]],
    };
    assert!(!ragged.check(1));
    let short = DummyInteractionData {
        count: vec![1, 2],
        fields: vec![vec![1]],
    };
    assert!(!short.check(1));
    let empty = DummyInteractionData {
        count: vec![],
        fields: vec![],
    };
    assert!(!empty.check(0));
    let sizes: Vec<usize> = [0, 1, 2, 3, 4, 5, 1000, 1024, 1025]
        .iter()
        .map(|&n| next_power_of_two(n))
        .collect();
    assert_eq!(sizes, vec![1, 1, 2, 4, 4, 8, 1024, 1024, 2048]);
}

#[test]
fn traces_are_committed_on_their_subgroups() {
    let domain = |log_size| Domain { log_size, shift: 1 };
    assert_eq!(
        trace_domains(&[8, 1, 1 << 27]),
        Some(vec![(3, domain(3)), (0, domain(0)), (27, domain(27))])
    );
    assert_eq!(trace_domains(&[]), Some(vec![]));
    assert_eq!(trace_domains(&[8, 12]), None);
    assert_eq!(trace_domains(&[0]), None);
    assert_eq!(trace_domains(&[1 << 28]), None);
}

#[test]
fn after_challenge_traces_are_numbered_in_the_order_of_the_airs() {
    assert_eq!(
        assign_phase_matrices(&[true, false, true, true, false]),
        vec![Some(0), None, Some(1), Some(2), None]
    );
    assert_eq!(assign_phase_matrices(&[false, false]), vec![None, None]);
    assert_eq!(assign_phase_matrices(&[]), vec![]);
}

fn phase(challenge: u32, with_matrix: bool) -> RapSinglePhaseView {
    RapSinglePhaseView {
        inner: if with_matrix {
            Some(BaseMatrix::new(vec![challenge; 4], 4))
        } else {
            None
        },
        challenges: vec![ExtElem {
            c0: challenge,
            c1: 0,
            c2: 0,
            c3: 0,
        }],
        exposed_values: vec![],
    }
}

#[test]
fn phases_at_the_end_without_the_air_are_dropped() {
    let trimmed = trim_phases(vec![Some(phase(1, true)), None, Some(phase(3, true)), None, None]);
    assert_eq!(trimmed.len(), 3);
    assert_eq!(trimmed[0].challenges[0].c0, 1);
    assert!(trimmed[1].inner.is_none());
    assert!(trimmed[1].challenges.is_empty() && trimmed[1].exposed_values.is_empty());
    assert_eq!(trimmed[2].challenges[0].c0, 3);
    assert!(trim_phases(vec![None, None]).is_empty());
    assert!(trim_phases(vec![]).is_empty());
    assert_eq!(trim_phases(vec![Some(phase(7, false))]).len(), 1);
}

#[test]
fn phases_are_taken_apart_unless_one_lacks_its_matrix() {
    let (matrices, challenges, exposed) =
        unzip_phases(vec![phase(1, true), phase(2, true)]).unwrap();
    assert_eq!(matrices.len(), 2);
    assert_eq!(matrices[1].get(0, 0), Some(2));
    assert_eq!(challenges[0][0].c0, 1);
    assert_eq!(challenges[1][0].c0, 2);
    assert_eq!(exposed, vec![vec![], vec![]]);
    assert!(unzip_phases(vec![phase(1, true), phase(2, false)]).is_none());
    assert!(unzip_phases(vec![]).is_some());
}

#[test]
fn device_and_commitment_data_hold_what_they_are_given() {
    let config = String::from("config");
    let device = CpuDevice::new(&config);
    assert_eq!(device.config(), "config");
    let data = PcsData::new(vec![1u8, 2, 3], vec![3, 5]);
    assert_eq!(*data.data, vec![1, 2, 3]);
    assert_eq!(data.log_trace_heights, vec![3, 5]);
}

/// The same with the string functions of the standard library.
fn simplified_by_splitting(full_name: &str) -> String {
    if let Some((main_part, generics_part)) = full_name.split_once('<') {
        let main_type = main_part.split("::").last().unwrap_or("");
        let generics: Vec<String> = generics_part
            .trim_end_matches('>')
            .split(", ")
            .map(|generic| generic.split("::").last().unwrap_or("").to_string())
            .collect();
        format!("{}<{}>", main_type, generics.join(", "))
    } else {
        full_name.split("::").last().unwrap_or("").to_string()
    }
}

#[test]
fn names_of_types_lose_their_paths() {
    let simplify = |name: &str| {
        String::from_utf8(stark_backend::rap::simplify_type_name(name.as_bytes())).unwrap()
    };
    assert_eq!(simplify("my_crate::airs::fib::FibonacciAir"), "FibonacciAir");
    assert_eq!(simplify("FibonacciAir"), "FibonacciAir");
    assert_eq!(
        simplify("chips::poseidon::Chip<fields::baby_bear::BabyBear, config::Config>"),
        "Chip<BabyBear, Config>"
    );
    assert_eq!(simplify("a::B<c::D<e::F>, g::H>"), "B<F>, H>");
    assert_eq!(simplify("a::B<c::D<e::F>>"), "B<F>");
    assert_eq!(simplify("X<>"), "X<>");
    assert_eq!(simplify("X<u32>"), "X<u32>");
    assert_eq!(simplify(""), "");
    assert_eq!(simplify("a::"), "");
    assert_eq!(simplify("a:::b"), ":b");
    assert_eq!(simplify("<"), "<>");
    for name in [
        "a::b::C",
        "a::b::C<d::E>",
        "a::b::C<d::E, f::G<h::I>, J>",
        "C<d::E,f::G>",
        "a::b<c>::d<e>",
        "::",
        ":",
        "a::<>b>",
        "x<, >",
        "x<a, >",
        "x<>>y",
        "p::q<r::s, t::u",
        "caf\u{e9}::na\u{ef}ve<\u{fc}::\u{df}>",
    ] {
        assert_eq!(simplify(name), simplified_by_splitting(name), "{}", name);
    }
}

#[test]
fn chips_are_ordered_by_falling_height() {
    assert_eq!(
        order_by_height_descending(&[8, 32, 8, 64, 32, 0]),
        vec![3, 1, 4, 0, 2, 5]
    );
    assert_eq!(order_by_height_descending(&[]), Vec::<usize>::new());
    assert_eq!(order_by_height_descending(&[5]), vec![0]);
    assert_eq!(order_by_height_descending(&[1, 1, 1]), vec![0, 1, 2]);
    assert_eq!(order_by_height_descending(&[1, 2, 3]), vec![2, 1, 0]);
}

#[test]
fn views_pick_the_keys_by_position() {
    let key = MultiStarkVerifyingKey {
        per_air: vec![
            vk(Some("zero"), vec![], vec![], vec![]),
            vk(Some("one"), vec![4], vec![3], vec![1]),
            vk(None, vec![], vec![], vec![]),
        ],
    };
    assert_eq!(
        key.full_view().flattened_preprocessed_commits(),
        vec!["zero".to_string(), "one".to_string()]
    );
    let some = key.view(&[2, 1]);
    assert_eq!(
        some.preprocessed_commits(),
        vec![None, Some("one".to_string())]
    );
    assert_eq!(some.num_phases(), 1);
    assert_eq!(some.num_challenges_in_phase(0), 3);
    assert!(key.view(&[]).per_air.is_empty());
}

#[test]
fn trace_heights_come_from_the_common_main_trace_or_the_first_cached_one() {
    // AIRs 0 and 2 have a common main trace, AIR 1 has cached traces only.
    assert_eq!(
        air_trace_heights(&[true, false, true], &[3, 5], &[None, Some(16), Some(64)]),
        Some(vec![(3, Some(0)), (4, None), (5, Some(1))])
    );
    assert_eq!(air_trace_heights(&[], &[], &[]), Some(vec![]));
    assert_eq!(
        air_trace_heights(&[false], &[7], &[Some(1)]),
        Some(vec![(0, None)])
    );
    // a common main trace that was not committed
    assert_eq!(air_trace_heights(&[true, true], &[3], &[None, None]), None);
    // no cached trace, none told, and one whose height is no power of two
    assert_eq!(air_trace_heights(&[false], &[], &[None]), None);
    assert_eq!(air_trace_heights(&[false], &[], &[]), None);
    assert_eq!(air_trace_heights(&[false], &[], &[Some(12)]), None);
    assert_eq!(air_trace_heights(&[false], &[], &[Some(0)]), None);
}
