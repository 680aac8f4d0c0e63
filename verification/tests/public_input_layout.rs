use zkevm_verifier::config::{checked_pow2, FriConfig, StarkConfig, SPONGE_WIDTH};
use zkevm_verifier::public_inputs::{
    GrandProductChallenge, GrandProductChallengeSet, HashOut, PublicInputs,
};

fn config(cap_height: usize, num_challenges: usize) -> StarkConfig {
    StarkConfig { num_challenges, fri_config: FriConfig { cap_height } }
}

fn sample() -> PublicInputs {
    PublicInputs {
        trace_cap: vec![HashOut { elements: [1, 2, 3, 4] }, HashOut { elements: [5, 6, 7, 8] }],
        ctl_zs_last: vec![100, 101, 102],
        ctl_challenges: GrandProductChallengeSet {
            challenges: vec![
                GrandProductChallenge { beta: 10, gamma: 11 },
                GrandProductChallenge { beta: 12, gamma: 13 },
            ],
        },
        challenger_state_before: [20, 21, 22, 23, 24, 25, 26, 27, 28, 29, 30, 31],
        challenger_state_after: [40, 41, 42, 43, 44, 45, 46, 47, 48, 49, 50, 51],
    }
}

#[test]
fn powers_of_two() {
    assert_eq!(checked_pow2(0), Some(1));
    assert_eq!(checked_pow2(1), Some(2));
    assert_eq!(checked_pow2(10), Some(1024));
    assert_eq!(checked_pow2(63), Some(1usize << 63));
    assert_eq!(checked_pow2(64), None);
    assert_eq!(checked_pow2(usize::MAX), None);
}

#[test]
fn header_length_counts_cap_challenges_and_states() {
    assert_eq!(SPONGE_WIDTH, 12);
    assert_eq!(config(0, 0).checked_header_len(), Some(4 + 24));
    assert_eq!(config(1, 2).checked_header_len(), Some(8 + 4 + 24));
    assert_eq!(config(4, 3).checked_header_len(), Some(64 + 6 + 24));
    assert_eq!(config(63, 0).checked_header_len(), None);
    assert_eq!(config(0, usize::MAX).checked_header_len(), None);
}

#[test]
fn encoding_follows_the_layout() {
    let v = sample().to_vec();
    let expected: Vec<u64> = vec![
        1, 2, 3, 4, 5, 6, 7, 8, // cap
        10, 11, 12, 13, // challenges
        20, 21, 22, 23, 24, 25, 26, 27, 28, 29, 30, 31, // before
        40, 41, 42, 43, 44, 45, 46, 47, 48, 49, 50, 51, // after
        100, 101, 102, // accumulators
    ];
    assert_eq!(v, expected);
}

#[test]
fn round_trip_with_cap_height_one_and_two_challenges() {
    let encoded = sample();
    let v = encoded.to_vec();
    let parsed = PublicInputs::from_vec(&v, &config(1, 2));
    assert_eq!(parsed.trace_cap, encoded.trace_cap);
    assert_eq!(parsed.ctl_challenges, encoded.ctl_challenges);
    assert_eq!(parsed.challenger_state_before, encoded.challenger_state_before);
    assert_eq!(parsed.challenger_state_after, encoded.challenger_state_after);
    assert_eq!(parsed.ctl_zs_last, encoded.ctl_zs_last);
    assert_eq!(parsed, encoded);
    assert_eq!(parsed.to_vec(), v);
}

#[test]
fn parsing_reads_each_part_from_its_place() {
    let v: Vec<u64> = (0..40).collect();
    let parsed = PublicInputs::from_vec(&v, &config(1, 2));
    assert_eq!(
        parsed.trace_cap,
        vec![HashOut { elements: [0, 1, 2, 3] }, HashOut { elements: [4, 5, 6, 7] }]
    );
    assert_eq!(
        parsed.ctl_challenges.challenges,
        vec![
            GrandProductChallenge { beta: 8, gamma: 9 },
            GrandProductChallenge { beta: 10, gamma: 11 },
        ]
    );
    assert_eq!(parsed.challenger_state_before, [12, 13, 14, 15, 16, 17, 18, 19, 20, 21, 22, 23]);
    assert_eq!(parsed.challenger_state_after, [24, 25, 26, 27, 28, 29, 30, 31, 32, 33, 34, 35]);
    assert_eq!(parsed.ctl_zs_last, vec![36, 37, 38, 39]);
}

#[test]
fn a_vector_of_exactly_the_fixed_part_has_no_accumulators() {
    let v: Vec<u64> = (0..28).collect();
    let parsed = PublicInputs::from_vec(&v, &config(0, 0));
    assert_eq!(parsed.trace_cap, vec![HashOut { elements: [0, 1, 2, 3] }]);
    assert!(parsed.ctl_challenges.challenges.is_empty());
    assert!(parsed.ctl_zs_last.is_empty());
    assert_eq!(parsed.to_vec(), v);
}

#[test]
fn another_challenge_count_shifts_the_states() {
    let v: Vec<u64> = (0..40).collect();
    let a = PublicInputs::from_vec(&v, &config(1, 2));
    let b = PublicInputs::from_vec(&v, &config(1, 3));
    assert_ne!(a.challenger_state_before, b.challenger_state_before);
    assert_eq!(b.challenger_state_before[0], 14);
    assert_eq!(b.ctl_zs_last, vec![38, 39]);
}
