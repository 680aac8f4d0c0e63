use zkevm_verifier::config::{FriConfig, StarkConfig};
use zkevm_verifier::cross_table_lookup::{CrossTableLookup, TableWithColumns};
use zkevm_verifier::error::VerifyError;
use zkevm_verifier::field::{field_neg, ORDER};
use zkevm_verifier::public_inputs::{
    GrandProductChallenge, GrandProductChallengeSet, HashOut, PublicInputs,
};
use zkevm_verifier::recursive_verifier::{
    challenges_agree, get_grand_product_challenge_set, states_agree, RecursiveAllProof,
    RecursiveProof, TranscriptOutcome,
};
use zkevm_verifier::table::Table;

const DEGREE_BITS: u64 = 3;

fn config() -> StarkConfig {
    StarkConfig { num_challenges: 2, fri_config: FriConfig { cap_height: 1 } }
}

fn challenges() -> GrandProductChallengeSet {
    GrandProductChallengeSet {
        challenges: vec![
            GrandProductChallenge { beta: 1001, gamma: 1002 },
            GrandProductChallenge { beta: 1003, gamma: 1004 },
        ],
    }
}

fn state(seed: u64) -> [u64; 12] {
    let mut s = [0u64; 12];
    for (k, x) in s.iter_mut().enumerate() {
        *x = seed * 100 + k as u64;
    }
    s
}

/// Public inputs of the five tables of a run with traces of `2^DEGREE_BITS`
/// rows, where column 0 of Cpu looks into column 0 of Memory.
fn tables() -> Vec<PublicInputs> {
    (0..5u64)
        .map(|t| PublicInputs {
            trace_cap: vec![
                HashOut { elements: [t, t + 10, t + 20, t + 30] },
                HashOut { elements: [t + 40, t + 50, t + 60, t + 70] },
            ],
            ctl_zs_last: if t == 0 || t == 4 {
                vec![(1 << DEGREE_BITS) + 7, (1 << DEGREE_BITS) + 9]
            } else {
                vec![]
            },
            ctl_challenges: challenges(),
            challenger_state_before: state(t),
            challenger_state_after: state(t + 1),
        })
        .collect()
}

fn transcript() -> TranscriptOutcome {
    TranscriptOutcome { ctl_challenges: challenges(), state: state(0) }
}

fn all_proof(tables: &[PublicInputs]) -> RecursiveAllProof {
    let proof = |t: usize| RecursiveProof { public_inputs: tables[t].to_vec() };
    RecursiveAllProof {
        recursive_proofs: [proof(0), proof(1), proof(2), proof(3), proof(4)],
        cross_table_lookups: vec![CrossTableLookup {
            looking_tables: vec![TableWithColumns { table: Table::Cpu, columns: vec![0] }],
            looked_table: TableWithColumns { table: Table::Memory, columns: vec![0] },
        }],
    }
}

#[test]
fn consistent_tables_verify() {
    let proof = all_proof(&tables());
    assert!(proof.is_well_shaped(&config()));
    assert_eq!(proof.verify(&config(), &transcript()), Ok(()));
}

#[test]
fn cpu_memory_lookup_with_negated_memory_accumulator_is_rejected() {
    let mut t = tables();
    assert_eq!(all_proof(&t).verify(&config(), &transcript()), Ok(()));
    t[4].ctl_zs_last[0] = field_neg(t[4].ctl_zs_last[0]);
    assert_eq!(
        all_proof(&t).verify(&config(), &transcript()),
        Err(VerifyError::CrossTableLookupMismatch(0))
    );
}

#[test]
fn altered_cpu_accumulator_is_rejected() {
    let mut t = tables();
    t[0].ctl_zs_last[1] += 1;
    assert_eq!(
        all_proof(&t).verify(&config(), &transcript()),
        Err(VerifyError::CrossTableLookupMismatch(0))
    );
}

#[test]
fn altered_state_after_breaks_the_chain_at_the_next_table() {
    for i in 0..4 {
        let mut t = tables();
        t[i].challenger_state_after[5] += 1;
        assert_eq!(
            all_proof(&t).verify(&config(), &transcript()),
            Err(VerifyError::ChallengerStateMismatch(i + 1))
        );
    }
}

#[test]
fn altered_state_before_breaks_the_chain_at_that_table() {
    for i in 0..5 {
        let mut t = tables();
        t[i].challenger_state_before[11] += 1;
        assert_eq!(
            all_proof(&t).verify(&config(), &transcript()),
            Err(VerifyError::ChallengerStateMismatch(i))
        );
    }
}

#[test]
fn state_after_the_last_table_is_not_part_of_the_chain() {
    let mut t = tables();
    t[4].challenger_state_after[0] += 1;
    assert_eq!(all_proof(&t).verify(&config(), &transcript()), Ok(()));
}

#[test]
fn transcript_state_must_be_the_first_state_before() {
    let mut outcome = transcript();
    outcome.state[3] += 1;
    assert_eq!(
        all_proof(&tables()).verify(&config(), &outcome),
        Err(VerifyError::ChallengerStateMismatch(0))
    );
}

#[test]
fn every_table_must_hold_the_shared_challenges() {
    for i in 0..5 {
        let mut t = tables();
        t[i].ctl_challenges.challenges[1].gamma += 1;
        assert_eq!(
            all_proof(&t).verify(&config(), &transcript()),
            Err(VerifyError::ChallengeMismatch)
        );
    }
    let mut outcome = transcript();
    outcome.ctl_challenges.challenges[0].beta = 7;
    assert_eq!(
        all_proof(&tables()).verify(&config(), &outcome),
        Err(VerifyError::ChallengeMismatch)
    );
}

#[test]
fn challenges_are_checked_before_states_and_states_before_lookups() {
    let mut t = tables();
    t[4].ctl_zs_last[0] += 1;
    t[2].challenger_state_after[0] += 1;
    assert_eq!(
        all_proof(&t).verify(&config(), &transcript()),
        Err(VerifyError::ChallengerStateMismatch(3))
    );
    t[3].ctl_challenges.challenges[0].beta += 1;
    assert_eq!(
        all_proof(&t).verify(&config(), &transcript()),
        Err(VerifyError::ChallengeMismatch)
    );
}

#[test]
fn the_first_broken_link_is_reported() {
    let mut t = tables();
    t[1].challenger_state_after[0] += 1;
    t[3].challenger_state_after[0] += 1;
    assert_eq!(
        all_proof(&t).verify(&config(), &transcript()),
        Err(VerifyError::ChallengerStateMismatch(2))
    );
}

#[test]
fn short_public_inputs_are_not_well_shaped() {
    let mut proof = all_proof(&tables());
    assert!(proof.is_well_shaped(&config()));
    proof.recursive_proofs[2].public_inputs.truncate(35);
    assert!(!proof.is_well_shaped(&config()));
    proof.recursive_proofs[2].public_inputs.push(0);
    assert!(proof.is_well_shaped(&config()));
    let huge = StarkConfig { num_challenges: 2, fri_config: FriConfig { cap_height: 63 } };
    assert!(!proof.is_well_shaped(&huge));
}

#[test]
fn transcript_absorbs_the_trace_caps_in_table_order() {
    let proof = all_proof(&tables());
    let expected: Vec<u64> = (0..5u64)
        .flat_map(|t| vec![t, t + 10, t + 20, t + 30, t + 40, t + 50, t + 60, t + 70])
        .collect();
    assert_eq!(proof.transcript_input(&config()), expected);
}

#[test]
fn challenge_stream_is_paired_beta_first() {
    let set = get_grand_product_challenge_set(&[5, 6, 7, 8, 9], 2);
    assert_eq!(
        set.challenges,
        vec![
            GrandProductChallenge { beta: 5, gamma: 6 },
            GrandProductChallenge { beta: 7, gamma: 8 },
        ]
    );
    assert!(get_grand_product_challenge_set(&[], 0).challenges.is_empty());
}

#[test]
fn states_and_challenges_are_compared_as_field_elements() {
    let a = state(1);
    let mut b = state(1);
    assert!(states_agree(&a, &b));
    b[0] += ORDER;
    assert!(states_agree(&a, &b));
    b[11] += 1;
    assert!(!states_agree(&a, &b));
    let x = challenges();
    let mut y = challenges();
    assert!(challenges_agree(&x, &y));
    y.challenges[0].gamma += ORDER;
    assert!(challenges_agree(&x, &y));
    y.challenges.pop();
    assert!(!challenges_agree(&x, &y));
}

#[test]
fn verdict_is_the_same_on_every_run() {
    let mut t = tables();
    t[0].challenger_state_after[0] += 1;
    let first = all_proof(&t).verify(&config(), &transcript());
    let second = all_proof(&t).verify(&config(), &transcript());
    assert_eq!(first, second);
    assert_eq!(first, Err(VerifyError::ChallengerStateMismatch(1)));
}
