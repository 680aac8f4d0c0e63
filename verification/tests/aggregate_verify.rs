use zkevm_verifier::all_proof::{verify, AllProof, AllStark, StarkProof};
use zkevm_verifier::config::{FriConfig, StarkConfig};
use zkevm_verifier::cross_table_lookup::{CrossTableLookup, TableWithColumns};
use zkevm_verifier::error::VerifyError;
use zkevm_verifier::extension::QuadraticExtension;
use zkevm_verifier::field::field_neg;
use zkevm_verifier::proof_shape::StarkShape;
use zkevm_verifier::public_inputs::{
    GrandProductChallenge, GrandProductChallengeSet, HashOut, PublicInputs,
};
use zkevm_verifier::recursive_verifier::TranscriptOutcome;
use zkevm_verifier::table::Table;

fn base(c0: u64) -> QuadraticExtension {
    QuadraticExtension { c0, c1: 0 }
}

fn config() -> StarkConfig {
    StarkConfig { num_challenges: 1, fri_config: FriConfig { cap_height: 0 } }
}

fn challenges() -> GrandProductChallengeSet {
    GrandProductChallengeSet { challenges: vec![GrandProductChallenge { beta: 31, gamma: 32 }] }
}

fn state(seed: u64) -> [u64; 12] {
    [seed; 12]
}

fn transcript() -> TranscriptOutcome {
    TranscriptOutcome { ctl_challenges: challenges(), state: state(1) }
}

/// Column 0 of Cpu looks into column 0 of Memory.
fn all_stark() -> AllStark {
    let shape = StarkShape { columns: 2, num_permutation_batches: 0, quotient_degree_factor: 2 };
    AllStark {
        shapes: [shape; 5],
        cross_table_lookups: vec![CrossTableLookup {
            looking_tables: vec![TableWithColumns { table: Table::Cpu, columns: vec![0] }],
            looked_table: TableWithColumns { table: Table::Memory, columns: vec![0] },
        }],
    }
}

/// Five tables with traces of eight rows: with zeta = 2, zeta^8 = 256 and
/// Z_H = 255; the quotient chunk [1, 1] recombines to 257.
fn all_proof() -> AllProof {
    let public = |t: u64| PublicInputs {
        trace_cap: vec![HashOut { elements: [t, t, t, t] }],
        ctl_zs_last: if t == 0 || t == 4 { vec![4242] } else { vec![] },
        ctl_challenges: challenges(),
        challenger_state_before: state(t + 1),
        challenger_state_after: state(t + 2),
    };
    let stark = || StarkProof {
        degree_bits: 3,
        zeta: base(2),
        vanishing_polys_zeta: vec![base(255 * 257)],
        quotient_polys: vec![base(1), base(1)],
        fri_accepted: true,
    };
    AllProof {
        public_inputs: [public(0), public(1), public(2), public(3), public(4)],
        stark_proofs: [stark(), stark(), stark(), stark(), stark()],
    }
}

#[test]
fn five_eight_row_tables_with_a_cpu_memory_lookup_verify() {
    assert!(all_stark().is_well_formed());
    assert_eq!(verify(&all_stark(), &all_proof(), &config(), &transcript()), Ok(()));
}

#[test]
fn negated_memory_accumulator_fails_with_a_lookup_mismatch() {
    let mut proof = all_proof();
    let z = proof.public_inputs[4].ctl_zs_last[0];
    proof.public_inputs[4].ctl_zs_last[0] = field_neg(z);
    assert_eq!(
        verify(&all_stark(), &proof, &config(), &transcript()),
        Err(VerifyError::CrossTableLookupMismatch(0))
    );
}

#[test]
fn altered_cpu_accumulator_fails_with_a_lookup_mismatch() {
    let mut proof = all_proof();
    proof.public_inputs[0].ctl_zs_last[0] += 1;
    assert_eq!(
        verify(&all_stark(), &proof, &config(), &transcript()),
        Err(VerifyError::CrossTableLookupMismatch(0))
    );
}

#[test]
fn altered_state_after_fails_with_a_state_mismatch() {
    for t in 0..4 {
        let mut proof = all_proof();
        proof.public_inputs[t].challenger_state_after[7] ^= 1;
        assert_eq!(
            verify(&all_stark(), &proof, &config(), &transcript()),
            Err(VerifyError::ChallengerStateMismatch(t + 1))
        );
    }
}

#[test]
fn tampered_opening_fails_for_its_table() {
    let tables = [Table::Cpu, Table::Keccak, Table::KeccakMemory, Table::Logic, Table::Memory];
    for (t, table) in tables.iter().enumerate() {
        for k in 0..2 {
            let mut proof = all_proof();
            proof.stark_proofs[t].quotient_polys[k].c0 ^= 1;
            assert_eq!(
                verify(&all_stark(), &proof, &config(), &transcript()),
                Err(VerifyError::IdentityMismatch(*table))
            );
        }
        let mut proof = all_proof();
        proof.stark_proofs[t].vanishing_polys_zeta[0].c1 ^= 1;
        assert_eq!(
            verify(&all_stark(), &proof, &config(), &transcript()),
            Err(VerifyError::IdentityMismatch(*table))
        );
        let mut proof = all_proof();
        proof.stark_proofs[t].zeta.c0 ^= 1;
        assert_eq!(
            verify(&all_stark(), &proof, &config(), &transcript()),
            Err(VerifyError::IdentityMismatch(*table))
        );
    }
}

#[test]
fn rejected_opening_proof_fails_for_its_table() {
    let mut proof = all_proof();
    proof.stark_proofs[3].fri_accepted = false;
    assert_eq!(
        verify(&all_stark(), &proof, &config(), &transcript()),
        Err(VerifyError::FriVerificationFailed(Table::Logic))
    );
}

#[test]
fn checks_run_in_order_and_stop_at_the_first_failure() {
    let mut proof = all_proof();
    proof.public_inputs[4].ctl_zs_last[0] += 1;
    proof.stark_proofs[3].fri_accepted = false;
    proof.stark_proofs[4].quotient_polys[0].c0 += 1;
    assert_eq!(
        verify(&all_stark(), &proof, &config(), &transcript()),
        Err(VerifyError::FriVerificationFailed(Table::Logic))
    );
    proof.stark_proofs[3].fri_accepted = true;
    assert_eq!(
        verify(&all_stark(), &proof, &config(), &transcript()),
        Err(VerifyError::IdentityMismatch(Table::Memory))
    );
    proof.public_inputs[1].challenger_state_before[0] += 1;
    assert_eq!(
        verify(&all_stark(), &proof, &config(), &transcript()),
        Err(VerifyError::ChallengerStateMismatch(1))
    );
    proof.public_inputs[2].ctl_challenges.challenges[0].beta += 1;
    assert_eq!(
        verify(&all_stark(), &proof, &config(), &transcript()),
        Err(VerifyError::ChallengeMismatch)
    );
}

#[test]
fn a_table_without_quotient_chunks_is_not_well_formed() {
    let mut stark = all_stark();
    stark.shapes[2].quotient_degree_factor = 0;
    assert!(!stark.is_well_formed());
}

#[test]
fn the_same_inputs_give_the_same_verdict() {
    let mut proof = all_proof();
    proof.stark_proofs[1].quotient_polys[1].c1 = 5;
    let a = verify(&all_stark(), &proof, &config(), &transcript());
    let b = verify(&all_stark(), &proof, &config(), &transcript());
    assert_eq!(a, b);
    assert_eq!(a, Err(VerifyError::IdentityMismatch(Table::Keccak)));
}

#[test]
fn transcript_absorbs_every_trace_cap_in_table_order() {
    let mut proof = all_proof();
    proof.public_inputs[1].trace_cap.push(HashOut { elements: [7, 8, 9, 10] });
    assert_eq!(
        proof.transcript_input(),
        vec![0, 0, 0, 0, 1, 1, 1, 1, 7, 8, 9, 10, 2, 2, 2, 2, 3, 3, 3, 3, 4, 4, 4, 4]
    );
}
