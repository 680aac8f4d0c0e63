//! The aggregate check of the proofs of all tables.
//!
//! The checks run in a fixed order and stop at the first failure: the
//! lookup challenges that every table holds, the chain of sponge states,
//! each table's own proof in table order, and last the lookups across
//! tables.

use crate::config::StarkConfig;
use crate::cross_table_lookup::{
    is_lookup_mismatch,
    lemma_altered_accumulator_is_rejected,
    lemma_lookups_verdict_unique,
    looked_slot,
    looking_slot,
    lookup_views,
    lookups_verdict,
    verify_cross_table_lookups,
    visit_holds,
    visit_start,
    CrossTableLookup,
    LookupView,
};
use crate::error::VerifyError;
use crate::extension::{ext_views, QuadraticExtension};
use crate::field::ORDER;
use crate::proof_shape::StarkShape;
use crate::public_inputs::{flatten_cap, GrandProductChallenge, PublicInputs, PublicInputsView};
use crate::recursive_verifier::{
    absorbed_caps,
    accumulators_of,
    chain_holds,
    challenges_shared,
    check_chain,
    check_challenges,
    first_broken_link,
    lemma_altered_state_after_breaks_chain,
    public_accumulators,
    public_input_views,
    same_elements,
    TranscriptOutcome,
};
use crate::stark_verifier::{identity_holds, verify_stark_proof_with_challenges};
use crate::table::{Table, NUM_TABLES};
use vstd::prelude::*;

verus! {

/// The tables' shapes, in table order, and the lookups between them.
#[derive(Clone, Debug, PartialEq, Eq)]
pub struct AllStark {
    pub shapes: [StarkShape; NUM_TABLES],
    pub cross_table_lookups: Vec<CrossTableLookup>,
}

/// What the aggregate check reads of one table's proof: the challenge
/// point, the constraint values at it, the quotient openings, and whether
/// the low-degree test accepted the opening proof.
#[derive(Clone, Debug, PartialEq, Eq)]
pub struct StarkProof {
    pub degree_bits: usize,
    pub zeta: QuadraticExtension,
    pub vanishing_polys_zeta: Vec<QuadraticExtension>,
    pub quotient_polys: Vec<QuadraticExtension>,
    pub fri_accepted: bool,
}

/// The proofs of all tables, in table order, with what each makes public.
#[derive(Clone, Debug, PartialEq, Eq)]
pub struct AllProof {
    pub public_inputs: [PublicInputs; NUM_TABLES],
    pub stark_proofs: [StarkProof; NUM_TABLES],
}

impl AllProof {
    /// The field elements that the transcript absorbs before it gives the
    /// lookup challenges: the trace cap of every table, in table order.
    pub fn transcript_input(&self) -> (v: Vec<u64>)
        ensures
            v@ == absorbed_caps(public_input_views(self.public_inputs@), NUM_TABLES as int),
    {
        let ghost pis = public_input_views(self.public_inputs@);
        let mut v: Vec<u64> = Vec::new();
        let mut t: usize = 0;
        while t < NUM_TABLES
            invariant
                t <= NUM_TABLES,
                pis == public_input_views(self.public_inputs@),
                v@ == absorbed_caps(pis, t as int),
            decreases NUM_TABLES - t,
        {
            let cap = &self.public_inputs[t].trace_cap;
            let ghost head = v@;
            let ghost flat = flatten_cap(pis[t as int].trace_cap);
            let mut i: usize = 0;
            while i < cap.len()
                invariant
                    i <= cap@.len(),
                    flat == flatten_cap(pis[t as int].trace_cap),
                    pis[t as int].trace_cap.len() == cap@.len(),
                    forall|j: int| 0 <= j < cap@.len() ==> pis[t as int].trace_cap[j] == cap@[j].elements@,
                    v@ == head + flat.subrange(0, 4 * i),
                decreases cap@.len() - i,
            {
                let digest = &cap[i];
                v.push(digest.elements[0]);
                v.push(digest.elements[1]);
                v.push(digest.elements[2]);
                v.push(digest.elements[3]);
                assert(v@ =~= head + flat.subrange(0, 4 * (i + 1)));
                i = i + 1;
            }
            assert(flat.subrange(0, 4 * (cap@.len() as int)) =~= flat);
            t = t + 1;
        }
        v
    }
}

/// The table at position `t`.
pub open spec fn table_at(t: int) -> Table {
    if t == 0 {
        Table::Cpu
    } else if t == 1 {
        Table::Keccak
    } else if t == 2 {
        Table::KeccakMemory
    } else if t == 3 {
        Table::Logic
    } else {
        Table::Memory
    }
}

impl AllStark {
    /// Every table splits its quotient into at least one chunk.
    pub open spec fn well_formed(&self) -> bool {
        forall|t: int| 0 <= t < NUM_TABLES ==> (#[trigger] self.shapes@[t]).quotient_degree_factor > 0
    }

    /// Tests [`Self::well_formed`].
    pub fn is_well_formed(&self) -> (r: bool)
        ensures
            r == self.well_formed(),
    {
        let mut t: usize = 0;
        while t < NUM_TABLES
            invariant
                t <= NUM_TABLES,
                forall|h: int| 0 <= h < t ==> (#[trigger] self.shapes@[h]).quotient_degree_factor > 0,
            decreases NUM_TABLES - t,
        {
            if self.shapes[t].quotient_degree_factor == 0 {
                return false;
            }
            t = t + 1;
        }
        true
    }
}

/// The verdict on the proof of the table at position `t` alone.
pub open spec fn table_verdict(shape: StarkShape, proof: StarkProof, t: int) -> Result<
    (),
    VerifyError,
> {
    if !identity_holds(
        proof.zeta@,
        proof.degree_bits as nat,
        ext_views(proof.vanishing_polys_zeta@),
        ext_views(proof.quotient_polys@),
        shape.quotient_degree_factor as nat,
    ) {
        Err(VerifyError::IdentityMismatch(table_at(t)))
    } else if !proof.fri_accepted {
        Err(VerifyError::FriVerificationFailed(table_at(t)))
    } else {
        Ok(())
    }
}

/// Whether `t` is the first table whose own proof is rejected.
pub open spec fn first_rejected_table(
    shapes: Seq<StarkShape>,
    proofs: Seq<StarkProof>,
    t: int,
) -> bool {
    &&& 0 <= t < NUM_TABLES
    &&& table_verdict(shapes[t], proofs[t], t).is_err()
    &&& forall|h: int| 0 <= h < t ==> (#[trigger] table_verdict(shapes[h], proofs[h], h)).is_ok()
}

/// Whether every table's own proof is accepted.
pub open spec fn all_tables_accepted(shapes: Seq<StarkShape>, proofs: Seq<StarkProof>) -> bool {
    forall|t: int| 0 <= t < NUM_TABLES ==> (#[trigger] table_verdict(shapes[t], proofs[t], t)).is_ok()
}

/// What the aggregate check returns.
pub open spec fn aggregate_verdict(
    pis: Seq<PublicInputsView>,
    shapes: Seq<StarkShape>,
    proofs: Seq<StarkProof>,
    lookups: Seq<LookupView>,
    c: nat,
    challenges: Seq<GrandProductChallenge>,
    state: Seq<u64>,
    r: Result<(), VerifyError>,
) -> bool {
    if !challenges_shared(pis, challenges) {
        r == Err::<(), VerifyError>(VerifyError::ChallengeMismatch)
    } else if !chain_holds(pis, state) {
        match r {
            Err(VerifyError::ChallengerStateMismatch(t)) => first_broken_link(pis, state, t as int),
            _ => false,
        }
    } else if !all_tables_accepted(shapes, proofs) {
        exists|t: int| #[trigger]
            first_rejected_table(shapes, proofs, t) && r == table_verdict(shapes[t], proofs[t], t)
    } else {
        lookups_verdict(lookups, c, public_accumulators(pis), r)
    }
}

/// Checks the proofs of all tables against what the transcript gave.
pub fn verify(
    all_stark: &AllStark,
    all_proof: &AllProof,
    config: &StarkConfig,
    transcript: &TranscriptOutcome,
) -> (r: Result<(), VerifyError>)
    requires
        all_stark.well_formed(),
    ensures
        aggregate_verdict(
            public_input_views(all_proof.public_inputs@),
            all_stark.shapes@,
            all_proof.stark_proofs@,
            lookup_views(all_stark.cross_table_lookups@),
            config.num_challenges as nat,
            transcript.ctl_challenges.challenges@,
            transcript.state@,
            r,
        ),
{
    let ghost shapes = all_stark.shapes@;
    let ghost proofs = all_proof.stark_proofs@;
    let ghost pis = public_input_views(all_proof.public_inputs@);
    if !check_challenges(&all_proof.public_inputs, &transcript.ctl_challenges) {
        return Err(VerifyError::ChallengeMismatch);
    }
    match check_chain(&all_proof.public_inputs, &transcript.state) {
        Some(t) => {
            return Err(VerifyError::ChallengerStateMismatch(t));
        },
        None => {},
    }
    let tables = Table::all();
    let mut t: usize = 0;
    while t < NUM_TABLES
        invariant
            t <= NUM_TABLES,
            all_stark.well_formed(),
            challenges_shared(pis, transcript.ctl_challenges.challenges@),
            chain_holds(pis, transcript.state@),
            pis == public_input_views(all_proof.public_inputs@),
            shapes == all_stark.shapes@,
            proofs == all_proof.stark_proofs@,
            tables@.len() == NUM_TABLES,
            forall|i: int| 0 <= i < NUM_TABLES ==> (#[trigger] tables@[i]).spec_index() == i,
            forall|h: int| 0 <= h < t ==> (#[trigger] table_verdict(shapes[h], proofs[h], h)).is_ok(),
        decreases NUM_TABLES - t,
    {
        let table = tables[t];
        let proof = &all_proof.stark_proofs[t];
        let shape = &all_stark.shapes[t];
        assert(table == table_at(t as int));
        assert(shapes[t as int].quotient_degree_factor > 0);
        let verdict = verify_stark_proof_with_challenges(
            table,
            proof.degree_bits,
            &proof.zeta,
            &proof.vanishing_polys_zeta,
            &proof.quotient_polys,
            shape.quotient_degree_factor,
            proof.fri_accepted,
        );
        assert(verdict == table_verdict(shapes[t as int], proofs[t as int], t as int));
        match verdict {
            Err(e) => {
                assert(first_rejected_table(shapes, proofs, t as int));
                return Err(e);
            },
            Ok(_) => {},
        }
        t = t + 1;
    }
    assert(all_tables_accepted(shapes, proofs));
    let ctl_zs_lasts = accumulators_of(&all_proof.public_inputs);
    verify_cross_table_lookups(&all_stark.cross_table_lookups, &ctl_zs_lasts, config)
}

/// A proof with an altered sponge state is rejected: where the challenges
/// are shared and the chain of states holds, and the state after the proof
/// of a table that is not the last is replaced by other field elements
/// while the challenges and the states before stay, the aggregate check
/// reports a state mismatch at the next table.
pub proof fn lemma_altered_state_after_fails_verify(
    pis: Seq<PublicInputsView>,
    altered: Seq<PublicInputsView>,
    shapes: Seq<StarkShape>,
    proofs: Seq<StarkProof>,
    lookups: Seq<LookupView>,
    c: nat,
    challenges: Seq<GrandProductChallenge>,
    state: Seq<u64>,
    t: int,
    r: Result<(), VerifyError>,
)
    requires
        pis.len() == NUM_TABLES,
        altered.len() == NUM_TABLES,
        0 <= t < NUM_TABLES - 1,
        challenges_shared(pis, challenges),
        chain_holds(pis, state),
        forall|u: int|
            0 <= u < NUM_TABLES ==> (#[trigger] altered[u]).ctl_challenges == pis[u].ctl_challenges,
        forall|u: int|
            0 <= u < NUM_TABLES ==> (#[trigger] altered[u]).challenger_state_before
                == pis[u].challenger_state_before,
        forall|u: int|
            0 <= u < NUM_TABLES && u != t ==> (#[trigger] altered[u]).challenger_state_after
                == pis[u].challenger_state_after,
        !same_elements(altered[t].challenger_state_after, pis[t].challenger_state_after),
        aggregate_verdict(altered, shapes, proofs, lookups, c, challenges, state, r),
    ensures
        r == Err::<(), VerifyError>(VerifyError::ChallengerStateMismatch((t + 1) as usize)),
{
    lemma_altered_state_after_breaks_chain(pis, altered, challenges, state, t);
    match r {
        Err(VerifyError::ChallengerStateMismatch(found)) => {
            assert(first_broken_link(altered, state, found as int));
        },
        _ => {},
    }
}

/// A proof with an altered lookup accumulator is rejected: where the
/// challenges are shared, the chain of states holds and every table's own
/// proof is accepted, and a lookup between two different tables, one
/// looking and one looked, has a visit that holds, replacing the value that
/// the visit reads from one of the two tables by another field element,
/// with nothing else changed, makes the aggregate check report a lookup
/// mismatch.
pub proof fn lemma_altered_accumulator_fails_verify(
    pis: Seq<PublicInputsView>,
    altered: Seq<PublicInputsView>,
    shapes: Seq<StarkShape>,
    proofs: Seq<StarkProof>,
    lookups: Seq<LookupView>,
    c: nat,
    challenges: Seq<GrandProductChallenge>,
    state: Seq<u64>,
    i: int,
    j: int,
    table: int,
    r: Result<(), VerifyError>,
)
    requires
        pis.len() == NUM_TABLES,
        altered.len() == NUM_TABLES,
        challenges_shared(pis, challenges),
        chain_holds(pis, state),
        all_tables_accepted(shapes, proofs),
        0 <= i < lookups.len(),
        0 <= j < c,
        lookups[i].looking.len() == 1,
        lookups[i].looking[0] != lookups[i].looked,
        0 <= lookups[i].looking[0] < NUM_TABLES,
        0 <= lookups[i].looked < NUM_TABLES,
        visit_holds(lookups[i], public_accumulators(pis), visit_start(lookups, c, i, j)),
        table == lookups[i].looking[0] || table == lookups[i].looked,
        forall|u: int|
            0 <= u < NUM_TABLES ==> (#[trigger] altered[u]).ctl_challenges == pis[u].ctl_challenges,
        forall|u: int|
            0 <= u < NUM_TABLES ==> (#[trigger] altered[u]).challenger_state_before
                == pis[u].challenger_state_before,
        forall|u: int|
            0 <= u < NUM_TABLES ==> (#[trigger] altered[u]).challenger_state_after
                == pis[u].challenger_state_after,
        forall|u: int|
            0 <= u < NUM_TABLES && u != table ==> (#[trigger] altered[u]).ctl_zs_last
                == pis[u].ctl_zs_last,
        altered[table].ctl_zs_last.len() == pis[table].ctl_zs_last.len(),
        ({
            let start = visit_start(lookups, c, i, j);
            let slot = if table == lookups[i].looked {
                looked_slot(lookups[i], start)
            } else {
                looking_slot(lookups[i], start, 0)
            };
            (altered[table].ctl_zs_last[slot] as int) % (ORDER as int) != (
            pis[table].ctl_zs_last[slot] as int) % (ORDER as int)
        }),
        aggregate_verdict(altered, shapes, proofs, lookups, c, challenges, state, r),
    ensures
        is_lookup_mismatch(r),
{
    assert forall|u: int| 0 <= u < NUM_TABLES implies crate::recursive_verifier::same_challenges(
        challenges,
        (#[trigger] altered[u]).ctl_challenges,
    ) by {
        assert(crate::recursive_verifier::same_challenges(challenges, pis[u].ctl_challenges));
    }
    assert forall|h: int| 0 <= h < NUM_TABLES implies #[trigger] crate::recursive_verifier::link_holds(
        altered,
        state,
        h,
    ) by {
        assert(crate::recursive_verifier::link_holds(pis, state, h));
        if h > 0 {
            assert(altered[h - 1].challenger_state_after == pis[h - 1].challenger_state_after);
        }
        assert(altered[h].challenger_state_before == pis[h].challenger_state_before);
    }
    let zs = public_accumulators(pis);
    let zs2 = public_accumulators(altered);
    assert forall|u: int| 0 <= u < NUM_TABLES && u != table implies zs2[u] == zs[u] by {
        assert(altered[u].ctl_zs_last == pis[u].ctl_zs_last);
    }
    lemma_altered_accumulator_is_rejected(lookups, c, zs, zs2, i, j, table);
    assert(lookups_verdict(lookups, c, zs2, r));
}

/// The aggregate check has one outcome for given inputs: two results that
/// both meet its contract are the same.
pub proof fn lemma_aggregate_verdict_unique(
    pis: Seq<PublicInputsView>,
    shapes: Seq<StarkShape>,
    proofs: Seq<StarkProof>,
    lookups: Seq<LookupView>,
    c: nat,
    challenges: Seq<GrandProductChallenge>,
    state: Seq<u64>,
    r1: Result<(), VerifyError>,
    r2: Result<(), VerifyError>,
)
    requires
        aggregate_verdict(pis, shapes, proofs, lookups, c, challenges, state, r1),
        aggregate_verdict(pis, shapes, proofs, lookups, c, challenges, state, r2),
    ensures
        r1 == r2,
{
    if !challenges_shared(pis, challenges) {
    } else if !chain_holds(pis, state) {
        match (r1, r2) {
            (
                Err(VerifyError::ChallengerStateMismatch(a)),
                Err(VerifyError::ChallengerStateMismatch(b)),
            ) => {
                if (a as int) < (b as int) {
                    assert(crate::recursive_verifier::link_holds(pis, state, a as int));
                } else if (b as int) < (a as int) {
                    assert(crate::recursive_verifier::link_holds(pis, state, b as int));
                }
            },
            _ => {},
        }
    } else if !all_tables_accepted(shapes, proofs) {
        let t1 = choose|t: int| #[trigger]
            first_rejected_table(shapes, proofs, t) && r1 == table_verdict(shapes[t], proofs[t], t);
        let t2 = choose|t: int| #[trigger]
            first_rejected_table(shapes, proofs, t) && r2 == table_verdict(shapes[t], proofs[t], t);
        if t1 < t2 {
            assert(table_verdict(shapes[t1], proofs[t1], t1).is_ok());
        } else if t2 < t1 {
            assert(table_verdict(shapes[t2], proofs[t2], t2).is_ok());
        }
    } else {
        lemma_lookups_verdict_unique(lookups, c, public_accumulators(pis), r1, r2);
    }
}

/// A table whose own proof is rejected makes the aggregate check reject:
/// where the identity of some table does not hold or its opening proof was
/// not accepted, no outcome of the aggregate check is an acceptance.
pub proof fn lemma_rejected_table_fails_verify(
    pis: Seq<PublicInputsView>,
    shapes: Seq<StarkShape>,
    proofs: Seq<StarkProof>,
    lookups: Seq<LookupView>,
    c: nat,
    challenges: Seq<GrandProductChallenge>,
    state: Seq<u64>,
    t: int,
    r: Result<(), VerifyError>,
)
    requires
        0 <= t < NUM_TABLES,
        table_verdict(shapes[t], proofs[t], t).is_err(),
        aggregate_verdict(pis, shapes, proofs, lookups, c, challenges, state, r),
    ensures
        r.is_err(),
{
    if challenges_shared(pis, challenges) && chain_holds(pis, state) {
        assert(!all_tables_accepted(shapes, proofs));
        let found = choose|u: int| #[trigger]
            first_rejected_table(shapes, proofs, u) && r == table_verdict(shapes[u], proofs[u], u);
        assert(r == table_verdict(shapes[found], proofs[found], found));
    }
}

} // verus!
