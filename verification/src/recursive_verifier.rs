//! The recursive layer: one recursive proof for each table, bound together
//! by their public inputs.
//!
//! The transcript absorbs the trace caps of all tables in table order and
//! gives the lookup challenges and the sponge state it is left in. Every
//! table's public inputs must hold those challenges; the first table's
//! proof must start from that state and every later one from the state in
//! which the proof before it ended; and the lookup accumulators that the
//! tables make public must cancel.

use crate::config::{StarkConfig, SPONGE_WIDTH};
use crate::cross_table_lookup::{
    accumulator_views,
    lemma_lookups_verdict_unique,
    lookup_views,
    lookups_verdict,
    verify_cross_table_lookups,
    CrossTableLookup,
    LookupView,
};
use crate::error::VerifyError;
use crate::field::{field_eq, residue};
use crate::public_inputs::{
    flatten_cap,
    parse_layout,
    GrandProductChallenge,
    GrandProductChallengeSet,
    PublicInputs,
    PublicInputsView,
};
use crate::table::NUM_TABLES;
use vstd::prelude::*;

verus! {

/// What the logic reads of one table's recursive proof.
#[derive(Clone, Debug, PartialEq, Eq)]
pub struct RecursiveProof {
    /// The flat public-input vector of the proof.
    pub public_inputs: Vec<u64>,
}

/// The recursive proofs of all tables, in table order, with the lookups
/// that bind them.
#[derive(Clone, Debug, PartialEq, Eq)]
pub struct RecursiveAllProof {
    pub recursive_proofs: [RecursiveProof; NUM_TABLES],
    pub cross_table_lookups: Vec<CrossTableLookup>,
}

/// What the transcript gives after it has absorbed the trace caps of all
/// tables: the lookup challenges, and the sponge state it is left in.
#[derive(Clone, Debug, PartialEq, Eq)]
pub struct TranscriptOutcome {
    pub ctl_challenges: GrandProductChallengeSet,
    pub state: [u64; 12],
}

/// Whether `a` and `b` are the same sequence of field elements.
pub open spec fn same_elements(a: Seq<u64>, b: Seq<u64>) -> bool {
    &&& a.len() == b.len()
    &&& forall|k: int| 0 <= k < a.len() ==> residue(#[trigger] a[k]) == residue(b[k])
}

/// Whether `a` and `b` are the same challenge pair.
pub open spec fn same_challenge(a: GrandProductChallenge, b: GrandProductChallenge) -> bool {
    residue(a.beta) == residue(b.beta) && residue(a.gamma) == residue(b.gamma)
}

/// Whether `a` and `b` are the same sequence of challenge pairs.
pub open spec fn same_challenges(
    a: Seq<GrandProductChallenge>,
    b: Seq<GrandProductChallenge>,
) -> bool {
    &&& a.len() == b.len()
    &&& forall|k: int| 0 <= k < a.len() ==> same_challenge(#[trigger] a[k], b[k])
}

/// Whether every table's public inputs hold the challenges `derived`.
pub open spec fn challenges_shared(
    pis: Seq<PublicInputsView>,
    derived: Seq<GrandProductChallenge>,
) -> bool {
    forall|t: int| 0 <= t < pis.len() ==> same_challenges(derived, (#[trigger] pis[t]).ctl_challenges)
}

/// Whether the proof of table `t` starts where it must: the first one from
/// the state `derived`, a later one from the state after the proof before
/// it.
pub open spec fn link_holds(pis: Seq<PublicInputsView>, derived: Seq<u64>, t: int) -> bool {
    if t == 0 {
        same_elements(derived, pis[0].challenger_state_before)
    } else {
        same_elements(pis[t].challenger_state_before, pis[t - 1].challenger_state_after)
    }
}

/// Whether every proof starts where it must.
pub open spec fn chain_holds(pis: Seq<PublicInputsView>, derived: Seq<u64>) -> bool {
    forall|t: int| 0 <= t < pis.len() ==> #[trigger] link_holds(pis, derived, t)
}

/// Whether `t` is the first table whose proof does not start where it must.
pub open spec fn first_broken_link(pis: Seq<PublicInputsView>, derived: Seq<u64>, t: int) -> bool {
    &&& 0 <= t < pis.len()
    &&& !link_holds(pis, derived, t)
    &&& forall|h: int| 0 <= h < t ==> #[trigger] link_holds(pis, derived, h)
}

/// The accumulator lists that the tables make public.
pub open spec fn public_accumulators(pis: Seq<PublicInputsView>) -> Seq<Seq<u64>> {
    Seq::new(pis.len(), |t: int| pis[t].ctl_zs_last)
}

/// What the transcript absorbs for the first `n` tables: their trace caps,
/// end to end, in table order.
pub open spec fn absorbed_caps(pis: Seq<PublicInputsView>, n: int) -> Seq<u64>
    decreases n,
{
    if n <= 0 {
        Seq::empty()
    } else {
        absorbed_caps(pis, n - 1) + flatten_cap(pis[n - 1].trace_cap)
    }
}

/// The trace cap is the start of the flat vector.
pub proof fn lemma_cap_is_prefix(v: Seq<u64>, cap_len: nat, num_challenges: nat)
    requires
        4 * cap_len <= v.len(),
    ensures
        flatten_cap(parse_layout(v, cap_len, num_challenges).trace_cap) == v.subrange(
            0,
            4 * (cap_len as int),
        ),
{
    let cap = parse_layout(v, cap_len, num_challenges).trace_cap;
    let flat = flatten_cap(cap);
    let head = v.subrange(0, 4 * (cap_len as int));
    assert(flat.len() == head.len());
    assert forall|k: int| 0 <= k < flat.len() implies flat[k] == head[k] by {
        assert(cap[k / 4][k % 4] == v[4 * (k / 4) + k % 4]);
    }
    assert(flat =~= head);
}

/// What the check of the recursive layer returns: the challenges are
/// compared first, then the chain of sponge states, then the lookups.
pub open spec fn recursive_verdict(
    pis: Seq<PublicInputsView>,
    lookups: Seq<LookupView>,
    c: nat,
    challenges: Seq<GrandProductChallenge>,
    state: Seq<u64>,
    r: Result<(), VerifyError>,
) -> bool {
    if !challenges_shared(pis, challenges) {
        r == Err::<(), VerifyError>(VerifyError::ChallengeMismatch)
    } else if !chain_holds(pis, state) {
        match r {
            Err(VerifyError::ChallengerStateMismatch(t)) => first_broken_link(pis, state, t as int),
            _ => false,
        }
    } else {
        lookups_verdict(lookups, c, public_accumulators(pis), r)
    }
}

/// Whether two sponge states are the same field elements.
pub fn states_agree(a: &[u64; 12], b: &[u64; 12]) -> (r: bool)
    ensures
        r == same_elements(a@, b@),
{
    let mut k: usize = 0;
    while k < 12
        invariant
            k <= 12,
            forall|m: int| 0 <= m < k ==> residue(#[trigger] a@[m]) == residue(b@[m]),
        decreases 12 - k,
    {
        if !field_eq(a[k], b[k]) {
            return false;
        }
        k = k + 1;
    }
    true
}

/// Whether two challenge sets are the same field elements.
pub fn challenges_agree(a: &GrandProductChallengeSet, b: &GrandProductChallengeSet) -> (r: bool)
    ensures
        r == same_challenges(a.challenges@, b.challenges@),
{
    if a.challenges.len() != b.challenges.len() {
        return false;
    }
    let mut k: usize = 0;
    while k < a.challenges.len()
        invariant
            k <= a.challenges@.len(),
            a.challenges@.len() == b.challenges@.len(),
            forall|m: int|
                0 <= m < k ==> same_challenge(#[trigger] a.challenges@[m], b.challenges@[m]),
        decreases a.challenges@.len() - k,
    {
        let x = &a.challenges[k];
        let y = &b.challenges[k];
        if !field_eq(x.beta, y.beta) || !field_eq(x.gamma, y.gamma) {
            return false;
        }
        k = k + 1;
    }
    true
}

/// Pairs up a stream of challenges drawn from the transcript: each pair
/// takes its `beta` first and its `gamma` second.
pub fn get_grand_product_challenge_set(stream: &[u64], num_challenges: usize) -> (set:
    GrandProductChallengeSet)
    requires
        2 * num_challenges <= stream@.len(),
    ensures
        set.challenges@.len() == num_challenges,
        forall|i: int|
            0 <= i < num_challenges ==> #[trigger] set.challenges@[i] == (GrandProductChallenge {
                beta: stream@[2 * i],
                gamma: stream@[2 * i + 1],
            }),
{
    let len: usize = stream.len();
    let mut challenges: Vec<GrandProductChallenge> = Vec::new();
    let mut i: usize = 0;
    while i < num_challenges
        invariant
            i <= num_challenges,
            2 * num_challenges <= stream@.len(),
            stream@.len() == len,
            challenges@.len() == i,
            forall|j: int|
                0 <= j < i ==> #[trigger] challenges@[j] == (GrandProductChallenge {
                    beta: stream@[2 * j],
                    gamma: stream@[2 * j + 1],
                }),
        decreases num_challenges - i,
    {
        challenges.push(GrandProductChallenge { beta: stream[2 * i], gamma: stream[2 * i + 1] });
        i = i + 1;
    }
    GrandProductChallengeSet { challenges }
}

impl RecursiveAllProof {
    /// Whether every public-input vector is long enough to hold the fixed
    /// part of the layout.
    pub open spec fn well_shaped(&self, config: &StarkConfig) -> bool {
        forall|t: int|
            0 <= t < NUM_TABLES ==> config.header_len() <= (
            #[trigger] self.recursive_proofs@[t]).public_inputs@.len()
    }

    /// The public inputs of all tables, parsed.
    pub open spec fn parsed(&self, config: &StarkConfig) -> Seq<PublicInputsView> {
        Seq::new(
            NUM_TABLES as nat,
            |t: int|
                parse_layout(
                    self.recursive_proofs@[t].public_inputs@,
                    config.cap_len(),
                    config.num_challenges as nat,
                ),
        )
    }

    /// What the transcript absorbs: the trace cap of every table, in table
    /// order.
    pub open spec fn absorbed(&self, config: &StarkConfig) -> Seq<u64> {
        absorbed_caps(self.parsed(config), NUM_TABLES as int)
    }

    /// Tests [`Self::well_shaped`].
    pub fn is_well_shaped(&self, config: &StarkConfig) -> (r: bool)
        ensures
            r == self.well_shaped(config),
    {
        let first_len: usize = self.recursive_proofs[0].public_inputs.len();
        let header: usize = match config.checked_header_len() {
            Some(h) => h,
            None => {
                assert(!(config.header_len() <= self.recursive_proofs@[0].public_inputs@.len()));
                return false;
            },
        };
        let mut t: usize = 0;
        while t < NUM_TABLES
            invariant
                t <= NUM_TABLES,
                header == config.header_len(),
                forall|h: int|
                    0 <= h < t ==> config.header_len() <= (
                    #[trigger] self.recursive_proofs@[h]).public_inputs@.len(),
            decreases NUM_TABLES - t,
        {
            if self.recursive_proofs[t].public_inputs.len() < header {
                return false;
            }
            t = t + 1;
        }
        true
    }

    /// The field elements that the transcript absorbs before it gives the
    /// lookup challenges.
    pub fn transcript_input(&self, config: &StarkConfig) -> (v: Vec<u64>)
        requires
            self.well_shaped(config),
        ensures
            v@ == self.absorbed(config),
    {
        let first_len: usize = self.recursive_proofs[0].public_inputs.len();
        assert(config.header_len() <= self.recursive_proofs@[0].public_inputs@.len());
        let cap_elements: usize = match config.checked_header_len() {
            Some(h) => h - 2 * SPONGE_WIDTH - 2 * config.num_challenges,
            None => 0,
        };
        let mut v: Vec<u64> = Vec::new();
        let mut t: usize = 0;
        while t < NUM_TABLES
            invariant
                t <= NUM_TABLES,
                self.well_shaped(config),
                cap_elements == config.cap_elements(),
                v@ == absorbed_caps(self.parsed(config), t as int),
            decreases NUM_TABLES - t,
        {
            let inputs = &self.recursive_proofs[t].public_inputs;
            assert(config.header_len() <= self.recursive_proofs@[t as int].public_inputs@.len());
            proof {
                lemma_cap_is_prefix(inputs@, config.cap_len(), config.num_challenges as nat);
            }
            let ghost head = v@;
            let mut k: usize = 0;
            while k < cap_elements
                invariant
                    k <= cap_elements,
                    cap_elements <= inputs@.len(),
                    v@ == head + inputs@.subrange(0, k as int),
                decreases cap_elements - k,
            {
                v.push(inputs[k]);
                assert(v@ =~= head + inputs@.subrange(0, k + 1));
                k = k + 1;
            }
            t = t + 1;
        }
        v
    }

    /// Parses the public inputs of every table.
    fn parse_all(&self, config: &StarkConfig) -> (pis: [PublicInputs; NUM_TABLES])
        requires
            self.well_shaped(config),
        ensures
            public_input_views(pis@) == self.parsed(config),
    {
        assert(config.header_len() <= self.recursive_proofs@[0].public_inputs@.len());
        assert(config.header_len() <= self.recursive_proofs@[1].public_inputs@.len());
        assert(config.header_len() <= self.recursive_proofs@[2].public_inputs@.len());
        assert(config.header_len() <= self.recursive_proofs@[3].public_inputs@.len());
        assert(config.header_len() <= self.recursive_proofs@[4].public_inputs@.len());
        let pis = [
            PublicInputs::from_vec(self.recursive_proofs[0].public_inputs.as_slice(), config),
            PublicInputs::from_vec(self.recursive_proofs[1].public_inputs.as_slice(), config),
            PublicInputs::from_vec(self.recursive_proofs[2].public_inputs.as_slice(), config),
            PublicInputs::from_vec(self.recursive_proofs[3].public_inputs.as_slice(), config),
            PublicInputs::from_vec(self.recursive_proofs[4].public_inputs.as_slice(), config),
        ];
        assert(public_input_views(pis@) =~= self.parsed(config));
        pis
    }

    /// Checks the recursive layer against what the transcript gave: the
    /// shared challenges, the chain of sponge states, then the lookups.
    pub fn verify(self, inner_config: &StarkConfig, transcript: &TranscriptOutcome) -> (r: Result<
        (),
        VerifyError,
    >)
        requires
            self.well_shaped(inner_config),
        ensures
            recursive_verdict(
                self.parsed(inner_config),
                lookup_views(self.cross_table_lookups@),
                inner_config.num_challenges as nat,
                transcript.ctl_challenges.challenges@,
                transcript.state@,
                r,
            ),
    {
        let pis = self.parse_all(inner_config);
        if !check_challenges(&pis, &transcript.ctl_challenges) {
            return Err(VerifyError::ChallengeMismatch);
        }
        match check_chain(&pis, &transcript.state) {
            Some(t) => {
                return Err(VerifyError::ChallengerStateMismatch(t));
            },
            None => {},
        }
        let ctl_zs_lasts = accumulators_of(&pis);
        verify_cross_table_lookups(&self.cross_table_lookups, &ctl_zs_lasts, inner_config)
    }
}

/// The views of the public inputs of all tables.
pub open spec fn public_input_views(pis: Seq<PublicInputs>) -> Seq<PublicInputsView> {
    Seq::new(pis.len(), |t: int| pis[t]@)
}

/// Whether every table's public inputs hold the challenges of `set`.
pub fn check_challenges(pis: &[PublicInputs; NUM_TABLES], set: &GrandProductChallengeSet) -> (r: bool)
    ensures
        r == challenges_shared(public_input_views(pis@), set.challenges@),
{
    let ghost views = public_input_views(pis@);
    let mut t: usize = 0;
    while t < NUM_TABLES
        invariant
            t <= NUM_TABLES,
            views == public_input_views(pis@),
            forall|h: int|
                0 <= h < t ==> same_challenges(set.challenges@, (#[trigger] views[h]).ctl_challenges),
        decreases NUM_TABLES - t,
    {
        assert(views[t as int] == pis@[t as int]@);
        if !challenges_agree(set, &pis[t].ctl_challenges) {
            return false;
        }
        t = t + 1;
    }
    true
}

/// The first table whose proof does not start where it must, if there is
/// one.
pub fn check_chain(pis: &[PublicInputs; NUM_TABLES], state: &[u64; 12]) -> (r: Option<usize>)
    ensures
        r.is_none() <==> chain_holds(public_input_views(pis@), state@),
        r.is_some() ==> first_broken_link(public_input_views(pis@), state@, r.unwrap() as int),
{
    let ghost views = public_input_views(pis@);
    assert(views[0] == pis@[0]@);
    if !states_agree(state, &pis[0].challenger_state_before) {
        assert(!link_holds(views, state@, 0));
        return Some(0);
    }
    let mut t: usize = 1;
    while t < NUM_TABLES
        invariant
            1 <= t <= NUM_TABLES,
            views == public_input_views(pis@),
            forall|h: int| 0 <= h < t ==> #[trigger] link_holds(views, state@, h),
        decreases NUM_TABLES - t,
    {
        assert(views[t as int] == pis@[t as int]@);
        assert(views[t - 1] == pis@[t - 1]@);
        if !states_agree(&pis[t].challenger_state_before, &pis[t - 1].challenger_state_after) {
            assert(!link_holds(views, state@, t as int));
            return Some(t);
        }
        t = t + 1;
    }
    None
}

/// The accumulator lists that the tables make public.
pub fn accumulators_of(pis: &[PublicInputs; NUM_TABLES]) -> (zs: [Vec<u64>; NUM_TABLES])
    ensures
        accumulator_views(zs@) == public_accumulators(public_input_views(pis@)),
{
    let zs = [
        pis[0].ctl_zs_last.clone(),
        pis[1].ctl_zs_last.clone(),
        pis[2].ctl_zs_last.clone(),
        pis[3].ctl_zs_last.clone(),
        pis[4].ctl_zs_last.clone(),
    ];
    assert forall|t: int| 0 <= t < NUM_TABLES implies zs@[t]@ =~= pis@[t].ctl_zs_last@ by {}
    assert(accumulator_views(zs@) =~= public_accumulators(public_input_views(pis@)));
    zs
}

/// The chain of sponge states does not survive a change to the state after
/// a proof: where the challenges are shared and the chain holds, and the
/// state after the proof of a table that is not the last is replaced by
/// other field elements while the challenges and the states before stay,
/// the challenges are still shared and the next table is the first one that
/// starts from a wrong state.
pub proof fn lemma_altered_state_after_breaks_chain(
    pis: Seq<PublicInputsView>,
    altered: Seq<PublicInputsView>,
    challenges: Seq<GrandProductChallenge>,
    state: Seq<u64>,
    t: int,
)
    requires
        pis.len() == NUM_TABLES,
        altered.len() == NUM_TABLES,
        0 <= t < NUM_TABLES - 1,
        challenges_shared(pis, challenges),
        chain_holds(pis, state),
        forall|u: int|
            0 <= u < NUM_TABLES ==> (#[trigger] altered[u]).ctl_challenges == pis[u].ctl_challenges,
        forall|u: int|
            0 <= u < NUM_TABLES ==> (#[trigger] altered[u]).challenger_state_before
                == pis[u].challenger_state_before,
        forall|u: int|
            0 <= u < NUM_TABLES && u != t ==> (#[trigger] altered[u]).challenger_state_after
                == pis[u].challenger_state_after,
        !same_elements(altered[t].challenger_state_after, pis[t].challenger_state_after),
    ensures
        challenges_shared(altered, challenges),
        !chain_holds(altered, state),
        first_broken_link(altered, state, t + 1),
        forall|u: int| first_broken_link(altered, state, u) ==> u == t + 1,
{
    assert forall|u: int| 0 <= u < NUM_TABLES implies same_challenges(
        challenges,
        (#[trigger] altered[u]).ctl_challenges,
    ) by {
        assert(same_challenges(challenges, pis[u].ctl_challenges));
    }
    assert forall|h: int| 0 <= h < t + 1 implies #[trigger] link_holds(altered, state, h) by {
        assert(link_holds(pis, state, h));
        if h > 0 {
            assert(altered[h - 1].challenger_state_after == pis[h - 1].challenger_state_after);
        }
        assert(altered[h].challenger_state_before == pis[h].challenger_state_before);
    }
    let next = pis[t + 1].challenger_state_before;
    let old_after = pis[t].challenger_state_after;
    let new_after = altered[t].challenger_state_after;
    assert(link_holds(pis, state, t + 1));
    assert(altered[t + 1].challenger_state_before == next);
    if same_elements(next, new_after) {
        assert forall|k: int| 0 <= k < new_after.len() implies residue(#[trigger] new_after[k])
            == residue(old_after[k]) by {
            assert(residue(next[k]) == residue(new_after[k]));
            assert(residue(next[k]) == residue(old_after[k]));
        }
        assert(same_elements(new_after, old_after));
    }
    assert(!link_holds(altered, state, t + 1));
    assert forall|u: int| first_broken_link(altered, state, u) implies u == t + 1 by {
        if u < t + 1 {
            assert(link_holds(altered, state, u));
        } else if u > t + 1 {
            assert(link_holds(altered, state, t + 1));
        }
    }
}

/// The check of the recursive layer reports a chain that was broken by a
/// change to the state after a proof: with the change of
/// [`lemma_altered_state_after_breaks_chain`], the verdict is a state
/// mismatch at the next table.
pub proof fn lemma_altered_state_after_is_rejected(
    pis: Seq<PublicInputsView>,
    altered: Seq<PublicInputsView>,
    lookups: Seq<LookupView>,
    c: nat,
    challenges: Seq<GrandProductChallenge>,
    state: Seq<u64>,
    t: int,
    r: Result<(), VerifyError>,
)
    requires
        pis.len() == NUM_TABLES,
        altered.len() == NUM_TABLES,
        0 <= t < NUM_TABLES - 1,
        challenges_shared(pis, challenges),
        chain_holds(pis, state),
        forall|u: int|
            0 <= u < NUM_TABLES ==> (#[trigger] altered[u]).ctl_challenges == pis[u].ctl_challenges,
        forall|u: int|
            0 <= u < NUM_TABLES ==> (#[trigger] altered[u]).challenger_state_before
                == pis[u].challenger_state_before,
        forall|u: int|
            0 <= u < NUM_TABLES && u != t ==> (#[trigger] altered[u]).challenger_state_after
                == pis[u].challenger_state_after,
        !same_elements(altered[t].challenger_state_after, pis[t].challenger_state_after),
        recursive_verdict(altered, lookups, c, challenges, state, r),
    ensures
        r == Err::<(), VerifyError>(VerifyError::ChallengerStateMismatch((t + 1) as usize)),
{
    lemma_altered_state_after_breaks_chain(pis, altered, challenges, state, t);
    match r {
        Err(VerifyError::ChallengerStateMismatch(found)) => {
            assert(first_broken_link(altered, state, found as int));
        },
        _ => {},
    }
}

/// The check of the recursive layer has one outcome for given inputs: two
/// results that both meet its contract are the same.
pub proof fn lemma_recursive_verdict_unique(
    pis: Seq<PublicInputsView>,
    lookups: Seq<LookupView>,
    c: nat,
    challenges: Seq<GrandProductChallenge>,
    state: Seq<u64>,
    r1: Result<(), VerifyError>,
    r2: Result<(), VerifyError>,
)
    requires
        recursive_verdict(pis, lookups, c, challenges, state, r1),
        recursive_verdict(pis, lookups, c, challenges, state, r2),
    ensures
        r1 == r2,
{
    if !challenges_shared(pis, challenges) {
    } else if !chain_holds(pis, state) {
        match (r1, r2) {
            (
                Err(VerifyError::ChallengerStateMismatch(a)),
                Err(VerifyError::ChallengerStateMismatch(b)),
            ) => {
                if (a as int) < (b as int) {
                    assert(link_holds(pis, state, a as int));
                } else if (b as int) < (a as int) {
                    assert(link_holds(pis, state, b as int));
                }
                assert(a == b);
            },
            _ => {},
        }
    } else {
        lemma_lookups_verdict_unique(lookups, c, public_accumulators(pis), r1, r2);
    }
}

} // verus!
