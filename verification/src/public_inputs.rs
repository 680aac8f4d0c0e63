//! The flat public-input vector of one table's recursive proof.
//!
//! With a cap of `n` digests and `c` challenges the vector is, in order:
//! the trace cap (`4 * n` elements, four per digest), the challenge pairs
//! (`2 * c` elements, `beta` before `gamma`), the sponge state before the
//! table's proof, the sponge state after it ([`SPONGE_WIDTH`] elements
//! each), and the final values of the lookup accumulators, which take the
//! rest. The vector carries no lengths: `n` and `c` come from the
//! configuration.

use crate::config::{checked_pow2, StarkConfig, SPONGE_WIDTH};
use vstd::prelude::*;

verus! {

/// A hash digest: four field elements.
#[derive(Clone, Copy, Debug, PartialEq, Eq)]
pub struct HashOut {
    pub elements: [u64; 4],
}

/// A pair of challenges for a grand-product argument.
#[derive(Clone, Copy, Debug, PartialEq, Eq, Structural)]
pub struct GrandProductChallenge {
    pub beta: u64,
    pub gamma: u64,
}

/// The challenge pairs shared by all tables.
#[derive(Clone, Debug, PartialEq, Eq)]
pub struct GrandProductChallengeSet {
    pub challenges: Vec<GrandProductChallenge>,
}

/// What a table's recursive proof makes public.
#[derive(Clone, Debug, PartialEq, Eq)]
pub struct PublicInputs {
    pub trace_cap: Vec<HashOut>,
    pub ctl_zs_last: Vec<u64>,
    pub ctl_challenges: GrandProductChallengeSet,
    pub challenger_state_before: [u64; 12],
    pub challenger_state_after: [u64; 12],
}

/// The mathematical content of [`PublicInputs`].
pub struct PublicInputsView {
    pub trace_cap: Seq<Seq<u64>>,
    pub ctl_zs_last: Seq<u64>,
    pub ctl_challenges: Seq<GrandProductChallenge>,
    pub challenger_state_before: Seq<u64>,
    pub challenger_state_after: Seq<u64>,
}

impl PublicInputsView {
    /// Every digest has four elements and both sponge states are full.
    pub open spec fn well_formed(self) -> bool {
        &&& forall|i: int| 0 <= i < self.trace_cap.len() ==> (#[trigger] self.trace_cap[i]).len() == 4
        &&& self.challenger_state_before.len() == SPONGE_WIDTH
        &&& self.challenger_state_after.len() == SPONGE_WIDTH
    }
}

impl View for PublicInputs {
    type V = PublicInputsView;

    open spec fn view(&self) -> PublicInputsView {
        PublicInputsView {
            trace_cap: Seq::new(self.trace_cap@.len(), |i: int| self.trace_cap@[i].elements@),
            ctl_zs_last: self.ctl_zs_last@,
            ctl_challenges: self.ctl_challenges.challenges@,
            challenger_state_before: self.challenger_state_before@,
            challenger_state_after: self.challenger_state_after@,
        }
    }
}

/// The digests of a cap, end to end.
pub open spec fn flatten_cap(cap: Seq<Seq<u64>>) -> Seq<u64> {
    Seq::new(4 * cap.len(), |k: int| cap[k / 4][k % 4])
}

/// The challenge pairs, end to end, `beta` before `gamma`.
pub open spec fn flatten_challenges(challenges: Seq<GrandProductChallenge>) -> Seq<u64> {
    Seq::new(
        2 * challenges.len(),
        |k: int|
            if k % 2 == 0 {
                challenges[k / 2].beta
            } else {
                challenges[k / 2].gamma
            },
    )
}

/// The flat vector that encodes `p`.
pub open spec fn layout(p: PublicInputsView) -> Seq<u64> {
    flatten_cap(p.trace_cap) + flatten_challenges(p.ctl_challenges) + p.challenger_state_before
        + p.challenger_state_after + p.ctl_zs_last
}

/// What the flat vector `v` encodes, for a cap of `cap_len` digests and
/// `num_challenges` challenge pairs.
pub open spec fn parse_layout(v: Seq<u64>, cap_len: nat, num_challenges: nat) -> PublicInputsView {
    let challenges_at: int = 4 * (cap_len as int);
    let before_at: int = challenges_at + 2 * num_challenges;
    let after_at: int = before_at + SPONGE_WIDTH;
    let zs_at: int = after_at + SPONGE_WIDTH;
    PublicInputsView {
        trace_cap: Seq::new(cap_len, |i: int| v.subrange(4 * i, 4 * i + 4)),
        ctl_zs_last: v.subrange(zs_at, v.len() as int),
        ctl_challenges: Seq::new(
            num_challenges,
            |i: int|
                GrandProductChallenge {
                    beta: v[challenges_at + 2 * i],
                    gamma: v[challenges_at + 2 * i + 1],
                },
        ),
        challenger_state_before: v.subrange(before_at, after_at),
        challenger_state_after: v.subrange(after_at, zs_at),
    }
}

/// Encoding public inputs and parsing the vector gives them back.
pub proof fn lemma_parse_of_layout(p: PublicInputsView)
    requires
        p.well_formed(),
    ensures
        parse_layout(layout(p), p.trace_cap.len(), p.ctl_challenges.len()) == p,
{
    let v = layout(p);
    let q = parse_layout(v, p.trace_cap.len(), p.ctl_challenges.len());
    let a = 4 * p.trace_cap.len();
    assert(flatten_cap(p.trace_cap).len() == a);
    assert(flatten_challenges(p.ctl_challenges).len() == 2 * p.ctl_challenges.len());
    assert(q.trace_cap.len() == p.trace_cap.len());
    assert forall|i: int| 0 <= i < p.trace_cap.len() implies q.trace_cap[i] =~= p.trace_cap[i] by {
        assert(p.trace_cap[i].len() == 4);
        assert forall|j: int| 0 <= j < 4 implies q.trace_cap[i][j] == p.trace_cap[i][j] by {
            let k = 4 * i + j;
            assert(k / 4 == i && k % 4 == j);
            assert(v[k] == flatten_cap(p.trace_cap)[k]);
        }
    }
    assert(q.trace_cap =~= p.trace_cap);
    assert forall|i: int| 0 <= i < p.ctl_challenges.len() implies q.ctl_challenges[i]
        == p.ctl_challenges[i] by {
        let k = 2 * i;
        assert(k / 2 == i && k % 2 == 0);
        assert((k + 1) / 2 == i && (k + 1) % 2 == 1);
        assert(v[a + k] == flatten_challenges(p.ctl_challenges)[k]);
        assert(v[a + k + 1] == flatten_challenges(p.ctl_challenges)[k + 1]);
    }
    assert(q.ctl_challenges =~= p.ctl_challenges);
    assert(q.challenger_state_before =~= p.challenger_state_before);
    assert(q.challenger_state_after =~= p.challenger_state_after);
    assert(q.ctl_zs_last =~= p.ctl_zs_last);
}

/// Parsing a vector that holds at least the fixed part and encoding the
/// result gives the vector back.
pub proof fn lemma_layout_of_parse(v: Seq<u64>, cap_len: nat, num_challenges: nat)
    requires
        4 * cap_len + 2 * num_challenges + 2 * SPONGE_WIDTH <= v.len(),
    ensures
        parse_layout(v, cap_len, num_challenges).well_formed(),
        layout(parse_layout(v, cap_len, num_challenges)) == v,
{
    let p = parse_layout(v, cap_len, num_challenges);
    let w = layout(p);
    assert(flatten_cap(p.trace_cap).len() == 4 * cap_len);
    assert(flatten_challenges(p.ctl_challenges).len() == 2 * num_challenges);
    assert(w.len() == v.len());
    assert forall|k: int| 0 <= k < v.len() implies w[k] == v[k] by {
        let a = 4 * cap_len;
        if k < a {
            assert(w[k] == flatten_cap(p.trace_cap)[k]);
            assert(p.trace_cap[k / 4][k % 4] == v[4 * (k / 4) + k % 4]);
        } else if k < a + 2 * num_challenges {
            let j = k - a;
            assert(w[k] == flatten_challenges(p.ctl_challenges)[j]);
            assert(2 * (j / 2) + j % 2 == j);
        } else {
        }
    }
    assert(w =~= v);
}

/// One more challenge pair adds its `beta` and its `gamma` to the flat form.
pub proof fn lemma_flatten_challenges_push(s: Seq<GrandProductChallenge>, c: GrandProductChallenge)
    ensures
        flatten_challenges(s.push(c)) == flatten_challenges(s) + seq![c.beta, c.gamma],
{
    let a = flatten_challenges(s.push(c));
    let b = flatten_challenges(s) + seq![c.beta, c.gamma];
    assert(a.len() == b.len());
    assert forall|k: int| 0 <= k < a.len() implies a[k] == b[k] by {
        if k < 2 * s.len() {
            assert(k / 2 < s.len());
        } else {
            assert(k / 2 == s.len());
        }
    }
    assert(a =~= b);
}

impl PublicInputs {
    /// Parses the flat vector `v`.
    pub fn from_vec(v: &[u64], config: &StarkConfig) -> (pi: PublicInputs)
        requires
            config.header_len() <= v@.len(),
        ensures
            pi@ == parse_layout(v@, config.cap_len(), config.num_challenges as nat),
            pi@.well_formed(),
            layout(pi@) == v@,
    {
        let len: usize = v.len();
        let cap_len: usize = match checked_pow2(config.fri_config.cap_height) {
            Some(n) => n,
            None => 0,
        };
        assert(cap_len == config.cap_len());
        let num_challenges: usize = config.num_challenges;
        let mut trace_cap: Vec<HashOut> = Vec::new();
        let mut i: usize = 0;
        while i < cap_len
            invariant
                i <= cap_len,
                4 * cap_len + 2 * num_challenges + 2 * SPONGE_WIDTH <= v@.len(),
                v@.len() == len,
                trace_cap@.len() == i,
                forall|j: int|
                    0 <= j < i ==> (#[trigger] trace_cap@[j]).elements@ == v@.subrange(
                        4 * j,
                        4 * j + 4,
                    ),
            decreases cap_len - i,
        {
            let digest = HashOut {
                elements: [v[4 * i], v[4 * i + 1], v[4 * i + 2], v[4 * i + 3]],
            };
            assert(digest.elements@ =~= v@.subrange(4 * i, 4 * i + 4));
            trace_cap.push(digest);
            i = i + 1;
        }
        let challenges_at: usize = 4 * cap_len;
        let mut challenges: Vec<GrandProductChallenge> = Vec::new();
        let mut i: usize = 0;
        while i < num_challenges
            invariant
                i <= num_challenges,
                challenges_at == 4 * cap_len,
                4 * cap_len + 2 * num_challenges + 2 * SPONGE_WIDTH <= v@.len(),
                v@.len() == len,
                challenges@.len() == i,
                forall|j: int|
                    0 <= j < i ==> #[trigger] challenges@[j] == (GrandProductChallenge {
                        beta: v@[challenges_at + 2 * j],
                        gamma: v@[challenges_at + 2 * j + 1],
                    }),
            decreases num_challenges - i,
        {
            challenges.push(
                GrandProductChallenge {
                    beta: v[challenges_at + 2 * i],
                    gamma: v[challenges_at + 2 * i + 1],
                },
            );
            i = i + 1;
        }
        let before_at: usize = challenges_at + 2 * num_challenges;
        let challenger_state_before = read_state(v, before_at);
        let after_at: usize = before_at + SPONGE_WIDTH;
        let challenger_state_after = read_state(v, after_at);
        let zs_at: usize = after_at + SPONGE_WIDTH;
        let mut ctl_zs_last: Vec<u64> = Vec::new();
        let mut k: usize = zs_at;
        while k < v.len()
            invariant
                zs_at <= k <= v@.len(),
                ctl_zs_last@ == v@.subrange(zs_at as int, k as int),
            decreases v@.len() - k,
        {
            ctl_zs_last.push(v[k]);
            assert(ctl_zs_last@ =~= v@.subrange(zs_at as int, k + 1));
            k = k + 1;
        }
        let pi = PublicInputs {
            trace_cap,
            ctl_zs_last,
            ctl_challenges: GrandProductChallengeSet { challenges },
            challenger_state_before,
            challenger_state_after,
        };
        proof {
            let want = parse_layout(v@, config.cap_len(), config.num_challenges as nat);
            assert(pi@.trace_cap =~= want.trace_cap);
            assert(pi@.ctl_challenges =~= want.ctl_challenges);
            lemma_layout_of_parse(v@, config.cap_len(), config.num_challenges as nat);
        }
        pi
    }

    /// Encodes the public inputs as a flat vector, from which parsing
    /// gives them back.
    pub fn to_vec(&self) -> (v: Vec<u64>)
        ensures
            v@ == layout(self@),
            self@.well_formed(),
            parse_layout(v@, self@.trace_cap.len(), self@.ctl_challenges.len()) == self@,
    {
        proof {
            lemma_parse_of_layout(self@);
        }
        let mut v: Vec<u64> = Vec::new();
        let mut i: usize = 0;
        while i < self.trace_cap.len()
            invariant
                i <= self.trace_cap@.len(),
                v@.len() == 4 * i,
                forall|k: int|
                    0 <= k < 4 * i ==> #[trigger] v@[k] == self.trace_cap@[k / 4].elements@[k % 4],
            decreases self.trace_cap@.len() - i,
        {
            let digest = &self.trace_cap[i];
            v.push(digest.elements[0]);
            v.push(digest.elements[1]);
            v.push(digest.elements[2]);
            v.push(digest.elements[3]);
            i = i + 1;
        }
        assert(v@ =~= flatten_cap(self@.trace_cap));
        let ghost cap_part = v@;
        let mut i: usize = 0;
        assert(v@ =~= cap_part + flatten_challenges(self.ctl_challenges.challenges@.take(0)));
        while i < self.ctl_challenges.challenges.len()
            invariant
                i <= self.ctl_challenges.challenges@.len(),
                v@ == cap_part + flatten_challenges(self.ctl_challenges.challenges@.take(i as int)),
            decreases self.ctl_challenges.challenges@.len() - i,
        {
            let challenge = &self.ctl_challenges.challenges[i];
            proof {
                lemma_flatten_challenges_push(
                    self.ctl_challenges.challenges@.take(i as int),
                    *challenge,
                );
                assert(self.ctl_challenges.challenges@.take(i as int).push(*challenge)
                    =~= self.ctl_challenges.challenges@.take(i + 1));
            }
            let ghost before = v@;
            v.push(challenge.beta);
            v.push(challenge.gamma);
            assert(v@ =~= before + seq![challenge.beta, challenge.gamma]);
            assert(v@ =~= cap_part + flatten_challenges(
                self.ctl_challenges.challenges@.take(i + 1),
            ));
            i = i + 1;
        }
        assert(self.ctl_challenges.challenges@.take(i as int) =~= self@.ctl_challenges);
        append_state(&mut v, &self.challenger_state_before);
        append_state(&mut v, &self.challenger_state_after);
        let ghost head = v@;
        let mut k: usize = 0;
        while k < self.ctl_zs_last.len()
            invariant
                k <= self.ctl_zs_last@.len(),
                v@ == head + self.ctl_zs_last@.subrange(0, k as int),
            decreases self.ctl_zs_last@.len() - k,
        {
            v.push(self.ctl_zs_last[k]);
            assert(v@ =~= head + self.ctl_zs_last@.subrange(0, k + 1));
            k = k + 1;
        }
        assert(self.ctl_zs_last@.subrange(0, self.ctl_zs_last@.len() as int) =~= self.ctl_zs_last@);
        v
    }
}

/// Reads a full sponge state from `v`, starting at `at`.
fn read_state(v: &[u64], at: usize) -> (state: [u64; 12])
    requires
        at + SPONGE_WIDTH <= v@.len(),
    ensures
        state@ == v@.subrange(at as int, at + SPONGE_WIDTH),
{
    let state: [u64; 12] = [
        v[at],
        v[at + 1],
        v[at + 2],
        v[at + 3],
        v[at + 4],
        v[at + 5],
        v[at + 6],
        v[at + 7],
        v[at + 8],
        v[at + 9],
        v[at + 10],
        v[at + 11],
    ];
    assert(state@ =~= v@.subrange(at as int, at + SPONGE_WIDTH));
    state
}

/// Appends a sponge state to `v`.
fn append_state(v: &mut Vec<u64>, state: &[u64; 12])
    ensures
        final(v)@ == old(v)@ + state@,
{
    let mut k: usize = 0;
    while k < 12
        invariant
            k <= 12,
            v@ == old(v)@ + state@.subrange(0, k as int),
        decreases 12 - k,
    {
        v.push(state[k]);
        assert(v@ =~= old(v)@ + state@.subrange(0, k + 1));
        k = k + 1;
    }
    assert(state@.subrange(0, 12) =~= state@);
}

} // verus!
