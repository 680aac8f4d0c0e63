//! Parameters shared by prover and verifier.

use vstd::prelude::*;

verus! {

/// Number of field elements in the sponge state of the transcript.
pub const SPONGE_WIDTH: usize = 12;

/// Number of field elements in one hash digest.
pub const NUM_HASH_OUT_ELTS: usize = 4;

/// Parameters of the low-degree test that the layout depends on.
#[derive(Clone, Copy, Debug, PartialEq, Eq, Structural)]
pub struct FriConfig {
    /// Height of each Merkle cap: a cap holds `2^cap_height` digests.
    pub cap_height: usize,
}

/// Parameters of the per-table proofs.
#[derive(Clone, Copy, Debug, PartialEq, Eq, Structural)]
pub struct StarkConfig {
    /// Number of challenge points drawn for each random linear combination.
    pub num_challenges: usize,
    pub fri_config: FriConfig,
}

/// `2^e`.
pub open spec fn pow2(e: nat) -> nat
    decreases e,
{
    if e == 0 {
        1
    } else {
        2 * pow2((e - 1) as nat)
    }
}

pub proof fn lemma_pow2_monotonic(a: nat, b: nat)
    requires
        a <= b,
    ensures
        pow2(a) <= pow2(b),
    decreases b,
{
    if a < b {
        lemma_pow2_monotonic(a, (b - 1) as nat);
    }
}

impl StarkConfig {
    /// Number of digests in a Merkle cap.
    pub open spec fn cap_len(self) -> nat {
        pow2(self.fri_config.cap_height as nat)
    }

    /// Number of field elements that a Merkle cap takes in the flat layout.
    pub open spec fn cap_elements(self) -> nat {
        4 * self.cap_len()
    }

    /// Number of field elements before the lookup accumulators in the flat
    /// layout: the cap, the challenge pairs, and the two sponge states.
    pub open spec fn header_len(self) -> nat {
        self.cap_elements() + 2 * (self.num_challenges as nat) + 2 * (SPONGE_WIDTH as nat)
    }

    /// The header length as a machine integer, or `None` where it does not
    /// fit one.
    pub fn checked_header_len(&self) -> (r: Option<usize>)
        ensures
            r.is_some() <==> self.header_len() <= usize::MAX,
            r.is_some() ==> r.unwrap() == self.header_len(),
    {
        let cap = match checked_pow2(self.fri_config.cap_height) {
            Some(c) => c,
            None => {
                return None;
            },
        };
        let cap_elems = match cap.checked_mul(4) {
            Some(c) => c,
            None => {
                return None;
            },
        };
        let chal = match self.num_challenges.checked_mul(2) {
            Some(c) => c,
            None => {
                return None;
            },
        };
        let a = match cap_elems.checked_add(chal) {
            Some(c) => c,
            None => {
                return None;
            },
        };
        a.checked_add(2 * SPONGE_WIDTH)
    }
}

/// `2^e` as a machine integer, or `None` where it does not fit one.
pub fn checked_pow2(e: usize) -> (r: Option<usize>)
    ensures
        r.is_some() <==> pow2(e as nat) <= usize::MAX,
        r.is_some() ==> r.unwrap() == pow2(e as nat),
{
    let mut acc: usize = 1;
    let mut i: usize = 0;
    while i < e
        invariant
            i <= e,
            acc == pow2(i as nat),
        decreases e - i,
    {
        match acc.checked_mul(2) {
            Some(next) => {
                acc = next;
            },
            None => {
                proof {
                    lemma_pow2_monotonic((i + 1) as nat, e as nat);
                }
                return None;
            },
        }
        i = i + 1;
    }
    Some(acc)
}

} // verus!
