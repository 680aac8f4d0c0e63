//! The public values of a block as field elements.
//!
//! A 256-bit value is carried as four 64-bit words, the lowest first, and
//! an address as twenty bytes. A root or an address is split into 32-bit
//! limbs, the lowest first; a number of the block header must fit 64 bits
//! and is one element.

use vstd::prelude::*;

verus! {

/// The three trie roots of a state.
#[derive(Clone, Copy, Debug, PartialEq, Eq)]
pub struct TrieRoots {
    pub state_root: [u64; 4],
    pub transactions_root: [u64; 4],
    pub receipts_root: [u64; 4],
}

/// What a proof makes public of the block header.
#[derive(Clone, Copy, Debug, PartialEq, Eq)]
pub struct BlockMetadata {
    pub block_beneficiary: [u8; 20],
    pub block_timestamp: [u64; 4],
    pub block_number: [u64; 4],
    pub block_difficulty: [u64; 4],
    pub block_gaslimit: [u64; 4],
    pub block_chain_id: [u64; 4],
    pub block_base_fee: [u64; 4],
}

/// Limb `k` of a 256-bit value: the low half of word `k / 2` for an even
/// `k`, its high half for an odd one.
pub open spec fn u256_limb(words: Seq<u64>, k: int) -> int {
    if k % 2 == 0 {
        (words[k / 2] as int) % 0x1_0000_0000
    } else {
        (words[k / 2] as int) / 0x1_0000_0000
    }
}

/// The eight limbs of a 256-bit value, lowest first.
pub open spec fn u256_limbs_spec(words: Seq<u64>) -> Seq<u64> {
    Seq::new(8, |k: int| u256_limb(words, k) as u64)
}

/// Limb `k` of an address: four bytes, the lowest first.
pub open spec fn h160_limb(bytes: Seq<u8>, k: int) -> int {
    (bytes[4 * k] as int) + 0x100 * (bytes[4 * k + 1] as int) + 0x1_0000 * (bytes[4 * k + 2] as int)
        + 0x100_0000 * (bytes[4 * k + 3] as int)
}

/// The five limbs of an address, lowest first.
pub open spec fn h160_limbs_spec(bytes: Seq<u8>) -> Seq<u64> {
    Seq::new(5, |k: int| h160_limb(bytes, k) as u64)
}

/// Whether a 256-bit value fits 64 bits.
pub open spec fn fits_u64(words: Seq<u64>) -> bool {
    words[1] == 0 && words[2] == 0 && words[3] == 0
}

/// The eight 32-bit limbs of a 256-bit value, lowest first.
pub fn u256_limbs(words: &[u64; 4]) -> (limbs: [u64; 8])
    ensures
        limbs@ == u256_limbs_spec(words@),
        forall|k: int| 0 <= k < 8 ==> (#[trigger] limbs@[k]) < 0x1_0000_0000,
{
    let limbs: [u64; 8] = [
        words[0] % 0x1_0000_0000,
        words[0] / 0x1_0000_0000,
        words[1] % 0x1_0000_0000,
        words[1] / 0x1_0000_0000,
        words[2] % 0x1_0000_0000,
        words[2] / 0x1_0000_0000,
        words[3] % 0x1_0000_0000,
        words[3] / 0x1_0000_0000,
    ];
    assert(limbs@ =~= u256_limbs_spec(words@));
    limbs
}

/// One 32-bit limb from four bytes, the lowest first.
fn limb_of_bytes(b0: u8, b1: u8, b2: u8, b3: u8) -> (limb: u64)
    ensures
        limb == (b0 as int) + 0x100 * (b1 as int) + 0x1_0000 * (b2 as int) + 0x100_0000 * (
        b3 as int),
        limb < 0x1_0000_0000,
{
    (b0 as u64) + 0x100 * (b1 as u64) + 0x1_0000 * (b2 as u64) + 0x100_0000 * (b3 as u64)
}

/// The five 32-bit limbs of an address, lowest first.
pub fn h160_limbs(bytes: &[u8; 20]) -> (limbs: [u64; 5])
    ensures
        limbs@ == h160_limbs_spec(bytes@),
        forall|k: int| 0 <= k < 5 ==> (#[trigger] limbs@[k]) < 0x1_0000_0000,
{
    let limbs: [u64; 5] = [
        limb_of_bytes(bytes[0], bytes[1], bytes[2], bytes[3]),
        limb_of_bytes(bytes[4], bytes[5], bytes[6], bytes[7]),
        limb_of_bytes(bytes[8], bytes[9], bytes[10], bytes[11]),
        limb_of_bytes(bytes[12], bytes[13], bytes[14], bytes[15]),
        limb_of_bytes(bytes[16], bytes[17], bytes[18], bytes[19]),
    ];
    assert(limbs@ =~= h160_limbs_spec(bytes@));
    limbs
}

/// A 256-bit value as one 64-bit number, where it fits.
pub fn u256_as_u64(words: &[u64; 4]) -> (r: Option<u64>)
    ensures
        r == (if fits_u64(words@) {
            Some(words@[0])
        } else {
            None
        }),
{
    if words[1] == 0 && words[2] == 0 && words[3] == 0 {
        Some(words[0])
    } else {
        None
    }
}

impl TrieRoots {
    /// The limbs of the state root, the transactions root and the receipts
    /// root, in this order.
    pub open spec fn elements(self) -> Seq<u64> {
        u256_limbs_spec(self.state_root@) + u256_limbs_spec(self.transactions_root@)
            + u256_limbs_spec(self.receipts_root@)
    }

    /// The roots as field elements.
    pub fn to_elements(&self) -> (v: Vec<u64>)
        ensures
            v@ == self.elements(),
    {
        let mut v: Vec<u64> = Vec::new();
        append_limbs(&mut v, &u256_limbs(&self.state_root));
        append_limbs(&mut v, &u256_limbs(&self.transactions_root));
        append_limbs(&mut v, &u256_limbs(&self.receipts_root));
        assert(v@ =~= self.elements());
        v
    }
}

impl BlockMetadata {
    /// Whether every number of the header fits 64 bits.
    pub open spec fn fits(self) -> bool {
        &&& fits_u64(self.block_timestamp@)
        &&& fits_u64(self.block_number@)
        &&& fits_u64(self.block_difficulty@)
        &&& fits_u64(self.block_gaslimit@)
        &&& fits_u64(self.block_chain_id@)
        &&& fits_u64(self.block_base_fee@)
    }

    /// The limbs of the beneficiary, then timestamp, number, difficulty,
    /// gas limit, chain id and base fee.
    pub open spec fn elements(self) -> Seq<u64> {
        h160_limbs_spec(self.block_beneficiary@) + seq![
            self.block_timestamp@[0],
            self.block_number@[0],
            self.block_difficulty@[0],
            self.block_gaslimit@[0],
            self.block_chain_id@[0],
            self.block_base_fee@[0],
        ]
    }

    /// The header values as field elements, where every number fits 64
    /// bits.
    pub fn to_elements(&self) -> (r: Option<Vec<u64>>)
        ensures
            r.is_some() <==> self.fits(),
            r.is_some() ==> r.unwrap()@ == self.elements(),
    {
        let timestamp: u64 = match u256_as_u64(&self.block_timestamp) {
            Some(x) => x,
            None => {
                return None;
            },
        };
        let number: u64 = match u256_as_u64(&self.block_number) {
            Some(x) => x,
            None => {
                return None;
            },
        };
        let difficulty: u64 = match u256_as_u64(&self.block_difficulty) {
            Some(x) => x,
            None => {
                return None;
            },
        };
        let gaslimit: u64 = match u256_as_u64(&self.block_gaslimit) {
            Some(x) => x,
            None => {
                return None;
            },
        };
        let chain_id: u64 = match u256_as_u64(&self.block_chain_id) {
            Some(x) => x,
            None => {
                return None;
            },
        };
        let base_fee: u64 = match u256_as_u64(&self.block_base_fee) {
            Some(x) => x,
            None => {
                return None;
            },
        };
        let limbs = h160_limbs(&self.block_beneficiary);
        let mut v: Vec<u64> = Vec::new();
        v.push(limbs[0]);
        v.push(limbs[1]);
        v.push(limbs[2]);
        v.push(limbs[3]);
        v.push(limbs[4]);
        v.push(timestamp);
        v.push(number);
        v.push(difficulty);
        v.push(gaslimit);
        v.push(chain_id);
        v.push(base_fee);
        assert(v@ =~= self.elements());
        Some(v)
    }
}

/// Appends eight limbs to `v`.
fn append_limbs(v: &mut Vec<u64>, limbs: &[u64; 8])
    ensures
        final(v)@ == old(v)@ + limbs@,
{
    let mut k: usize = 0;
    while k < 8
        invariant
            k <= 8,
            v@ == old(v)@ + limbs@.subrange(0, k as int),
        decreases 8 - k,
    {
        v.push(limbs[k]);
        assert(v@ =~= old(v)@ + limbs@.subrange(0, k + 1));
        k = k + 1;
    }
    assert(limbs@.subrange(0, 8) =~= limbs@);
}

} // verus!
