//! A 256-bit accumulator built from XXH3 digests.
//!
//! Its state is two 128-bit words. Keys are folded into the first word by
//! XOR, so the order in which keys are combined does not matter. A value is
//! read at an index by digesting the state's bytes with the index as seed.
use vstd::prelude::*;
use vstd::bytes::{spec_u128_to_le_bytes, u128_to_le_bytes};
use crate::digest::{xxh3_128_seeded_of, xxh3_128_with_seed};
use crate::xxh3_trait::XXH3;

verus! {

/// Number of 128-bit words in the state.
const SIZE: usize = 2;

/// Two 128-bit words of XXH3 state.
#[derive(Debug, Clone, Copy)]
pub struct Xxh3_256 {
    state: [u128; SIZE],
}

/// The bytes of a state: each word in little-endian order, first word first.
pub open spec fn state_bytes(state: (u128, u128)) -> Seq<u8> {
    spec_u128_to_le_bytes(state.0) + spec_u128_to_le_bytes(state.1)
}

/// A state with a digest folded into its first word.
pub open spec fn combined(state: (u128, u128), digest: u128) -> (u128, u128) {
    (state.0 ^ digest, state.1)
}

/// Folding in two digests gives the same state in either order.
pub proof fn lemma_combine_order(state: (u128, u128), x: u128, y: u128)
    ensures
        combined(combined(state, x), y) == combined(combined(state, y), x),
{
    let w = state.0;
    assert((w ^ x) ^ y == (w ^ y) ^ x) by (bit_vector);
}

/// Folding in two digests gives the same state exactly when the digests
/// are equal.
pub proof fn lemma_combine_distinct(state: (u128, u128), x: u128, y: u128)
    ensures
        combined(state, x) == combined(state, y) <==> x == y,
{
    let w = state.0;
    assert((w ^ x) == (w ^ y) ==> x == y) by (bit_vector);
}

impl View for Xxh3_256 {
    type V = (u128, u128);

    closed spec fn view(&self) -> (u128, u128) {
        (self.state[0], self.state[1])
    }
}

impl Xxh3_256 {
    /// A state whose first word is the seed's digest and whose second word
    /// is the digest of that first word.
    pub fn from_seed<H: XXH3>(seed: H) -> (r: Self)
        ensures
            r@ == (seed.xxh3_spec(), seed.xxh3_spec().xxh3_spec()),
    {
        let hash = seed.xxh3();
        Self { state: [hash, hash.xxh3()] }
    }

    fn state_as_u8(&self) -> (r: Vec<u8>)
        ensures
            r@ == state_bytes(self@),
    {
        let mut bytes = u128_to_le_bytes(self.state[0]);
        let mut second = u128_to_le_bytes(self.state[1]);
        bytes.append(&mut second);
        bytes
    }

    /// The value at index `i`: the state's bytes digested with `i` as seed.
    pub fn index(&self, i: u64) -> (r: u128)
        ensures
            r == xxh3_128_seeded_of(state_bytes(self@), i),
    {
        let bytes = self.state_as_u8();
        xxh3_128_with_seed(bytes.as_slice(), i)
    }

    /// The state with the key's digest folded into the first word.
    pub fn combine<H: XXH3>(&self, key: H) -> (r: Self)
        ensures
            r@ == combined(self@, key.xxh3_spec()),
    {
        let mut ret = *self;
        ret.state[0] = ret.state[0] ^ key.xxh3();
        ret
    }
}

} // verus!
