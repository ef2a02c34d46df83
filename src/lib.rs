//! A deterministic random number generator with hierarchical seeding and
//! random access.
//!
//! A generator is an accumulator (the byte streams of a root seed and of
//! every derivation key, each framed by its length, fed into an XXH3
//! streaming hasher) together with a 64-bit cursor. The value at a position
//! is the accumulator's digest hashed with the position as seed: a pure
//! function of the accumulator and the position, so any position can be read
//! directly, and children derived by key or by path never depend on the
//! parent's cursor.
//!
//! Key combination in `RandomAccessRNG` is order-sensitive: framed keys are
//! appended to the accumulator's byte stream, which determines the seed and
//! the keys in order, so `get(a).get(b)` and `get(b).get(a)` differ.
//! `Xxh3_256` is the other policy, an accumulator that folds key digests in
//! by XOR and so ignores their order; the two are not output-compatible.
pub mod digest;
pub mod hashable;
pub mod path;
pub mod random_access_rng;
pub mod xxh3_256;
pub mod xxh3_trait;

pub use digest::{fed_bytes, xxh3_128_of, xxh3_128_seeded_of};
pub use hashable::Hashable;
pub use path::{path_components, InvalidPath};
pub use random_access_rng::RandomAccessRNG;
pub use xxh3_256::Xxh3_256;
pub use xxh3_trait::{xxh3_chain, XXH3};
