//! A 128-bit XXH3 digest for plain values, and for sequences of them.
//!
//! Integers digest their little-endian bytes (`usize` and `isize` as 64-bit),
//! a `char` its UTF-8 encoding, a string or byte slice its bytes. A sequence
//! of digestible values digests its length (eight bytes) followed by each
//! element's digest (sixteen bytes, little-endian), in order. A record folds
//! its fields' digests in declaration order with `xxh3_chain`, an enum its
//! variant index first.
use vstd::prelude::*;
use vstd::bytes::*;
use vstd::string::StringSliceAdditionalSpecFns;
use vstd::utf8::*;
use crate::digest::{xxh3_128, xxh3_128_of};

verus! {

/// A value with a 128-bit XXH3 digest.
pub trait XXH3 {
    /// The digest of this value.
    spec fn xxh3_spec(&self) -> u128;

    /// Computes the digest of this value.
    fn xxh3(&self) -> (r: u128)
        ensures
            r == self.xxh3_spec(),
    ;
}

/// The digests of a sequence's elements, each as sixteen little-endian
/// bytes, in order.
pub open spec fn digest_bytes<H: XXH3>(items: Seq<H>) -> Seq<u8>
    decreases items.len(),
{
    if items.len() == 0 {
        Seq::empty()
    } else {
        digest_bytes(items.drop_last()) + spec_u128_to_le_bytes(items.last().xxh3_spec())
    }
}

/// The digest of a sequence: its length, then its elements' digests.
pub open spec fn sequence_digest<H: XXH3>(items: Seq<H>) -> u128 {
    xxh3_128_of(spec_u64_to_le_bytes(items.len() as u64) + digest_bytes(items))
}

fn sequence_digest_slice<H: XXH3>(items: &[H]) -> (r: u128)
    ensures
        r == sequence_digest(items@),
{
    let mut bytes = u64_to_le_bytes(items.len() as u64);
    let ghost head = bytes@;
    let mut i: usize = 0;
    while i < items.len()
        invariant
            i <= items@.len(),
            bytes@ == head + digest_bytes(items@.subrange(0, i as int)),
        decreases items@.len() - i,
    {
        let mut d = u128_to_le_bytes(items[i].xxh3());
        bytes.append(&mut d);
        proof {
            assert(items@.subrange(0, i + 1).drop_last() =~= items@.subrange(0, i as int));
            assert(head + digest_bytes(items@.subrange(0, i as int)) + spec_u128_to_le_bytes(
                items@[i as int].xxh3_spec(),
            ) =~= head + digest_bytes(items@.subrange(0, i + 1)));
        }
        i += 1;
    }
    assert(items@.subrange(0, items@.len() as int) =~= items@);
    xxh3_128(bytes.as_slice())
}

/// Folds one more digest into a running digest, in order: the digest of
/// the two, each as sixteen little-endian bytes.
pub open spec fn chained(first: u128, next: u128) -> u128 {
    xxh3_128_of(spec_u128_to_le_bytes(first) + spec_u128_to_le_bytes(next))
}

/// Folds the digest of the next field (or of a variant's next field) into
/// the digest of the fields before it.
pub fn xxh3_chain(first: u128, next: u128) -> (r: u128)
    ensures
        r == chained(first, next),
{
    let mut bytes = u128_to_le_bytes(first);
    let mut more = u128_to_le_bytes(next);
    bytes.append(&mut more);
    xxh3_128(bytes.as_slice())
}

/// The UTF-8 encoding of one character.
fn char_utf8(c: char) -> (r: Vec<u8>)
    ensures
        r@ == encode_utf8(seq![c]),
{
    let s = c as u32;
    proof {
        reveal_with_fuel(encode_utf8, 2);
        assert(seq![c][0] == c);
        assert(seq![c].drop_first() =~= Seq::<char>::empty());
        assert(encode_utf8(seq![c]) =~= encode_scalar(s) + Seq::<u8>::empty());
    }
    if s <= 0x7f {
        vec![(s & 0x7f) as u8]
    } else if s <= 0x7ff {
        vec![0xc0 | ((s >> 6) & 0x1f) as u8, 0x80 | (s & 0x3f) as u8]
    } else if s <= 0xffff && !(0xd800 <= s && s <= 0xdfff) {
        vec![
            0xe0 | ((s >> 12) & 0x0f) as u8,
            0x80 | ((s >> 6) & 0x3f) as u8,
            0x80 | (s & 0x3f) as u8,
        ]
    } else {
        vec![
            0xf0 | ((s >> 18) & 0x7) as u8,
            0x80 | ((s >> 12) & 0x3f) as u8,
            0x80 | ((s >> 6) & 0x3f) as u8,
            0x80 | (s & 0x3f) as u8,
        ]
    }
}

impl XXH3 for u16 {
    open spec fn xxh3_spec(&self) -> u128 {
        xxh3_128_of(spec_u16_to_le_bytes(*self))
    }

    fn xxh3(&self) -> u128 {
        xxh3_128(u16_to_le_bytes(*self).as_slice())
    }
}

impl XXH3 for u32 {
    open spec fn xxh3_spec(&self) -> u128 {
        xxh3_128_of(spec_u32_to_le_bytes(*self))
    }

    fn xxh3(&self) -> u128 {
        xxh3_128(u32_to_le_bytes(*self).as_slice())
    }
}

impl XXH3 for u64 {
    open spec fn xxh3_spec(&self) -> u128 {
        xxh3_128_of(spec_u64_to_le_bytes(*self))
    }

    fn xxh3(&self) -> u128 {
        xxh3_128(u64_to_le_bytes(*self).as_slice())
    }
}

impl XXH3 for u128 {
    open spec fn xxh3_spec(&self) -> u128 {
        xxh3_128_of(spec_u128_to_le_bytes(*self))
    }

    fn xxh3(&self) -> u128 {
        xxh3_128(u128_to_le_bytes(*self).as_slice())
    }
}

impl XXH3 for i16 {
    open spec fn xxh3_spec(&self) -> u128 {
        (*self as u16).xxh3_spec()
    }

    fn xxh3(&self) -> u128 {
        (*self as u16).xxh3()
    }
}

impl XXH3 for i32 {
    open spec fn xxh3_spec(&self) -> u128 {
        (*self as u32).xxh3_spec()
    }

    fn xxh3(&self) -> u128 {
        (*self as u32).xxh3()
    }
}

impl XXH3 for i64 {
    open spec fn xxh3_spec(&self) -> u128 {
        (*self as u64).xxh3_spec()
    }

    fn xxh3(&self) -> u128 {
        (*self as u64).xxh3()
    }
}

impl XXH3 for i128 {
    open spec fn xxh3_spec(&self) -> u128 {
        (*self as u128).xxh3_spec()
    }

    fn xxh3(&self) -> u128 {
        (*self as u128).xxh3()
    }
}

impl XXH3 for usize {
    open spec fn xxh3_spec(&self) -> u128 {
        (*self as u64).xxh3_spec()
    }

    fn xxh3(&self) -> u128 {
        (*self as u64).xxh3()
    }
}

impl XXH3 for isize {
    open spec fn xxh3_spec(&self) -> u128 {
        (*self as u64).xxh3_spec()
    }

    fn xxh3(&self) -> u128 {
        (*self as u64).xxh3()
    }
}

impl XXH3 for char {
    open spec fn xxh3_spec(&self) -> u128 {
        xxh3_128_of(encode_utf8(seq![*self]))
    }

    fn xxh3(&self) -> u128 {
        xxh3_128(char_utf8(*self).as_slice())
    }
}

impl XXH3 for &str {
    open spec fn xxh3_spec(&self) -> u128 {
        xxh3_128_of(self.spec_bytes())
    }

    fn xxh3(&self) -> u128 {
        xxh3_128(self.as_bytes())
    }
}

impl XXH3 for &[u8] {
    open spec fn xxh3_spec(&self) -> u128 {
        xxh3_128_of(self@)
    }

    fn xxh3(&self) -> u128 {
        xxh3_128(self)
    }
}

impl<H: XXH3> XXH3 for &H {
    open spec fn xxh3_spec(&self) -> u128 {
        (**self).xxh3_spec()
    }

    fn xxh3(&self) -> u128 {
        (**self).xxh3()
    }
}

impl<H: XXH3> XXH3 for &[H] {
    open spec fn xxh3_spec(&self) -> u128 {
        sequence_digest(self@)
    }

    fn xxh3(&self) -> u128 {
        sequence_digest_slice(self)
    }
}

impl<H: XXH3> XXH3 for Vec<H> {
    open spec fn xxh3_spec(&self) -> u128 {
        sequence_digest(self@)
    }

    fn xxh3(&self) -> u128 {
        sequence_digest_slice(self.as_slice())
    }
}

impl<H: XXH3> XXH3 for Box<H> {
    open spec fn xxh3_spec(&self) -> u128 {
        (**self).xxh3_spec()
    }

    fn xxh3(&self) -> u128 {
        (**self).xxh3()
    }
}

impl<A: XXH3, B: XXH3> XXH3 for (A, B) {
    open spec fn xxh3_spec(&self) -> u128 {
        chained(self.0.xxh3_spec(), self.1.xxh3_spec())
    }

    fn xxh3(&self) -> u128 {
        xxh3_chain(self.0.xxh3(), self.1.xxh3())
    }
}

impl<H: XXH3, const N: usize> XXH3 for [H; N] {
    open spec fn xxh3_spec(&self) -> u128 {
        sequence_digest(self@)
    }

    fn xxh3(&self) -> u128 {
        sequence_digest_slice(self.as_slice())
    }
}

} // verus!
