//! The capability a value needs to seed a generator or key a derivation:
//! a deterministic, order-sensitive byte stream.
//!
//! Integers give their little-endian bytes (`usize` and `isize` as 64-bit),
//! a `char` its code point in four bytes, a string its UTF-8 bytes and a
//! `0xff` terminator, a sequence its length (eight bytes) and then its
//! elements in order, a tuple its components in order. A record or an enum
//! is keyed through the tuple of its fields, an enum's variant index first.
//!
//! A generator does not take these streams as they are: each seed or key is
//! framed, its length (eight bytes) in front of its stream, so that a
//! sequence of keys can be read back from the accumulated bytes.
use vstd::prelude::*;
use vstd::bytes::*;
use vstd::string::StringSliceAdditionalSpecFns;
use vstd::utf8::encode_utf8;

verus! {

/// A value with a deterministic, order-sensitive byte stream.
pub trait Hashable {
    /// The bytes of this value.
    spec fn key_bytes(&self) -> Seq<u8>;

    /// Appends `key_bytes` to `out`.
    fn write_key(&self, out: &mut Vec<u8>)
        ensures
            final(out)@ == old(out)@ + self.key_bytes(),
    ;
}

/// The streams of a sequence of keys, one after the other.
pub open spec fn concat_key_bytes<T: Hashable>(keys: Seq<T>) -> Seq<u8>
    decreases keys.len(),
{
    if keys.len() == 0 {
        Seq::empty()
    } else {
        concat_key_bytes(keys.drop_last()) + keys.last().key_bytes()
    }
}

/// The stream of a sequence: its length, then its elements.
pub open spec fn sequence_key_bytes<T: Hashable>(items: Seq<T>) -> Seq<u8> {
    spec_u64_to_le_bytes(items.len() as u64) + concat_key_bytes(items)
}

/// Appends the bytes of a slice to `out`.
pub fn append_bytes(out: &mut Vec<u8>, bytes: &[u8])
    ensures
        final(out)@ == old(out)@ + bytes@,
{
    let ghost start = out@;
    let mut i: usize = 0;
    while i < bytes.len()
        invariant
            i <= bytes@.len(),
            out@ == start + bytes@.subrange(0, i as int),
        decreases bytes@.len() - i,
    {
        out.push(bytes[i]);
        assert(start + bytes@.subrange(0, i + 1) =~= (start + bytes@.subrange(0, i as int)).push(
            bytes@[i as int],
        ));
        i += 1;
    }
    assert(bytes@.subrange(0, bytes@.len() as int) =~= bytes@);
}

/// Appends the streams of each key of a slice in order, with no length in
/// front.
pub fn write_all<T: Hashable>(keys: &[T], out: &mut Vec<u8>)
    ensures
        final(out)@ == old(out)@ + concat_key_bytes(keys@),
{
    let ghost start = out@;
    let n = keys.len();
    let mut i: usize = 0;
    while i < n
        invariant
            n == keys@.len(),
            i <= n,
            out@ == start + concat_key_bytes(keys@.subrange(0, i as int)),
        decreases n - i,
    {
        keys[i].write_key(out);
        proof {
            let next = keys@.subrange(0, i + 1);
            assert(next.drop_last() =~= keys@.subrange(0, i as int));
            assert(start + concat_key_bytes(keys@.subrange(0, i as int)) + keys@[i as int].key_bytes()
                =~= start + concat_key_bytes(next));
        }
        i += 1;
    }
    assert(keys@.subrange(0, n as int) =~= keys@);
}

fn write_length(n: usize, out: &mut Vec<u8>)
    ensures
        final(out)@ == old(out)@ + spec_u64_to_le_bytes(n as u64),
{
    let mut b = u64_to_le_bytes(n as u64);
    out.append(&mut b);
}

impl Hashable for u8 {
    open spec fn key_bytes(&self) -> Seq<u8> {
        seq![*self]
    }

    fn write_key(&self, out: &mut Vec<u8>) {
        out.push(*self);
        assert(out@ =~= old(out)@ + seq![*self]);
    }
}

impl Hashable for u16 {
    open spec fn key_bytes(&self) -> Seq<u8> {
        spec_u16_to_le_bytes(*self)
    }

    fn write_key(&self, out: &mut Vec<u8>) {
        let mut b = u16_to_le_bytes(*self);
        out.append(&mut b);
    }
}

impl Hashable for u32 {
    open spec fn key_bytes(&self) -> Seq<u8> {
        spec_u32_to_le_bytes(*self)
    }

    fn write_key(&self, out: &mut Vec<u8>) {
        let mut b = u32_to_le_bytes(*self);
        out.append(&mut b);
    }
}

impl Hashable for u64 {
    open spec fn key_bytes(&self) -> Seq<u8> {
        spec_u64_to_le_bytes(*self)
    }

    fn write_key(&self, out: &mut Vec<u8>) {
        let mut b = u64_to_le_bytes(*self);
        out.append(&mut b);
    }
}

impl Hashable for u128 {
    open spec fn key_bytes(&self) -> Seq<u8> {
        spec_u128_to_le_bytes(*self)
    }

    fn write_key(&self, out: &mut Vec<u8>) {
        let mut b = u128_to_le_bytes(*self);
        out.append(&mut b);
    }
}

impl Hashable for usize {
    open spec fn key_bytes(&self) -> Seq<u8> {
        spec_u64_to_le_bytes(*self as u64)
    }

    fn write_key(&self, out: &mut Vec<u8>) {
        write_length(*self, out);
    }
}

impl Hashable for i8 {
    open spec fn key_bytes(&self) -> Seq<u8> {
        seq![*self as u8]
    }

    fn write_key(&self, out: &mut Vec<u8>) {
        (*self as u8).write_key(out);
    }
}

impl Hashable for i16 {
    open spec fn key_bytes(&self) -> Seq<u8> {
        spec_u16_to_le_bytes(*self as u16)
    }

    fn write_key(&self, out: &mut Vec<u8>) {
        (*self as u16).write_key(out);
    }
}

impl Hashable for i32 {
    open spec fn key_bytes(&self) -> Seq<u8> {
        spec_u32_to_le_bytes(*self as u32)
    }

    fn write_key(&self, out: &mut Vec<u8>) {
        (*self as u32).write_key(out);
    }
}

impl Hashable for i64 {
    open spec fn key_bytes(&self) -> Seq<u8> {
        spec_u64_to_le_bytes(*self as u64)
    }

    fn write_key(&self, out: &mut Vec<u8>) {
        (*self as u64).write_key(out);
    }
}

impl Hashable for i128 {
    open spec fn key_bytes(&self) -> Seq<u8> {
        spec_u128_to_le_bytes(*self as u128)
    }

    fn write_key(&self, out: &mut Vec<u8>) {
        (*self as u128).write_key(out);
    }
}

impl Hashable for isize {
    open spec fn key_bytes(&self) -> Seq<u8> {
        spec_u64_to_le_bytes(*self as u64)
    }

    fn write_key(&self, out: &mut Vec<u8>) {
        (*self as u64).write_key(out);
    }
}

impl Hashable for bool {
    open spec fn key_bytes(&self) -> Seq<u8> {
        seq![if *self { 1u8 } else { 0u8 }]
    }

    fn write_key(&self, out: &mut Vec<u8>) {
        let b: u8 = if *self { 1 } else { 0 };
        b.write_key(out);
    }
}

impl Hashable for char {
    open spec fn key_bytes(&self) -> Seq<u8> {
        spec_u32_to_le_bytes(*self as u32)
    }

    fn write_key(&self, out: &mut Vec<u8>) {
        (*self as u32).write_key(out);
    }
}

impl Hashable for str {
    open spec fn key_bytes(&self) -> Seq<u8> {
        self.spec_bytes() + seq![0xffu8]
    }

    fn write_key(&self, out: &mut Vec<u8>) {
        append_bytes(out, self.as_bytes());
        0xffu8.write_key(out);
    }
}

impl Hashable for String {
    open spec fn key_bytes(&self) -> Seq<u8> {
        encode_utf8(self@) + seq![0xffu8]
    }

    fn write_key(&self, out: &mut Vec<u8>) {
        self.as_str().write_key(out);
    }
}

impl<T: Hashable + ?Sized> Hashable for &T {
    open spec fn key_bytes(&self) -> Seq<u8> {
        (**self).key_bytes()
    }

    fn write_key(&self, out: &mut Vec<u8>) {
        (**self).write_key(out);
    }
}

impl<T: Hashable> Hashable for [T] {
    open spec fn key_bytes(&self) -> Seq<u8> {
        sequence_key_bytes(self@)
    }

    fn write_key(&self, out: &mut Vec<u8>) {
        write_length(self.len(), out);
        write_all(self, out);
    }
}

impl<T: Hashable, const N: usize> Hashable for [T; N] {
    open spec fn key_bytes(&self) -> Seq<u8> {
        sequence_key_bytes(self@)
    }

    fn write_key(&self, out: &mut Vec<u8>) {
        self.as_slice().write_key(out);
    }
}

impl<T: Hashable> Hashable for Vec<T> {
    open spec fn key_bytes(&self) -> Seq<u8> {
        sequence_key_bytes(self@)
    }

    fn write_key(&self, out: &mut Vec<u8>) {
        self.as_slice().write_key(out);
    }
}

impl<A: Hashable, B: Hashable> Hashable for (A, B) {
    open spec fn key_bytes(&self) -> Seq<u8> {
        self.0.key_bytes() + self.1.key_bytes()
    }

    fn write_key(&self, out: &mut Vec<u8>) {
        self.0.write_key(out);
        self.1.write_key(out);
    }
}

impl<A: Hashable, B: Hashable, C: Hashable> Hashable for (A, B, C) {
    open spec fn key_bytes(&self) -> Seq<u8> {
        self.0.key_bytes() + self.1.key_bytes() + self.2.key_bytes()
    }

    fn write_key(&self, out: &mut Vec<u8>) {
        self.0.write_key(out);
        self.1.write_key(out);
        self.2.write_key(out);
    }
}

} // verus!
