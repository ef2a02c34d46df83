//! The generator: an accumulator of framed key streams and a 64-bit cursor.
use vstd::prelude::*;
use vstd::bytes::{
    lemma_auto_spec_u64_to_from_le_bytes, spec_u128_to_le_bytes, spec_u64_from_le_bytes,
    spec_u64_to_le_bytes, u128_to_le_bytes, u64_to_le_bytes,
};
use vstd::string::StringSliceAdditionalSpecFns;
use vstd::utf8::{encode_utf8, encode_utf8_decode_utf8};
use xxhash_rust::xxh3::Xxh3;
use crate::digest::{
    fed_bytes, hasher_digest128, hasher_update, is_default_hasher, new_hasher, xxh3_128_of,
    xxh3_128_seeded_of, xxh3_128_with_seed,
};
use crate::hashable::Hashable;
use crate::path::{
    has_no_platform_prefix, is_accepted_component, lemma_components_of_join,
    lemma_encode_char_literals, lemma_encode_utf8_append, lemma_join_valid,
    lemma_two_component_path, path_components, path_is_valid, split_components, InvalidPath,
};

verus! {

/// What a generator is, mathematically: the framed streams of its seed and
/// of every derivation key in order, and the position of the next value.
pub struct GeneratorView {
    pub key_stream: Seq<u8>,
    pub cursor: u64,
}

/// A key's stream with its length (eight bytes, little-endian) in front.
pub open spec fn framed(stream: Seq<u8>) -> Seq<u8> {
    spec_u64_to_le_bytes(stream.len() as u64) + stream
}

/// The framed streams of a sequence of keys, one after the other.
pub open spec fn frames(streams: Seq<Seq<u8>>) -> Seq<u8>
    decreases streams.len(),
{
    if streams.len() == 0 {
        Seq::empty()
    } else {
        framed(streams[0]) + frames(streams.drop_first())
    }
}

/// The streams of a sequence of keys.
pub open spec fn key_streams<H: Hashable>(keys: Seq<H>) -> Seq<Seq<u8>> {
    keys.map_values(|k: H| k.key_bytes())
}

/// The streams of a path's components, each a string key: its bytes and a
/// `0xff` terminator.
pub open spec fn component_keys(components: Seq<Seq<u8>>) -> Seq<Seq<u8>> {
    components.map_values(|c: Seq<u8>| c + seq![0xffu8])
}

/// Every stream short enough for its length to fit in eight bytes.
pub open spec fn lengths_fit(streams: Seq<Seq<u8>>) -> bool {
    forall|i: int| 0 <= i < streams.len() ==> #[trigger] streams[i].len() <= u64::MAX
}

/// The 128-bit value at position `index` for an accumulator digest: the
/// digest's bytes hashed with the index as seed.
pub open spec fn value_from_digest(digest: u128, index: u64) -> u128 {
    xxh3_128_seeded_of(spec_u128_to_le_bytes(digest), index)
}

/// The 128-bit value at position `index` of the stream of an accumulator.
pub open spec fn value_at(key_stream: Seq<u8>, index: u64) -> u128 {
    value_from_digest(xxh3_128_of(key_stream), index)
}

/// The 64-bit output at position `index`: the low half of `value_at`.
pub open spec fn output_at(key_stream: Seq<u8>, index: u64) -> u64 {
    value_at(key_stream, index) as u64
}

/// The cursor after one read; it wraps after `u64::MAX`.
pub open spec fn next_cursor(cursor: u64) -> u64 {
    if cursor == u64::MAX {
        0
    } else {
        (cursor + 1) as u64
    }
}

/// A fresh generator on a key stream, at position 0.
pub open spec fn fresh(key_stream: Seq<u8>) -> GeneratorView {
    GeneratorView { key_stream, cursor: 0 }
}

/// The state after one read at `index`.
pub open spec fn read_at(v: GeneratorView, index: u64) -> GeneratorView {
    GeneratorView { key_stream: v.key_stream, cursor: next_cursor(index) }
}

/// Mixes an accumulator digest with a position into the value there.
pub fn mix_digest(digest: u128, index: u64) -> (r: u128)
    ensures
        r == value_from_digest(digest, index),
{
    let bytes = u128_to_le_bytes(digest);
    xxh3_128_with_seed(bytes.as_slice(), index)
}

/// Feeds one key, framed, into the hasher.
fn absorb<H: Hashable>(h: &mut Xxh3, key: &H)
    ensures
        fed_bytes(*final(h)) == fed_bytes(*old(h)) + framed(key.key_bytes()),
        is_default_hasher(*final(h)) == is_default_hasher(*old(h)),
{
    let mut stream: Vec<u8> = Vec::new();
    key.write_key(&mut stream);
    assert(stream@ =~= key.key_bytes());
    let len = u64_to_le_bytes(stream.len() as u64);
    hasher_update(h, len.as_slice());
    hasher_update(h, stream.as_slice());
    assert(fed_bytes(*h) =~= fed_bytes(*old(h)) + framed(key.key_bytes()));
}

/// A deterministic random number generator with random access and
/// hierarchical seeding.
///
/// Not cryptographically secure.
pub struct RandomAccessRNG {
    hasher: Xxh3,
    index: u64,
}

impl View for RandomAccessRNG {
    type V = GeneratorView;

    closed spec fn view(&self) -> GeneratorView {
        GeneratorView { key_stream: fed_bytes(self.hasher), cursor: self.index }
    }
}

impl Clone for RandomAccessRNG {
    /// A copy with the same accumulator and cursor.
    fn clone(&self) -> (r: Self)
        ensures
            r@ == self@,
    {
        proof {
            use_type_invariant(self);
        }
        RandomAccessRNG { hasher: self.hasher.clone(), index: self.index }
    }
}

impl RandomAccessRNG {
    #[verifier::type_invariant]
    spec fn default_hasher(&self) -> bool {
        is_default_hasher(self.hasher)
    }

    fn new_helper<H: Hashable>(mut hasher: Xxh3, seed: H) -> (r: Self)
        requires
            is_default_hasher(hasher),
        ensures
            r@ == fresh(fed_bytes(hasher) + framed(seed.key_bytes())),
    {
        absorb(&mut hasher, &seed);
        RandomAccessRNG { hasher, index: 0 }
    }

    /// A root generator on a seed, at position 0.
    pub fn new<H: Hashable>(seed: H) -> (r: Self)
        ensures
            r@ == fresh(framed(seed.key_bytes())),
    {
        let h = new_hasher();
        let r = Self::new_helper(h, seed);
        assert(Seq::<u8>::empty() + framed(seed.key_bytes()) =~= framed(seed.key_bytes()));
        r
    }

    /// The child for one key. The parent's cursor plays no part and is
    /// left as it is.
    pub fn get<H: Hashable>(&self, key: H) -> (r: Self)
        ensures
            r@ == fresh(self@.key_stream + framed(key.key_bytes())),
    {
        proof {
            use_type_invariant(self);
        }
        Self::new_helper(self.hasher.clone(), key)
    }

    /// The descendant for several keys, applied in order: the same as
    /// calling `get` with each of them in turn.
    pub fn descendant<H: Hashable>(&self, keys: &[H]) -> (r: Self)
        ensures
            r@ == fresh(self@.key_stream + frames(key_streams(keys@))),
    {
        proof {
            use_type_invariant(self);
        }
        let mut h = self.hasher.clone();
        let ghost start = fed_bytes(h);
        let n = keys.len();
        let mut i: usize = 0;
        while i < n
            invariant
                n == keys@.len(),
                i <= n,
                fed_bytes(h) == start + frames(key_streams(keys@.subrange(0, i as int))),
                is_default_hasher(h),
            decreases n - i,
        {
            absorb(&mut h, &keys[i]);
            proof {
                let before = key_streams(keys@.subrange(0, i as int));
                let k = keys@[i as int].key_bytes();
                assert(key_streams(keys@.subrange(0, i + 1)) =~= before + seq![k]);
                lemma_frames_append(before, seq![k]);
                lemma_frames_single(k);
                assert(start + frames(before) + framed(k) =~= start + (frames(before) + framed(k)));
            }
            i += 1;
        }
        assert(keys@.subrange(0, n as int) =~= keys@);
        RandomAccessRNG { hasher: h, index: 0 }
    }

    /// The descendant for the components of a slash-delimited path, each a
    /// string key. Fails on a `.` or `..` component or a platform prefix.
    pub fn path(&self, path: &str) -> (r: Result<Self, InvalidPath>)
        ensures
            r is Ok <==> path_is_valid(path.spec_bytes()),
            r matches Ok(c) ==> c@ == fresh(
                self@.key_stream + frames(component_keys(split_components(path.spec_bytes()))),
            ),
    {
        match path_components(path) {
            Ok(components) => {
                proof {
                    let spec_bytes_of = |c: &str| c.spec_bytes();
                    assert(key_streams(components@) =~= component_keys(
                        components@.map_values(spec_bytes_of),
                    ));
                }
                Ok(self.descendant(components.as_slice()))
            },
            Err(e) => Err(e),
        }
    }

    /// The 128-bit value at the cursor; then the cursor moves on by one.
    fn next(&mut self) -> (r: u128)
        ensures
            r == value_at(old(self)@.key_stream, old(self)@.cursor),
            final(self)@ == read_at(old(self)@, old(self)@.cursor),
    {
        proof {
            use_type_invariant(&*self);
        }
        let d = hasher_digest128(&self.hasher);
        let result = mix_digest(d, self.index);
        self.index = if self.index == u64::MAX { 0 } else { self.index + 1 };
        result
    }

    /// Moves the cursor to `index` and reads the value there; the cursor is
    /// left at `index + 1`.
    pub fn seek_u64(&mut self, index: u64) -> (r: u64)
        ensures
            r == output_at(old(self)@.key_stream, index),
            final(self)@ == read_at(old(self)@, index),
    {
        proof {
            use_type_invariant(&*self);
        }
        self.index = index;
        self.next() as u64
    }

    /// The 64-bit output at the cursor; then the cursor moves on by one.
    pub fn next_u64(&mut self) -> (r: u64)
        ensures
            r == output_at(old(self)@.key_stream, old(self)@.cursor),
            final(self)@ == read_at(old(self)@, old(self)@.cursor),
    {
        self.next() as u64
    }

    /// The low 32 bits of `next_u64`.
    pub fn next_u32(&mut self) -> (r: u32)
        ensures
            r == output_at(old(self)@.key_stream, old(self)@.cursor) as u32,
            final(self)@ == read_at(old(self)@, old(self)@.cursor),
    {
        self.next_u64() as u32
    }

    /// A root generator on an eight-byte seed, for code that seeds
    /// generators from raw bytes. This has little entropy: prefer `new`.
    pub fn from_seed(seed: [u8; 8]) -> (r: Self)
        ensures
            r@ == fresh(framed(seed.key_bytes())),
    {
        Self::new(seed)
    }
}

pub proof fn lemma_frames_single(stream: Seq<u8>)
    ensures
        frames(seq![stream]) == framed(stream),
{
    reveal_with_fuel(frames, 2);
    assert(seq![stream].drop_first() =~= Seq::<Seq<u8>>::empty());
    assert(framed(stream) + Seq::<u8>::empty() =~= framed(stream));
}

/// Framing two sequences of keys one after the other frames their
/// concatenation.
pub proof fn lemma_frames_append(a: Seq<Seq<u8>>, b: Seq<Seq<u8>>)
    ensures
        frames(a + b) == frames(a) + frames(b),
    decreases a.len(),
{
    if a.len() == 0 {
        assert(a + b =~= b);
        assert(frames(a) + frames(b) =~= frames(b));
    } else {
        assert((a + b).drop_first() =~= a.drop_first() + b);
        assert((a + b)[0] == a[0]);
        lemma_frames_append(a.drop_first(), b);
        assert(framed(a[0]) + (frames(a.drop_first()) + frames(b)) =~= framed(a[0]) + frames(
            a.drop_first(),
        ) + frames(b));
    }
}

/// Framed streams can be read back: two sequences of keys give the same
/// accumulated bytes exactly when they are the same sequence.
pub proof fn lemma_frames_injective(a: Seq<Seq<u8>>, b: Seq<Seq<u8>>)
    requires
        lengths_fit(a),
        lengths_fit(b),
    ensures
        frames(a) == frames(b) <==> a == b,
    decreases a.len(),
{
    lemma_auto_spec_u64_to_from_le_bytes();
    if frames(a) == frames(b) {
        if a.len() == 0 {
            if b.len() > 0 {
                assert(frames(b).len() >= 8);
            }
            assert(a =~= b);
        } else {
            assert(b.len() > 0) by {
                if b.len() == 0 {
                    assert(frames(a).len() >= 8);
                }
            }
            let fa = frames(a);
            let la = spec_u64_to_le_bytes(a[0].len() as u64);
            let lb = spec_u64_to_le_bytes(b[0].len() as u64);
            assert(fa.subrange(0, 8) =~= la);
            assert(fa.subrange(0, 8) =~= lb);
            assert(spec_u64_from_le_bytes(la) == spec_u64_from_le_bytes(lb));
            assert(a[0].len() <= u64::MAX && b[0].len() <= u64::MAX);
            let n = a[0].len() as int;
            assert(a[0].len() == b[0].len());
            assert(fa.subrange(8, 8 + n) =~= a[0]);
            assert(fa.subrange(8, 8 + n) =~= b[0]);
            assert(fa.subrange(8 + n, fa.len() as int) =~= frames(a.drop_first()));
            assert(fa.subrange(8 + n, fa.len() as int) =~= frames(b.drop_first()));
            assert(lengths_fit(a.drop_first()));
            assert(lengths_fit(b.drop_first()));
            lemma_frames_injective(a.drop_first(), b.drop_first());
            assert(a =~= seq![a[0]] + a.drop_first());
            assert(b =~= seq![b[0]] + b.drop_first());
        }
    }
}

/// An accumulator is determined by its seed and its keys in order: a root
/// seed `s` followed by keys `ks` accumulates the same bytes as `t`
/// followed by `ls` exactly when the seeds have the same stream and the
/// keys have the same streams, in the same order.
pub proof fn lemma_accumulator_identity(s: Seq<u8>, ks: Seq<Seq<u8>>, t: Seq<u8>, ls: Seq<Seq<u8>>)
    requires
        lengths_fit(seq![s] + ks),
        lengths_fit(seq![t] + ls),
    ensures
        (framed(s) + frames(ks) == framed(t) + frames(ls)) <==> (s == t && ks == ls),
{
    reveal_with_fuel(frames, 2);
    assert((seq![s] + ks).drop_first() =~= ks);
    assert((seq![t] + ls).drop_first() =~= ls);
    assert((seq![s] + ks)[0] == s);
    assert((seq![t] + ls)[0] == t);
    lemma_frames_injective(seq![s] + ks, seq![t] + ls);
    if seq![s] + ks == seq![t] + ls {
        assert(ks =~= (seq![s] + ks).drop_first());
        assert(ls =~= (seq![t] + ls).drop_first());
    }
}

/// Deriving by two different keys in one order gives another accumulator
/// than deriving by them in the other order.
pub proof fn lemma_derivation_order(parent: GeneratorView, a: Seq<u8>, b: Seq<u8>)
    requires
        a != b,
        a.len() <= u64::MAX,
        b.len() <= u64::MAX,
    ensures
        fresh(fresh(parent.key_stream + framed(a)).key_stream + framed(b)) != fresh(
            fresh(parent.key_stream + framed(b)).key_stream + framed(a),
        ),
{
    let ab = seq![a, b];
    let ba = seq![b, a];
    reveal_with_fuel(frames, 3);
    assert(ab.drop_first() =~= seq![b]);
    assert(ba.drop_first() =~= seq![a]);
    assert(seq![b].drop_first() =~= Seq::<Seq<u8>>::empty());
    assert(seq![a].drop_first() =~= Seq::<Seq<u8>>::empty());
    assert(frames(ab) =~= framed(a) + framed(b));
    assert(frames(ba) =~= framed(b) + framed(a));
    lemma_frames_injective(ab, ba);
    let k = parent.key_stream;
    if k + framed(a) + framed(b) == k + framed(b) + framed(a) {
        assert(frames(ab) =~= (k + framed(a) + framed(b)).subrange(k.len() as int, (k + framed(a)
            + framed(b)).len() as int));
        assert(frames(ba) =~= (k + framed(b) + framed(a)).subrange(k.len() as int, (k + framed(b)
            + framed(a)).len() as int));
        assert(ab[0] == a && ba[0] == b);
    }
}

/// One call on a generator, as the laws below speak of it.
pub enum Call {
    /// `next_u64`.
    Next,
    /// `seek_u64` to an index.
    Seek(u64),
    /// Going on with the child for a key of these bytes, as `get` makes it.
    Descend(Seq<u8>),
}

/// The state after one call, and the output it gives, if any.
pub open spec fn step(v: GeneratorView, c: Call) -> (GeneratorView, Option<u64>) {
    match c {
        Call::Next => (read_at(v, v.cursor), Some(output_at(v.key_stream, v.cursor))),
        Call::Seek(i) => (read_at(v, i), Some(output_at(v.key_stream, i))),
        Call::Descend(key) => (fresh(v.key_stream + framed(key)), None),
    }
}

/// The state after a sequence of calls, and the outputs they give in order.
pub open spec fn run(v: GeneratorView, calls: Seq<Call>) -> (GeneratorView, Seq<u64>)
    decreases calls.len(),
{
    if calls.len() == 0 {
        (v, Seq::empty())
    } else {
        let (w, outs) = run(v, calls.drop_last());
        let (w2, out) = step(w, calls.last());
        (
            w2,
            match out {
                Some(x) => outs.push(x),
                None => outs,
            },
        )
    }
}

/// Whether every call reads (`next_u64` or `seek_u64`).
pub open spec fn only_reads(calls: Seq<Call>) -> bool {
    forall|i: int| 0 <= i < calls.len() ==> !(#[trigger] calls[i] is Descend)
}

/// `n` calls of `next_u64`.
pub open spec fn nexts(n: nat) -> Seq<Call> {
    Seq::new(n, |i: int| Call::Next)
}

/// Two generators made from seeds with the same bytes and driven through the
/// same calls give the same outputs and end in the same state.
pub proof fn lemma_determinism<H: Hashable>(seed1: H, seed2: H, calls: Seq<Call>)
    requires
        seed1.key_bytes() == seed2.key_bytes(),
    ensures
        run(fresh(seed1.key_bytes()), calls) == run(fresh(seed2.key_bytes()), calls),
{
}

/// Reads never change the accumulator, so a child derived after any reads
/// on its parent is the child derived before them.
pub proof fn lemma_derivation_ignores_reads(parent: GeneratorView, calls: Seq<Call>, key: Seq<u8>)
    requires
        only_reads(calls),
    ensures
        run(parent, calls).0.key_stream == parent.key_stream,
        fresh(run(parent, calls).0.key_stream + framed(key)) == fresh(
            parent.key_stream + framed(key),
        ),
    decreases calls.len(),
{
    if calls.len() > 0 {
        assert(only_reads(calls.drop_last()));
        lemma_derivation_ignores_reads(parent, calls.drop_last(), key);
        assert(!(calls[calls.len() - 1] is Descend));
    }
}

proof fn lemma_nexts_from_fresh(key_stream: Seq<u8>, k: nat)
    requires
        k <= u64::MAX,
    ensures
        run(fresh(key_stream), nexts(k)).0 == (GeneratorView { key_stream, cursor: k as u64 }),
        run(fresh(key_stream), nexts(k)).1 == Seq::new(k, |i: int| output_at(key_stream, i as u64)),
    decreases k,
{
    if k > 0 {
        let prev = (k - 1) as nat;
        assert(nexts(k).drop_last() =~= nexts(prev));
        lemma_nexts_from_fresh(key_stream, prev);
        assert(run(fresh(key_stream), nexts(k)).1 =~= Seq::new(
            k,
            |i: int| output_at(key_stream, i as u64),
        ));
    } else {
        assert(run(fresh(key_stream), nexts(0)).1 =~= Seq::new(
            0,
            |i: int| output_at(key_stream, i as u64),
        ));
    }
}

/// From a fresh generator, `n + 1` calls of `next_u64` end where one
/// `seek_u64(n)` ends, and the last of them gives what the seek gives.
pub proof fn lemma_seek_matches_next(key_stream: Seq<u8>, n: u64)
    ensures
        run(fresh(key_stream), nexts((n + 1) as nat)).0 == run(fresh(key_stream), seq![Call::Seek(n)]).0,
        run(fresh(key_stream), nexts((n + 1) as nat)).1.last() == run(
            fresh(key_stream),
            seq![Call::Seek(n)],
        ).1.last(),
{
    reveal_with_fuel(run, 2);
    lemma_nexts_from_fresh(key_stream, n as nat);
    let calls = nexts((n + 1) as nat);
    assert(calls.drop_last() =~= nexts(n as nat));
    assert(calls.last() == Call::Next);
    assert(seq![Call::Seek(n)].drop_last() =~= Seq::<Call>::empty());
}

/// `seek_u64(i)`, then `seek_u64(j)`, then `seek_u64(i)` again gives the value
/// first seen at `i`.
pub proof fn lemma_seek_reentry(v: GeneratorView, i: u64, j: u64)
    ensures
        run(v, seq![Call::Seek(i), Call::Seek(j), Call::Seek(i)]).1.len() == 3,
        run(v, seq![Call::Seek(i), Call::Seek(j), Call::Seek(i)]).1[0] == run(
            v,
            seq![Call::Seek(i), Call::Seek(j), Call::Seek(i)],
        ).1[2],
{
    reveal_with_fuel(run, 4);
    let calls = seq![Call::Seek(i), Call::Seek(j), Call::Seek(i)];
    assert(calls.drop_last() =~= seq![Call::Seek(i), Call::Seek(j)]);
    assert(calls.drop_last().drop_last() =~= seq![Call::Seek(i)]);
    assert(calls.drop_last().drop_last().drop_last() =~= Seq::<Call>::empty());
}

/// `path("x/y")` is `get("x").get("y")`, for components `x` and `y` that
/// the path rules accept, `x` without a platform prefix.
pub proof fn lemma_path_is_chain(parent: GeneratorView, p: &str, x: &str, y: &str)
    requires
        p@ == x@ + seq!['/'] + y@,
        is_accepted_component(x@),
        is_accepted_component(y@),
        has_no_platform_prefix(x@),
    ensures
        path_is_valid(p.spec_bytes()),
        fresh(parent.key_stream + frames(component_keys(split_components(p.spec_bytes()))))
            == fresh(fresh(parent.key_stream + framed(x.key_bytes())).key_stream + framed(
            y.key_bytes(),
        )),
{
    lemma_two_component_path(x@, y@);
    reveal_with_fuel(frames, 3);
    let keys = component_keys(seq![encode_utf8(x@), encode_utf8(y@)]);
    assert(keys =~= seq![x.key_bytes(), y.key_bytes()]);
    assert(keys.drop_first() =~= seq![y.key_bytes()]);
    assert(keys.drop_first().drop_first() =~= Seq::<Seq<u8>>::empty());
    assert(parent.key_stream + frames(keys) =~= parent.key_stream + framed(x.key_bytes())
        + framed(y.key_bytes()));
}

/// Siblings for different string keys have different accumulators.
pub proof fn lemma_siblings_differ(parent: GeneratorView, a: &str, b: &str)
    requires
        a@ != b@,
        a.key_bytes().len() <= u64::MAX,
        b.key_bytes().len() <= u64::MAX,
    ensures
        fresh(parent.key_stream + framed(a.key_bytes())) != fresh(
            parent.key_stream + framed(b.key_bytes()),
        ),
{
    let ka = parent.key_stream + framed(a.key_bytes());
    let kb = parent.key_stream + framed(b.key_bytes());
    if ka == kb {
        let n = parent.key_stream.len() as int;
        assert(framed(a.key_bytes()) =~= ka.subrange(n, ka.len() as int));
        assert(framed(b.key_bytes()) =~= kb.subrange(n, kb.len() as int));
        lemma_frames_single(a.key_bytes());
        lemma_frames_single(b.key_bytes());
        lemma_frames_injective(seq![a.key_bytes()], seq![b.key_bytes()]);
        assert(seq![a.key_bytes()][0] == a.key_bytes());
        assert(a.spec_bytes() =~= a.key_bytes().drop_last());
        assert(b.spec_bytes() =~= b.key_bytes().drop_last());
        encode_utf8_decode_utf8(a@);
        encode_utf8_decode_utf8(b@);
    }
}

/// `path(p)` and then `path(q)` on the result is `path` of `p/q`, for
/// paths `p` and `q` that are each accepted.
pub proof fn lemma_piecewise_path(parent: GeneratorView, p: &str, q: &str, pq: &str)
    requires
        pq@ == p@ + seq!['/'] + q@,
        path_is_valid(p.spec_bytes()),
        path_is_valid(q.spec_bytes()),
    ensures
        path_is_valid(pq.spec_bytes()),
        fresh(parent.key_stream + frames(component_keys(split_components(pq.spec_bytes()))))
            == fresh(
            fresh(
                parent.key_stream + frames(component_keys(split_components(p.spec_bytes()))),
            ).key_stream + frames(component_keys(split_components(q.spec_bytes()))),
        ),
{
    lemma_encode_utf8_append(p@, seq!['/']);
    lemma_encode_utf8_append(p@ + seq!['/'], q@);
    lemma_encode_char_literals();
    let bp = p.spec_bytes();
    let bq = q.spec_bytes();
    assert(pq.spec_bytes() == bp + seq![0x2fu8] + bq);
    lemma_join_valid(bp, bq);
    lemma_components_of_join(bp, bq);
    let cp = component_keys(split_components(bp));
    let cq = component_keys(split_components(bq));
    assert(component_keys(split_components(bp) + split_components(bq)) =~= cp + cq);
    lemma_frames_append(cp, cq);
    assert(parent.key_stream + (frames(cp) + frames(cq)) =~= parent.key_stream + frames(cp)
        + frames(cq));
}

} // verus!
