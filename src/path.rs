//! Decomposition of a slash-delimited path into the keys of a derivation.
//!
//! `/` and `\` both separate components. Empty components (from a leading,
//! doubled or trailing separator) are skipped. A `.` or `..` component, or a
//! platform prefix at the start (a drive marker, an ASCII letter and `:`, or
//! the `\\` that starts UNC, verbatim and device paths) makes the whole path
//! invalid: there is no normalisation of relative steps. A path that starts
//! with `//` is not taken as a prefix: its leading separators are skipped.
use vstd::prelude::*;
use vstd::string::StringSliceAdditionalSpecFns;
use vstd::utf8::*;

verus! {

broadcast use encode_utf8_valid_utf8;

/// The error of a path that holds a `.` or `..` component or a platform
/// prefix.
#[derive(Debug, Clone, Copy, PartialEq, Eq, Structural)]
pub struct InvalidPath;

/// `/` or `\`.
pub open spec fn is_separator(b: u8) -> bool {
    b == 0x2f || b == 0x5c
}

/// A byte sequence with no separator in it.
pub open spec fn no_separator(s: Seq<u8>) -> bool {
    forall|i: int| 0 <= i < s.len() ==> !is_separator(#[trigger] s[i])
}

/// Reads the bytes left to right: the components closed so far, and the
/// component still open.
pub open spec fn split_scan(b: Seq<u8>) -> (Seq<Seq<u8>>, Seq<u8>)
    decreases b.len(),
{
    if b.len() == 0 {
        (Seq::empty(), Seq::empty())
    } else {
        let (done, open) = split_scan(b.drop_last());
        if is_separator(b.last()) {
            (close_component(done, open), Seq::empty())
        } else {
            (done, open.push(b.last()))
        }
    }
}

/// Appends a component unless it is empty.
pub open spec fn close_component(done: Seq<Seq<u8>>, open: Seq<u8>) -> Seq<Seq<u8>> {
    if open.len() > 0 {
        done.push(open)
    } else {
        done
    }
}

/// The non-empty runs of bytes between separators, in order.
pub open spec fn split_components(b: Seq<u8>) -> Seq<Seq<u8>> {
    close_component(split_scan(b).0, split_scan(b).1)
}

/// `.` or `..`.
pub open spec fn is_dot_component(c: Seq<u8>) -> bool {
    c == seq![0x2eu8] || c == seq![0x2eu8, 0x2eu8]
}

pub open spec fn is_ascii_letter(b: u8) -> bool {
    (0x41 <= b && b <= 0x5a) || (0x61 <= b && b <= 0x7a)
}

/// A drive marker such as `C:` at the start of the path.
pub open spec fn has_drive_prefix(b: Seq<u8>) -> bool {
    b.len() >= 2 && is_ascii_letter(b[0]) && b[1] == 0x3a
}

/// Two backslashes at the start of the path, as UNC (`\\server\share`),
/// verbatim (`\\?\`) and device (`\\.\`) paths begin.
pub open spec fn has_unc_prefix(b: Seq<u8>) -> bool {
    b.len() >= 2 && b[0] == 0x5c && b[1] == 0x5c
}

/// A platform prefix at the start of the path.
pub open spec fn has_platform_prefix(b: Seq<u8>) -> bool {
    has_drive_prefix(b) || has_unc_prefix(b)
}

/// Whether a path, given as its UTF-8 bytes, is accepted.
pub open spec fn path_is_valid(b: Seq<u8>) -> bool {
    &&& !has_platform_prefix(b)
    &&& forall|j: int|
        0 <= j < split_components(b).len() ==> !is_dot_component(#[trigger] split_components(b)[j])
}

/// Appending a run without separators extends the open component.
pub proof fn lemma_scan_run(pre: Seq<u8>, run: Seq<u8>)
    requires
        no_separator(run),
    ensures
        split_scan(pre + run) == (split_scan(pre).0, split_scan(pre).1 + run),
    decreases run.len(),
{
    if run.len() == 0 {
        assert(pre + run =~= pre);
        assert(split_scan(pre).1 + run =~= split_scan(pre).1);
    } else {
        let shorter = run.drop_last();
        assert((pre + run).drop_last() =~= pre + shorter);
        assert(no_separator(shorter));
        lemma_scan_run(pre, shorter);
        assert((split_scan(pre).1 + shorter).push(run.last()) =~= split_scan(pre).1 + run);
    }
}

/// Whether `a` is a prefix of `b`.
pub open spec fn is_prefix(a: Seq<Seq<u8>>, b: Seq<Seq<u8>>) -> bool {
    a.len() <= b.len() && forall|j: int| 0 <= j < a.len() ==> #[trigger] b[j] == a[j]
}

/// Reading more bytes never changes the components already closed.
pub proof fn lemma_scan_prefix(x: Seq<u8>, y: Seq<u8>)
    ensures
        is_prefix(split_scan(x).0, split_scan(x + y).0),
        is_prefix(split_scan(x).0, split_components(x + y)),
    decreases y.len(),
{
    if y.len() == 0 {
        assert(x + y =~= x);
    } else {
        let shorter = y.drop_last();
        assert((x + y).drop_last() =~= x + shorter);
        lemma_scan_prefix(x, shorter);
    }
}

/// Appending one separator closes the open component.
pub proof fn lemma_scan_separator(pre: Seq<u8>, sep: u8)
    requires
        is_separator(sep),
    ensures
        split_scan(pre.push(sep)) == (split_components(pre), Seq::<u8>::empty()),
{
    assert(pre.push(sep).drop_last() =~= pre);
}

proof fn lemma_is_continuation_separator(b: u8)
    requires
        is_separator(b),
    ensures
        !is_continuation_byte(b),
        is_leading_byte_width_1(b),
{
    assert(!is_continuation_byte(b) && is_leading_byte_width_1(b)) by (bit_vector)
        requires
            b == 0x2f || b == 0x5c,
    ;
}

/// Splits a path into its components, or fails on a `.` or `..` component or
/// a platform prefix.
pub fn path_components<'a>(path: &'a str) -> (r: Result<Vec<&'a str>, InvalidPath>)
    ensures
        r is Ok <==> path_is_valid(path.spec_bytes()),
        r matches Ok(v) ==> v@.map_values(|c: &str| c.spec_bytes()) == split_components(
            path.spec_bytes(),
        ),
{
    let ghost all = path.spec_bytes();
    let all_bytes = path.as_bytes();
    if all_bytes.len() >= 2 && ((is_ascii_letter_exec(all_bytes[0]) && all_bytes[1] == 0x3a) || (
    all_bytes[0] == 0x5c && all_bytes[1] == 0x5c)) {
        return Err(InvalidPath);
    }
    let mut out: Vec<&'a str> = Vec::new();
    let mut rest: &'a str = path;
    let ghost mut k: int = 0;
    loop
        invariant
            all == path.spec_bytes(),
            !has_platform_prefix(all),
            0 <= k <= all.len(),
            rest.spec_bytes() == all.subrange(k, all.len() as int),
            split_scan(all.subrange(0, k)).1 == Seq::<u8>::empty(),
            out@.map_values(|c: &str| c.spec_bytes()) == split_scan(all.subrange(0, k)).0,
            forall|j: int|
                0 <= j < out@.len() ==> !is_dot_component(#[trigger] out@[j].spec_bytes()),
        decreases all.len() - k,
    {
        let bytes = rest.as_bytes();
        let n = bytes.len();
        let mut p: usize = 0;
        while p < n && !(bytes[p] == 0x2f || bytes[p] == 0x5c)
            invariant
                bytes@ == rest.spec_bytes(),
                n == bytes@.len(),
                p <= n,
                no_separator(bytes@.subrange(0, p as int)),
            decreases n - p,
        {
            assert(bytes@.subrange(0, p + 1) =~= bytes@.subrange(0, p as int).push(bytes@[p as int]));
            p += 1;
        }
        let ghost run = bytes@.subrange(0, p as int);
        proof {
            assert(all.subrange(0, k + p) =~= all.subrange(0, k) + run);
            lemma_scan_run(all.subrange(0, k), run);
            assert(Seq::<u8>::empty() + run =~= run);
        }
        let comp: &'a str;
        let last: bool;
        if p == n {
            comp = rest;
            last = true;
        } else {
            proof {
                lemma_is_continuation_separator(bytes@[p as int]);
                is_char_boundary_iff_not_is_continuation_byte(bytes@, p as int);
            }
            let (head, tail) = rest.split_at(p);
            proof {
                let t = tail.spec_bytes();
                valid_utf8_split(bytes@, p as int);
                assert(t[0] == bytes@[p as int]);
                lemma_is_continuation_separator(t[0]);
                reveal_with_fuel(is_char_boundary, 2);
                assert(is_char_boundary(t, 1));
            }
            let (_sep, after) = tail.split_at(1);
            comp = head;
            rest = after;
            last = false;
        }
        let cb = comp.as_bytes();
        assert(cb@ == run);
        if (cb.len() == 1 && cb[0] == 0x2e) || (cb.len() == 2 && cb[0] == 0x2e && cb[1] == 0x2e) {
            proof {
                if cb@.len() == 1 {
                    assert(cb@ =~= seq![0x2eu8]);
                } else {
                    assert(cb@ =~= seq![0x2eu8, 0x2eu8]);
                }
                let j = out@.len() as int;
                if last {
                    assert(all.subrange(0, k + p) =~= all);
                    assert(split_components(all)[j] == run);
                } else {
                    let upto = all.subrange(0, k + p + 1);
                    lemma_scan_separator(all.subrange(0, k + p), all[k + p]);
                    assert(upto =~= all.subrange(0, k + p).push(all[k + p]));
                    assert(split_scan(upto).0[j] == run);
                    lemma_scan_prefix(upto, all.subrange(k + p + 1, all.len() as int));
                    assert(upto + all.subrange(k + p + 1, all.len() as int) =~= all);
                    assert(split_components(all)[j] == run);
                }
            }
            return Err(InvalidPath);
        }
        if cb.len() > 0 {
            out.push(comp);
        }
        proof {
            assert(out@.map_values(|c: &str| c.spec_bytes()) =~= close_component(
                split_scan(all.subrange(0, k)).0, run));
        }
        if last {
            proof {
                assert(all.subrange(0, k + p) =~= all);
            }
            return Ok(out);
        }
        proof {
            lemma_scan_separator(all.subrange(0, k + p), all[k + p]);
            assert(all.subrange(0, k + p + 1) =~= all.subrange(0, k + p).push(all[k + p]));
            k = k + p + 1;
            assert(rest.spec_bytes() =~= all.subrange(k, all.len() as int));
        }
    }
}

fn is_ascii_letter_exec(b: u8) -> (r: bool)
    ensures
        r == is_ascii_letter(b),
{
    (0x41 <= b && b <= 0x5a) || (0x61 <= b && b <= 0x7a)
}


/// `/` or `\`, as a character.
pub open spec fn is_separator_char(c: char) -> bool {
    c == '/' || c == '\\'
}

/// A component as a string: non-empty, with no separator.
pub open spec fn is_plain_component(s: Seq<char>) -> bool {
    s.len() > 0 && forall|i: int| 0 <= i < s.len() ==> !is_separator_char(#[trigger] s[i])
}

/// A component that the path rules accept: plain, and not `.` or `..`.
pub open spec fn is_accepted_component(s: Seq<char>) -> bool {
    is_plain_component(s) && s != seq!['.'] && s != seq!['.', '.']
}

/// A string that does not start with a drive marker. (A component holds
/// no separator, so it cannot start with the other prefixes.)
pub open spec fn has_no_platform_prefix(s: Seq<char>) -> bool {
    !(s.len() >= 2 && (s[0] as u32) < 0x80 && is_ascii_letter(s[0] as u32 as u8) && s[1] == ':')
}

pub proof fn lemma_encode_utf8_append(a: Seq<char>, b: Seq<char>)
    ensures
        encode_utf8(a + b) == encode_utf8(a) + encode_utf8(b),
    decreases a.len(),
{
    if a.len() == 0 {
        assert(a + b =~= b);
        assert(encode_utf8(a) + encode_utf8(b) =~= encode_utf8(b));
    } else {
        assert((a + b).drop_first() =~= a.drop_first() + b);
        assert((a + b)[0] == a[0]);
        lemma_encode_utf8_append(a.drop_first(), b);
        assert(encode_scalar(a[0] as u32) + (encode_utf8(a.drop_first()) + encode_utf8(b))
            =~= (encode_scalar(a[0] as u32) + encode_utf8(a.drop_first())) + encode_utf8(b));
    }
}

/// An ASCII character encodes to its own byte; any other character encodes
/// to bytes of `0x80` and above.
pub proof fn lemma_encode_scalar_ascii(c: char)
    ensures
        (c as u32) < 0x80 ==> encode_scalar(c as u32) == seq![c as u32 as u8],
        (c as u32) >= 0x80 ==> forall|i: int|
            0 <= i < encode_scalar(c as u32).len() ==> #[trigger] encode_scalar(c as u32)[i] >= 0x80,
        encode_scalar(c as u32).len() > 0,
{
    let s = c as u32;
    if s < 0x80 {
        assert((s & 0x7f) as u8 == s as u8) by (bit_vector)
            requires
                s < 0x80,
        ;
        assert(encode_scalar(s) =~= seq![s as u8]);
    } else {
        let z: u32 = s;
        assert(forall|x: u32| #![auto] (0xc0u8 | ((x >> 6) & 0x1f) as u8) >= 0x80) by (bit_vector);
        assert(forall|x: u32| #![auto] (0xe0u8 | ((x >> 12) & 0x0f) as u8) >= 0x80) by (bit_vector);
        assert(forall|x: u32| #![auto] (0xf0u8 | ((x >> 18) & 0x7) as u8) >= 0x80) by (bit_vector);
        assert(forall|x: u32| #![auto] (0x80u8 | (x & 0x3f) as u8) >= 0x80) by (bit_vector);
        assert(forall|x: u32| #![auto] (0x80u8 | ((x >> 6) & 0x3f) as u8) >= 0x80) by (bit_vector);
        assert(forall|x: u32| #![auto] (0x80u8 | ((x >> 12) & 0x3f) as u8) >= 0x80) by (bit_vector);
        assert(z == s);
    }
}

proof fn lemma_encode_single(c: char)
    ensures
        encode_utf8(seq![c]) == encode_scalar(c as u32),
{
    reveal_with_fuel(encode_utf8, 2);
    assert(seq![c].drop_first() =~= Seq::<char>::empty());
    assert(encode_utf8(seq![c]) =~= encode_scalar(c as u32) + Seq::<u8>::empty());
}

/// A string without separator characters encodes to bytes without
/// separators.
pub proof fn lemma_encode_no_separator(s: Seq<char>)
    requires
        forall|i: int| 0 <= i < s.len() ==> !is_separator_char(#[trigger] s[i]),
    ensures
        no_separator(encode_utf8(s)),
        s.len() > 0 ==> encode_utf8(s).len() > 0,
    decreases s.len(),
{
    if s.len() > 0 {
        let c = s[0];
        lemma_encode_scalar_ascii(c);
        assert(forall|i: int| 0 <= i < s.drop_first().len() ==> #[trigger] s.drop_first()[i] == s[i + 1]);
        lemma_encode_no_separator(s.drop_first());
        let e = encode_scalar(c as u32);
        if (c as u32) < 0x80 {
            assert(c != '/' && c != '\\');
            if (c as u32) == 0x2f {
                char_u32_cast(c, 0x2f);
                char_u32_cast('/', 0x2f);
            }
            if (c as u32) == 0x5c {
                char_u32_cast(c, 0x5c);
                char_u32_cast('\\', 0x5c);
            }
            assert(e[0] == c as u32 as u8);
        }
        assert(no_separator(e));
        let rest = encode_utf8(s.drop_first());
        assert forall|i: int| 0 <= i < (e + rest).len() implies !is_separator(#[trigger] (e + rest)[i]) by {
            if i < e.len() {
                assert((e + rest)[i] == e[i]);
            } else {
                assert((e + rest)[i] == rest[i - e.len()]);
            }
        }
    }
}

pub proof fn lemma_encode_char_literals()
    ensures
        encode_utf8(seq!['/']) == seq![0x2fu8],
        encode_utf8(seq!['.']) == seq![0x2eu8],
        encode_utf8(seq!['.', '.']) == seq![0x2eu8, 0x2eu8],
{
    lemma_encode_single('/');
    lemma_encode_single('.');
    lemma_encode_scalar_ascii('/');
    lemma_encode_scalar_ascii('.');
    assert(seq!['.'] + seq!['.'] =~= seq!['.', '.']);
    lemma_encode_utf8_append(seq!['.'], seq!['.']);
    assert(seq![0x2eu8] + seq![0x2eu8] =~= seq![0x2eu8, 0x2eu8]);
}

/// An accepted component string encodes to an accepted component.
pub proof fn lemma_encode_accepted(s: Seq<char>)
    requires
        is_accepted_component(s),
    ensures
        no_separator(encode_utf8(s)),
        encode_utf8(s).len() > 0,
        !is_dot_component(encode_utf8(s)),
{
    lemma_encode_no_separator(s);
    lemma_encode_char_literals();
    encode_utf8_decode_utf8(s);
    encode_utf8_decode_utf8(seq!['.']);
    encode_utf8_decode_utf8(seq!['.', '.']);
}

/// Reading a run and a separator after a closed point closes that run.
proof fn lemma_scan_run_separator(pre: Seq<u8>, run: Seq<u8>)
    requires
        split_scan(pre).1 == Seq::<u8>::empty(),
        no_separator(run),
    ensures
        split_scan(pre + run + seq![0x2fu8]) == (close_component(split_scan(pre).0, run), Seq::<u8>::empty()),
        split_components(pre + run) == close_component(split_scan(pre).0, run),
{
    lemma_scan_run(pre, run);
    assert(Seq::<u8>::empty() + run =~= run);
    lemma_scan_separator(pre + run, 0x2fu8);
    assert((pre + run).push(0x2fu8) =~= pre + run + seq![0x2fu8]);
}

/// Leading, doubled and trailing separators contribute no component: the
/// paths `/a/b/`, `a/b` and `//a//b//` all split into `a` and `b`.
pub proof fn lemma_path_normalization(a: Seq<char>, b: Seq<char>)
    requires
        is_plain_component(a),
        is_plain_component(b),
    ensures
        split_components(encode_utf8(seq!['/'] + a + seq!['/'] + b + seq!['/']))
            == seq![encode_utf8(a), encode_utf8(b)],
        split_components(encode_utf8(a + seq!['/'] + b)) == seq![encode_utf8(a), encode_utf8(b)],
        split_components(
            encode_utf8(seq!['/', '/'] + a + seq!['/', '/'] + b + seq!['/', '/']),
        ) == seq![encode_utf8(a), encode_utf8(b)],
{
    lemma_encode_char_literals();
    lemma_encode_no_separator(a);
    lemma_encode_no_separator(b);
    let ea = encode_utf8(a);
    let eb = encode_utf8(b);
    let sl = seq![0x2fu8];
    let e: Seq<u8> = Seq::empty();
    let none: Seq<Seq<u8>> = Seq::empty();
    assert(no_separator(e));
    assert(split_scan(e) == (none, e));
    // "/a/b/"
    lemma_encode_utf8_append(seq!['/'], a);
    lemma_encode_utf8_append(seq!['/'] + a, seq!['/']);
    lemma_encode_utf8_append(seq!['/'] + a + seq!['/'], b);
    lemma_encode_utf8_append(seq!['/'] + a + seq!['/'] + b, seq!['/']);
    lemma_scan_run_separator(e, e);
    assert(e + e + sl =~= sl);
    lemma_scan_run_separator(sl, ea);
    lemma_scan_run_separator(sl + ea + sl, eb);
    assert(split_components(sl + ea + sl + eb + sl) =~= seq![ea, eb]);
    // "a/b"
    lemma_encode_utf8_append(a, seq!['/']);
    lemma_encode_utf8_append(a + seq!['/'], b);
    lemma_scan_run_separator(e, ea);
    assert(e + ea + sl =~= ea + sl);
    lemma_scan_run_separator(ea + sl, eb);
    assert(split_components(ea + sl + eb) =~= seq![ea, eb]);
    // "//a//b//"
    let ss = seq!['/', '/'];
    assert(ss =~= seq!['/'] + seq!['/']);
    lemma_encode_utf8_append(seq!['/'], seq!['/']);
    lemma_encode_utf8_append(ss, a);
    lemma_encode_utf8_append(ss + a, ss);
    lemma_encode_utf8_append(ss + a + ss, b);
    lemma_encode_utf8_append(ss + a + ss + b, ss);
    let d = sl + sl;
    lemma_scan_run_separator(sl, e);
    assert(sl + e + sl =~= d);
    lemma_scan_run_separator(d, ea);
    lemma_scan_run_separator(d + ea + sl, e);
    assert(d + ea + sl + e + sl =~= d + ea + d);
    lemma_scan_run_separator(d + ea + d, eb);
    lemma_scan_run_separator(d + ea + d + eb + sl, e);
    assert(d + ea + d + eb + sl + e + sl =~= d + ea + d + eb + d);
    assert(split_components(d + ea + d + eb + d) =~= seq![ea, eb]);
}

/// The first two bytes of a string's encoding show a platform prefix only
/// if the string starts with one.
proof fn lemma_no_platform_prefix(x: Seq<char>, rest: Seq<u8>)
    requires
        x.len() > 0,
        !is_separator_char(x[0]),
        has_no_platform_prefix(x),
        rest.len() > 0,
        rest[0] == 0x2f,
    ensures
        !has_platform_prefix(encode_utf8(x) + rest),
{
    let b = encode_utf8(x) + rest;
    let c0 = x[0];
    let tail = encode_utf8(x.drop_first());
    lemma_encode_scalar_ascii(c0);
    assert(encode_utf8(x) == encode_scalar(c0 as u32) + tail);
    assert(b[0] == encode_scalar(c0 as u32)[0]);
    if (c0 as u32) < 0x80 && (c0 as u32) == 0x5c {
        char_u32_cast(c0, 0x5c);
        char_u32_cast('\\', 0x5c);
    }
    if (c0 as u32) < 0x80 && is_ascii_letter(b[0]) {
        assert(b[0] == c0 as u32 as u8);
        assert(b == seq![c0 as u32 as u8] + tail + rest);
        if x.len() == 1 {
            assert(x.drop_first() =~= Seq::<char>::empty());
            assert(b[1] == rest[0]);
        } else {
            let c1 = x[1];
            assert(x.drop_first()[0] == c1);
            lemma_encode_scalar_ascii(c1);
            assert(tail == encode_scalar(c1 as u32) + encode_utf8(x.drop_first().drop_first()));
            assert(b[1] == encode_scalar(c1 as u32)[0]);
            if (c1 as u32) < 0x80 {
                assert(c1 != ':');
                if (c1 as u32) == 0x3a {
                    char_u32_cast(c1, 0x3a);
                    char_u32_cast(':', 0x3a);
                }
            }
        }
    }
}

/// `x/y`, for two accepted components of which the first has no platform
/// prefix, is a valid path whose components are `x` and `y`.
pub proof fn lemma_two_component_path(x: Seq<char>, y: Seq<char>)
    requires
        is_accepted_component(x),
        is_accepted_component(y),
        has_no_platform_prefix(x),
    ensures
        path_is_valid(encode_utf8(x + seq!['/'] + y)),
        split_components(encode_utf8(x + seq!['/'] + y)) == seq![encode_utf8(x), encode_utf8(y)],
{
    lemma_path_normalization(x, y);
    lemma_encode_accepted(x);
    lemma_encode_accepted(y);
    lemma_encode_char_literals();
    lemma_encode_utf8_append(x, seq!['/']);
    lemma_encode_utf8_append(x + seq!['/'], y);
    let rest = seq![0x2fu8] + encode_utf8(y);
    lemma_no_platform_prefix(x, rest);
    assert(encode_utf8(x) + seq![0x2fu8] + encode_utf8(y) =~= encode_utf8(x) + rest);
    let comps = split_components(encode_utf8(x + seq!['/'] + y));
    assert forall|j: int| 0 <= j < comps.len() implies !is_dot_component(#[trigger] comps[j]) by {
        if j == 0 {
            assert(comps[0] == encode_utf8(x));
        } else {
            assert(comps[1] == encode_utf8(y));
        }
    }
}

/// Reading on from a point where no component is open: the components
/// closed before, then those of the rest read alone.
proof fn lemma_scan_after_closed(pre: Seq<u8>, q: Seq<u8>)
    requires
        split_scan(pre).1 == Seq::<u8>::empty(),
    ensures
        split_scan(pre + q) == (split_scan(pre).0 + split_scan(q).0, split_scan(q).1),
    decreases q.len(),
{
    if q.len() == 0 {
        assert(pre + q =~= pre);
        assert(split_scan(pre).0 + split_scan(q).0 =~= split_scan(pre).0);
    } else {
        let shorter = q.drop_last();
        assert((pre + q).drop_last() =~= pre + shorter);
        assert((pre + q).last() == q.last());
        lemma_scan_after_closed(pre, shorter);
        let (done, open) = split_scan(shorter);
        assert(close_component(split_scan(pre).0 + done, open) =~= split_scan(pre).0
            + close_component(done, open));
    }
}

/// Joining two paths with a separator joins their component lists.
pub proof fn lemma_components_of_join(p: Seq<u8>, q: Seq<u8>)
    ensures
        split_components(p + seq![0x2fu8] + q) == split_components(p) + split_components(q),
{
    let head = p + seq![0x2fu8];
    lemma_scan_separator(p, 0x2fu8);
    assert(p.push(0x2fu8) =~= head);
    lemma_scan_after_closed(head, q);
    let (done, open) = split_scan(q);
    assert(close_component(split_components(p) + done, open) =~= split_components(p)
        + close_component(done, open));
}

/// Two valid paths joined by a separator make a valid path.
pub proof fn lemma_join_valid(p: Seq<u8>, q: Seq<u8>)
    requires
        path_is_valid(p),
        path_is_valid(q),
    ensures
        path_is_valid(p + seq![0x2fu8] + q),
{
    let pq = p + seq![0x2fu8] + q;
    lemma_components_of_join(p, q);
    let cp = split_components(p);
    let cq = split_components(q);
    assert forall|j: int| 0 <= j < split_components(pq).len() implies !is_dot_component(
        #[trigger] split_components(pq)[j],
    ) by {
        if j < cp.len() {
            assert(split_components(pq)[j] == cp[j]);
        } else {
            assert(split_components(pq)[j] == cq[j - cp.len()]);
        }
    }
    if p.len() >= 2 {
        assert(pq[0] == p[0] && pq[1] == p[1]);
    } else if p.len() == 1 {
        assert(pq[1] == 0x2fu8);
    } else {
        assert(pq[0] == 0x2fu8);
    }
}

} // verus!
