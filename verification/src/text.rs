//! Conversions between Rust strings and character vectors, plus the
//! character-level helpers that the rest of the library is written against.
use vstd::prelude::*;
use vstd::utf8::{char_is_scalar, encode_scalar, encode_utf8, has_width_1_encoding, has_width_2_encoding, has_width_3_encoding, is_scalar};

verus! {

/// The characters of `s`, in order.
pub fn chars_of(s: &str) -> (r: Vec<char>)
    ensures
        r@ == s@,
{
    let n = s.unicode_len();
    let mut out: Vec<char> = Vec::new();
    let mut i: usize = 0;
    while i < n
        invariant
            n == s@.len(),
            i <= n,
            out@ == s@.take(i as int),
        decreases n - i,
    {
        let c = s.get_char(i);
        out.push(c);
        i = i + 1;
        assert(out@ =~= s@.take(i as int));
    }
    assert(s@.take(n as int) =~= s@);
    out
}

/// Builds a `String` holding exactly the characters of `v`
/// (std's `FromIterator<&char>` for `String`).
#[verifier::external_body]
pub(crate) fn string_of(v: &[char]) -> (r: String)
    ensures
        r@ == v@,
{
    v.iter().collect()
}

/// The text of `v` as a `String`.
pub fn string_from_vec(v: &Vec<char>) -> (r: String)
    ensures
        r@ == v@,
{
    string_of(v.as_slice())
}

/// Appends every character of `x` to `out`.
pub fn push_all(out: &mut Vec<char>, x: &Vec<char>)
    ensures
        final(out)@ == old(out)@ + x@,
{
    let n = x.len();
    let mut i: usize = 0;
    while i < n
        invariant
            n == x@.len(),
            i <= n,
            out@ == old(out)@ + x@.take(i as int),
        decreases n - i,
    {
        out.push(x[i]);
        i = i + 1;
        assert(out@ =~= old(out)@ + x@.take(i as int));
    }
    assert(x@.take(n as int) =~= x@);
}

/// ASCII lower-casing of one character; other characters are unchanged.
pub open spec fn lower(c: char) -> char {
    if 'A' <= c && c <= 'Z' {
        ((c as u32) + 32) as char
    } else {
        c
    }
}

/// Character-wise ASCII lower-casing of a sequence.
pub open spec fn lower_seq(s: Seq<char>) -> Seq<char> {
    s.map_values(|c: char| lower(c))
}

/// Whether `name`, lower-cased, ends with `suffix`.
pub open spec fn ends_with_lower(name: Seq<char>, suffix: Seq<char>) -> bool {
    &&& suffix.len() <= name.len()
    &&& lower_seq(name).subrange(name.len() - suffix.len(), name.len() as int) == suffix
}

/// Whether `c`, lower-cased as ASCII, equals `t`.
pub fn lower_is(c: char, t: char) -> (r: bool)
    ensures
        r == (lower(c) == t),
{
    if 'A' <= c && c <= 'Z' {
        let u: u32 = (c as u32) + 32;
        assert(lower(c) as u32 == u);
        u == (t as u32)
    } else {
        c == t
    }
}

/// Exec form of `ends_with_lower`.
pub fn ends_with_lower_exec(name: &Vec<char>, suffix: &Vec<char>) -> (r: bool)
    ensures
        r == ends_with_lower(name@, suffix@),
{
    let n = name.len();
    let m = suffix.len();
    if m > n {
        return false;
    }
    let ghost tail = lower_seq(name@).subrange(n - m, n as int);
    let mut j: usize = 0;
    while j < m
        invariant
            n == name@.len(),
            m == suffix@.len(),
            m <= n,
            j <= m,
            tail == lower_seq(name@).subrange(n - m, n as int),
            forall|k: int| 0 <= k < j ==> tail[k] == suffix@[k],
        decreases m - j,
    {
        if !lower_is(name[n - m + j], suffix[j]) {
            assert(tail[j as int] != suffix@[j as int]);
            return false;
        }
        j = j + 1;
    }
    assert(tail =~= suffix@);
    true
}

/// `a` followed by `b`.
pub fn concat_chars(a: &Vec<char>, b: &Vec<char>) -> (r: Vec<char>)
    ensures
        r@ == a@ + b@,
{
    let mut out: Vec<char> = Vec::new();
    push_all(&mut out, a);
    push_all(&mut out, b);
    assert(out@ =~= a@ + b@);
    out
}

/// The first `k` characters of `v`.
pub fn take_chars(v: &Vec<char>, k: usize) -> (r: Vec<char>)
    requires
        k <= v@.len(),
    ensures
        r@ == v@.take(k as int),
{
    let mut out: Vec<char> = Vec::new();
    let mut i: usize = 0;
    while i < k
        invariant
            k <= v@.len(),
            i <= k,
            out@ == v@.take(i as int),
        decreases k - i,
    {
        out.push(v[i]);
        i = i + 1;
        assert(out@ =~= v@.take(i as int));
    }
    out
}

/// Whether `a` and `b` hold the same characters.
pub fn chars_eq(a: &Vec<char>, b: &Vec<char>) -> (r: bool)
    ensures
        r == (a@ == b@),
{
    if a.len() != b.len() {
        return false;
    }
    let n = a.len();
    let mut i: usize = 0;
    while i < n
        invariant
            n == a@.len(),
            n == b@.len(),
            i <= n,
            forall|k: int| 0 <= k < i ==> a@[k] == b@[k],
        decreases n - i,
    {
        if a[i] != b[i] {
            return false;
        }
        i = i + 1;
    }
    assert(a@ =~= b@);
    true
}

/// A copy of `b`.
pub fn bytes_copy(b: &[u8]) -> (r: Vec<u8>)
    ensures
        r@ == b@,
{
    let mut out: Vec<u8> = Vec::new();
    let n = b.len();
    let mut i: usize = 0;
    while i < n
        invariant
            n == b@.len(),
            i <= n,
            out@ == b@.take(i as int),
        decreases n - i,
    {
        out.push(b[i]);
        i = i + 1;
        assert(out@ =~= b@.take(i as int));
    }
    assert(b@.take(n as int) =~= b@);
    out
}

/// Whether `b` can begin the encoding of a character: an ASCII byte or a
/// lead byte, never a continuation byte nor one above `0xF7`.
pub open spec fn lead_byte(b: u8) -> bool {
    b < 0x80 || (0xC0 <= b && b <= 0xF7)
}

/// The encoding of a character begins with a lead byte, and an ASCII one is
/// the whole encoding.
proof fn lemma_scalar_lead(v: u32)
    requires
        is_scalar(v),
    ensures
        encode_scalar(v).len() > 0,
        lead_byte(encode_scalar(v)[0]),
        encode_scalar(v)[0] < 0x80 ==> encode_scalar(v) == seq![v as u8] && v < 0x80,
{
    if has_width_1_encoding(v) {
        assert((v & 0x7F) as u8 == v as u8 && v < 0x80) by (bit_vector)
            requires
                v <= 0x7F,
        ;
    } else if has_width_2_encoding(v) {
        assert(0xC0 <= (0xC0 | ((v >> 6) & 0x1F) as u8) <= 0xDF) by (bit_vector);
    } else if has_width_3_encoding(v) {
        assert(0xE0 <= (0xE0 | ((v >> 12) & 0x0F) as u8) <= 0xEF) by (bit_vector);
    } else {
        assert(0xF0 <= (0xF0 | ((v >> 18) & 0x7) as u8) <= 0xF7) by (bit_vector);
    }
}

/// `n` zero bytes.
pub open spec fn zeros(n: nat) -> Seq<u8> {
    Seq::new(n, |i: int| 0u8)
}

/// The encoding of a text, followed by zero bytes, begins with a lead byte;
/// an ASCII one is the text's first character, and the rest encodes the
/// rest.
pub proof fn lemma_utf8_front(s: Seq<char>, n: nat)
    ensures
        s.len() == 0 ==> encode_utf8(s) + zeros(n) == zeros(n),
        s.len() > 0 ==> (encode_utf8(s) + zeros(n)).len() > 0 && lead_byte(
            (encode_utf8(s) + zeros(n))[0],
        ),
        s.len() > 0 && (encode_utf8(s) + zeros(n))[0] < 0x80 ==> s[0] as u32 == (encode_utf8(s)
            + zeros(n))[0] && (encode_utf8(s) + zeros(n)).skip(1) == encode_utf8(s.drop_first())
            + zeros(n),
{
    if s.len() == 0 {
        assert(encode_utf8(s) + zeros(n) =~= zeros(n));
    } else {
        let v = s[0] as u32;
        char_is_scalar(s[0]);
        lemma_scalar_lead(v);
        let e = encode_scalar(v);
        let rest = encode_utf8(s.drop_first());
        assert(encode_utf8(s) == e + rest);
        let w = encode_utf8(s) + zeros(n);
        assert(w[0] == e[0]);
        if w[0] < 0x80 {
            assert(w.skip(1) =~= rest + zeros(n));
        }
    }
}

/// When the encoding of `s`, followed by zero bytes, begins with the
/// non-zero ASCII bytes `m`, `s` begins with the characters they encode.
pub proof fn lemma_ascii_prefix(s: Seq<char>, n: nat, m: Seq<u8>)
    requires
        forall|i: int| 0 <= i < m.len() ==> 0 < #[trigger] m[i] < 0x80,
        m.len() <= (encode_utf8(s) + zeros(n)).len(),
        (encode_utf8(s) + zeros(n)).take(m.len() as int) == m,
    ensures
        m.len() <= s.len(),
        forall|i: int| 0 <= i < m.len() ==> #[trigger] s[i] as u32 == m[i],
        (encode_utf8(s) + zeros(n)).skip(m.len() as int) == encode_utf8(s.skip(m.len() as int)) + zeros(n),
    decreases m.len(),
{
    let w = encode_utf8(s) + zeros(n);
    if m.len() == 0 {
        assert(s.skip(0) =~= s);
        assert(w.skip(0) =~= w);
    } else {
        assert(w[0] == m[0]) by {
            assert(w.take(m.len() as int)[0] == w[0]);
        }
        lemma_utf8_front(s, n);
        if s.len() == 0 {
            assert(w[0] == zeros(n)[0]);
        }
        let s1 = s.drop_first();
        let m1 = m.drop_first();
        assert(w.skip(1) == encode_utf8(s1) + zeros(n));
        assert((encode_utf8(s1) + zeros(n)).take(m1.len() as int) =~= m1) by {
            assert forall|i: int| 0 <= i < m1.len() implies #[trigger] (encode_utf8(s1) + zeros(n)).take(
                m1.len() as int,
            )[i] == m1[i] by {
                assert(w.skip(1)[i] == w[i + 1]);
                assert(w.take(m.len() as int)[i + 1] == w[i + 1]);
            }
        }
        assert forall|i: int| 0 <= i < m1.len() implies 0 < #[trigger] m1[i] < 0x80 by {
            assert(m1[i] == m[i + 1]);
        }
        lemma_ascii_prefix(s1, n, m1);
        assert forall|i: int| 0 <= i < m.len() implies #[trigger] s[i] as u32 == m[i] by {
            if i > 0 {
                assert(s[i] == s1[i - 1]);
                assert(m[i] == m1[i - 1]);
            }
        }
        assert(s1.skip(m1.len() as int) =~= s.skip(m.len() as int));
        assert(w.skip(m.len() as int) =~= (encode_utf8(s1) + zeros(n)).skip(m1.len() as int));
    }
}

/// A name that ends, lower-cased, with `s` has `s`'s characters at its end.
pub proof fn lemma_suffix_char(f: Seq<char>, s: Seq<char>, k: int)
    requires
        ends_with_lower(f, s),
        0 <= k < s.len(),
    ensures
        lower_seq(f)[f.len() - s.len() + k] == s[k],
{
    assert(lower_seq(f).subrange(f.len() - s.len(), f.len() as int)[k] == s[k]);
}

/// Whether `a` and `b` differ in their `k`-th character from the end.
pub open spec fn differ_from_end(a: Seq<char>, b: Seq<char>, k: int) -> bool {
    1 <= k <= a.len() && k <= b.len() && a[a.len() - k] != b[b.len() - k]
}

/// A name cannot end with two suffixes that differ within their common
/// tail (compared within the last five characters).
pub proof fn lemma_not_both(f: Seq<char>, a: Seq<char>, b: Seq<char>)
    requires
        ends_with_lower(f, a),
        differ_from_end(a, b, 1) || differ_from_end(a, b, 2) || differ_from_end(a, b, 3)
            || differ_from_end(a, b, 4) || differ_from_end(a, b, 5),
    ensures
        !ends_with_lower(f, b),
{
    if ends_with_lower(f, b) {
        let k: int = if differ_from_end(a, b, 1) {
            1
        } else if differ_from_end(a, b, 2) {
            2
        } else if differ_from_end(a, b, 3) {
            3
        } else if differ_from_end(a, b, 4) {
            4
        } else {
            5
        };
        lemma_suffix_char(f, a, a.len() - k);
        lemma_suffix_char(f, b, b.len() - k);
    }
}

} // verus!
