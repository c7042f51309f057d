//! Searching in sequences of bytes and characters.

use vstd::prelude::*;
use vstd::utf8::*;

verus! {

/// The position of the first element of `s` that satisfies `p`, or `s.len()`
/// when there is none.
pub open spec fn index_where<A>(s: Seq<A>, p: spec_fn(A) -> bool) -> int
    decreases s.len(),
{
    if s.len() == 0 {
        0
    } else if p(s[0]) {
        0
    } else {
        1 + index_where(s.drop_first(), p)
    }
}

/// `index_where` never leaves the sequence, skips only elements that fail
/// `p`, and stops at one that satisfies it unless it ran off the end.
pub proof fn lemma_index_where<A>(s: Seq<A>, p: spec_fn(A) -> bool)
    ensures
        0 <= index_where(s, p) <= s.len(),
        forall|j: int| 0 <= j < index_where(s, p) ==> !p(#[trigger] s[j]),
        index_where(s, p) < s.len() ==> p(s[index_where(s, p)]),
    decreases s.len(),
{
    if s.len() != 0 && !p(s[0]) {
        let t = s.drop_first();
        lemma_index_where(t, p);
        assert forall|j: int| 0 <= j < index_where(s, p) implies !p(#[trigger] s[j]) by {
            if j > 0 {
                assert(s[j] == t[j - 1]);
            }
        }
    }
}

/// A position that only failing elements precede, and that is either the end
/// or satisfies `p`, is the one `index_where` names.
pub proof fn lemma_index_where_is<A>(s: Seq<A>, p: spec_fn(A) -> bool, r: int)
    requires
        0 <= r <= s.len(),
        forall|j: int| 0 <= j < r ==> !p(#[trigger] s[j]),
        r < s.len() ==> p(s[r]),
    ensures
        index_where(s, p) == r,
{
    lemma_index_where(s, p);
    let k = index_where(s, p);
    if k < r {
        assert(p(s[k]));
    } else if r < k {
        assert(!p(s[r]));
    }
}

/// Whether `needle` occurs in `s` at position `k`.
pub open spec fn occurs_at<A>(s: Seq<A>, needle: Seq<A>, k: int) -> bool {
    0 <= k && k + needle.len() <= s.len() && s.subrange(k, k + needle.len()) == needle
}

/// The predicate "is `wanted`".
pub open spec fn equal_to<A>(wanted: A) -> spec_fn(A) -> bool {
    |x: A| x == wanted
}

/// The position of the first `stop` in `s`, or its length.
pub open spec fn until<A>(s: Seq<A>, stop: A) -> int {
    index_where(s, equal_to(stop))
}

/// The position of the first `stop` in `buf`, or its length.
pub fn find_byte(buf: &[u8], stop: u8) -> (r: usize)
    ensures
        r == until(buf@, stop),
        r <= buf@.len(),
        r < buf@.len() ==> buf@[r as int] == stop,
{
    let mut i: usize = 0;
    while i < buf.len() && buf[i] != stop
        invariant
            i <= buf@.len(),
            forall|j: int| 0 <= j < i ==> buf@[j] != stop,
        decreases buf@.len() - i,
    {
        i = i + 1;
    }
    proof {
        lemma_index_where_is(buf@, equal_to(stop), i as int);
    }
    i
}

/// The position of the first carriage return or line feed, or the length.
pub open spec fn line_end(s: Seq<u8>) -> int {
    index_where(s, |b: u8| b == 13 || b == 10)
}

/// The position of the first carriage return or line feed in `buf`, or its
/// length.
pub fn find_line_end(buf: &[u8]) -> (r: usize)
    ensures
        r == line_end(buf@),
        r <= buf@.len(),
{
    let mut i: usize = 0;
    while i < buf.len() && buf[i] != 13 && buf[i] != 10
        invariant
            i <= buf@.len(),
            forall|j: int| 0 <= j < i ==> buf@[j] != 13 && buf@[j] != 10,
        decreases buf@.len() - i,
    {
        i = i + 1;
    }
    proof {
        lemma_index_where_is(buf@, |b: u8| b == 13 || b == 10, i as int);
    }
    i
}

/// The position of the first `stop` in `s`, or its length.
pub fn find_char(s: &[char], stop: char) -> (r: usize)
    ensures
        r == until(s@, stop),
        r <= s@.len(),
        r < s@.len() ==> s@[r as int] == stop,
{
    let mut i: usize = 0;
    while i < s.len() && s[i] != stop
        invariant
            i <= s@.len(),
            forall|j: int| 0 <= j < i ==> s@[j] != stop,
        decreases s@.len() - i,
    {
        i = i + 1;
    }
    proof {
        lemma_index_where_is(s@, equal_to(stop), i as int);
    }
    i
}

/// Whether two byte slices hold the same bytes.
pub fn same_bytes(a: &[u8], b: &[u8]) -> (r: bool)
    ensures
        r == (a@ == b@),
{
    if a.len() != b.len() {
        return false;
    }
    let mut i: usize = 0;
    while i < a.len()
        invariant
            a@.len() == b@.len(),
            i <= a@.len(),
            forall|j: int| 0 <= j < i ==> a@[j] == b@[j],
        decreases a@.len() - i,
    {
        if a[i] != b[i] {
            return false;
        }
        i = i + 1;
    }
    assert(a@ =~= b@);
    true
}

/// The first `n` elements of `s`, or all of them.
pub open spec fn at_most<A>(s: Seq<A>, n: int) -> Seq<A> {
    if s.len() <= n {
        s
    } else {
        s.take(n)
    }
}

/// The first `n` bytes of `buf`, or all of them.
pub fn head(buf: &[u8], n: usize) -> (r: &[u8])
    ensures
        r@ == at_most(buf@, n as int),
{
    if buf.len() <= n {
        buf
    } else {
        &buf[0..n]
    }
}

/// The lower-case form of an ASCII letter; other bytes stay as they are.
pub open spec fn lower(b: u8) -> u8 {
    if 65 <= b <= 90 {
        (b + 32) as u8
    } else {
        b
    }
}

/// Whether two byte sequences differ at most in the case of ASCII letters.
pub open spec fn same_letters(a: Seq<u8>, b: Seq<u8>) -> bool {
    a.len() == b.len() && forall|i: int| 0 <= i < a.len() ==> lower(#[trigger] a[i]) == lower(b[i])
}

fn to_lower(b: u8) -> (r: u8)
    ensures
        r == lower(b),
{
    if 65 <= b && b <= 90 {
        b + 32
    } else {
        b
    }
}

/// Whether two byte slices differ at most in the case of ASCII letters.
pub fn eq_ignore_case(a: &[u8], b: &[u8]) -> (r: bool)
    ensures
        r == same_letters(a@, b@),
{
    if a.len() != b.len() {
        return false;
    }
    let mut i: usize = 0;
    while i < a.len()
        invariant
            a@.len() == b@.len(),
            i <= a@.len(),
            forall|j: int| 0 <= j < i ==> lower(#[trigger] a@[j]) == lower(b@[j]),
        decreases a@.len() - i,
    {
        if to_lower(a[i]) != to_lower(b[i]) {
            return false;
        }
        i = i + 1;
    }
    true
}

/// Whether `buf` begins with the bytes that spell `text`.
pub open spec fn spells(buf: Seq<u8>, text: Seq<char>) -> bool {
    encode_utf8(text).is_prefix_of(buf)
}

/// Whether `buf` begins with the bytes that spell `text`.
pub fn begins_with(buf: &[u8], text: &str) -> (r: bool)
    ensures
        r == spells(buf@, text@),
{
    let want = text.as_bytes();
    if buf.len() < want.len() {
        return false;
    }
    let head = &buf[0..want.len()];
    assert(want@.is_prefix_of(buf@) <==> head@ =~= want@);
    same_bytes(head, want)
}

/// The 16-bit number that two bytes hold in network order.
pub open spec fn be16(hi: u8, lo: u8) -> u16 {
    (hi * 256 + lo) as u16
}

/// The 16-bit number that two bytes hold in network order.
pub fn read_be16(hi: u8, lo: u8) -> (r: u16)
    ensures
        r == be16(hi, lo),
        r == hi * 256 + lo,
{
    (hi as u16) * 256 + (lo as u16)
}

/// The first `n` elements are a beginning, and as long as there are enough
/// elements there are `n` of them.
pub proof fn law_at_most<A>(s: Seq<A>, n: int)
    requires
        0 <= n,
    ensures
        at_most(s, n).is_prefix_of(s),
        at_most(s, n).len() == n || at_most(s, n) == s,
        at_most(s, n).len() <= n,
{
}

/// A text that is followed by a separator, and holds none itself, ends where
/// the separator stands.
pub proof fn law_until<A>(t: Seq<A>, stop: A, rest: Seq<A>)
    requires
        !t.contains(stop),
    ensures
        until(t, stop) == t.len(),
        until(t + seq![stop] + rest, stop) == t.len(),
{
    let p = equal_to(stop);
    assert forall|j: int| 0 <= j < t.len() implies !p(#[trigger] t[j]) by {
        assert(t.contains(t[j]));
    }
    lemma_index_where_is(t, p, t.len() as int);
    let s = t + seq![stop] + rest;
    assert forall|j: int| 0 <= j < t.len() implies !p(#[trigger] s[j]) by {
        assert(s[j] == t[j]);
    }
    assert(s[t.len() as int] == stop);
    lemma_index_where_is(s, p, t.len() as int);
}

/// A line without carriage return and line feed ends at the first of either,
/// or with the bytes.
pub proof fn law_line_end(line: Seq<u8>, end: u8, rest: Seq<u8>)
    requires
        !line.contains(13) && !line.contains(10),
        end == 13 || end == 10,
    ensures
        line_end(line) == line.len(),
        line_end(line + seq![end] + rest) == line.len(),
{
    let p = |b: u8| b == 13 || b == 10;
    assert forall|j: int| 0 <= j < line.len() implies !p(#[trigger] line[j]) by {
        assert(line.contains(line[j]));
    }
    lemma_index_where_is(line, p, line.len() as int);
    let s = line + seq![end] + rest;
    assert forall|j: int| 0 <= j < line.len() implies !p(#[trigger] s[j]) by {
        assert(s[j] == line[j]);
    }
    assert(s[line.len() as int] == end);
    lemma_index_where_is(s, p, line.len() as int);
}

/// Two byte sequences count as the same letters exactly when they differ, if
/// at all, in the bit that tells the two cases of an ASCII letter apart.
pub proof fn law_same_letters(a: Seq<u8>, b: Seq<u8>)
    ensures
        same_letters(a, b) <==> a.len() == b.len() && forall|i: int|
            0 <= i < a.len() ==> #[trigger] a[i] == b[i] || (65 <= a[i] <= 90 && b[i] == a[i] + 32)
                || (97 <= a[i] <= 122 && a[i] == b[i] + 32),
{
    if a.len() == b.len() {
        if same_letters(a, b) {
            assert forall|i: int| 0 <= i < a.len() implies #[trigger] a[i] == b[i] || (65 <= a[i]
                <= 90 && b[i] == a[i] + 32) || (97 <= a[i] <= 122 && a[i] == b[i] + 32) by {
                assert(lower(a[i]) == lower(b[i]));
            }
        }
    }
}

/// Bytes begin with a text exactly when they are its UTF-8 form and more.
pub proof fn law_spells(buf: Seq<u8>, text: Seq<char>, rest: Seq<u8>)
    ensures
        spells(encode_utf8(text) + rest, text),
        spells(buf, text) <==> buf.len() >= encode_utf8(text).len() && buf.take(
            encode_utf8(text).len() as int,
        ) == encode_utf8(text),
{
    let want = encode_utf8(text);
    assert((want + rest).take(want.len() as int) =~= want);
    if buf.len() >= want.len() && buf.take(want.len() as int) == want {
        assert forall|i: int| 0 <= i < want.len() implies want[i] == buf[i] by {
            assert(buf.take(want.len() as int)[i] == buf[i]);
        }
    }
    if spells(buf, text) {
        assert(buf.take(want.len() as int) =~= want);
    }
}

/// Two bytes in network order, and back.
pub proof fn law_be16(hi: u8, lo: u8, v: u16)
    ensures
        be16(hi, lo) == 256 * hi + lo,
        be16((v / 256) as u8, (v % 256) as u8) == v,
{
}

/// What two sequences lack, both in a row lack.
pub proof fn lemma_lacks_add<A>(a: Seq<A>, b: Seq<A>, x: A)
    requires
        !a.contains(x),
        !b.contains(x),
    ensures
        !(a + b).contains(x),
{
    let s = a + b;
    if s.contains(x) {
        let i = choose|i: int| 0 <= i < s.len() && s[i] == x;
        if i < a.len() {
            assert(a[i] == x);
        } else {
            assert(b[i - a.len()] == x);
        }
    }
}

} // verus!
