//! Text as sequences of characters: decoding, trimming, splitting, ordering
//! and hexadecimal.

use vstd::prelude::*;
use vstd::utf8::*;

use crate::scan;

verus! {

/// `String::push` appends one character.
pub assume_specification[ String::push ](s: &mut String, c: char)
    ensures
        final(s)@ == old(s)@.push(c),
;

/// `core::str::from_utf8` accepts exactly the byte sequences that are
/// well-formed UTF-8 and yields the characters that they encode.
#[verifier::external_body]
fn utf8_str(bytes: &[u8]) -> (r: Option<&str>)
    ensures
        r is Some <==> valid_utf8(bytes@),
        r matches Some(s) ==> s@ == decode_utf8(bytes@),
{
    core::str::from_utf8(bytes).ok()
}

/// An optional string as an optional character sequence.
pub open spec fn text_of(s: Option<String>) -> Option<Seq<char>> {
    match s {
        Some(s) => Some(s@),
        None => None,
    }
}

/// The characters that `bytes` encode, when they are UTF-8.
pub open spec fn decoded(bytes: Seq<u8>) -> Option<Seq<char>> {
    if valid_utf8(bytes) {
        Some(decode_utf8(bytes))
    } else {
        None
    }
}

/// The characters of a string.
pub fn chars_of(s: &str) -> (r: Vec<char>)
    ensures
        r@ == s@,
{
    let mut r: Vec<char> = Vec::new();
    for c in it: s.chars()
        invariant
            r@ == it.seq().take(it.index() as int),
            it.seq() == s@,
    {
        r.push(c);
        assert(it.seq().take(it.index() + 1) == it.seq().take(it.index() as int).push(c));
    }
    assert(s@.take(s@.len() as int) == s@);
    r
}

/// The string that holds the given characters.
pub fn string_of(chars: &[char]) -> (r: String)
    ensures
        r@ == chars@,
{
    let mut r = String::new();
    let mut i: usize = 0;
    while i < chars.len()
        invariant
            i <= chars@.len(),
            r@ == chars@.take(i as int),
        decreases chars@.len() - i,
    {
        r.push(chars[i]);
        assert(chars@.take(i + 1) == chars@.take(i as int).push(chars@[i as int]));
        i = i + 1;
    }
    assert(chars@.take(i as int) == chars@);
    r
}

/// Decodes `bytes` as UTF-8.
pub fn decode(bytes: &[u8]) -> (r: Option<Vec<char>>)
    ensures
        r is Some <==> decoded(bytes@) is Some,
        r matches Some(t) ==> t@ == decode_utf8(bytes@),
{
    match utf8_str(bytes) {
        Some(s) => Some(chars_of(s)),
        None => None,
    }
}

/// Whether two character slices spell the same text.
pub fn same_chars(a: &[char], b: &[char]) -> (r: bool)
    ensures
        r == (a@ == b@),
{
    if a.len() != b.len() {
        return false;
    }
    let mut i: usize = 0;
    while i < a.len()
        invariant
            a@.len() == b@.len(),
            i <= a@.len(),
            forall|j: int| 0 <= j < i ==> a@[j] == b@[j],
        decreases a@.len() - i,
    {
        if a[i] != b[i] {
            return false;
        }
        i = i + 1;
    }
    assert(a@ =~= b@);
    true
}

/// Whether `a` spells `text`.
pub fn is_text(a: &[char], text: &str) -> (r: bool)
    ensures
        r == (a@ == text@),
{
    same_chars(a, chars_of(text).as_slice())
}

/// Whether `needle` occurs somewhere in `t`.
pub open spec fn contains(t: Seq<char>, needle: Seq<char>) -> bool {
    exists|k: int| scan::occurs_at(t, needle, k)
}

/// Whether `needle` stands in `t` at position `k`.
pub fn text_at(t: &[char], needle: &str, k: usize) -> (r: bool)
    ensures
        r == scan::occurs_at(t@, needle@, k as int),
{
    let want = chars_of(needle);
    if k > t.len() || t.len() - k < want.len() {
        return false;
    }
    same_chars(&t[k..k + want.len()], want.as_slice())
}

/// Whether `needle` occurs somewhere in `t`.
pub fn contains_text(t: &[char], needle: &str) -> (r: bool)
    ensures
        r == contains(t@, needle@),
{
    let mut k: usize = 0;
    while k < t.len()
        invariant
            k <= t@.len(),
            forall|j: int| 0 <= j < k ==> !scan::occurs_at(t@, needle@, j),
        decreases t@.len() - k,
    {
        if text_at(t, needle, k) {
            return true;
        }
        k = k + 1;
    }
    text_at(t, needle, k)
}

/// The Unicode `White_Space` property.
pub open spec fn white_space(c: char) -> bool {
    ||| '\u{9}' <= c <= '\u{d}'
    ||| c == ' '
    ||| c == '\u{85}'
    ||| c == '\u{a0}'
    ||| c == '\u{1680}'
    ||| '\u{2000}' <= c <= '\u{200a}'
    ||| c == '\u{2028}'
    ||| c == '\u{2029}'
    ||| c == '\u{202f}'
    ||| c == '\u{205f}'
    ||| c == '\u{3000}'
}

/// Whether `c` has the Unicode `White_Space` property.
pub fn is_white_space(c: char) -> (r: bool)
    ensures
        r == white_space(c),
{
    ('\u{9}' <= c && c <= '\u{d}') || c == ' ' || c == '\u{85}' || c == '\u{a0}' || c == '\u{1680}'
        || ('\u{2000}' <= c && c <= '\u{200a}') || c == '\u{2028}' || c == '\u{2029}' || c
        == '\u{202f}' || c == '\u{205f}' || c == '\u{3000}'
}

/// The position of the first character that is not white space.
pub open spec fn blank_end(t: Seq<char>) -> int {
    scan::index_where(t, |c: char| !white_space(c))
}

/// The position of the first white space.
pub open spec fn word_end(t: Seq<char>) -> int {
    scan::index_where(t, |c: char| white_space(c))
}

/// `t` without the white space at its end.
pub open spec fn trim_end(t: Seq<char>) -> Seq<char>
    decreases t.len(),
{
    if t.len() > 0 && white_space(t.last()) {
        trim_end(t.drop_last())
    } else {
        t
    }
}

/// `t` without the white space at either end.
pub open spec fn trimmed(t: Seq<char>) -> Seq<char> {
    trim_end(t.skip(blank_end(t)))
}

fn find_non_blank(t: &[char], from: usize) -> (r: usize)
    requires
        from <= t@.len(),
    ensures
        from <= r <= t@.len(),
        r - from == blank_end(t@.skip(from as int)),
{
    let mut i: usize = from;
    while i < t.len() && is_white_space(t[i])
        invariant
            from <= i <= t@.len(),
            forall|j: int| from <= j < i ==> white_space(#[trigger] t@[j]),
        decreases t@.len() - i,
    {
        i = i + 1;
    }
    proof {
        let u = t@.skip(from as int);
        assert forall|j: int| 0 <= j < i - from implies white_space(#[trigger] u[j]) by {
            assert(u[j] == t@[from + j]);
        }
        scan::lemma_index_where_is(u, |c: char| !white_space(c), i - from);
    }
    i
}

fn find_blank(t: &[char], from: usize) -> (r: usize)
    requires
        from <= t@.len(),
    ensures
        from <= r <= t@.len(),
        r - from == word_end(t@.skip(from as int)),
{
    let mut i: usize = from;
    while i < t.len() && !is_white_space(t[i])
        invariant
            from <= i <= t@.len(),
            forall|j: int| from <= j < i ==> !white_space(#[trigger] t@[j]),
        decreases t@.len() - i,
    {
        i = i + 1;
    }
    proof {
        let u = t@.skip(from as int);
        assert forall|j: int| 0 <= j < i - from implies !white_space(#[trigger] u[j]) by {
            assert(u[j] == t@[from + j]);
        }
        scan::lemma_index_where_is(u, |c: char| white_space(c), i - from);
    }
    i
}

/// The part of `t` between the white space at its two ends.
pub fn trim(t: &[char]) -> (r: &[char])
    ensures
        r@ == trimmed(t@),
{
    let a = find_non_blank(t, 0);
    assert(t@.skip(0) == t@);
    let mut b: usize = t.len();
    let ghost u = t@.skip(a as int);
    assert(t@.subrange(a as int, b as int) == u);
    while a < b && is_white_space(t[b - 1])
        invariant
            a <= b <= t@.len(),
            u == t@.skip(a as int),
            trim_end(t@.subrange(a as int, b as int)) == trim_end(u),
        decreases b,
    {
        let ghost s = t@.subrange(a as int, b as int);
        assert(s.last() == t@[b - 1]);
        assert(s.drop_last() == t@.subrange(a as int, b - 1));
        b = b - 1;
    }
    assert(a < b ==> t@.subrange(a as int, b as int).last() == t@[b - 1]);
    &t[a..b]
}

/// The maximal runs of characters other than white space, in order.
pub open spec fn words(t: Seq<char>) -> Seq<Seq<char>>
    decreases t.len(),
{
    let u = t.skip(blank_end(t));
    if word_end(u) == 0 {
        seq![]
    } else {
        proof {
            scan::lemma_index_where(t, |c: char| !white_space(c));
            scan::lemma_index_where(u, |c: char| white_space(c));
        }
        seq![u.take(word_end(u))] + words(u.skip(word_end(u)))
    }
}

/// The texts that a list of character slices spell.
pub open spec fn texts(list: Seq<&[char]>) -> Seq<Seq<char>> {
    list.map_values(|w: &[char]| w@)
}

/// Splits `t` at white space.
pub fn split_words(t: &[char]) -> (r: Vec<&[char]>)
    ensures
        texts(r@) == words(t@),
{
    let mut r: Vec<&[char]> = Vec::new();
    let mut i: usize = 0;
    assert(t@.skip(0) == t@);
    assert(texts(r@) + words(t@) == words(t@));
    while i < t.len()
        invariant
            i <= t@.len(),
            texts(r@) + words(t@.skip(i as int)) == words(t@),
        decreases t@.len() - i,
    {
        let ghost rest = t@.skip(i as int);
        let a = find_non_blank(t, i);
        let b = find_blank(t, a);
        let ghost u = rest.skip(a - i);
        assert(u == t@.skip(a as int));
        if a == b {
            proof {
                scan::lemma_index_where(rest, |c: char| !white_space(c));
                scan::lemma_index_where(u, |c: char| white_space(c));
                assert(words(rest) == Seq::<Seq<char>>::empty());
                assert(words(t@.skip(t@.len() as int)) == Seq::<Seq<char>>::empty()) by {
                    let e = t@.skip(t@.len() as int);
                    assert(e.skip(blank_end(e)).len() == 0);
                }
            }
            i = t.len();
        } else {
            let ghost before = r@;
            let w = &t[a..b];
            r.push(w);
            proof {
                assert(w@ == u.take(b - a));
                assert(u.skip(b - a) == t@.skip(b as int));
                assert(texts(r@) == texts(before).push(w@));
                assert(texts(before) + (seq![w@] + words(t@.skip(b as int))) == texts(r@) + words(
                    t@.skip(b as int),
                ));
            }
            i = b;
        }
    }
    proof {
        let e = t@.skip(i as int);
        assert(e.skip(blank_end(e)).len() == 0);
        assert(texts(r@) + words(e) == texts(r@));
    }
    r
}

/// The lower-case form of an ASCII letter; other characters stay as they are.
pub open spec fn lower(c: char) -> char {
    if 'A' <= c <= 'Z' {
        (c as int + 32) as char
    } else {
        c
    }
}

/// The lower-case form of an ASCII letter.
pub fn to_lower(c: char) -> (r: char)
    ensures
        r == lower(c),
{
    if 'A' <= c && c <= 'Z' {
        ((c as u8) + 32) as char
    } else {
        c
    }
}

/// The lower-case hexadecimal digit of `n`.
pub open spec fn hex_digit(n: int) -> char {
    if n < 10 {
        (48 + n) as char
    } else {
        (87 + n) as char
    }
}

/// The lower-case hexadecimal digit of `n`.
pub fn nibble_to_hex(n: u8) -> (r: char)
    requires
        n < 16,
    ensures
        r == hex_digit(n as int),
{
    if n < 10 {
        (48 + n) as char
    } else {
        (87 + n) as char
    }
}

/// Two lower-case hexadecimal digits for every byte.
pub open spec fn hex(bytes: Seq<u8>) -> Seq<char>
    decreases bytes.len(),
{
    if bytes.len() == 0 {
        seq![]
    } else {
        hex(bytes.drop_last()) + seq![
            hex_digit(bytes.last() as int / 16),
            hex_digit(bytes.last() as int % 16),
        ]
    }
}

/// Hexadecimal text has two characters for every byte.
pub proof fn lemma_hex_len(bytes: Seq<u8>)
    ensures
        hex(bytes).len() == 2 * bytes.len(),
    decreases bytes.len(),
{
    if bytes.len() > 0 {
        lemma_hex_len(bytes.drop_last());
    }
}

/// Two lower-case hexadecimal digits for every byte.
pub fn hex_encode(bytes: &[u8]) -> (r: String)
    ensures
        r@ == hex(bytes@),
{
    let mut r = String::new();
    let mut i: usize = 0;
    while i < bytes.len()
        invariant
            i <= bytes@.len(),
            r@ == hex(bytes@.take(i as int)),
        decreases bytes@.len() - i,
    {
        let b = bytes[i];
        r.push(nibble_to_hex(b / 16));
        r.push(nibble_to_hex(b % 16));
        proof {
            let next = bytes@.take(i + 1);
            assert(next.drop_last() == bytes@.take(i as int));
            assert(r@ =~= hex(next));
        }
        i = i + 1;
    }
    assert(bytes@.take(i as int) == bytes@);
    r
}

/// Whether `a` and `b` agree in front of position `k`, where `a` ends or has
/// the smaller character.
pub open spec fn less_at(a: Seq<char>, b: Seq<char>, k: int) -> bool {
    &&& 0 <= k <= a.len()
    &&& k < b.len()
    &&& forall|j: int| 0 <= j < k ==> #[trigger] a[j] == b[j]
    &&& k < a.len() ==> a[k] < b[k]
}

/// The lexicographic order of texts.
pub open spec fn precedes(a: Seq<char>, b: Seq<char>) -> bool {
    exists|k: int| less_at(a, b, k)
}

/// `precedes` orders any two texts in exactly one way: one of them comes
/// first or they are the same.
pub proof fn lemma_precedes_trichotomy(a: Seq<char>, b: Seq<char>)
    ensures
        precedes(a, b) || precedes(b, a) || a == b,
        !(precedes(a, b) && precedes(b, a)),
        precedes(a, b) ==> a != b,
{
    if !precedes(a, b) && !precedes(b, a) {
        let n = if a.len() <= b.len() {
            a.len() as int
        } else {
            b.len() as int
        };
        lemma_common_start(a, b, n);
        assert(less_at(a, b, n) || less_at(b, a, n) || a.len() == b.len());
        assert(a =~= b);
    }
    if precedes(a, b) && precedes(b, a) {
        let i = choose|k: int| less_at(a, b, k);
        let j = choose|k: int| less_at(b, a, k);
        if i < j {
            assert(b[i] == a[i]);
        } else if j < i {
            assert(a[j] == b[j]);
        }
        assert(false);
    }
    if precedes(a, b) && a == b {
        let i = choose|k: int| less_at(a, b, k);
        assert(false);
    }
}

proof fn lemma_common_start(a: Seq<char>, b: Seq<char>, n: int)
    requires
        !precedes(a, b),
        !precedes(b, a),
        0 <= n <= a.len(),
        n <= b.len(),
    ensures
        forall|j: int| 0 <= j < n ==> #[trigger] a[j] == b[j],
    decreases n,
{
    if n > 0 {
        lemma_common_start(a, b, n - 1);
        assert(!less_at(a, b, n - 1));
        assert(!less_at(b, a, n - 1));
        assert(a[n - 1] == b[n - 1]);
    }
}

/// `precedes` is transitive.
pub proof fn lemma_precedes_transitive(a: Seq<char>, b: Seq<char>, c: Seq<char>)
    requires
        precedes(a, b),
        precedes(b, c),
    ensures
        precedes(a, c),
{
    let i = choose|k: int| less_at(a, b, k);
    let j = choose|k: int| less_at(b, c, k);
    let m = if i <= j {
        i
    } else {
        j
    };
    assert forall|l: int| 0 <= l < m implies #[trigger] a[l] == c[l] by {
        assert(a[l] == b[l]);
        assert(b[l] == c[l]);
    }
    if i < j {
        assert(b[i] == c[i]);
    } else if j < i {
        assert(a[j] == b[j]);
    }
    assert(less_at(a, c, m));
}

/// How one text stands to another in lexicographic order.
#[derive(Debug, Clone, Copy, PartialEq, Eq)]
pub enum Order {
    Before,
    Same,
    After,
}

/// How `a` stands to `b` in lexicographic order.
pub fn order_of(a: &[char], b: &[char]) -> (r: Order)
    ensures
        r is Before <==> precedes(a@, b@),
        r is Same <==> a@ == b@,
        r is After <==> precedes(b@, a@),
{
    proof {
        lemma_precedes_trichotomy(a@, b@);
        lemma_precedes_trichotomy(b@, a@);
    }
    let mut k: usize = 0;
    while k < a.len() && k < b.len() && a[k] == b[k]
        invariant
            k <= a@.len(),
            k <= b@.len(),
            forall|j: int| 0 <= j < k ==> #[trigger] a@[j] == b@[j],
        decreases a@.len() - k,
    {
        k = k + 1;
    }
    if k == a.len() && k == b.len() {
        assert(a@ =~= b@);
        Order::Same
    } else if k < b.len() && (k == a.len() || a[k] < b[k]) {
        assert(less_at(a@, b@, k as int));
        Order::Before
    } else {
        assert(less_at(b@, a@, k as int));
        Order::After
    }
}

/// Bytes decode to a text exactly when they are its UTF-8 form.
pub proof fn law_decoding(t: Seq<char>, bytes: Seq<u8>)
    ensures
        decoded(encode_utf8(t)) == Some(t),
        decoded(bytes) == Some(t) ==> bytes == encode_utf8(t),
{
    encode_utf8_valid_utf8(t);
    encode_utf8_decode_utf8(t);
    if valid_utf8(bytes) {
        decode_utf8_encode_utf8(bytes);
    }
}

/// A text holds another exactly when it is that other with something, or
/// nothing, on both sides.
pub proof fn law_contains(t: Seq<char>, needle: Seq<char>, a: Seq<char>, b: Seq<char>)
    ensures
        contains(a + needle + b, needle),
        contains(t, needle) ==> exists|x: Seq<char>, y: Seq<char>| t == #[trigger] (x + needle + y),
{
    let s = a + needle + b;
    assert(s.subrange(a.len() as int, a.len() as int + needle.len()) =~= needle);
    assert(scan::occurs_at(s, needle, a.len() as int));
    if contains(t, needle) {
        let k = choose|k: int| scan::occurs_at(t, needle, k);
        let x = t.take(k);
        let y = t.skip(k + needle.len());
        assert forall|i: int| k <= i < k + needle.len() implies t[i] == needle[i - k] by {
            assert(t.subrange(k, k + needle.len())[i - k] == t[i]);
        }
        assert(t =~= x + needle + y);
    }
}

/// Whether `t` is white space through and through.
pub open spec fn blank(t: Seq<char>) -> bool {
    forall|i: int| 0 <= i < t.len() ==> white_space(#[trigger] t[i])
}

proof fn lemma_trim_end_drops(t: Seq<char>, b: Seq<char>)
    requires
        blank(b),
        t.len() > 0 ==> !white_space(t.last()),
    ensures
        trim_end(t + b) == t,
    decreases b.len(),
{
    let s = t + b;
    if b.len() > 0 {
        assert(s.last() == b.last());
        assert(white_space(b[b.len() - 1]));
        assert(s.drop_last() =~= t + b.drop_last());
        lemma_trim_end_drops(t, b.drop_last());
    } else {
        assert(s =~= t);
    }
}

/// Trimming takes the white space off both ends and nothing else.
pub proof fn law_trim(a: Seq<char>, t: Seq<char>, b: Seq<char>)
    requires
        blank(a),
        blank(b),
        t.len() > 0 ==> !white_space(t[0]) && !white_space(t.last()),
    ensures
        trimmed(a + t + b) == t,
{
    let s = a + t + b;
    let p = |c: char| !white_space(c);
    if t.len() > 0 {
        assert forall|j: int| 0 <= j < a.len() implies !p(#[trigger] s[j]) by {
            assert(s[j] == a[j]);
        }
        assert(s[a.len() as int] == t[0]);
        scan::lemma_index_where_is(s, p, a.len() as int);
        assert(s.skip(a.len() as int) =~= t + b);
        lemma_trim_end_drops(t, b);
    } else {
        assert forall|j: int| 0 <= j < s.len() implies !p(#[trigger] s[j]) by {
            if j < a.len() {
                assert(s[j] == a[j]);
            } else {
                assert(s[j] == b[j - a.len()]);
            }
        }
        scan::lemma_index_where_is(s, p, s.len() as int);
        assert(s.skip(s.len() as int) =~= t);
    }
}

/// Splitting takes the first word off, whatever white space stands in front
/// of it, and goes on behind it; white space alone has no words.
pub proof fn law_words(a: Seq<char>, w: Seq<char>, rest: Seq<char>)
    requires
        blank(a),
        w.len() > 0,
        forall|i: int| 0 <= i < w.len() ==> !white_space(#[trigger] w[i]),
        rest.len() > 0 ==> white_space(rest[0]),
    ensures
        words(a + w + rest) == seq![w] + words(rest),
        words(a) == Seq::<Seq<char>>::empty(),
{
    let s = a + w + rest;
    let p = |c: char| !white_space(c);
    let q = |c: char| white_space(c);
    assert forall|j: int| 0 <= j < a.len() implies !p(#[trigger] s[j]) by {
        assert(s[j] == a[j]);
    }
    assert(s[a.len() as int] == w[0]);
    scan::lemma_index_where_is(s, p, a.len() as int);
    let u = s.skip(a.len() as int);
    assert(u =~= w + rest);
    assert forall|j: int| 0 <= j < w.len() implies !q(#[trigger] u[j]) by {
        assert(u[j] == w[j]);
    }
    assert(w.len() < u.len() ==> u[w.len() as int] == rest[0]);
    scan::lemma_index_where_is(u, q, w.len() as int);
    assert(u.take(w.len() as int) =~= w);
    assert(u.skip(w.len() as int) =~= rest);
    scan::lemma_index_where_is(a, p, a.len() as int);
    scan::lemma_index_where(a.skip(a.len() as int), q);
}

/// Every byte is written as the two digits of its high and low half.
pub proof fn law_hex(bytes: Seq<u8>, i: int)
    requires
        0 <= i < bytes.len(),
    ensures
        hex(bytes).len() == 2 * bytes.len(),
        hex(bytes)[2 * i] == "0123456789abcdef"@[bytes[i] as int / 16],
        hex(bytes)[2 * i + 1] == "0123456789abcdef"@[bytes[i] as int % 16],
    decreases bytes.len(),
{
    lemma_hex_len(bytes);
    lemma_hex_len(bytes.drop_last());
    if i == bytes.len() - 1 {
        lemma_hex_digits(bytes[i] as int / 16);
        lemma_hex_digits(bytes[i] as int % 16);
    } else {
        law_hex(bytes.drop_last(), i);
    }
}

/// The sixteen digits.
pub proof fn lemma_hex_digits(n: int)
    requires
        0 <= n < 16,
    ensures
        hex_digit(n) == "0123456789abcdef"@[n],
{
    reveal_strlit("0123456789abcdef");
}

/// Behind a common beginning the smaller character decides, and where one
/// text ends it comes first.
pub proof fn law_lexicographic(p: Seq<char>, c: char, x: Seq<char>, d: char, y: Seq<char>)
    ensures
        c < d ==> precedes(p + seq![c] + x, p + seq![d] + y),
        precedes(p, p + seq![d] + y),
{
    let a = p + seq![c] + x;
    let b = p + seq![d] + y;
    let k = p.len() as int;
    assert(forall|j: int| 0 <= j < k ==> #[trigger] a[j] == b[j]);
    assert(a[k] == c && b[k] == d);
    if c < d {
        assert(less_at(a, b, k));
    }
    assert(less_at(p, b, k));
}

/// Two characters have the same lower-case form exactly when they are the
/// same or the two cases of an ASCII letter.
pub proof fn law_lower(a: char, b: char)
    ensures
        lower(a) == lower(b) <==> a == b || ('A' <= a <= 'Z' && b as int == a as int + 32) || ('a'
            <= a <= 'z' && a as int == b as int + 32),
{
}

/// Texts in a row are encoded one by one.
pub proof fn lemma_encode_add(a: Seq<char>, b: Seq<char>)
    ensures
        encode_utf8(a + b) == encode_utf8(a) + encode_utf8(b),
    decreases a.len(),
{
    if a.len() == 0 {
        assert(a + b =~= b);
        assert(encode_utf8(a) + encode_utf8(b) =~= encode_utf8(b));
    } else {
        let rest = a.drop_first();
        lemma_encode_add(rest, b);
        assert((a + b).drop_first() =~= rest + b);
        assert(encode_utf8(a + b) =~= encode_utf8(a) + encode_utf8(b));
    }
}

/// A character other than an ASCII one has no byte below 128, and an ASCII
/// one is its own byte.
proof fn lemma_encode_scalar_bytes(c: u32, i: int)
    requires
        0 <= i < encode_scalar(c).len(),
    ensures
        c < 128 ==> encode_scalar(c)[i] == c,
        c >= 128 ==> encode_scalar(c)[i] >= 128,
{
    assert(c < 128 ==> (c & 0x7F) as u8 == c) by (bit_vector);
    assert((0xC0u8 | ((c >> 6) & 0x1F) as u8) >= 128 && (0xE0u8 | ((c >> 12) & 0x0F) as u8) >= 128
        && (0xF0u8 | ((c >> 18) & 0x7) as u8) >= 128 && (0x80u8 | (c & 0x3F) as u8) >= 128 && (
    0x80u8 | ((c >> 6) & 0x3F) as u8) >= 128 && (0x80u8 | ((c >> 12) & 0x3F) as u8) >= 128)
        by (bit_vector);
}

/// An ASCII byte that is no character of a text is no byte of its UTF-8 form.
pub proof fn lemma_encode_lacks(t: Seq<char>, b: u8)
    requires
        b < 128,
        !t.contains(b as char),
    ensures
        !encode_utf8(t).contains(b),
    decreases t.len(),
{
    if t.len() > 0 {
        let rest = t.drop_first();
        assert(!rest.contains(b as char)) by {
            if rest.contains(b as char) {
                let i = choose|i: int| 0 <= i < rest.len() && rest[i] == b as char;
                assert(t[i + 1] == b as char);
            }
        }
        lemma_encode_lacks(rest, b);
        let first = encode_scalar(t[0] as u32);
        let bytes = encode_utf8(t);
        if bytes.contains(b) {
            let i = choose|i: int| 0 <= i < bytes.len() && bytes[i] == b;
            if i < first.len() {
                let c = t[0] as u32;
                lemma_encode_scalar_bytes(c, i);
                assert(first[i] == bytes[i]);
                assert(c == b);
                char_u32_cast(t[0], c);
                assert(t[0] == b as char);
                assert(t.contains(t[0]));
            } else {
                assert(encode_utf8(rest)[i - first.len()] == b);
                assert(encode_utf8(rest).contains(b));
            }
            assert(false);
        }
    }
}

/// A list of slices spells what its slices spell, one by one.
pub proof fn law_texts(list: Seq<&[char]>, i: int)
    requires
        0 <= i < list.len(),
    ensures
        texts(list).len() == list.len(),
        texts(list)[i] == list[i]@,
{
}

} // verus!
