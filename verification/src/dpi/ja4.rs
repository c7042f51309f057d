//! JA4 fingerprints of TLS ClientHellos.
//!
//! A fingerprint has the form `a_b_c`, of 10, 12 and 12 characters:
//!
//! - `a` is readable: the transport (`t` or `q`), the TLS version, whether a
//!   server name was sent (`d` or `i`), the number of cipher suites and of
//!   extensions in two digits each, and a two-character ALPN hint;
//! - `b` is the start of the SHA-256 digest of the cipher suites, ascending;
//! - `c` is the start of the SHA-256 digest of the extensions, ascending and
//!   without server name and ALPN, and the signature algorithms in the order
//!   they were sent.
//!
//! GREASE values (RFC 8701) count nowhere.

use ring::digest;
use vstd::arithmetic::div_mod::*;
use vstd::prelude::*;
use vstd::relations::*;
use vstd::seq_lib::*;
use vstd::utf8::*;

use crate::scan;
use crate::text;

verus! {

/// What a fingerprint is computed from, as sent on the wire.
pub struct Ja4Input<'a> {
    /// `false` for TLS over TCP, `true` for QUIC.
    pub is_quic: bool,
    /// Highest TLS version offered, such as 0x0304 for TLS 1.3.
    pub tls_version: u16,
    /// Whether the ClientHello carried a host name.
    pub sni_present: bool,
    /// The first ALPN value, if any.
    pub alpn_first: Option<&'a [u8]>,
    /// Cipher suites in wire order.
    pub ciphers: &'a [u16],
    /// Extension types in wire order.
    pub extensions: &'a [u16],
    /// Signature algorithms in wire order.
    pub signature_algorithms: &'a [u16],
}

/// A [`Ja4Input`] with its slices as sequences.
pub struct Ja4View {
    pub is_quic: bool,
    pub tls_version: u16,
    pub sni_present: bool,
    pub alpn_first: Option<Seq<u8>>,
    pub ciphers: Seq<u16>,
    pub extensions: Seq<u16>,
    pub signature_algorithms: Seq<u16>,
}

impl<'a> View for Ja4Input<'a> {
    type V = Ja4View;

    open spec fn view(&self) -> Ja4View {
        Ja4View {
            is_quic: self.is_quic,
            tls_version: self.tls_version,
            sni_present: self.sni_present,
            alpn_first: match self.alpn_first {
                Some(b) => Some(b@),
                None => None,
            },
            ciphers: self.ciphers@,
            extensions: self.extensions@,
            signature_algorithms: self.signature_algorithms@,
        }
    }
}

/// RFC 8701 GREASE: two equal bytes whose low nibble is 0xA.
pub open spec fn grease(v: u16) -> bool {
    v / 256 == v % 256 && v % 16 == 10
}

/// Whether `v` is one of the sixteen GREASE values of RFC 8701.
pub fn is_grease(v: u16) -> (r: bool)
    ensures
        r == grease(v),
{
    v / 256 == v % 256 && v % 16 == 10
}

/// The two-character form of a TLS version.
pub open spec fn version_text(v: u16) -> Seq<char> {
    if v == 0x0304 {
        "13"@
    } else if v == 0x0303 {
        "12"@
    } else if v == 0x0302 {
        "11"@
    } else if v == 0x0301 {
        "10"@
    } else if v == 0x0300 {
        "s3"@
    } else {
        "00"@
    }
}

/// The two-character form of a TLS version.
pub fn tls_version_str(v: u16) -> (r: &'static str)
    ensures
        r@ == version_text(v),
{
    match v {
        0x0304 => "13",
        0x0303 => "12",
        0x0302 => "11",
        0x0301 => "10",
        0x0300 => "s3",
        _ => "00",
    }
}

/// An ASCII letter or digit.
pub open spec fn alphanumeric(b: u8) -> bool {
    48 <= b <= 57 || 65 <= b <= 90 || 97 <= b <= 122
}

fn is_alphanumeric(b: u8) -> (r: bool)
    ensures
        r == alphanumeric(b),
{
    (48 <= b && b <= 57) || (65 <= b && b <= 90) || (97 <= b && b <= 122)
}

/// The first and last character of an ALPN value, or `00` when there is none
/// or one of them is not a letter or digit.
pub open spec fn alpn_text(alpn: Option<Seq<u8>>) -> Seq<char> {
    match alpn {
        Some(b) => if b.len() > 0 && alphanumeric(b[0]) && alphanumeric(b.last()) {
            seq![b[0] as char, b.last() as char]
        } else {
            "00"@
        },
        None => "00"@,
    }
}

/// The ALPN hint of a fingerprint.
pub fn alpn_hint(alpn: Option<&[u8]>) -> (r: String)
    ensures
        r@ == alpn_text(match alpn {
            Some(b) => Some(b@),
            None => None,
        }),
{
    let bytes = match alpn {
        Some(b) => b,
        None => return "00".to_string(),
    };
    if bytes.len() == 0 {
        return "00".to_string();
    }
    let first = bytes[0];
    let last = bytes[bytes.len() - 1];
    if !is_alphanumeric(first) || !is_alphanumeric(last) {
        return "00".to_string();
    }
    let mut s = String::new();
    s.push(first as char);
    s.push(last as char);
    assert(s@ =~= seq![first as char, last as char]);
    s
}

/// The SHA-256 digest of `data`.
pub uninterp spec fn sha256_digest(data: Seq<u8>) -> Seq<u8>;

/// `ring::digest::digest` with `ring::digest::SHA256`: the SHA-256 digest of
/// `data`, which has 32 bytes. It panics when the bit length of `data` does
/// not fit in 64 bits.
#[verifier::external_body]
fn sha256(data: &[u8]) -> (r: Vec<u8>)
    requires
        data@.len() * 8 <= u64::MAX,
    ensures
        r@ == sha256_digest(data@),
        r@.len() == 32,
{
    digest::digest(&digest::SHA256, data).as_ref().to_vec()
}

/// Whether `t` is short enough to hash: SHA-256 counts its bits in 64 bits.
pub open spec fn hashable(t: Seq<char>) -> bool {
    encode_utf8(t).len() * 8 <= u64::MAX
}

/// Lists of up to this many numbers have texts that are short enough to hash,
/// at five characters for a number and eight bits for a character.
pub const LIST_LIMIT: u64 = 0x0600_0000_0000_0000;

/// The digest of the UTF-8 form of `t`.
pub open spec fn text_digest(t: Seq<char>) -> Seq<u8> {
    sha256_digest(encode_utf8(t))
}

/// The first twelve hexadecimal digits of a digest.
pub open spec fn short_hex(digest: Seq<u8>) -> Seq<char> {
    text::hex(digest.take(6))
}

/// The first twelve hexadecimal digits of the SHA-256 digest of `input`.
pub fn sha256_truncated_12(input: &str) -> (r: String)
    requires
        hashable(input@),
    ensures
        r@ == short_hex(text_digest(input@)),
        r@.len() == 12,
{
    let hash = sha256(input.as_bytes());
    let start = &hash.as_slice()[0..6];
    assert(start@ == hash@.take(6));
    proof {
        text::lemma_hex_len(start@);
    }
    text::hex_encode(start)
}

/// The type codes of a list of extensions, each `type`, `length` and that
/// many bytes of data. A list that is cut off ends with the last type that
/// can be read.
pub open spec fn type_codes(ext_data: Seq<u8>) -> Seq<u16>
    decreases ext_data.len(),
{
    if ext_data.len() < 4 {
        seq![]
    } else {
        let code = scan::be16(ext_data[0], ext_data[1]);
        let next = 4 + scan::be16(ext_data[2], ext_data[3]);
        if next > ext_data.len() {
            seq![code]
        } else {
            seq![code] + type_codes(ext_data.skip(next))
        }
    }
}

/// Walks the bytes of an extension list and returns the type codes in order.
pub fn extension_type_codes(ext_data: &[u8]) -> (r: Vec<u16>)
    ensures
        r@ == type_codes(ext_data@),
{
    let mut types: Vec<u16> = Vec::new();
    let mut i: usize = 0;
    assert(ext_data@.skip(0) == ext_data@);
    assert(types@ + type_codes(ext_data@) == type_codes(ext_data@));
    while ext_data.len() - i >= 4
        invariant
            i <= ext_data@.len(),
            types@ + type_codes(ext_data@.skip(i as int)) == type_codes(ext_data@),
        decreases ext_data@.len() - i,
    {
        let ghost rest = ext_data@.skip(i as int);
        let ghost before = types@;
        let t = scan::read_be16(ext_data[i], ext_data[i + 1]);
        let len = scan::read_be16(ext_data[i + 2], ext_data[i + 3]) as usize;
        types.push(t);
        if len > ext_data.len() - i - 4 {
            assert(type_codes(rest) == seq![t]);
            assert(before + seq![t] == types@);
            return types;
        }
        proof {
            let tail = ext_data@.skip(i + 4 + len);
            assert(rest.skip(4 + len) == tail);
            assert(before + (seq![t] + type_codes(tail)) == types@ + type_codes(tail));
        }
        i = i + 4 + len;
    }
    assert(types@ + type_codes(ext_data@.skip(i as int)) == types@);
    types
}

/// The predicate that keeps what is not GREASE.
pub open spec fn not_grease() -> spec_fn(u16) -> bool {
    |v: u16| !grease(v)
}

/// The values of `list` that are not GREASE.
pub open spec fn no_grease(list: Seq<u16>) -> Seq<u16> {
    list.filter(not_grease())
}

fn without_grease(list: &[u16]) -> (r: Vec<u16>)
    ensures
        r@ == no_grease(list@),
{
    reveal(Seq::filter);
    let mut r: Vec<u16> = Vec::new();
    let mut i: usize = 0;
    while i < list.len()
        invariant
            i <= list@.len(),
            r@ == no_grease(list@.take(i as int)),
        decreases list@.len() - i,
    {
        assert(list@.take(i + 1).drop_last() == list@.take(i as int));
        reveal(Seq::filter);
        if !is_grease(list[i]) {
            r.push(list[i]);
        }
        i = i + 1;
    }
    assert(list@.take(i as int) == list@);
    r
}

/// The predicate that drops server name (0x0000) and ALPN (0x0010).
pub open spec fn not_named_in_a() -> spec_fn(u16) -> bool {
    |v: u16| v != 0x0000 && v != 0x0010
}

fn without_named_in_a(list: &[u16]) -> (r: Vec<u16>)
    ensures
        r@ == list@.filter(not_named_in_a()),
{
    reveal(Seq::filter);
    let mut r: Vec<u16> = Vec::new();
    let mut i: usize = 0;
    while i < list.len()
        invariant
            i <= list@.len(),
            r@ == list@.take(i as int).filter(not_named_in_a()),
        decreases list@.len() - i,
    {
        assert(list@.take(i + 1).drop_last() == list@.take(i as int));
        reveal(Seq::filter);
        if list[i] != 0x0000 && list[i] != 0x0010 {
            r.push(list[i]);
        }
        i = i + 1;
    }
    assert(list@.take(i as int) == list@);
    r
}

/// The numeric order of 16-bit values.
pub open spec fn no_larger() -> spec_fn(u16, u16) -> bool {
    |a: u16, b: u16| a <= b
}

/// `list` in ascending order.
pub open spec fn ascending(list: Seq<u16>) -> Seq<u16> {
    list.sort_by(no_larger())
}

/// An ordered arrangement of the values of `list` is the ascending one.
pub proof fn lemma_ascending_is(list: Seq<u16>, s: Seq<u16>)
    requires
        sorted_by(s, no_larger()),
        s.to_multiset() == list.to_multiset(),
    ensures
        s == ascending(list),
{
    list.lemma_sort_by_ensures(no_larger());
    lemma_sorted_unique(s, ascending(list), no_larger());
}

fn sorted_copy(list: &[u16]) -> (r: Vec<u16>)
    ensures
        r@ == ascending(list@),
{
    broadcast use group_to_multiset_ensures;

    let mut r: Vec<u16> = Vec::new();
    let mut i: usize = 0;
    while i < list.len()
        invariant
            i <= list@.len(),
            r@.len() == i,
            r@.to_multiset() == list@.take(i as int).to_multiset(),
            forall|a: int, b: int| 0 <= a < b < r@.len() ==> r@[a] <= r@[b],
        decreases list@.len() - i,
    {
        let x = list[i];
        let ghost before = r@;
        let mut k: usize = 0;
        while k < r.len() && r[k] <= x
            invariant
                k <= r@.len(),
                r@ == before,
                forall|a: int| 0 <= a < k ==> r@[a] <= x,
            decreases r@.len() - k,
        {
            k = k + 1;
        }
        r.insert(k, x);
        proof {
            assert(list@.take(i + 1) == list@.take(i as int).push(x));
            to_multiset_insert(before, k as int, x);
            to_multiset_build(list@.take(i as int), x);
        }
        i = i + 1;
    }
    proof {
        assert(list@.take(i as int) == list@);
        lemma_ascending_is(list@, r@);
    }
    r
}

/// Four lower-case hexadecimal digits.
pub open spec fn hex4(v: u16) -> Seq<char> {
    seq![
        text::hex_digit(v as int / 4096),
        text::hex_digit(v as int / 256 % 16),
        text::hex_digit(v as int / 16 % 16),
        text::hex_digit(v as int % 16),
    ]
}

/// The values of `list` in hexadecimal, separated by commas.
pub open spec fn comma_list(list: Seq<u16>) -> Seq<char>
    decreases list.len(),
{
    if list.len() == 0 {
        seq![]
    } else if list.len() == 1 {
        hex4(list[0])
    } else {
        comma_list(list.drop_last()) + seq![','] + hex4(list.last())
    }
}

fn push_comma_list(out: &mut String, list: &[u16])
    ensures
        final(out)@ == old(out)@ + comma_list(list@),
{
    let mut i: usize = 0;
    let ghost start = out@;
    assert(start + comma_list(list@.take(0)) == start);
    while i < list.len()
        invariant
            i <= list@.len(),
            out@ == start + comma_list(list@.take(i as int)),
        decreases list@.len() - i,
    {
        let v = list[i];
        let ghost done = list@.take(i as int);
        if i > 0 {
            out.push(',');
        }
        out.push(text::nibble_to_hex((v / 4096) as u8));
        out.push(text::nibble_to_hex((v / 256 % 16) as u8));
        out.push(text::nibble_to_hex((v / 16 % 16) as u8));
        out.push(text::nibble_to_hex((v % 16) as u8));
        proof {
            let next = list@.take(i + 1);
            assert(next.drop_last() == done);
            assert(next.last() == v);
            assert(out@ =~= start + comma_list(next));
        }
        i = i + 1;
    }
    assert(list@.take(i as int) == list@);
}

/// Two decimal digits for `n`, which stops at 99.
pub open spec fn two_digits(n: int) -> Seq<char> {
    let m = if n < 99 {
        n
    } else {
        99
    };
    seq![(48 + m / 10) as char, (48 + m % 10) as char]
}

fn push_two_digits(out: &mut String, n: usize)
    ensures
        final(out)@ == old(out)@ + two_digits(n as int),
{
    let m: u8 = if n < 99 {
        n as u8
    } else {
        99
    };
    let ghost start = out@;
    out.push((48 + m / 10) as char);
    out.push((48 + m % 10) as char);
    assert(out@ =~= start + two_digits(n as int));
}

impl Ja4View {
    /// The readable part of the fingerprint.
    pub open spec fn part_a(self) -> Seq<char> {
        seq![
            if self.is_quic {
                'q'
            } else {
                't'
            },
        ] + version_text(self.tls_version) + seq![
            if self.sni_present {
                'd'
            } else {
                'i'
            },
        ] + two_digits(no_grease(self.ciphers).len() as int) + two_digits(
            no_grease(self.extensions).len() as int,
        ) + alpn_text(self.alpn_first)
    }

    /// What the second part hashes: the cipher suites.
    pub open spec fn cipher_text(self) -> Seq<char> {
        comma_list(ascending(no_grease(self.ciphers)))
    }

    /// What the third part hashes: extensions and signature algorithms.
    pub open spec fn extension_text(self) -> Seq<char> {
        comma_list(ascending(no_grease(self.extensions).filter(not_named_in_a()))) + seq!['_']
            + comma_list(no_grease(self.signature_algorithms))
    }

    /// Whether the lists are short enough for their texts to be hashed.
    pub open spec fn fits(self) -> bool {
        &&& self.ciphers.len() <= LIST_LIMIT
        &&& self.extensions.len() + self.signature_algorithms.len() < LIST_LIMIT
    }

    /// The fingerprint, given the digests of the two texts.
    pub open spec fn fingerprint(self, ciphers: Seq<u8>, extensions: Seq<u8>) -> Seq<char> {
        self.part_a() + seq!['_'] + short_hex(ciphers) + seq!['_'] + short_hex(extensions)
    }
}

/// The text that the second part of a fingerprint hashes.
pub fn cipher_text(input: &Ja4Input) -> (r: String)
    ensures
        r@ == input@.cipher_text(),
{
    let ciphers = sorted_copy(without_grease(input.ciphers).as_slice());
    let mut out = String::new();
    push_comma_list(&mut out, ciphers.as_slice());
    assert(out@ =~= input@.cipher_text());
    out
}

/// The text that the third part of a fingerprint hashes.
pub fn extension_text(input: &Ja4Input) -> (r: String)
    ensures
        r@ == input@.extension_text(),
{
    let kept = without_named_in_a(without_grease(input.extensions).as_slice());
    let extensions = sorted_copy(kept.as_slice());
    let algorithms = without_grease(input.signature_algorithms);
    let mut out = String::new();
    push_comma_list(&mut out, extensions.as_slice());
    out.push('_');
    push_comma_list(&mut out, algorithms.as_slice());
    assert(out@ =~= input@.extension_text());
    out
}

/// Puts a fingerprint together from the digests of its two texts.
pub fn assemble_ja4(input: &Ja4Input, cipher_digest: &[u8], extension_digest: &[u8]) -> (r: String)
    requires
        cipher_digest@.len() >= 6,
        extension_digest@.len() >= 6,
    ensures
        r@ == input@.fingerprint(cipher_digest@, extension_digest@),
{
    let ciphers = without_grease(input.ciphers);
    let extensions = without_grease(input.extensions);
    let mut out = String::new();
    out.push(
        if input.is_quic {
            'q'
        } else {
            't'
        },
    );
    out.append(tls_version_str(input.tls_version));
    out.push(
        if input.sni_present {
            'd'
        } else {
            'i'
        },
    );
    push_two_digits(&mut out, ciphers.len());
    push_two_digits(&mut out, extensions.len());
    let hint = alpn_hint(input.alpn_first);
    out.append(hint.as_str());
    assert(out@ =~= input@.part_a());
    let b = &cipher_digest[0..6];
    let c = &extension_digest[0..6];
    assert(b@ == cipher_digest@.take(6));
    assert(c@ == extension_digest@.take(6));
    out.push('_');
    out.append(text::hex_encode(b).as_str());
    out.push('_');
    out.append(text::hex_encode(c).as_str());
    assert(out@ =~= input@.fingerprint(cipher_digest@, extension_digest@));
    out
}

/// Computes the JA4 fingerprint of a ClientHello.
pub fn compute_ja4(input: &Ja4Input) -> (r: String)
    requires
        input@.fits(),
    ensures
        r@ == input@.fingerprint(
            text_digest(input@.cipher_text()),
            text_digest(input@.extension_text()),
        ),
        r@.len() == 36,
        r@[10] == '_',
        r@[23] == '_',
{
    proof {
        lemma_texts_are_hashable(input@);
    }
    let ciphers = sha256(cipher_text(input).as_str().as_bytes());
    let extensions = sha256(extension_text(input).as_str().as_bytes());
    proof {
        law_fingerprint_shape(input@, ciphers@, extensions@);
    }
    assemble_ja4(input, ciphers.as_slice(), extensions.as_slice())
}

/// How often a value occurs among the elements that a filter keeps.
proof fn lemma_filter_count(list: Seq<u16>, p: spec_fn(u16) -> bool, x: u16)
    ensures
        list.filter(p).to_multiset().count(x) == (if p(x) {
            list.to_multiset().count(x)
        } else {
            0
        }),
    decreases list.len(),
{
    broadcast use group_to_multiset_ensures;

    reveal(Seq::filter);
    if list.len() > 0 {
        let front = list.drop_last();
        let last = list.last();
        lemma_filter_count(front, p, x);
        assert(front.push(last) == list);
        to_multiset_build(front, last);
        to_multiset_build(front.filter(p), last);
    }
}

/// Filtering commutes with reordering.
proof fn lemma_filter_reordered(a: Seq<u16>, b: Seq<u16>, p: spec_fn(u16) -> bool)
    requires
        a.to_multiset() == b.to_multiset(),
    ensures
        a.filter(p).to_multiset() == b.filter(p).to_multiset(),
        a.filter(p).len() == b.filter(p).len(),
{
    broadcast use group_to_multiset_ensures;

    assert forall|x: u16|
        a.filter(p).to_multiset().count(x) == b.filter(p).to_multiset().count(x) by {
        lemma_filter_count(a, p, x);
        lemma_filter_count(b, p, x);
    }
    assert(a.filter(p).to_multiset() =~= b.filter(p).to_multiset());
    assert(a.filter(p).to_multiset().len() == b.filter(p).to_multiset().len());
}

proof fn lemma_ascending_reordered(a: Seq<u16>, b: Seq<u16>)
    requires
        a.to_multiset() == b.to_multiset(),
    ensures
        ascending(a) == ascending(b),
{
    b.lemma_sort_by_ensures(no_larger());
    lemma_ascending_is(a, ascending(b));
}

/// A fingerprint does not depend on the order in which cipher suites and
/// extensions were sent.
pub proof fn law_order_is_irrelevant(v: Ja4View, w: Ja4View)
    requires
        v.ciphers.to_multiset() == w.ciphers.to_multiset(),
        v.extensions.to_multiset() == w.extensions.to_multiset(),
        w == (Ja4View { ciphers: w.ciphers, extensions: w.extensions, ..v }),
    ensures
        v.part_a() == w.part_a(),
        v.cipher_text() == w.cipher_text(),
        v.extension_text() == w.extension_text(),
        forall|b: Seq<u8>, c: Seq<u8>| v.fingerprint(b, c) == w.fingerprint(b, c),
{
    lemma_filter_reordered(v.ciphers, w.ciphers, not_grease());
    lemma_filter_reordered(v.extensions, w.extensions, not_grease());
    lemma_filter_reordered(
        no_grease(v.extensions),
        no_grease(w.extensions),
        not_named_in_a(),
    );
    lemma_ascending_reordered(no_grease(v.ciphers), no_grease(w.ciphers));
    lemma_ascending_reordered(
        no_grease(v.extensions).filter(not_named_in_a()),
        no_grease(w.extensions).filter(not_named_in_a()),
    );
}

/// A GREASE value inserted anywhere in a list is filtered out again.
pub proof fn law_inserted_grease_vanishes(list: Seq<u16>, k: int, g: u16)
    requires
        0 <= k <= list.len(),
        grease(g),
    ensures
        no_grease(list.insert(k, g)) == no_grease(list),
{
    let front = list.take(k);
    let back = list.skip(k);
    assert(list == front + back);
    assert(list.insert(k, g) == front + (seq![g] + back));
    Seq::filter_distributes_over_add(front, back, not_grease());
    Seq::filter_distributes_over_add(front, seq![g] + back, not_grease());
    Seq::filter_distributes_over_add(seq![g], back, not_grease());
    assert(seq![g].filter(not_grease()) == Seq::<u16>::empty()) by {
        reveal_with_fuel(Seq::filter, 2);
        assert(seq![g].drop_last() == Seq::<u16>::empty());
    }
    assert(Seq::<u16>::empty() + no_grease(back) == no_grease(back));
}

/// What `no_grease` returns has no GREASE left to filter out.
pub proof fn lemma_no_grease_twice(list: Seq<u16>)
    ensures
        no_grease(no_grease(list)) == no_grease(list),
    decreases list.len(),
{
    reveal(Seq::filter);
    if list.len() > 0 {
        lemma_no_grease_twice(list.drop_last());
        let front = no_grease(list.drop_last());
        assert(front.push(list.last()).drop_last() == front);
    }
}

/// A fingerprint is the one of the same ClientHello without its GREASE.
pub proof fn law_grease_is_ignored(v: Ja4View)
    ensures
        ({
            let w = Ja4View {
                ciphers: no_grease(v.ciphers),
                extensions: no_grease(v.extensions),
                signature_algorithms: no_grease(v.signature_algorithms),
                ..v
            };
            &&& v.part_a() == w.part_a()
            &&& v.cipher_text() == w.cipher_text()
            &&& v.extension_text() == w.extension_text()
            &&& forall|b: Seq<u8>, c: Seq<u8>| v.fingerprint(b, c) == w.fingerprint(b, c)
        }),
{
    lemma_no_grease_twice(v.ciphers);
    lemma_no_grease_twice(v.extensions);
    lemma_no_grease_twice(v.signature_algorithms);
}

/// Server name and ALPN are told in the readable part: whether they are among
/// the extensions makes no difference to what the third part hashes.
pub proof fn law_named_extensions_are_not_hashed(v: Ja4View, k: int, code: u16)
    requires
        0 <= k <= v.extensions.len(),
        code == 0x0000 || code == 0x0010,
    ensures
        (Ja4View { extensions: v.extensions.insert(k, code), ..v }).extension_text()
            == v.extension_text(),
{
    let front = v.extensions.take(k);
    let back = v.extensions.skip(k);
    let one = seq![code];
    assert(v.extensions == front + back);
    assert(v.extensions.insert(k, code) == front + (one + back));
    Seq::filter_distributes_over_add(front, back, not_grease());
    Seq::filter_distributes_over_add(front, one + back, not_grease());
    Seq::filter_distributes_over_add(one, back, not_grease());
    let (f, o, b) = (no_grease(front), no_grease(one), no_grease(back));
    Seq::filter_distributes_over_add(f, b, not_named_in_a());
    Seq::filter_distributes_over_add(f, o + b, not_named_in_a());
    Seq::filter_distributes_over_add(o, b, not_named_in_a());
    assert(o.filter(not_named_in_a()) == Seq::<u16>::empty()) by {
        reveal_with_fuel(Seq::filter, 2);
        assert(one.drop_last() == Seq::<u16>::empty());
        assert(o =~= one);
    }
    assert(Seq::<u16>::empty() + b.filter(not_named_in_a()) == b.filter(not_named_in_a()));
}

/// The readable part has ten characters, and the counts in it are those of
/// the lists without GREASE, in two digits that stop at 99.
pub proof fn law_part_a_layout(v: Ja4View)
    ensures
        v.part_a().len() == 10,
        v.part_a()[0] == (if v.is_quic {
            'q'
        } else {
            't'
        }),
        v.part_a().subrange(1, 3) == version_text(v.tls_version),
        v.part_a()[3] == (if v.sni_present {
            'd'
        } else {
            'i'
        }),
        v.part_a().subrange(4, 6) == two_digits(no_grease(v.ciphers).len() as int),
        no_grease(v.ciphers).len() >= 99 ==> v.part_a().subrange(4, 6) == "99"@,
        v.part_a().subrange(6, 8) == two_digits(no_grease(v.extensions).len() as int),
        no_grease(v.extensions).len() >= 99 ==> v.part_a().subrange(6, 8) == "99"@,
        v.part_a().subrange(8, 10) == alpn_text(v.alpn_first),
{
    reveal_strlit("13");
    reveal_strlit("12");
    reveal_strlit("11");
    reveal_strlit("10");
    reveal_strlit("s3");
    reveal_strlit("00");
    reveal_strlit("99");
    assert(version_text(v.tls_version).len() == 2);
    assert(alpn_text(v.alpn_first).len() == 2);
}

/// A fingerprint is three parts of 10, 12 and 12 characters, joined by `_`.
pub proof fn law_fingerprint_shape(v: Ja4View, ciphers: Seq<u8>, extensions: Seq<u8>)
    requires
        ciphers.len() == 32,
        extensions.len() == 32,
    ensures
        v.fingerprint(ciphers, extensions).len() == 36,
        v.fingerprint(ciphers, extensions).take(10) == v.part_a(),
        v.fingerprint(ciphers, extensions)[10] == '_',
        v.fingerprint(ciphers, extensions).subrange(11, 23) == short_hex(ciphers),
        v.fingerprint(ciphers, extensions)[23] == '_',
        v.fingerprint(ciphers, extensions).skip(24) == short_hex(extensions),
{
    law_part_a_layout(v);
    text::lemma_hex_len(ciphers.take(6));
    text::lemma_hex_len(extensions.take(6));
}

/// Four hexadecimal digits sort as text the way the numbers sort.
pub proof fn law_hex_order_is_numeric(a: u16, b: u16)
    ensures
        text::precedes(hex4(a), hex4(b)) <==> a < b,
{
    if a < b {
        lemma_hex_order(a, b);
    } else if b < a {
        lemma_hex_order(b, a);
    }
    text::lemma_precedes_trichotomy(hex4(a), hex4(b));
}

proof fn lemma_hex_order(a: u16, b: u16)
    requires
        a < b,
    ensures
        text::precedes(hex4(a), hex4(b)),
{
    let (m, n) = (a as int, b as int);
    lemma_digits(m);
    lemma_digits(n);
    let k: int = if m / 4096 != n / 4096 {
        lemma_digit_order(m / 4096, n / 4096);
        0
    } else if m / 256 % 16 != n / 256 % 16 {
        lemma_digit_order(m / 256 % 16, n / 256 % 16);
        1
    } else if m / 16 % 16 != n / 16 % 16 {
        lemma_digit_order(m / 16 % 16, n / 16 % 16);
        2
    } else {
        lemma_digit_order(m % 16, n % 16);
        3
    };
    assert(text::less_at(hex4(a), hex4(b), k));
}

proof fn lemma_digits(n: int)
    requires
        0 <= n < 65536,
    ensures
        n == 4096 * (n / 4096) + 256 * (n / 256 % 16) + 16 * (n / 16 % 16) + n % 16,
        0 <= n / 4096 < 16,
        0 <= n / 256 % 16 < 16,
        0 <= n / 16 % 16 < 16,
        0 <= n % 16 < 16,
{
    let (a, b) = (n / 16, n / 256);
    lemma_div_denominator(n, 16, 16);
    lemma_div_denominator(n, 256, 16);
    assert(a / 16 == b && b / 16 == n / 4096);
    assert(n == 16 * a + n % 16);
    assert(a == 16 * b + a % 16);
    assert(b == 16 * (n / 4096) + b % 16);
}

proof fn lemma_digit_order(i: int, j: int)
    requires
        0 <= i < j < 16,
    ensures
        text::hex_digit(i) < text::hex_digit(j),
{
}

/// Comma-separated lists of hexadecimal numbers are ASCII, five characters
/// for every number but one.
proof fn lemma_comma_list(list: Seq<u16>)
    ensures
        is_ascii_chars(comma_list(list)),
        comma_list(list).len() <= 5 * list.len(),
    decreases list.len(),
{
    if list.len() > 1 {
        lemma_comma_list(list.drop_last());
    }
}

proof fn lemma_texts_are_hashable(v: Ja4View)
    requires
        v.fits(),
    ensures
        hashable(v.cipher_text()),
        hashable(v.extension_text()),
{
    let c = no_grease(v.ciphers);
    let e = no_grease(v.extensions).filter(not_named_in_a());
    let g = no_grease(v.signature_algorithms);
    v.ciphers.lemma_filter_len(not_grease());
    v.extensions.lemma_filter_len(not_grease());
    no_grease(v.extensions).lemma_filter_len(not_named_in_a());
    v.signature_algorithms.lemma_filter_len(not_grease());
    lemma_ascending_len(c);
    lemma_ascending_len(e);
    lemma_comma_list(ascending(c));
    lemma_comma_list(ascending(e));
    lemma_comma_list(g);
    is_ascii_chars_encode_utf8(v.cipher_text());
    assert(is_ascii_chars(v.extension_text()));
    is_ascii_chars_encode_utf8(v.extension_text());
}

proof fn lemma_ascending_len(list: Seq<u16>)
    ensures
        ascending(list).len() == list.len(),
{
    broadcast use group_to_multiset_ensures;

    list.lemma_sort_by_ensures(no_larger());
    assert(ascending(list).to_multiset().len() == list.to_multiset().len());
}

/// The wire form of an extension list.
pub open spec fn extension_bytes(list: Seq<(u16, Seq<u8>)>) -> Seq<u8>
    decreases list.len(),
{
    if list.len() == 0 {
        seq![]
    } else {
        let (code, data) = list[0];
        seq![
            (code / 256) as u8,
            (code % 256) as u8,
            (data.len() / 256) as u8,
            (data.len() % 256) as u8,
        ] + data + extension_bytes(list.drop_first())
    }
}

/// Reading back the wire form of an extension list gives its type codes, and
/// then those of whatever follows it, such as an extension that is cut off.
pub proof fn law_type_codes_round_trip(list: Seq<(u16, Seq<u8>)>, more: Seq<u8>)
    requires
        forall|i: int| 0 <= i < list.len() ==> (#[trigger] list[i]).1.len() <= 0xffff,
    ensures
        type_codes(extension_bytes(list) + more) == list.map_values(|e: (u16, Seq<u8>)| e.0)
            + type_codes(more),
        type_codes(extension_bytes(list)) == list.map_values(|e: (u16, Seq<u8>)| e.0),
{
    lemma_type_codes_split(list, more);
    lemma_type_codes_split(list, seq![]);
    assert(extension_bytes(list) + Seq::<u8>::empty() =~= extension_bytes(list));
    let codes = list.map_values(|e: (u16, Seq<u8>)| e.0);
    assert(codes + type_codes(Seq::<u8>::empty()) =~= codes);
}

proof fn lemma_type_codes_split(list: Seq<(u16, Seq<u8>)>, more: Seq<u8>)
    requires
        forall|i: int| 0 <= i < list.len() ==> (#[trigger] list[i]).1.len() <= 0xffff,
    ensures
        type_codes(extension_bytes(list) + more) == list.map_values(|e: (u16, Seq<u8>)| e.0)
            + type_codes(more),
    decreases list.len(),
{
    let codes = list.map_values(|e: (u16, Seq<u8>)| e.0);
    let bytes = extension_bytes(list) + more;
    if list.len() > 0 {
        let (code, data) = list[0];
        let rest = list.drop_first();
        let others = rest.map_values(|e: (u16, Seq<u8>)| e.0);
        assert(data.len() <= 0xffff);
        assert forall|i: int| 0 <= i < rest.len() implies (#[trigger] rest[i]).1.len() <= 0xffff by {
            assert(rest[i] == list[i + 1]);
        }
        lemma_type_codes_split(rest, more);
        assert(bytes[0] == (code / 256) as u8);
        assert(scan::be16(bytes[0], bytes[1]) == code);
        assert(scan::be16(bytes[2], bytes[3]) == data.len());
        assert(bytes.skip(4 + data.len() as int) =~= extension_bytes(rest) + more);
        assert(codes =~= seq![code] + others);
        assert(seq![code] + (others + type_codes(more)) =~= codes + type_codes(more));
    } else {
        assert(bytes =~= more);
        assert(codes + type_codes(more) =~= type_codes(more));
    }
}

/// The GREASE values are 0x0a0a, 0x1a1a and so on up to 0xfafa.
pub proof fn law_grease(v: u16)
    ensures
        grease(v) <==> exists|n: int| 0 <= n < 16 && v == #[trigger] grease_value(n),
{
    if grease(v) {
        let n = v as int / 4096;
        lemma_digits(v as int);
        lemma_div_denominator(v as int, 256, 16);
        let hi = v as int / 256;
        assert(hi == 16 * n + hi % 16);
        assert(v as int == 256 * hi + v as int % 256);
        assert(hi % 16 == 10);
        assert(v == grease_value(n));
    }
    if exists|n: int| 0 <= n < 16 && v == #[trigger] grease_value(n) {
        let n = choose|n: int| 0 <= n < 16 && v == #[trigger] grease_value(n);
        assert(v as int == 256 * (16 * n + 10) + (16 * n + 10));
        assert(v as int / 256 == 16 * n + 10);
        assert(v as int % 256 == 16 * n + 10);
    }
}

/// The `n`-th GREASE value.
pub open spec fn grease_value(n: int) -> int {
    0x0a0a + 0x1010 * n
}

/// GREASE is filtered value by value: what is left of two lists in a row is
/// what is left of each, and a single value stays exactly when it is not one
/// of the sixteen.
pub proof fn law_no_grease(a: Seq<u16>, b: Seq<u16>, v: u16)
    ensures
        no_grease(Seq::<u16>::empty()) == Seq::<u16>::empty(),
        no_grease(a + b) == no_grease(a) + no_grease(b),
        no_grease(seq![v]) == (if exists|n: int| 0 <= n < 16 && v == #[trigger] grease_value(n) {
            Seq::<u16>::empty()
        } else {
            seq![v]
        }),
{
    law_grease(v);
    Seq::filter_distributes_over_add(a, b, not_grease());
    reveal_with_fuel(Seq::filter, 2);
    assert(seq![v].drop_last() =~= Seq::<u16>::empty());
    assert(Seq::<u16>::empty().push(v) =~= seq![v]);
}

/// The counts in the readable part, read as decimal numbers, are the numbers
/// of cipher suites and of extensions that are not GREASE, or 99 when there
/// are more.
pub proof fn law_counts_read_back(v: Ja4View)
    ensures
        ({
            let a = v.part_a();
            let ciphers = no_grease(v.ciphers).len() as int;
            let extensions = no_grease(v.extensions).len() as int;
            &&& forall|i: int| 4 <= i < 8 ==> '0' <= #[trigger] a[i] <= '9'
            &&& 10 * (a[4] as int - '0' as int) + (a[5] as int - '0' as int) == (if ciphers < 99 {
                ciphers
            } else {
                99
            })
            &&& 10 * (a[6] as int - '0' as int) + (a[7] as int - '0' as int) == (if extensions < 99 {
                extensions
            } else {
                99
            })
        }),
{
    law_part_a_layout(v);
    let a = v.part_a();
    let c = two_digits(no_grease(v.ciphers).len() as int);
    let e = two_digits(no_grease(v.extensions).len() as int);
    assert(a.subrange(4, 6)[0] == a[4] && a.subrange(4, 6)[1] == a[5]);
    assert(a.subrange(6, 8)[0] == a[6] && a.subrange(6, 8)[1] == a[7]);
    assert(c[0] == a[4] && c[1] == a[5] && e[0] == a[6] && e[1] == a[7]);
}

/// The versions with a name of their own, and `00` for all others.
pub proof fn law_version_names(v: u16)
    ensures
        version_text(0x0304) == "13"@,
        version_text(0x0303) == "12"@,
        version_text(0x0302) == "11"@,
        version_text(0x0301) == "10"@,
        version_text(0x0300) == "s3"@,
        v < 0x0300 || v > 0x0304 ==> version_text(v) == "00"@,
{
}

/// The ALPN hint is the first and the last character when both are ASCII
/// letters or digits, whatever stands between them.
pub proof fn law_alpn_hint(x: u8, middle: Seq<u8>, y: u8)
    ensures
        ({
            let usable = |b: u8|
                ('0' as int <= b <= '9' as int) || ('A' as int <= b <= 'Z' as int) || ('a' as int
                    <= b <= 'z' as int);
            &&& alpn_text(Some(seq![x] + middle + seq![y])) == (if usable(x) && usable(y) {
                seq![x as char, y as char]
            } else {
                "00"@
            })
            &&& alpn_text(Some(seq![x])) == (if usable(x) {
                seq![x as char, x as char]
            } else {
                "00"@
            })
        }),
        alpn_text(Some(Seq::<u8>::empty())) == "00"@,
        alpn_text(None) == "00"@,
{
    let b = seq![x] + middle + seq![y];
    assert(b[0] == x && b.last() == y);
    assert(seq![x][0] == x && seq![x].last() == x);
}

/// A list is written as four hexadecimal digits for each number, with commas
/// between them.
pub proof fn law_list_text(list: Seq<u16>, i: int)
    requires
        0 <= i < list.len(),
    ensures
        ({
            let t = comma_list(list);
            let n = list[i] as int;
            &&& t.len() == 5 * list.len() - 1
            &&& t[5 * i] == "0123456789abcdef"@[n / 4096]
            &&& t[5 * i + 1] == "0123456789abcdef"@[n / 256 % 16]
            &&& t[5 * i + 2] == "0123456789abcdef"@[n / 16 % 16]
            &&& t[5 * i + 3] == "0123456789abcdef"@[n % 16]
            &&& i + 1 < list.len() ==> t[5 * i + 4] == ','
        }),
    decreases list.len(),
{
    let n = list[i] as int;
    lemma_digits(n);
    text::lemma_hex_digits(n / 4096);
    text::lemma_hex_digits(n / 256 % 16);
    text::lemma_hex_digits(n / 16 % 16);
    text::lemma_hex_digits(n % 16);
    if list.len() > 1 {
        let front = list.drop_last();
        law_list_text(front, 0);
        if i < list.len() - 1 {
            law_list_text(front, i);
        }
    }
}

/// What the second part hashes is the list of the cipher suites that are not
/// GREASE, in ascending order: any arrangement of them in that order.
pub proof fn law_cipher_text(v: Ja4View, sorted: Seq<u16>)
    requires
        forall|i: int, j: int| 0 <= i < j < sorted.len() ==> sorted[i] <= sorted[j],
        sorted.to_multiset() == no_grease(v.ciphers).to_multiset(),
    ensures
        v.cipher_text() == comma_list(sorted),
{
    lemma_ascending_is(no_grease(v.ciphers), sorted);
}

/// What the third part hashes is the list of the extensions that are neither
/// GREASE nor server name nor ALPN, in ascending order, and behind a `_` the
/// signature algorithms that are not GREASE, in the order they were sent.
pub proof fn law_extension_text(v: Ja4View, sorted: Seq<u16>)
    requires
        forall|i: int, j: int| 0 <= i < j < sorted.len() ==> sorted[i] <= sorted[j],
        forall|x: u16| #[trigger]
            sorted.to_multiset().count(x) == (if x == 0x0000 || x == 0x0010 {
                0
            } else {
                no_grease(v.extensions).to_multiset().count(x)
            }),
    ensures
        v.extension_text() == comma_list(sorted) + "_"@ + comma_list(
            no_grease(v.signature_algorithms),
        ),
{
    let kept = no_grease(v.extensions).filter(not_named_in_a());
    assert forall|x: u16| sorted.to_multiset().count(x) == kept.to_multiset().count(x) by {
        lemma_filter_count(no_grease(v.extensions), not_named_in_a(), x);
    }
    assert(sorted.to_multiset() =~= kept.to_multiset());
    lemma_ascending_is(kept, sorted);
    reveal_strlit("_");
    assert("_"@ =~= seq!['_']);
}

/// The two hashed parts are the first six bytes of their digests, in
/// hexadecimal, and the digests are those of the UTF-8 form of the texts.
pub proof fn law_hashed_parts(t: Seq<char>, digest: Seq<u8>, i: int)
    requires
        digest.len() == 32,
        0 <= i < 6,
    ensures
        text_digest(t) == sha256_digest(encode_utf8(t)),
        short_hex(digest).len() == 12,
        short_hex(digest)[2 * i] == "0123456789abcdef"@[digest[i] as int / 16],
        short_hex(digest)[2 * i + 1] == "0123456789abcdef"@[digest[i] as int % 16],
{
    text::law_hex(digest.take(6), i);
}

/// The view of an input keeps every field.
pub proof fn law_views(input: Ja4Input, alpn: &[u8])
    ensures
        input@.is_quic == input.is_quic && input@.tls_version == input.tls_version
            && input@.sni_present == input.sni_present,
        input@.ciphers == input.ciphers@ && input@.extensions == input.extensions@
            && input@.signature_algorithms == input.signature_algorithms@,
        input.alpn_first == Some(alpn) ==> input@.alpn_first == Some(alpn@),
        input.alpn_first is None ==> input@.alpn_first is None,
{
}

} // verus!
