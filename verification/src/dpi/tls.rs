//! TLS classifier: TCP, handshake records.
//!
//! A handshake record starts with its type (22), a version whose first byte
//! is 3, and its length. A ClientHello in it tells the server name, the
//! first application protocol, whether an encrypted hello hides behind it,
//! and everything its JA4 fingerprint is made of. Any other handshake
//! message is reported without these.

use vstd::prelude::*;
use vstd::utf8::*;

use super::ja4;
use super::ja4::{Ja4Input, Ja4View};
use super::{AppProtocol, Classifier, ProtocolView};
use crate::scan;
use crate::text;

verus! {

/// The record type of handshake messages.
pub const HANDSHAKE: u8 = 0x16;

/// The handshake type of a ClientHello.
pub const CLIENT_HELLO: u8 = 1;

pub const SERVER_NAME: u16 = 0x0000;

pub const SIGNATURE_ALGORITHMS: u16 = 0x000d;

pub const ALPN: u16 = 0x0010;

pub const SUPPORTED_VERSIONS: u16 = 0x002b;

pub const ENCRYPTED_CLIENT_HELLO: u16 = 0xfe0d;

/// A vector that starts with its length in one byte, and what follows it.
pub open spec fn vector8(s: Seq<u8>) -> Option<(Seq<u8>, Seq<u8>)> {
    if s.len() < 1 || s.len() < 1 + s[0] {
        None
    } else {
        Some((s.subrange(1, 1 + s[0]), s.skip(1 + s[0])))
    }
}

/// A vector that starts with its length in two bytes, and what follows it.
pub open spec fn vector16(s: Seq<u8>) -> Option<(Seq<u8>, Seq<u8>)> {
    if s.len() < 2 || s.len() < 2 + scan::be16(s[0], s[1]) {
        None
    } else {
        let n = scan::be16(s[0], s[1]);
        Some((s.subrange(2, 2 + n), s.skip(2 + n)))
    }
}

fn split_vector8(s: &[u8]) -> (r: Option<(&[u8], &[u8])>)
    ensures
        match r {
            Some((body, rest)) => vector8(s@) == Some((body@, rest@)),
            None => vector8(s@) is None,
        },
{
    if s.len() < 1 {
        return None;
    }
    let n = s[0] as usize;
    if s.len() - 1 < n {
        return None;
    }
    let body = &s[1..1 + n];
    let rest = &s[1 + n..s.len()];
    assert(rest@ == s@.skip(1 + n));
    Some((body, rest))
}

fn split_vector16(s: &[u8]) -> (r: Option<(&[u8], &[u8])>)
    ensures
        match r {
            Some((body, rest)) => vector16(s@) == Some((body@, rest@)) && body@.len() <= 0xffff,
            None => vector16(s@) is None,
        },
{
    if s.len() < 2 {
        return None;
    }
    let n = scan::read_be16(s[0], s[1]) as usize;
    if s.len() - 2 < n {
        return None;
    }
    let body = &s[2..2 + n];
    let rest = &s[2 + n..s.len()];
    assert(rest@ == s@.skip(2 + n));
    Some((body, rest))
}

/// What a ClientHello holds: its version, cipher suites and extensions.
pub struct HelloView {
    pub version: u16,
    pub ciphers: Seq<u8>,
    pub extensions: Seq<u8>,
}

/// The parts of a ClientHello body: version, random, session id, cipher
/// suites, compression methods and, if there are any, extensions. Extensions
/// that are cut off count as far as they go.
pub open spec fn hello_body(s: Seq<u8>) -> Option<HelloView> {
    if s.len() < 34 {
        None
    } else {
        match vector8(s.skip(34)) {
            None => None,
            Some((_, a)) => match vector16(a) {
                None => None,
                Some((ciphers, b)) => match vector8(b) {
                    None => None,
                    Some((_, c)) => Some(
                        HelloView {
                            version: scan::be16(s[0], s[1]),
                            ciphers,
                            extensions: if c.len() < 2 {
                                seq![]
                            } else {
                                scan::at_most(c.skip(2), scan::be16(c[0], c[1]) as int)
                            },
                        },
                    ),
                },
            },
        }
    }
}

/// The ClientHello in a handshake record.
pub open spec fn client_hello(payload: Seq<u8>) -> Option<HelloView> {
    let record = scan::at_most(payload.skip(5), scan::be16(payload[3], payload[4]) as int);
    if record.len() < 4 || record[0] != CLIENT_HELLO {
        None
    } else {
        let n = record[1] * 65536 + record[2] * 256 + record[3];
        hello_body(scan::at_most(record.skip(4), n))
    }
}

/// The data of the first extension of a type, when all of it is there.
pub open spec fn extension(list: Seq<u8>, code: u16) -> Option<Seq<u8>>
    decreases list.len(),
{
    if list.len() < 4 {
        None
    } else {
        let next = 4 + scan::be16(list[2], list[3]);
        if next > list.len() {
            None
        } else if scan::be16(list[0], list[1]) == code {
            Some(list.subrange(4, next))
        } else {
            extension(list.skip(next), code)
        }
    }
}

/// The 16-bit numbers in a row of bytes; an odd byte at the end is left out.
pub open spec fn numbers(s: Seq<u8>) -> Seq<u16> {
    Seq::new(s.len() / 2, |i: int| scan::be16(s[2 * i], s[2 * i + 1]))
}

/// The host name in a server name extension.
pub open spec fn host_name(data: Seq<u8>) -> Option<Seq<char>> {
    if data.len() < 3 || data[2] != 0 {
        None
    } else {
        match vector16(data.skip(3)) {
            Some((host, _)) if host.len() > 0 => text::decoded(host),
            _ => None,
        }
    }
}

/// The first protocol in an ALPN extension.
pub open spec fn first_protocol(data: Seq<u8>) -> Option<Seq<u8>> {
    if data.len() < 2 {
        None
    } else {
        match vector8(data.skip(2)) {
            Some((name, _)) => Some(name),
            None => None,
        }
    }
}

/// The numbers in a list that starts with its length in two bytes.
pub open spec fn long_list(data: Seq<u8>) -> Seq<u16> {
    match vector16(data) {
        Some((list, _)) => numbers(list),
        None => seq![],
    }
}

/// The numbers in a list that starts with its length in one byte.
pub open spec fn short_list(data: Seq<u8>) -> Seq<u16> {
    match vector8(data) {
        Some((list, _)) => numbers(list),
        None => seq![],
    }
}

/// The largest number of a list that is not GREASE.
pub open spec fn highest(list: Seq<u16>) -> Option<u16>
    decreases list.len(),
{
    if list.len() == 0 {
        None
    } else {
        let x = list.last();
        match highest(list.drop_last()) {
            Some(m) if ja4::grease(x) || x <= m => Some(m),
            None if ja4::grease(x) => None,
            _ => Some(x),
        }
    }
}

impl HelloView {
    /// The server name.
    pub open spec fn sni(self) -> Option<Seq<char>> {
        match extension(self.extensions, SERVER_NAME) {
            Some(data) => host_name(data),
            None => None,
        }
    }

    /// The first application protocol.
    pub open spec fn alpn(self) -> Option<Seq<u8>> {
        match extension(self.extensions, ALPN) {
            Some(data) => first_protocol(data),
            None => None,
        }
    }

    /// The highest version that is offered.
    pub open spec fn best_version(self) -> u16 {
        match extension(self.extensions, SUPPORTED_VERSIONS) {
            Some(data) => match highest(short_list(data)) {
                Some(version) => version,
                None => self.version,
            },
            None => self.version,
        }
    }

    /// The signature algorithms.
    pub open spec fn algorithms(self) -> Seq<u16> {
        match extension(self.extensions, SIGNATURE_ALGORITHMS) {
            Some(data) => long_list(data),
            None => seq![],
        }
    }

    /// What the fingerprint is made of.
    pub open spec fn fingerprinted(self) -> Ja4View {
        Ja4View {
            is_quic: false,
            tls_version: self.best_version(),
            sni_present: self.sni() is Some,
            alpn_first: self.alpn(),
            ciphers: numbers(self.ciphers),
            extensions: ja4::type_codes(self.extensions),
            signature_algorithms: self.algorithms(),
        }
    }

    /// What the hello says.
    pub open spec fn verdict(self) -> ProtocolView {
        let v = self.fingerprinted();
        ProtocolView::Tls {
            sni: self.sni(),
            alpn: match self.alpn() {
                Some(name) => text::decoded(name),
                None => None,
            },
            ech: ja4::type_codes(self.extensions).contains(ENCRYPTED_CLIENT_HELLO),
            ja4: Some(
                v.fingerprint(
                    ja4::text_digest(v.cipher_text()),
                    ja4::text_digest(v.extension_text()),
                ),
            ),
        }
    }
}

struct Hello<'a> {
    version: u16,
    ciphers: &'a [u8],
    extensions: &'a [u8],
}

impl<'a> View for Hello<'a> {
    type V = HelloView;

    closed spec fn view(&self) -> HelloView {
        HelloView {
            version: self.version,
            ciphers: self.ciphers@,
            extensions: self.extensions@,
        }
    }
}

fn split_hello(s: &[u8]) -> (r: Option<Hello>)
    ensures
        match r {
            Some(hello) => hello_body(s@) == Some(hello@) && hello.ciphers@.len() <= 0xffff
                && hello.extensions@.len() <= 0xffff,
            None => hello_body(s@) is None,
        },
{
    if s.len() < 34 {
        return None;
    }
    let after_random = &s[34..s.len()];
    assert(after_random@ == s@.skip(34));
    let a = match split_vector8(after_random) {
        Some((_, rest)) => rest,
        None => return None,
    };
    let (ciphers, b) = match split_vector16(a) {
        Some(parts) => parts,
        None => return None,
    };
    let c = match split_vector8(b) {
        Some((_, rest)) => rest,
        None => return None,
    };
    let extensions = if c.len() < 2 {
        let none = &c[0..0];
        assert(none@ =~= Seq::<u8>::empty());
        none
    } else {
        let rest = &c[2..c.len()];
        assert(rest@ == c@.skip(2));
        scan::head(rest, scan::read_be16(c[0], c[1]) as usize)
    };
    Some(Hello { version: scan::read_be16(s[0], s[1]), ciphers, extensions })
}

fn find_client_hello(payload: &[u8]) -> (r: Option<Hello>)
    requires
        payload@.len() >= 5,
    ensures
        match r {
            Some(hello) => client_hello(payload@) == Some(hello@) && hello.ciphers@.len() <= 0xffff
                && hello.extensions@.len() <= 0xffff,
            None => client_hello(payload@) is None,
        },
{
    let body = &payload[5..payload.len()];
    assert(body@ == payload@.skip(5));
    let record = scan::head(body, scan::read_be16(payload[3], payload[4]) as usize);
    if record.len() < 4 || record[0] != CLIENT_HELLO {
        return None;
    }
    let n = record[1] as usize * 65536 + record[2] as usize * 256 + record[3] as usize;
    let rest = &record[4..record.len()];
    assert(rest@ == record@.skip(4));
    split_hello(scan::head(rest, n))
}

fn find_extension(list: &[u8], code: u16) -> (r: Option<&[u8]>)
    ensures
        match r {
            Some(data) => extension(list@, code) == Some(data@) && data@.len() <= 0xffff,
            None => extension(list@, code) is None,
        },
{
    let mut at: usize = 0;
    assert(list@.skip(0) == list@);
    while list.len() - at >= 4
        invariant
            at <= list@.len(),
            extension(list@.skip(at as int), code) == extension(list@, code),
        decreases list@.len() - at,
    {
        let ghost rest = list@.skip(at as int);
        let n = scan::read_be16(list[at + 2], list[at + 3]) as usize;
        if n > list.len() - at - 4 {
            return None;
        }
        if scan::read_be16(list[at], list[at + 1]) == code {
            let data = &list[at + 4..at + 4 + n];
            assert(data@ == rest.subrange(4, 4 + n));
            return Some(data);
        }
        assert(rest.skip(4 + n) == list@.skip(at + 4 + n));
        at = at + 4 + n;
    }
    None
}

fn read_numbers(s: &[u8]) -> (r: Vec<u16>)
    ensures
        r@ == numbers(s@),
{
    let mut r: Vec<u16> = Vec::new();
    let mut i: usize = 0;
    while s.len() - i >= 2
        invariant
            i <= s@.len(),
            i == 2 * r@.len(),
            forall|k: int|
                0 <= k < r@.len() ==> #[trigger] r@[k] == scan::be16(s@[2 * k], s@[2 * k + 1]),
        decreases s@.len() - i,
    {
        r.push(scan::read_be16(s[i], s[i + 1]));
        i = i + 2;
    }
    assert(r@ =~= numbers(s@));
    r
}

fn read_host_name(data: &[u8]) -> (r: Option<String>)
    ensures
        text::text_of(r) == host_name(data@),
{
    if data.len() < 3 || data[2] != 0 {
        return None;
    }
    let rest = &data[3..data.len()];
    assert(rest@ == data@.skip(3));
    match split_vector16(rest) {
        Some((host, _)) => {
            if host.len() == 0 {
                return None;
            }
            read_text(host)
        },
        None => None,
    }
}

fn read_text(bytes: &[u8]) -> (r: Option<String>)
    ensures
        text::text_of(r) == text::decoded(bytes@),
{
    match text::decode(bytes) {
        Some(chars) => Some(text::string_of(chars.as_slice())),
        None => None,
    }
}

fn read_first_protocol(data: &[u8]) -> (r: Option<&[u8]>)
    ensures
        match r {
            Some(name) => first_protocol(data@) == Some(name@),
            None => first_protocol(data@) is None,
        },
{
    if data.len() < 2 {
        return None;
    }
    let rest = &data[2..data.len()];
    assert(rest@ == data@.skip(2));
    match split_vector8(rest) {
        Some((name, _)) => Some(name),
        None => None,
    }
}

fn read_highest(list: &[u16]) -> (r: Option<u16>)
    ensures
        r == highest(list@),
{
    let mut best: Option<u16> = None;
    let mut i: usize = 0;
    while i < list.len()
        invariant
            i <= list@.len(),
            best == highest(list@.take(i as int)),
        decreases list@.len() - i,
    {
        let x = list[i];
        assert(list@.take(i + 1).drop_last() == list@.take(i as int));
        if !ja4::is_grease(x) {
            best = match best {
                Some(m) => if x <= m {
                    Some(m)
                } else {
                    Some(x)
                },
                None => Some(x),
            };
        }
        i = i + 1;
    }
    assert(list@.take(i as int) == list@);
    best
}

fn has_code(codes: &[u16], code: u16) -> (r: bool)
    ensures
        r == codes@.contains(code),
{
    let mut i: usize = 0;
    while i < codes.len()
        invariant
            i <= codes@.len(),
            forall|j: int| 0 <= j < i ==> codes@[j] != code,
        decreases codes@.len() - i,
    {
        if codes[i] == code {
            assert(codes@[i as int] == code);
            return true;
        }
        i = i + 1;
    }
    false
}

proof fn lemma_codes_len(list: Seq<u8>)
    ensures
        ja4::type_codes(list).len() <= list.len(),
    decreases list.len(),
{
    if list.len() >= 4 {
        let next = 4 + scan::be16(list[2], list[3]);
        if next <= list.len() {
            lemma_codes_len(list.skip(next));
        }
    }
}

fn best_version(hello: &Hello) -> (r: u16)
    ensures
        r == hello@.best_version(),
{
    match find_extension(hello.extensions, SUPPORTED_VERSIONS) {
        Some(data) => match split_vector8(data) {
            Some((list, _)) => match read_highest(read_numbers(list).as_slice()) {
                Some(version) => version,
                None => hello.version,
            },
            None => hello.version,
        },
        None => hello.version,
    }
}

fn signature_algorithms(hello: &Hello) -> (r: Vec<u16>)
    ensures
        r@ == hello@.algorithms(),
        r@.len() <= 0xffff,
{
    match find_extension(hello.extensions, SIGNATURE_ALGORITHMS) {
        Some(data) => match split_vector16(data) {
            Some((list, _)) => read_numbers(list),
            None => Vec::new(),
        },
        None => Vec::new(),
    }
}

fn describe(hello: &Hello) -> (r: AppProtocol)
    requires
        hello.ciphers@.len() <= 0xffff,
        hello.extensions@.len() <= 0xffff,
    ensures
        r@ == hello@.verdict(),
{
    let sni = match find_extension(hello.extensions, SERVER_NAME) {
        Some(data) => read_host_name(data),
        None => None,
    };
    let protocol = match find_extension(hello.extensions, ALPN) {
        Some(data) => read_first_protocol(data),
        None => None,
    };
    let alpn = match protocol {
        Some(name) => read_text(name),
        None => None,
    };
    let ciphers = read_numbers(hello.ciphers);
    let codes = ja4::extension_type_codes(hello.extensions);
    let algorithms = signature_algorithms(hello);
    let ech = has_code(codes.as_slice(), ENCRYPTED_CLIENT_HELLO);
    let input = Ja4Input {
        is_quic: false,
        tls_version: best_version(hello),
        sni_present: sni.is_some(),
        alpn_first: protocol,
        ciphers: ciphers.as_slice(),
        extensions: codes.as_slice(),
        signature_algorithms: algorithms.as_slice(),
    };
    proof {
        lemma_codes_len(hello.extensions@);
        assert(input@ == hello@.fingerprinted());
    }
    AppProtocol::Tls { sni, alpn, ech, ja4: Some(ja4::compute_ja4(&input)) }
}

pub struct TlsClassifier;

impl Classifier for TlsClassifier {
    open spec fn verdict(&self, payload: Seq<u8>, is_tcp: bool) -> Option<ProtocolView> {
        if !is_tcp || payload.len() < 5 || payload[0] != HANDSHAKE || payload[1] != 3 {
            None
        } else {
            match client_hello(payload) {
                Some(hello) => Some(hello.verdict()),
                None => Some(ProtocolView::Tls { sni: None, alpn: None, ech: false, ja4: None }),
            }
        }
    }

    fn classify(&self, payload: &[u8], is_tcp: bool) -> (r: Option<AppProtocol>) {
        if !is_tcp || payload.len() < 5 || payload[0] != HANDSHAKE || payload[1] != 3 {
            return None;
        }
        match find_client_hello(payload) {
            Some(hello) => Some(describe(&hello)),
            None => Some(AppProtocol::Tls { sni: None, alpn: None, ech: false, ja4: None }),
        }
    }
}

/// A number in two bytes.
pub open spec fn two_bytes(n: int) -> Seq<u8> {
    seq![(n / 256) as u8, (n % 256) as u8]
}

/// Vectors are read back from their length and their bytes, and what follows
/// them is left alone; one that is cut off is not read.
pub proof fn law_vectors(body: Seq<u8>, rest: Seq<u8>, s: Seq<u8>)
    ensures
        body.len() <= 0xff ==> vector8(seq![body.len() as u8] + body + rest) == Some((body, rest)),
        body.len() <= 0xffff ==> vector16(two_bytes(body.len() as int) + body + rest) == Some(
            (body, rest),
        ),
        s.len() == 0 || s.len() <= s[0] ==> vector8(s) is None,
        s.len() < 2 || s.len() < 2 + 256 * s[0] + s[1] ==> vector16(s) is None,
{
    let n = body.len() as int;
    if n <= 0xff {
        let a = seq![n as u8] + body + rest;
        assert(a[0] == n);
        assert(a.subrange(1, 1 + n) =~= body);
        assert(a.skip(1 + n) =~= rest);
    }
    if n <= 0xffff {
        let b = two_bytes(n) + body + rest;
        assert(b[0] == (n / 256) as u8 && b[1] == (n % 256) as u8);
        scan::law_be16(b[0], b[1], 0);
        assert(b.subrange(2, 2 + n) =~= body);
        assert(b.skip(2 + n) =~= rest);
    }
    if s.len() >= 2 {
        scan::law_be16(s[0], s[1], 0);
    }
}

/// In a list of extensions the first of a type is found, and what follows a
/// list without that type decides.
pub proof fn law_extension_lookup(list: Seq<(u16, Seq<u8>)>, more: Seq<u8>, code: u16, k: int)
    requires
        forall|i: int| 0 <= i < list.len() ==> (#[trigger] list[i]).1.len() <= 0xffff,
        0 <= k <= list.len(),
        forall|i: int| 0 <= i < k ==> (#[trigger] list[i]).0 != code,
        k < list.len() ==> list[k].0 == code,
    ensures
        k < list.len() ==> extension(ja4::extension_bytes(list) + more, code) == Some(list[k].1),
        k == list.len() ==> extension(ja4::extension_bytes(list) + more, code) == extension(
            more,
            code,
        ),
        more.len() < 4 ==> extension(more, code) is None,
    decreases list.len(),
{
    let bytes = ja4::extension_bytes(list) + more;
    if list.len() > 0 {
        let (c, data) = list[0];
        let n = data.len() as int;
        let rest = list.drop_first();
        assert(n <= 0xffff);
        assert(bytes[0] == (c / 256) as u8 && bytes[1] == (c % 256) as u8);
        assert(bytes[2] == (n / 256) as u8 && bytes[3] == (n % 256) as u8);
        assert(scan::be16(bytes[0], bytes[1]) == c);
        assert(scan::be16(bytes[2], bytes[3]) == n);
        if k == 0 {
            assert(bytes.subrange(4, 4 + n) =~= data);
        } else {
            assert(bytes.skip(4 + n) =~= ja4::extension_bytes(rest) + more);
            assert forall|i: int| 0 <= i < rest.len() implies (#[trigger] rest[i]).1.len()
                <= 0xffff by {
                assert(rest[i] == list[i + 1]);
            }
            assert forall|i: int| 0 <= i < k - 1 implies (#[trigger] rest[i]).0 != code by {
                assert(rest[i] == list[i + 1]);
            }
            law_extension_lookup(rest, more, code, k - 1);
        }
    } else {
        assert(bytes =~= more);
    }
}

/// The host name of a server name extension, behind the length of the list and
/// a name type of zero, is read back.
pub proof fn law_host_names(x: u8, y: u8, kind: u8, host: Seq<char>, rest: Seq<u8>)
    requires
        0 < encode_utf8(host).len() <= 0xffff,
    ensures
        ({
            let bytes = encode_utf8(host);
            host_name(seq![x, y, kind] + (two_bytes(bytes.len() as int) + bytes + rest)) == (
            if kind == 0 {
                Some(host)
            } else {
                None
            })
        }),
        host_name(seq![x, y, 0u8, 0u8, 0u8] + rest) is None,
{
    let bytes = encode_utf8(host);
    let behind = two_bytes(bytes.len() as int) + bytes + rest;
    let data = seq![x, y, kind] + behind;
    assert(data[2] == kind);
    assert(data.skip(3) =~= behind);
    law_vectors(bytes, rest, seq![]);
    text::law_decoding(host, bytes);
    let empty = seq![x, y, 0u8, 0u8, 0u8] + rest;
    let e = Seq::<u8>::empty();
    law_vectors(e, rest, seq![]);
    assert(empty.skip(3) =~= two_bytes(0) + e + rest);
    assert(empty[2] == 0);
}

/// The first protocol of an ALPN extension, behind the length of the list, is
/// read back.
pub proof fn law_first_protocols(x: u8, y: u8, protocol: Seq<u8>, rest: Seq<u8>)
    requires
        protocol.len() <= 0xff,
    ensures
        first_protocol(seq![x, y] + (seq![protocol.len() as u8] + protocol + rest)) == Some(
            protocol,
        ),
        first_protocol(seq![x, y]) is None,
{
    let behind = seq![protocol.len() as u8] + protocol + rest;
    assert((seq![x, y] + behind).skip(2) =~= behind);
    law_vectors(protocol, rest, seq![]);
    assert(seq![x, y].skip(2) =~= Seq::<u8>::empty());
}

/// The bytes of a list of numbers.
pub open spec fn number_bytes(list: Seq<u16>) -> Seq<u8>
    decreases list.len(),
{
    if list.len() == 0 {
        seq![]
    } else {
        number_bytes(list.drop_last()) + two_bytes(list.last() as int)
    }
}

/// A list of numbers is read back from its bytes, and an odd byte behind it is
/// left out.
pub proof fn law_numbers(list: Seq<u16>, odd: u8)
    ensures
        number_bytes(list).len() == 2 * list.len(),
        numbers(number_bytes(list)) == list,
        numbers(number_bytes(list).push(odd)) == list,
    decreases list.len(),
{
    if list.len() > 0 {
        let front = list.drop_last();
        let last = list.last();
        law_numbers(front, odd);
        let n = front.len() as int;
        let bytes = number_bytes(list);
        assert forall|i: int| 0 <= i < list.len() implies scan::be16(bytes[2 * i], bytes[2 * i + 1])
            == list[i] by {
            if i < n {
                assert(numbers(number_bytes(front))[i] == front[i]);
                assert(bytes[2 * i] == number_bytes(front)[2 * i]);
                assert(bytes[2 * i + 1] == number_bytes(front)[2 * i + 1]);
            } else {
                scan::law_be16(0, 0, last);
                assert(bytes[2 * i] == (last / 256) as u8);
                assert(bytes[2 * i + 1] == (last % 256) as u8);
            }
        }
        let more = bytes.push(odd);
        assert forall|i: int| 0 <= i < list.len() implies scan::be16(more[2 * i], more[2 * i + 1])
            == list[i] by {
            assert(more[2 * i] == bytes[2 * i] && more[2 * i + 1] == bytes[2 * i + 1]);
        }
        assert(numbers(bytes) =~= list);
        assert(numbers(more) =~= list);
    } else {
        assert(numbers(number_bytes(list)) =~= list);
        assert(numbers(number_bytes(list).push(odd)) =~= list);
    }
}

/// The highest version is one of the list that is not GREASE and no smaller
/// than any other such one; there is none exactly when all are GREASE.
pub proof fn law_highest(list: Seq<u16>)
    ensures
        highest(list) matches Some(m) ==> list.contains(m) && !ja4::grease(m) && forall|i: int|
            0 <= i < list.len() && !ja4::grease(#[trigger] list[i]) ==> list[i] <= m,
        highest(list) is None <==> forall|i: int|
            0 <= i < list.len() ==> ja4::grease(#[trigger] list[i]),
    decreases list.len(),
{
    if list.len() > 0 {
        let front = list.drop_last();
        law_highest(front);
        assert(list[list.len() - 1] == list.last());
        assert(forall|i: int| 0 <= i < front.len() ==> #[trigger] front[i] == list[i]);
        assert forall|i: int| 0 <= i < list.len() - 1 implies #[trigger] list[i] == front[i] by {}
        if let Some(m) = highest(list) {
            if m == list.last() {
                assert(list.contains(m));
            } else {
                let i = choose|i: int| 0 <= i < front.len() && front[i] == m;
                assert(list[i] == m);
            }
        }
    }
}

/// The body of a ClientHello up to its compression methods, and `tail`.
pub open spec fn hello_bytes(
    version: u16,
    random: Seq<u8>,
    session: Seq<u8>,
    ciphers: Seq<u8>,
    methods: Seq<u8>,
    tail: Seq<u8>,
) -> Seq<u8> {
    two_bytes(version as int) + random + (seq![session.len() as u8] + session + (two_bytes(
        ciphers.len() as int,
    ) + ciphers + (seq![methods.len() as u8] + methods + tail)))
}

/// A ClientHello comes apart into its version, its cipher suites and its
/// extensions, whatever its random bytes, its session id, its compression
/// methods and what follows it are; one that ends with its compression
/// methods has no extensions.
pub proof fn law_client_hellos(
    version: u16,
    random: Seq<u8>,
    session: Seq<u8>,
    ciphers: Seq<u8>,
    methods: Seq<u8>,
    extensions: Seq<u8>,
    rest: Seq<u8>,
)
    requires
        random.len() == 32,
        session.len() <= 0xff,
        ciphers.len() <= 0xffff,
        methods.len() <= 0xff,
        extensions.len() <= 0xffff,
    ensures
        hello_body(
            hello_bytes(
                version,
                random,
                session,
                ciphers,
                methods,
                two_bytes(extensions.len() as int) + extensions + rest,
            ),
        ) == Some(HelloView { version, ciphers, extensions }),
        hello_body(
            hello_bytes(version, random, session, ciphers, methods, Seq::<u8>::empty()),
        ) == Some(HelloView { version, ciphers, extensions: Seq::<u8>::empty() }),
{
    let tail = two_bytes(extensions.len() as int) + extensions + rest;
    lemma_hello_with(version, random, session, ciphers, methods, tail);
    lemma_hello_with(version, random, session, ciphers, methods, Seq::<u8>::empty());
    lemma_hello_tail(extensions, rest);
}

/// The extensions in what follows the compression methods.
spec fn hello_tail(c: Seq<u8>) -> Seq<u8> {
    if c.len() < 2 {
        seq![]
    } else {
        scan::at_most(c.skip(2), scan::be16(c[0], c[1]) as int)
    }
}

proof fn lemma_hello_tail(extensions: Seq<u8>, rest: Seq<u8>)
    requires
        extensions.len() <= 0xffff,
    ensures
        hello_tail(two_bytes(extensions.len() as int) + extensions + rest) == extensions,
        hello_tail(Seq::<u8>::empty()) == Seq::<u8>::empty(),
{
    let n = extensions.len() as int;
    let c = two_bytes(n) + extensions + rest;
    assert(c.skip(2) =~= extensions + rest);
    assert(c[0] == (n / 256) as u8 && c[1] == (n % 256) as u8);
    scan::law_be16(c[0], c[1], 0);
    assert(scan::at_most(extensions + rest, n) =~= extensions);
}

proof fn lemma_hello_with(
    version: u16,
    random: Seq<u8>,
    session: Seq<u8>,
    ciphers: Seq<u8>,
    methods: Seq<u8>,
    c: Seq<u8>,
)
    requires
        random.len() == 32,
        session.len() <= 0xff,
        ciphers.len() <= 0xffff,
        methods.len() <= 0xff,
    ensures
        hello_body(hello_bytes(version, random, session, ciphers, methods, c)) == Some(
            HelloView { version, ciphers, extensions: hello_tail(c) },
        ),
{
    let b = seq![methods.len() as u8] + methods + c;
    let a = two_bytes(ciphers.len() as int) + ciphers + b;
    let after_random = seq![session.len() as u8] + session + a;
    let s = two_bytes(version as int) + random + after_random;
    law_vectors(session, a, seq![]);
    law_vectors(ciphers, b, seq![]);
    law_vectors(methods, c, seq![]);
    assert(s.skip(34) =~= after_random);
    assert(s[0] == (version / 256) as u8 && s[1] == (version % 256) as u8);
    scan::law_be16(0, 0, version);
}

/// A handshake record over TCP with a ClientHello says what the hello says,
/// one with anything else only that it is TLS, and nothing else is TLS.
pub proof fn law_records(minor: u8, kind: u8, body: Seq<u8>, more: Seq<u8>, payload: Seq<u8>)
    requires
        body.len() + 4 <= 0xffff,
    ensures
        ({
            let message = seq![kind, 0u8] + two_bytes(body.len() as int) + body;
            let record = seq![0x16u8, 3u8, minor] + two_bytes(message.len() as int) + message
                + more;
            let said = TlsClassifier.verdict(record, true);
            let nothing = Some(
                ProtocolView::Tls { sni: None, alpn: None, ech: false, ja4: None },
            );
            &&& kind == 1 ==> said == (match hello_body(body) {
                Some(hello) => Some(hello.verdict()),
                None => nothing,
            })
            &&& kind != 1 ==> said == nothing
        }),
        TlsClassifier.verdict(payload, false) is None,
        payload.len() < 5 || payload[0] != 0x16 || payload[1] != 3 ==> TlsClassifier.verdict(
            payload,
            true,
        ) is None,
{
    let n = body.len() as int;
    let message = seq![kind, 0u8] + two_bytes(n) + body;
    let k = message.len() as int;
    let record = seq![0x16u8, 3u8, minor] + two_bytes(k) + message + more;
    assert(record[0] == 0x16 && record[1] == 3);
    assert(record[3] == (k / 256) as u8 && record[4] == (k % 256) as u8);
    scan::law_be16(record[3], record[4], 0);
    assert(record.skip(5) =~= message + more);
    assert(scan::at_most(message + more, k) =~= message);
    assert(message[0] == kind && message[1] == 0 && message[2] == (n / 256) as u8 && message[3] == (
    n % 256) as u8);
    assert(message.skip(4) =~= body);
    assert(scan::at_most(body, n) =~= body);
}

/// What a hello says: its server name, its first protocol as text, whether
/// there is an encrypted hello among its extensions, and the fingerprint of
/// what it holds, with the version of its list of versions if there is one.
pub proof fn law_hello_verdicts(hello: HelloView)
    ensures
        ({
            let v = hello.fingerprinted();
            let codes = ja4::type_codes(hello.extensions);
            &&& hello.verdict() matches ProtocolView::Tls { sni, alpn, ech, ja4: Some(print) } && sni
                == hello.sni() && ech == codes.contains(0xfe0d) && (match hello.alpn() {
                Some(name) => alpn == text::decoded(name),
                None => alpn is None,
            }) && print == v.fingerprint(
                sha256_of(v.cipher_text()),
                sha256_of(v.extension_text()),
            )
            &&& !v.is_quic && v.ciphers == numbers(hello.ciphers) && v.extensions == codes
            &&& v.sni_present <==> hello.sni() is Some
            &&& v.alpn_first == hello.alpn()
            &&& match extension(hello.extensions, 0x0000) {
                Some(data) => hello.sni() == host_name(data),
                None => hello.sni() is None,
            }
            &&& match extension(hello.extensions, 0x0010) {
                Some(data) => hello.alpn() == first_protocol(data),
                None => hello.alpn() is None,
            }
            &&& match extension(hello.extensions, 0x000d) {
                Some(data) => match vector16(data) {
                    Some((list, _)) => v.signature_algorithms == numbers(list),
                    None => v.signature_algorithms.len() == 0,
                },
                None => v.signature_algorithms.len() == 0,
            }
            &&& match extension(hello.extensions, 0x002b) {
                Some(data) => match vector8(data) {
                    Some((list, _)) => match highest(numbers(list)) {
                        Some(m) => v.tls_version == m,
                        None => v.tls_version == hello.version,
                    },
                    None => v.tls_version == hello.version,
                },
                None => v.tls_version == hello.version,
            }
        }),
{
}

/// The digest of a text.
pub open spec fn sha256_of(t: Seq<char>) -> Seq<u8> {
    ja4::sha256_digest(encode_utf8(t))
}

} // verus!
