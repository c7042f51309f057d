//! QUIC classifier: UDP, Initial packets.
//!
//! An Initial packet has a long header: the two top bits of the first byte
//! are set, a version follows, and then the length of a connection id, which
//! is at most twenty. The packet type is in bits 4 and 5 of the first byte.
//! The ClientHello is spread over encrypted CRYPTO frames, so nothing is said
//! of it here.

use vstd::prelude::*;

use super::{AppProtocol, Classifier, ProtocolView};

verus! {

/// The packet type of Initial packets in a version, for versions 1 (RFC 9000),
/// 2 (RFC 9369) and the drafts of version 1.
pub open spec fn initial_type(version: Seq<u8>) -> Option<u8> {
    if version == seq![0u8, 0, 0, 1] {
        Some(0)
    } else if version == seq![0x6bu8, 0x33, 0x43, 0xcf] {
        Some(1)
    } else if version.len() == 4 && version[0] == 0xff && version[1] == 0 && version[2] == 0 {
        Some(0)
    } else {
        None
    }
}

/// Whether a UDP payload starts with an Initial packet.
pub open spec fn initial_packet(payload: Seq<u8>) -> bool {
    &&& payload.len() >= 6
    &&& payload[0] >= 0xc0
    &&& initial_type(payload.subrange(1, 5)) == Some(payload[0] / 16 % 4)
    &&& payload[5] <= 20
}

fn is_initial_packet(payload: &[u8]) -> (r: bool)
    ensures
        r == initial_packet(payload@),
{
    if payload.len() < 6 || payload[0] < 0xc0 || payload[5] > 20 {
        return false;
    }
    let (a, b, c, d) = (payload[1], payload[2], payload[3], payload[4]);
    let kind = payload[0] / 16 % 4;
    proof {
        let version = payload@.subrange(1, 5);
        let one = seq![0u8, 0, 0, 1];
        let two = seq![0x6bu8, 0x33, 0x43, 0xcf];
        assert(version[0] == a && version[1] == b && version[2] == c && version[3] == d);
        assert(version == one <==> a == 0 && b == 0 && c == 0 && d == 1) by {
            assert(one[0] == 0 && one[1] == 0 && one[2] == 0 && one[3] == 1);
            if a == 0 && b == 0 && c == 0 && d == 1 {
                assert(version =~= one);
            }
        }
        assert(version == two <==> a == 0x6b && b == 0x33 && c == 0x43 && d == 0xcf) by {
            assert(two[0] == 0x6b && two[1] == 0x33 && two[2] == 0x43 && two[3] == 0xcf);
            if a == 0x6b && b == 0x33 && c == 0x43 && d == 0xcf {
                assert(version =~= two);
            }
        }
    }
    if a == 0 && b == 0 && c == 0 && d == 1 {
        kind == 0
    } else if a == 0x6b && b == 0x33 && c == 0x43 && d == 0xcf {
        kind == 1
    } else if a == 0xff && b == 0 && c == 0 {
        kind == 0
    } else {
        false
    }
}

pub struct QuicClassifier;

impl Classifier for QuicClassifier {
    open spec fn verdict(&self, payload: Seq<u8>, is_tcp: bool) -> Option<ProtocolView> {
        if !is_tcp && initial_packet(payload) {
            Some(ProtocolView::Quic { sni: None, ech: false, ja4: None })
        } else {
            None
        }
    }

    fn classify(&self, payload: &[u8], is_tcp: bool) -> (r: Option<AppProtocol>) {
        if !is_tcp && is_initial_packet(payload) {
            Some(AppProtocol::Quic { sni: None, ech: false, ja4: None })
        } else {
            None
        }
    }
}

/// Initial packets are told by the bits of the first byte, the version and
/// the length of the connection id: of version 1 and its drafts by type 0, of
/// version 2 by type 1. Nothing is said of the encrypted hello.
pub proof fn law_initial_packets(first: u8, v: (u8, u8, u8, u8), n: u8, more: Seq<u8>)
    ensures
        ({
            let one = v == (0u8, 0u8, 0u8, 1u8) || (v.0 == 0xff && v.1 == 0 && v.2 == 0);
            let two = v == (0x6bu8, 0x33u8, 0x43u8, 0xcfu8);
            let initial = n <= 20 && ((one && 0xc0 <= first < 0xd0) || (two && 0xd0 <= first
                < 0xe0));
            QuicClassifier.verdict(seq![first, v.0, v.1, v.2, v.3, n] + more, false) == (
            if initial {
                Some(ProtocolView::Quic { sni: None, ech: false, ja4: None })
            } else {
                None
            })
        }),
        more.len() < 6 ==> QuicClassifier.verdict(more, false) is None,
        QuicClassifier.verdict(more, true) is None,
{
    let p = seq![first, v.0, v.1, v.2, v.3, n] + more;
    let version = p.subrange(1, 5);
    let a = seq![0u8, 0, 0, 1];
    let b = seq![0x6bu8, 0x33, 0x43, 0xcf];
    assert(p[0] == first && p[5] == n);
    assert(version[0] == v.0 && version[1] == v.1 && version[2] == v.2 && version[3] == v.3);
    assert(a[0] == 0 && a[1] == 0 && a[2] == 0 && a[3] == 1);
    assert(b[0] == 0x6b && b[1] == 0x33 && b[2] == 0x43 && b[3] == 0xcf);
    if v == (0u8, 0u8, 0u8, 1u8) {
        assert(version =~= a);
    }
    if v == (0x6bu8, 0x33u8, 0x43u8, 0xcfu8) {
        assert(version =~= b);
    }
}

} // verus!
