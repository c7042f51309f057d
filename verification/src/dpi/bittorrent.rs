//! BitTorrent peer-wire protocol: the BEP 3 handshake.
//!
//! The handshake is the only message with a fixed shape: a length byte of
//! 19, the protocol string, 8 reserved bytes, a 20-byte info hash and a
//! 20-byte peer id.

use vstd::prelude::*;
use vstd::utf8::*;

use super::{AppProtocol, Classifier, ProtocolView};
use crate::scan;
use crate::text;

verus! {

/// Length of a whole handshake.
pub const HANDSHAKE_MIN: usize = 1 + 19 + 8 + 20 + 20;

/// Whether a payload opens with a whole handshake.
pub open spec fn is_handshake(payload: Seq<u8>) -> bool {
    &&& payload.len() >= HANDSHAKE_MIN
    &&& payload[0] == 19
    &&& payload.subrange(1, 20) == encode_utf8("BitTorrent protocol"@)
}

pub struct BitTorrentClassifier;

impl Classifier for BitTorrentClassifier {
    open spec fn verdict(&self, payload: Seq<u8>, is_tcp: bool) -> Option<ProtocolView> {
        if is_tcp && is_handshake(payload) {
            Some(
                ProtocolView::BitTorrent { info_hash: Some(text::hex(payload.subrange(28, 48))) },
            )
        } else {
            None
        }
    }

    fn classify(&self, payload: &[u8], is_tcp: bool) -> (r: Option<AppProtocol>) {
        if !is_tcp || payload.len() < HANDSHAKE_MIN {
            return None;
        }
        if payload[0] != 19 {
            return None;
        }
        if !scan::same_bytes(&payload[1..20], "BitTorrent protocol".as_bytes()) {
            return None;
        }
        let info_hash = text::hex_encode(&payload[28..48]);
        Some(AppProtocol::BitTorrent { info_hash: Some(info_hash) })
    }
}

/// The info hash is reported in forty characters.
pub proof fn law_info_hash_has_forty_digits(payload: Seq<u8>)
    ensures
        BitTorrentClassifier.verdict(payload, true) matches Some(
            ProtocolView::BitTorrent { info_hash },
        ) ==> info_hash is Some && info_hash->0.len() == 40,
{
    if is_handshake(payload) {
        text::lemma_hex_len(payload.subrange(28, 48));
    }
}

/// A handshake gives the twenty bytes of its info hash in hexadecimal,
/// whatever the reserved bytes, the peer and what follows them are.
pub proof fn law_handshakes_are_recognized(
    reserved: Seq<u8>,
    info_hash: Seq<u8>,
    peer: Seq<u8>,
    more: Seq<u8>,
)
    requires
        reserved.len() == 8,
        info_hash.len() == 20,
        peer.len() == 20,
    ensures
        BitTorrentClassifier.verdict(
            seq![19u8] + encode_utf8("BitTorrent protocol"@) + reserved + info_hash + peer + more,
            true,
        ) == Some(ProtocolView::BitTorrent { info_hash: Some(text::hex(info_hash)) }),
{
    lemma_protocol_string();
    let name = encode_utf8("BitTorrent protocol"@);
    let p = seq![19u8] + name + reserved + info_hash + peer + more;
    assert(p[0] == 19);
    assert(p.subrange(1, 20) =~= name);
    assert(p.subrange(28, 48) =~= info_hash);
}

proof fn lemma_protocol_string()
    ensures
        encode_utf8("BitTorrent protocol"@).len() == 19,
{
    reveal_strlit("BitTorrent protocol");
    assert(is_ascii_chars("BitTorrent protocol"@));
    is_ascii_chars_encode_utf8("BitTorrent protocol"@);
}

/// Nothing else is a handshake: it takes 68 bytes that start with 19 and the
/// protocol string, over TCP.
pub proof fn law_only_handshakes_are_recognized(payload: Seq<u8>)
    ensures
        BitTorrentClassifier.verdict(payload, true) is Some ==> payload.len() >= 68 && payload[0]
            == 19 && payload.subrange(1, 20) == encode_utf8("BitTorrent protocol"@),
        BitTorrentClassifier.verdict(payload, false) is None,
{
}

} // verus!
