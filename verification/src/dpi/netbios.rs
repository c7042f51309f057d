//! NetBIOS over TCP/IP (RFC 1001 and 1002).
//!
//! Three transports: the name service (UDP 137), the datagram service (UDP
//! 138) and the session service (TCP 139). The ports do most of the telling
//! apart; the classifier adds a sanity check on the header.

use vstd::prelude::*;

use super::{AppProtocol, Classifier, ProtocolView};
use crate::scan;

verus! {

/// The name of a session service packet type.
pub open spec fn session_name(kind: u8) -> Option<Seq<char>> {
    if kind == 0x00 {
        Some("Session Message"@)
    } else if kind == 0x81 {
        Some("Session Request"@)
    } else if kind == 0x82 {
        Some("Positive Session Response"@)
    } else if kind == 0x83 {
        Some("Negative Session Response"@)
    } else if kind == 0x84 {
        Some("Retarget Session Response"@)
    } else if kind == 0x85 {
        Some("Session Keepalive"@)
    } else {
        None
    }
}

/// What a TCP payload says as a session service packet.
pub open spec fn session_service(payload: Seq<u8>) -> Option<ProtocolView> {
    if payload.len() < 4 {
        None
    } else {
        match session_name(payload[0]) {
            Some(name) => Some(ProtocolView::NetBios { service: "Session "@ + name }),
            None => None,
        }
    }
}

/// Classifies a session service packet by the type in its 4-byte header.
pub fn classify_session(payload: &[u8]) -> (r: Option<AppProtocol>)
    ensures
        super::answer(r) == session_service(payload@),
{
    if payload.len() < 4 {
        return None;
    }
    let name = match payload[0] {
        0x00 => "Session Message",
        0x81 => "Session Request",
        0x82 => "Positive Session Response",
        0x83 => "Negative Session Response",
        0x84 => "Retarget Session Response",
        0x85 => "Session Keepalive",
        _ => return None,
    };
    Some(AppProtocol::NetBios { service: "Session ".to_string().concat(name) })
}

/// The name of a datagram service packet type.
pub open spec fn datagram_name(kind: u8) -> Option<Seq<char>> {
    if kind == 0x10 {
        Some("Datagram Direct Unique"@)
    } else if kind == 0x11 {
        Some("Datagram Direct Group"@)
    } else if kind == 0x12 {
        Some("Datagram Broadcast"@)
    } else if kind == 0x13 {
        Some("Datagram Error"@)
    } else if kind == 0x14 {
        Some("Datagram Query Request"@)
    } else if kind == 0x15 {
        Some("Datagram Positive Query Response"@)
    } else if kind == 0x16 {
        Some("Datagram Negative Query Response"@)
    } else {
        None
    }
}

/// What a UDP payload says: a name service message when its DNS-shaped
/// header counts a question or an answer, else a datagram service packet.
pub open spec fn udp_service(payload: Seq<u8>) -> Option<ProtocolView> {
    if payload.len() < 12 {
        None
    } else if scan::be16(payload[4], payload[5]) == 0 && scan::be16(payload[6], payload[7]) == 0 {
        match datagram_name(payload[0]) {
            Some(name) => Some(ProtocolView::NetBios { service: name }),
            None => None,
        }
    } else if payload[2] < 0x80 {
        Some(ProtocolView::NetBios { service: "Name Query"@ })
    } else {
        Some(ProtocolView::NetBios { service: "Name Response"@ })
    }
}

/// Classifies a name service message or a datagram service packet.
pub fn classify_udp(payload: &[u8]) -> (r: Option<AppProtocol>)
    ensures
        super::answer(r) == udp_service(payload@),
{
    if payload.len() < 12 {
        return None;
    }
    let qdcount = scan::read_be16(payload[4], payload[5]);
    let ancount = scan::read_be16(payload[6], payload[7]);
    if qdcount == 0 && ancount == 0 {
        let name = match payload[0] {
            0x10 => "Datagram Direct Unique",
            0x11 => "Datagram Direct Group",
            0x12 => "Datagram Broadcast",
            0x13 => "Datagram Error",
            0x14 => "Datagram Query Request",
            0x15 => "Datagram Positive Query Response",
            0x16 => "Datagram Negative Query Response",
            _ => return None,
        };
        return Some(AppProtocol::NetBios { service: name.to_string() });
    }
    let name = if payload[2] < 0x80 {
        "Name Query"
    } else {
        "Name Response"
    };
    Some(AppProtocol::NetBios { service: name.to_string() })
}

pub struct NetBiosClassifier;

impl Classifier for NetBiosClassifier {
    open spec fn verdict(&self, payload: Seq<u8>, is_tcp: bool) -> Option<ProtocolView> {
        if is_tcp {
            session_service(payload)
        } else {
            udp_service(payload)
        }
    }

    fn classify(&self, payload: &[u8], is_tcp: bool) -> (r: Option<AppProtocol>) {
        if is_tcp {
            classify_session(payload)
        } else {
            classify_udp(payload)
        }
    }
}

/// Over TCP the type in the first byte of four or more tells the service, and
/// six types are known.
pub proof fn law_session_types(payload: Seq<u8>)
    ensures
        payload.len() < 4 ==> NetBiosClassifier.verdict(payload, true) is None,
        payload.len() >= 4 ==> {
            let said = NetBiosClassifier.verdict(payload, true);
            &&& payload[0] == 0x00 ==> said == Some(
                ProtocolView::NetBios { service: "Session "@ + "Session Message"@ },
            )
            &&& payload[0] == 0x81 ==> said == Some(
                ProtocolView::NetBios { service: "Session "@ + "Session Request"@ },
            )
            &&& payload[0] == 0x82 ==> said == Some(
                ProtocolView::NetBios { service: "Session "@ + "Positive Session Response"@ },
            )
            &&& payload[0] == 0x83 ==> said == Some(
                ProtocolView::NetBios { service: "Session "@ + "Negative Session Response"@ },
            )
            &&& payload[0] == 0x84 ==> said == Some(
                ProtocolView::NetBios { service: "Session "@ + "Retarget Session Response"@ },
            )
            &&& payload[0] == 0x85 ==> said == Some(
                ProtocolView::NetBios { service: "Session "@ + "Session Keepalive"@ },
            )
            &&& 0x00 < payload[0] < 0x81 || payload[0] > 0x85 ==> said is None
        },
{
}

/// Over UDP twelve bytes with a question or an answer counted are the name
/// service, where the top bit of the third byte tells responses from queries;
/// without, the first byte tells the datagram type, of which seven are known.
pub proof fn law_udp_types(payload: Seq<u8>)
    ensures
        payload.len() < 12 ==> NetBiosClassifier.verdict(payload, false) is None,
        payload.len() >= 12 ==> {
            let said = NetBiosClassifier.verdict(payload, false);
            let counted = payload[4] != 0 || payload[5] != 0 || payload[6] != 0 || payload[7] != 0;
            &&& counted && payload[2] < 128 ==> said == Some(
                ProtocolView::NetBios { service: "Name Query"@ },
            )
            &&& counted && payload[2] >= 128 ==> said == Some(
                ProtocolView::NetBios { service: "Name Response"@ },
            )
            &&& !counted && payload[0] == 0x10 ==> said == Some(
                ProtocolView::NetBios { service: "Datagram Direct Unique"@ },
            )
            &&& !counted && payload[0] == 0x11 ==> said == Some(
                ProtocolView::NetBios { service: "Datagram Direct Group"@ },
            )
            &&& !counted && payload[0] == 0x12 ==> said == Some(
                ProtocolView::NetBios { service: "Datagram Broadcast"@ },
            )
            &&& !counted && payload[0] == 0x13 ==> said == Some(
                ProtocolView::NetBios { service: "Datagram Error"@ },
            )
            &&& !counted && payload[0] == 0x14 ==> said == Some(
                ProtocolView::NetBios { service: "Datagram Query Request"@ },
            )
            &&& !counted && payload[0] == 0x15 ==> said == Some(
                ProtocolView::NetBios { service: "Datagram Positive Query Response"@ },
            )
            &&& !counted && payload[0] == 0x16 ==> said == Some(
                ProtocolView::NetBios { service: "Datagram Negative Query Response"@ },
            )
            &&& !counted && (payload[0] < 0x10 || payload[0] > 0x16) ==> said is None
        },
{
    if payload.len() >= 12 {
        scan::law_be16(payload[4], payload[5], 0);
        scan::law_be16(payload[6], payload[7], 0);
    }
}

} // verus!
