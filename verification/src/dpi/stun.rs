//! STUN (RFC 5389), used by WebRTC and VoIP for NAT traversal.
//!
//! A STUN message starts with a 20-byte header: 2 bytes of message type
//! whose top two bits are zero, 2 bytes of length, the magic cookie and a
//! 12-byte transaction id.

use vstd::arithmetic::div_mod::*;
use vstd::prelude::*;

use super::{AppProtocol, Classifier, ProtocolView};
use crate::scan;

verus! {

/// The magic cookie at offset 4.
pub open spec fn has_cookie(payload: Seq<u8>) -> bool {
    &&& payload[4] == 0x21
    &&& payload[5] == 0x12
    &&& payload[6] == 0xA4
    &&& payload[7] == 0x42
}

/// The class of a message type: bit 8, then bit 4.
pub open spec fn class_of(mt: u16) -> int {
    2 * (mt as int / 256 % 2) + mt as int / 16 % 2
}

/// The method of a message type: its remaining bits, joined.
pub open spec fn method_of(mt: u16) -> int {
    mt as int % 16 + 16 * (mt as int / 32 % 8) + 128 * (mt as int / 512 % 32)
}

pub open spec fn class_name(class: int) -> Seq<char> {
    if class == 0 {
        "Request"@
    } else if class == 1 {
        "Indication"@
    } else if class == 2 {
        "SuccessResponse"@
    } else {
        "ErrorResponse"@
    }
}

pub open spec fn method_name(method: int) -> Seq<char> {
    if method == 0x001 {
        "Binding"@
    } else if method == 0x002 {
        "SharedSecret"@
    } else if method == 0x003 {
        "Allocate"@
    } else if method == 0x004 {
        "Refresh"@
    } else if method == 0x006 {
        "Send"@
    } else if method == 0x007 {
        "Data"@
    } else if method == 0x008 {
        "CreatePermission"@
    } else if method == 0x009 {
        "ChannelBind"@
    } else if method == 0x00A {
        "Connect"@
    } else if method == 0x00B {
        "ConnectionBind"@
    } else if method == 0x00C {
        "ConnectionAttempt"@
    } else {
        "Unknown"@
    }
}

fn class_bits(mt: u16) -> (r: u16)
    ensures
        r == class_of(mt),
        r <= 3,
{
    let r: u16 = ((mt >> 8) & 0x01) << 1 | ((mt >> 4) & 0x01);
    assert(r == 2 * (mt / 256 % 2) + mt / 16 % 2) by (bit_vector)
        requires
            r == ((mt >> 8) & 0x01) << 1 | ((mt >> 4) & 0x01),
    ;
    r
}

fn method_bits(mt: u16) -> (r: u16)
    ensures
        r == method_of(mt),
{
    let r: u16 = (mt & 0xF) | ((mt & 0xE0) >> 1) | ((mt & 0x3E00) >> 2);
    assert(r == mt % 16 + 16 * (mt / 32 % 8) + 128 * (mt / 512 % 32)) by (bit_vector)
        requires
            r == (mt & 0xF) | ((mt & 0xE0) >> 1) | ((mt & 0x3E00) >> 2),
    ;
    r
}

pub struct StunClassifier;

impl Classifier for StunClassifier {
    open spec fn verdict(&self, payload: Seq<u8>, is_tcp: bool) -> Option<ProtocolView> {
        if !is_tcp && payload.len() >= 20 && has_cookie(payload) && payload[0] < 0x40 {
            let mt = scan::be16(payload[0], payload[1]);
            Some(
                ProtocolView::Stun {
                    message_type: method_name(method_of(mt)) + class_name(class_of(mt)),
                },
            )
        } else {
            None
        }
    }

    fn classify(&self, payload: &[u8], is_tcp: bool) -> (r: Option<AppProtocol>) {
        if is_tcp || payload.len() < 20 {
            return None;
        }
        if payload[4] != 0x21 || payload[5] != 0x12 || payload[6] != 0xA4 || payload[7] != 0x42 {
            return None;
        }
        if payload[0] >= 0x40 {
            return None;
        }
        let mt = scan::read_be16(payload[0], payload[1]);
        let class = match class_bits(mt) {
            0 => "Request",
            1 => "Indication",
            2 => "SuccessResponse",
            _ => "ErrorResponse",
        };
        let method = match method_bits(mt) {
            0x001 => "Binding",
            0x002 => "SharedSecret",
            0x003 => "Allocate",
            0x004 => "Refresh",
            0x006 => "Send",
            0x007 => "Data",
            0x008 => "CreatePermission",
            0x009 => "ChannelBind",
            0x00A => "Connect",
            0x00B => "ConnectionBind",
            0x00C => "ConnectionAttempt",
            _ => "Unknown",
        };
        Some(AppProtocol::Stun { message_type: method.to_string().concat(class) })
    }
}

/// The message type that stands for a method and a class.
pub open spec fn type_of(method: int, class: int) -> int {
    method % 16 + 16 * (class % 2) + 32 * (method / 16 % 8) + 256 * (class / 2) + 512 * (method
        / 128)
}

/// Method and class can be read back from the message type that stands for
/// them, whose top two bits are zero.
pub proof fn law_method_and_class_round_trip(method: int, class: int)
    requires
        0 <= method < 4096,
        0 <= class < 4,
    ensures
        0 <= type_of(method, class) < 0x4000,
        method_of(type_of(method, class) as u16) == method,
        class_of(type_of(method, class) as u16) == class,
{
    let m0 = method % 16;
    let m1 = method / 16 % 8;
    let m2 = method / 128;
    lemma_div_denominator(method, 16, 8);
    lemma_fundamental_div_mod(method, 16);
    lemma_fundamental_div_mod(method / 16, 8);
    assert(method == m0 + 16 * m1 + 128 * m2);
    let c0 = class % 2;
    let c1 = class / 2;
    assert(class == c0 + 2 * c1);
    let mt = type_of(method, class);
    let (x, y, z) = (c1 + 2 * m2, m1 + 8 * c1 + 16 * m2, c0 + 2 * m1 + 16 * c1 + 32 * m2);
    lemma_fundamental_div_mod_converse(mt, 512, m2, m0 + 16 * c0 + 32 * m1 + 256 * c1);
    lemma_fundamental_div_mod_converse(mt, 256, x, m0 + 16 * c0 + 32 * m1);
    lemma_fundamental_div_mod_converse(mt, 32, y, m0 + 16 * c0);
    lemma_fundamental_div_mod_converse(mt, 16, z, m0);
    lemma_fundamental_div_mod_converse(x, 2, m2, c1);
    lemma_fundamental_div_mod_converse(y, 8, x, m1);
    lemma_fundamental_div_mod_converse(z, 2, m1 + 8 * x, c0);
    lemma_fundamental_div_mod_converse(m2, 32, 0, m2);
}

/// The methods that have a name, and `Unknown` for all others.
pub proof fn law_method_names(method: int)
    ensures
        method == 1 ==> method_name(method) == "Binding"@,
        method == 2 ==> method_name(method) == "SharedSecret"@,
        method == 3 ==> method_name(method) == "Allocate"@,
        method == 4 ==> method_name(method) == "Refresh"@,
        method == 6 ==> method_name(method) == "Send"@,
        method == 7 ==> method_name(method) == "Data"@,
        method == 8 ==> method_name(method) == "CreatePermission"@,
        method == 9 ==> method_name(method) == "ChannelBind"@,
        method == 10 ==> method_name(method) == "Connect"@,
        method == 11 ==> method_name(method) == "ConnectionBind"@,
        method == 12 ==> method_name(method) == "ConnectionAttempt"@,
        method < 1 || method == 5 || method > 12 ==> method_name(method) == "Unknown"@,
{
}

/// The four classes.
pub proof fn law_class_names()
    ensures
        class_name(0) == "Request"@,
        class_name(1) == "Indication"@,
        class_name(2) == "SuccessResponse"@,
        class_name(3) == "ErrorResponse"@,
{
}

/// A UDP payload of twenty bytes or more with the magic cookie is named by
/// the method and the class that its message type stands for.
pub proof fn law_messages_are_recognized(method: int, class: int, payload: Seq<u8>)
    requires
        0 <= method < 4096,
        0 <= class < 4,
        payload.len() >= 20,
        256 * payload[0] + payload[1] == type_of(method, class),
        payload.subrange(4, 8) == seq![0x21u8, 0x12, 0xA4, 0x42],
    ensures
        StunClassifier.verdict(payload, false) == Some(
            ProtocolView::Stun { message_type: method_name(method) + class_name(class) },
        ),
{
    law_method_and_class_round_trip(method, class);
    let cookie = payload.subrange(4, 8);
    assert(cookie[0] == payload[4] && cookie[1] == payload[5] && cookie[2] == payload[6]
        && cookie[3] == payload[7]);
    scan::law_be16(payload[0], payload[1], 0);
    assert(scan::be16(payload[0], payload[1]) == type_of(method, class) as u16);
    assert(payload[0] < 0x40);
}

/// Nothing else is a message: it takes UDP, twenty bytes, the cookie, and two
/// zero bits in front.
pub proof fn law_only_messages_are_recognized(payload: Seq<u8>)
    ensures
        StunClassifier.verdict(payload, true) is None,
        StunClassifier.verdict(payload, false) is Some ==> payload.len() >= 20 && payload[0] < 64
            && payload[4] == 0x21 && payload[5] == 0x12 && payload[6] == 0xA4 && payload[7] == 0x42,
{
}

} // verus!
