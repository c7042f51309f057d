//! MQTT 3.1.1 and 5.0, on TCP 1883 and 8883.
//!
//! Every control packet starts with a byte whose upper nibble is the packet
//! type, and a remaining length in a variable-length encoding. A CONNECT
//! packet then carries the protocol name and a client id.

use vstd::prelude::*;
use vstd::utf8::*;

use super::{AppProtocol, Classifier, ProtocolView};
use crate::scan;
use crate::text;

verus! {

/// The weight of the `i`-th digit of a remaining length: 128 to the `i`.
pub open spec fn weight(i: nat) -> nat
    decreases i,
{
    if i == 0 {
        1
    } else {
        128 * weight((i - 1) as nat)
    }
}

/// The number whose base-128 digits, least significant first, are the low
/// seven bits of `digits`.
pub open spec fn digits_value(digits: Seq<u8>) -> nat
    decreases digits.len(),
{
    if digits.len() == 0 {
        0
    } else {
        digits_value(digits.drop_last()) + (digits.last() % 128) as nat * weight(
            (digits.len() - 1) as nat,
        )
    }
}

/// The remaining length at the start of `buf` and how many bytes it takes:
/// up to four, the last of them the first without its top bit.
pub open spec fn remaining_length(buf: Seq<u8>) -> Option<(nat, nat)> {
    let field = scan::at_most(buf, 4);
    let n = scan::index_where(field, |b: u8| b < 128);
    if n >= field.len() {
        None
    } else {
        Some((digits_value(buf.take(n + 1)), (n + 1) as nat))
    }
}

/// Decodes the remaining length at the start of `buf`: its value and the
/// number of bytes that encode it.
pub fn decode_remaining_length(buf: &[u8]) -> (r: Option<(u32, usize)>)
    ensures
        r is Some <==> remaining_length(buf@) is Some,
        r matches Some((value, used)) ==> remaining_length(buf@) == Some((value as nat, used as nat)),
        r matches Some((value, used)) ==> value < 268435456 && 1 <= used <= 4 && used <= buf@.len(),
{
    let ghost field = scan::at_most(buf@, 4);
    let mut multiplier: u32 = 1;
    let mut value: u32 = 0;
    let mut i: usize = 0;
    proof {
        reveal_with_fuel(weight, 5);
    }
    while i < 4 && i < buf.len()
        invariant
            i <= 4,
            i <= buf@.len(),
            field == scan::at_most(buf@, 4),
            multiplier == weight(i as nat),
            weight(0) == 1,
            weight(1) == 128,
            weight(2) == 16384,
            weight(3) == 2097152,
            weight(4) == 268435456,
            value == digits_value(buf@.take(i as int)),
            value < multiplier,
            forall|j: int| 0 <= j < i ==> buf@[j] >= 128,
        decreases 4 - i,
    {
        let b = buf[i];
        let digit: u32 = (b % 128) as u32;
        proof {
            let next = buf@.take(i + 1);
            assert(next.drop_last() == buf@.take(i as int));
            assert(next.last() == b);
            assert(digit * multiplier <= 127 * multiplier) by (nonlinear_arith)
                requires
                    digit <= 127,
            ;
            assert(multiplier <= 2097152);
            assert(weight((i + 1) as nat) == 128 * weight(i as nat));
        }
        value = value + digit * multiplier;
        i = i + 1;
        if b < 128 {
            proof {
                assert forall|j: int| 0 <= j < i - 1 implies field[j] >= 128 by {
                    assert(field[j] == buf@[j]);
                }
                scan::lemma_index_where_is(field, |b: u8| b < 128, i - 1);
            }
            return Some((value, i));
        }
        if i < 4 {
            multiplier = multiplier * 128;
        } else {
            multiplier = 268435456;
        }
    }
    proof {
        scan::lemma_index_where_is(field, |b: u8| b < 128, field.len() as int);
    }
    None
}

/// The length-prefixed string at the start of `buf`, and what follows it.
pub open spec fn prefixed_string(buf: Seq<u8>) -> Option<(Seq<char>, Seq<u8>)> {
    if buf.len() < 2 {
        None
    } else {
        let len = scan::be16(buf[0], buf[1]) as int;
        if buf.len() < 2 + len {
            None
        } else {
            match text::decoded(buf.subrange(2, 2 + len)) {
                Some(t) => Some((t, buf.skip(2 + len))),
                None => None,
            }
        }
    }
}

/// Reads the length-prefixed string at the start of `buf`.
pub fn read_string(buf: &[u8]) -> (r: Option<(Vec<char>, &[u8])>)
    ensures
        r is Some <==> prefixed_string(buf@) is Some,
        r matches Some((t, rest)) ==> prefixed_string(buf@) == Some((t@, rest@)),
{
    if buf.len() < 2 {
        return None;
    }
    let len = scan::read_be16(buf[0], buf[1]) as usize;
    if buf.len() - 2 < len {
        return None;
    }
    let body = &buf[2..2 + len];
    let rest = &buf[2 + len..buf.len()];
    assert(rest@ == buf@.skip(2 + len));
    match text::decode(body) {
        Some(t) => Some((t, rest)),
        None => None,
    }
}

/// What the body of a CONNECT packet says.
pub open spec fn connect_packet(body: Seq<u8>) -> Option<ProtocolView> {
    match prefixed_string(body) {
        None => None,
        Some((protocol, rest)) => if (protocol == "MQTT"@ || protocol == "MQIsdp"@) && rest.len() >= 4 {
            match prefixed_string(rest.skip(4)) {
                None => None,
                Some((id, _)) => Some(
                    ProtocolView::Mqtt {
                        client_id: if id.len() == 0 {
                            None
                        } else {
                            Some(id)
                        },
                    },
                ),
            }
        } else {
            None
        },
    }
}

/// Reads the client id out of the body of a CONNECT packet.
pub fn parse_connect(body: &[u8]) -> (r: Option<AppProtocol>)
    ensures
        super::answer(r) == connect_packet(body@),
{
    match read_string(body) {
        None => None,
        Some((protocol, rest)) => {
            if !text::is_text(protocol.as_slice(), "MQTT") && !text::is_text(
                protocol.as_slice(),
                "MQIsdp",
            ) {
                return None;
            }
            // Protocol level, connect flags and keepalive.
            if rest.len() < 4 {
                return None;
            }
            let after_flags = &rest[4..rest.len()];
            assert(after_flags@ == rest@.skip(4));
            match read_string(after_flags) {
                None => None,
                Some((id, _)) => {
                    if id.len() == 0 {
                        Some(AppProtocol::Mqtt { client_id: None })
                    } else {
                        Some(AppProtocol::Mqtt { client_id: Some(text::string_of(id.as_slice())) })
                    }
                },
            }
        },
    }
}

/// What a TCP payload says as an MQTT control packet.
pub open spec fn control_packet(payload: Seq<u8>) -> Option<ProtocolView> {
    if payload.len() == 0 || payload[0] < 0x10 || payload[0] >= 0xF0 {
        None
    } else {
        match remaining_length(payload.skip(1)) {
            None => None,
            Some((_, used)) => if payload[0] < 0x20 {
                connect_packet(payload.skip((1 + used) as int))
            } else {
                Some(ProtocolView::Mqtt { client_id: None })
            },
        }
    }
}

pub struct MqttClassifier;

impl Classifier for MqttClassifier {
    open spec fn verdict(&self, payload: Seq<u8>, is_tcp: bool) -> Option<ProtocolView> {
        if is_tcp {
            control_packet(payload)
        } else {
            None
        }
    }

    fn classify(&self, payload: &[u8], is_tcp: bool) -> (r: Option<AppProtocol>) {
        if !is_tcp || payload.len() == 0 {
            return None;
        }
        // Types 0 and 15 are reserved.
        let packet_type = payload[0] / 16;
        if packet_type == 0 || packet_type == 15 {
            return None;
        }
        let after_type = &payload[1..payload.len()];
        assert(after_type@ == payload@.skip(1));
        match decode_remaining_length(after_type) {
            None => None,
            Some((_, used)) => {
                let body = &payload[1 + used..payload.len()];
                assert(body@ == payload@.skip(1 + used));
                if packet_type == 1 {
                    parse_connect(body)
                } else {
                    Some(AppProtocol::Mqtt { client_id: None })
                }
            },
        }
    }
}

/// A string with its length in front.
pub open spec fn string_bytes(t: Seq<char>) -> Seq<u8> {
    let n = encode_utf8(t).len();
    seq![(n / 256) as u8, (n % 256) as u8] + encode_utf8(t)
}

/// A length-prefixed string is read back as it was written, and what follows
/// it is left alone.
pub proof fn law_string_round_trip(t: Seq<char>, rest: Seq<u8>)
    requires
        encode_utf8(t).len() <= 0xffff,
    ensures
        prefixed_string(string_bytes(t) + rest) == Some((t, rest)),
{
    let bytes = encode_utf8(t);
    let n = bytes.len() as int;
    let buf = string_bytes(t) + rest;
    assert(buf[0] == (n / 256) as u8 && buf[1] == (n % 256) as u8);
    assert(scan::be16(buf[0], buf[1]) == n);
    assert(buf.subrange(2, 2 + n) =~= bytes);
    assert(buf.skip(2 + n) =~= rest);
    encode_utf8_valid_utf8(t);
    encode_utf8_decode_utf8(t);
}

/// The client id of a CONNECT packet is the one reported, for both protocol
/// names, whatever the protocol level, flags and keepalive.
pub proof fn law_client_id_round_trip(id: Seq<char>, four: Seq<u8>, rest: Seq<u8>)
    requires
        encode_utf8(id).len() <= 0xffff,
        four.len() == 4,
    ensures
        connect_packet(string_bytes("MQTT"@) + four + string_bytes(id) + rest) == Some(
            ProtocolView::Mqtt {
                client_id: if id.len() == 0 {
                    None
                } else {
                    Some(id)
                },
            },
        ),
        connect_packet(string_bytes("MQIsdp"@) + four + string_bytes(id) + rest) == Some(
            ProtocolView::Mqtt {
                client_id: if id.len() == 0 {
                    None
                } else {
                    Some(id)
                },
            },
        ),
{
    reveal_strlit("MQTT");
    reveal_strlit("MQIsdp");
    assert(is_ascii_chars("MQTT"@));
    assert(is_ascii_chars("MQIsdp"@));
    is_ascii_chars_encode_utf8("MQTT"@);
    is_ascii_chars_encode_utf8("MQIsdp"@);
    let tail = string_bytes(id) + rest;
    let a = string_bytes("MQTT"@);
    let b = string_bytes("MQIsdp"@);
    assert(a + four + string_bytes(id) + rest =~= a + (four + tail));
    assert(b + four + string_bytes(id) + rest =~= b + (four + tail));
    assert((four + tail).skip(4) =~= tail);
    law_string_round_trip("MQTT"@, four + tail);
    law_string_round_trip("MQIsdp"@, four + tail);
    law_string_round_trip(id, rest);
}

/// The encoding of a remaining length: base-128 digits, least significant
/// first, with the top bit on all but the last.
pub open spec fn length_bytes(n: nat) -> Seq<u8>
    decreases n,
{
    if n < 128 {
        seq![n as u8]
    } else {
        seq![(128 + n % 128) as u8] + length_bytes(n / 128)
    }
}

proof fn lemma_first_digit(digits: Seq<u8>)
    requires
        digits.len() > 0,
    ensures
        digits_value(digits) == (digits[0] % 128) as nat + 128 * digits_value(
            digits.drop_first(),
        ),
    decreases digits.len(),
{
    let rest = digits.drop_first();
    if digits.len() == 1 {
        assert(digits.drop_last() =~= Seq::<u8>::empty());
        assert(rest =~= Seq::<u8>::empty());
        assert(weight(0) == 1);
        assert(digits_value(digits.drop_last()) == 0);
    } else {
        let front = digits.drop_last();
        let k = (digits.len() - 1) as nat;
        let x = (digits.last() % 128) as nat;
        lemma_first_digit(front);
        assert(front.drop_first() =~= rest.drop_last());
        assert(rest.last() == digits.last());
        assert(weight(k) == 128 * weight((k - 1) as nat));
        assert(x * weight(k) == 128 * (x * weight((k - 1) as nat))) by (nonlinear_arith)
            requires
                weight(k) == 128 * weight((k - 1) as nat),
        ;
    }
}

proof fn lemma_length_bytes(n: nat)
    ensures
        length_bytes(n).len() > 0,
        digits_value(length_bytes(n)) == n,
        length_bytes(n).last() < 128,
        forall|i: int|
            0 <= i < length_bytes(n).len() - 1 ==> #[trigger] length_bytes(n)[i] >= 128,
    decreases n,
{
    let d = length_bytes(n);
    lemma_first_digit(d);
    if n < 128 {
        assert(d.drop_first() =~= Seq::<u8>::empty());
    } else {
        let rest = length_bytes(n / 128);
        lemma_length_bytes(n / 128);
        assert(d.drop_first() =~= rest);
        assert(d.last() == rest.last());
        assert forall|i: int| 0 <= i < d.len() - 1 implies #[trigger] d[i] >= 128 by {
            if i > 0 {
                assert(d[i] == rest[i - 1]);
            }
        }
    }
}

/// A remaining length is read back as it was written, and what follows it is
/// left alone.
pub proof fn law_length_round_trip(n: nat, rest: Seq<u8>)
    requires
        n < 268435456,
    ensures
        length_bytes(n).len() <= 4,
        remaining_length(length_bytes(n) + rest) == Some((n, length_bytes(n).len())),
{
    let d = length_bytes(n);
    let buf = d + rest;
    let field = scan::at_most(buf, 4);
    let last = d.len() - 1;
    lemma_length_bytes(n);
    assert(d.len() <= 4) by {
        reveal_with_fuel(length_bytes, 4);
    }
    assert forall|i: int| 0 <= i < last implies field[i] >= 128 by {
        assert(field[i] == d[i]);
    }
    assert(field[last] == d[last]);
    scan::lemma_index_where_is(field, |b: u8| b < 128, last);
    assert(buf.take(last + 1) =~= d);
}

/// A CONNECT packet of any length says what its body says, and any other
/// control packet that it is MQTT.
pub proof fn law_packets_are_unframed(first: u8, n: nat, body: Seq<u8>)
    requires
        0x10 <= first < 0xF0,
        n < 268435456,
    ensures
        MqttClassifier.verdict(seq![first] + length_bytes(n) + body, true) == (if first < 0x20 {
            connect_packet(body)
        } else {
            Some(ProtocolView::Mqtt { client_id: None })
        }),
{
    let payload = seq![first] + length_bytes(n) + body;
    law_length_round_trip(n, body);
    assert(payload.skip(1) =~= length_bytes(n) + body);
    assert(payload.skip(1 + length_bytes(n).len() as int) =~= body);
}

/// What is no control packet: one over UDP, without bytes, of a reserved
/// type, or with a length that does not end within four bytes.
pub proof fn law_only_control_packets_are_recognized(payload: Seq<u8>)
    ensures
        MqttClassifier.verdict(payload, false) is None,
        MqttClassifier.verdict(payload, true) matches Some(p) ==> p is Mqtt && payload.len() >= 2
            && 0x10 <= payload[0] < 0xF0,
        payload.len() >= 5 && payload[1] >= 128 && payload[2] >= 128 && payload[3] >= 128
            && payload[4] >= 128 ==> MqttClassifier.verdict(payload, true) is None,
{
    if payload.len() > 0 {
        let buf = payload.skip(1);
        let field = scan::at_most(buf, 4);
        let p = |b: u8| b < 128;
        scan::lemma_index_where(field, p);
        if payload.len() >= 5 && payload[1] >= 128 && payload[2] >= 128 && payload[3] >= 128
            && payload[4] >= 128 {
            assert(field[0] == payload[1] && field[1] == payload[2] && field[2] == payload[3]
                && field[3] == payload[4]);
            scan::lemma_index_where_is(field, p, 4);
        }
    }
}

/// A CONNECT packet has to name one of the two protocols, leave four bytes
/// for level, flags and keepalive, and carry a client id that is text.
pub proof fn law_only_connects_are_recognized(protocol: Seq<char>, rest: Seq<u8>)
    requires
        encode_utf8(protocol).len() <= 0xffff,
    ensures
        protocol != "MQTT"@ && protocol != "MQIsdp"@ ==> connect_packet(
            string_bytes(protocol) + rest,
        ) is None,
        rest.len() < 4 ==> connect_packet(string_bytes(protocol) + rest) is None,
        rest.len() >= 4 && prefixed_string(rest.skip(4)) is None ==> connect_packet(
            string_bytes(protocol) + rest,
        ) is None,
{
    law_string_round_trip(protocol, rest);
}

/// A length-prefixed string is there only as a whole and as text.
pub proof fn law_only_strings_are_read(buf: Seq<u8>)
    ensures
        prefixed_string(buf) matches Some((t, rest)) ==> buf == string_bytes(t) + rest,
{
    if let Some((t, rest)) = prefixed_string(buf) {
        let n = scan::be16(buf[0], buf[1]) as int;
        scan::law_be16(buf[0], buf[1], 0);
        let body = buf.subrange(2, 2 + n);
        text::law_decoding(t, body);
        assert(buf =~= string_bytes(t) + rest);
    }
}

} // verus!
