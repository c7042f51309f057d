//! SNMP v1, v2c and v3, on UDP 161 and 162.
//!
//! The wire format is ASN.1 BER: a SEQUENCE that holds the version as an
//! INTEGER and, in v1 and v2c, the community as an OCTET STRING.

use vstd::prelude::*;
use vstd::utf8::*;

use super::{AppProtocol, Classifier, ProtocolView};
use crate::text;

verus! {

/// The number that `bytes` hold in network order.
pub open spec fn be_value(bytes: Seq<u8>) -> nat
    decreases bytes.len(),
{
    if bytes.len() == 0 {
        0
    } else {
        be_value(bytes.drop_last()) * 256 + bytes.last() as nat
    }
}

/// The length that the header of a BER element gives, and how long that
/// header is. The short form is one byte below 128; the long form says in
/// its low seven bits how many length bytes follow, one to four.
pub open spec fn element_length(buf: Seq<u8>) -> Option<(nat, nat)> {
    if buf.len() < 2 {
        None
    } else if buf[1] < 128 {
        Some((buf[1] as nat, 2))
    } else {
        let n = buf[1] - 128;
        if n == 0 || n > 4 || buf.len() < 2 + n {
            None
        } else {
            Some((be_value(buf.subrange(2, 2 + n)), (2 + n) as nat))
        }
    }
}

/// The BER element with tag `tag` at the start of `buf`: its value, and the
/// bytes that follow it.
pub open spec fn element(buf: Seq<u8>, tag: u8) -> Option<(Seq<u8>, Seq<u8>)> {
    match element_length(buf) {
        None => None,
        Some((len, header)) => if buf[0] == tag && header + len <= buf.len() {
            Some((buf.subrange(header as int, (header + len) as int), buf.skip((header + len) as int)))
        } else {
            None
        },
    }
}

/// Reads the BER element with tag `expected_tag` at the start of `buf`: its
/// value bytes and the bytes after it.
pub fn read_tlv(buf: &[u8], expected_tag: u8) -> (r: Option<(&[u8], &[u8])>)
    ensures
        r is Some <==> element(buf@, expected_tag) is Some,
        r matches Some((value, rest)) ==> element(buf@, expected_tag) == Some((value@, rest@)),
{
    if buf.len() < 2 || buf[0] != expected_tag {
        return None;
    }
    let first = buf[1];
    let mut len: u64 = first as u64;
    let mut header: usize = 2;
    if first >= 128 {
        let n = (first - 128) as usize;
        if n == 0 || n > 4 || buf.len() < 2 + n {
            return None;
        }
        len = 0;
        let mut i: usize = 0;
        let ghost mut bound: int = 1;
        assert(buf@.subrange(2, 2) == Seq::<u8>::empty());
        while i < n
            invariant
                i <= n <= 4,
                2 + n <= buf@.len(),
                len == be_value(buf@.subrange(2, 2 + i)),
                len < bound,
                i == 0 ==> bound == 1,
                i == 1 ==> bound == 256,
                i == 2 ==> bound == 65536,
                i == 3 ==> bound == 16777216,
                i == 4 ==> bound == 4294967296,
            decreases n - i,
        {
            proof {
                let next = buf@.subrange(2, 2 + i + 1);
                assert(next.drop_last() == buf@.subrange(2, 2 + i));
                assert(next.last() == buf@[2 + i]);
                bound = bound * 256;
            }
            len = len * 256 + buf[2 + i] as u64;
            i = i + 1;
        }
        header = 2 + n;
    }
    assert(element_length(buf@) == Some((len as nat, header as nat)));
    if ((buf.len() - header) as u64) < len {
        return None;
    }
    let end = header + len as usize;
    let value = &buf[header..end];
    let rest = &buf[end..buf.len()];
    assert(rest@ == buf@.skip(end as int));
    Some((value, rest))
}

/// The name of an SNMP version number.
pub open spec fn version_name(v: u8) -> Option<Seq<char>> {
    if v == 0 {
        Some("v1"@)
    } else if v == 1 {
        Some("v2c"@)
    } else if v == 3 {
        Some("v3"@)
    } else {
        None
    }
}

/// What the body of an SNMP message says.
pub open spec fn message_body(body: Seq<u8>) -> Option<ProtocolView> {
    match element(body, 0x02) {
        None => None,
        Some((number, after)) => if number.len() == 0 {
            None
        } else {
            match version_name(number[0]) {
                None => None,
                Some(version) => if number[0] == 3 {
                    Some(ProtocolView::Snmp { version, community: None })
                } else {
                    match element(after, 0x04) {
                        None => None,
                        Some((community, _)) => Some(
                            ProtocolView::Snmp { version, community: text::decoded(community) },
                        ),
                    }
                },
            }
        },
    }
}

pub struct SnmpClassifier;

impl Classifier for SnmpClassifier {
    open spec fn verdict(&self, payload: Seq<u8>, is_tcp: bool) -> Option<ProtocolView> {
        if is_tcp {
            None
        } else {
            match element(payload, 0x30) {
                None => None,
                Some((body, _)) => message_body(body),
            }
        }
    }

    fn classify(&self, payload: &[u8], is_tcp: bool) -> (r: Option<AppProtocol>) {
        if is_tcp {
            return None;
        }
        match read_tlv(payload, 0x30) {
            None => None,
            Some((body, _)) => match read_tlv(body, 0x02) {
                None => None,
                Some((number, after)) => {
                    if number.len() == 0 {
                        return None;
                    }
                    let v = number[0];
                    let version = match v {
                        0 => "v1",
                        1 => "v2c",
                        3 => "v3",
                        _ => return None,
                    };
                    if v == 3 {
                        return Some(
                            AppProtocol::Snmp { version: version.to_string(), community: None },
                        );
                    }
                    match read_tlv(after, 0x04) {
                        None => None,
                        Some((community, _)) => {
                            let community = match text::decode(community) {
                                Some(t) => Some(text::string_of(t.as_slice())),
                                None => None,
                            };
                            Some(AppProtocol::Snmp { version: version.to_string(), community })
                        },
                    }
                },
            },
        }
    }
}

/// Reading an element takes its buffer apart: a header of two to six bytes,
/// the value, and the rest, with nothing lost in between.
pub proof fn law_elements_partition_their_buffer(buf: Seq<u8>, tag: u8)
    ensures
        element(buf, tag) matches Some((value, rest)) ==> {
            let header = buf.len() - value.len() - rest.len();
            &&& 2 <= header <= 6
            &&& buf[0] == tag
            &&& buf == buf.take(header) + value + rest
        },
{
    if let Some((value, rest)) = element(buf, tag) {
        let header = buf.len() - value.len() - rest.len();
        assert(buf =~= buf.take(header) + value + rest);
    }
}

/// A number in network order, without leading zeros.
pub open spec fn be_bytes(n: nat) -> Seq<u8>
    decreases n,
{
    if n < 256 {
        seq![n as u8]
    } else {
        be_bytes(n / 256).push((n % 256) as u8)
    }
}

/// The length field of an element: the length itself below 128, and else the
/// number of length bytes with the top bit set, and these bytes.
pub open spec fn length_field(n: nat) -> Seq<u8> {
    if n < 128 {
        seq![n as u8]
    } else {
        seq![(128 + be_bytes(n).len()) as u8] + be_bytes(n)
    }
}

/// The encoding of an element.
pub open spec fn encoded(tag: u8, value: Seq<u8>) -> Seq<u8> {
    seq![tag] + length_field(value.len()) + value
}

proof fn lemma_be_bytes(n: nat)
    ensures
        be_bytes(n).len() > 0,
        be_value(be_bytes(n)) == n,
    decreases n,
{
    let b = be_bytes(n);
    if n < 256 {
        assert(b.drop_last() =~= Seq::<u8>::empty());
        assert(be_value(b.drop_last()) == 0);
    } else {
        lemma_be_bytes(n / 256);
        assert(b.drop_last() =~= be_bytes(n / 256));
    }
}

proof fn lemma_be_bytes_len(n: nat)
    requires
        n < 0x1_0000_0000,
    ensures
        be_bytes(n).len() <= 4,
{
    reveal_with_fuel(be_bytes, 4);
}

/// A long form of one to four length bytes is read by what these bytes say,
/// also where fewer would have done.
pub proof fn law_long_form_is_read(tag: u8, field: Seq<u8>, value: Seq<u8>, rest: Seq<u8>)
    requires
        1 <= field.len() <= 4,
        be_value(field) == value.len(),
    ensures
        element(seq![tag, (128 + field.len()) as u8] + field + value + rest, tag) == Some(
            (value, rest),
        ),
{
    let k = field.len() as int;
    let n = value.len() as int;
    let buf = seq![tag, (128 + field.len()) as u8] + field + value + rest;
    assert(buf[0] == tag && buf[1] == 128 + k);
    assert(buf.subrange(2, 2 + k) =~= field);
    assert(buf.subrange(2 + k, 2 + k + n) =~= value);
    assert(buf.skip(2 + k + n) =~= rest);
}

/// An element is read back as it was written, and what follows it is left
/// alone.
pub proof fn law_element_round_trip(tag: u8, value: Seq<u8>, rest: Seq<u8>)
    requires
        value.len() < 0x1_0000_0000,
    ensures
        element(encoded(tag, value) + rest, tag) == Some((value, rest)),
{
    let n = value.len();
    let buf = encoded(tag, value) + rest;
    if n < 128 {
        assert(buf[0] == tag && buf[1] == n);
        assert(buf.subrange(2, 2 + n as int) =~= value);
        assert(buf.skip(2 + n as int) =~= rest);
    } else {
        let field = be_bytes(n);
        lemma_be_bytes(n);
        lemma_be_bytes_len(n);
        law_long_form_is_read(tag, field, value, rest);
        assert(buf =~= seq![tag, (128 + field.len()) as u8] + field + value + rest);
    }
}

/// The community of a v1 or v2c message is the one reported, whatever its
/// length and whatever follows it.
pub proof fn law_community_round_trip(version: u8, community: Seq<char>, pdu: Seq<u8>, rest: Seq<u8>)
    requires
        version == 0 || version == 1,
        (encoded(0x02, seq![version]) + encoded(0x04, encode_utf8(community)) + pdu).len()
            < 0x1_0000_0000,
    ensures
        SnmpClassifier.verdict(
            encoded(
                0x30,
                encoded(0x02, seq![version]) + encoded(0x04, encode_utf8(community)) + pdu,
            ) + rest,
            false,
        ) == Some(
            ProtocolView::Snmp {
                version: if version == 0 {
                    "v1"@
                } else {
                    "v2c"@
                },
                community: Some(community),
            },
        ),
{
    let number = encoded(0x02, seq![version]);
    let name = encoded(0x04, encode_utf8(community));
    let body = number + name + pdu;
    law_element_round_trip(0x30, body, rest);
    assert(body =~= number + (name + pdu));
    law_element_round_trip(0x02, seq![version], name + pdu);
    law_element_round_trip(0x04, encode_utf8(community), pdu);
    encode_utf8_valid_utf8(community);
    encode_utf8_decode_utf8(community);
}

/// A v3 message is reported without a community, whatever follows its
/// version.
pub proof fn law_v3_has_no_community(more: Seq<u8>, rest: Seq<u8>)
    requires
        (encoded(0x02, seq![3u8]) + more).len() < 0x1_0000_0000,
    ensures
        SnmpClassifier.verdict(encoded(0x30, encoded(0x02, seq![3u8]) + more) + rest, false)
            == Some(ProtocolView::Snmp { version: "v3"@, community: None }),
{
    law_element_round_trip(0x30, encoded(0x02, seq![3u8]) + more, rest);
    law_element_round_trip(0x02, seq![3u8], more);
}

/// The community is the text of its bytes, and none where they are no text;
/// messages of other versions, of v1 and v2c without a community, and over
/// TCP are not recognized.
pub proof fn law_messages(version: u8, community: Seq<u8>, pdu: Seq<u8>, rest: Seq<u8>)
    requires
        (encoded(0x02, seq![version]) + encoded(0x04, community) + pdu).len() < 0x1_0000_0000,
        (encoded(0x02, seq![version]) + pdu).len() < 0x1_0000_0000,
    ensures
        ({
            let body = encoded(0x02, seq![version]) + encoded(0x04, community) + pdu;
            let said = SnmpClassifier.verdict(encoded(0x30, body) + rest, false);
            &&& version == 0 ==> said == Some(
                ProtocolView::Snmp { version: "v1"@, community: text::decoded(community) },
            )
            &&& version == 1 ==> said == Some(
                ProtocolView::Snmp { version: "v2c"@, community: text::decoded(community) },
            )
            &&& version == 3 ==> said == Some(
                ProtocolView::Snmp { version: "v3"@, community: None },
            )
            &&& version == 2 || version > 3 ==> said is None
        }),
        version != 3 && (pdu.len() == 0 || pdu[0] != 0x04) ==> SnmpClassifier.verdict(
            encoded(0x30, encoded(0x02, seq![version]) + pdu) + rest,
            false,
        ) is None,
{
    let number = encoded(0x02, seq![version]);
    let name = encoded(0x04, community);
    let body = number + name + pdu;
    law_element_round_trip(0x30, body, rest);
    assert(body =~= number + (name + pdu));
    law_element_round_trip(0x02, seq![version], name + pdu);
    law_element_round_trip(0x04, community, pdu);
    law_element_round_trip(0x30, number + pdu, rest);
    law_element_round_trip(0x02, seq![version], pdu);
}

/// Nothing else is a message: it is an element of tag 0x30 over UDP that
/// starts with one of tag 0x02.
pub proof fn law_only_messages_are_recognized(payload: Seq<u8>)
    ensures
        SnmpClassifier.verdict(payload, true) is None,
        SnmpClassifier.verdict(payload, false) matches Some(p) ==> p is Snmp && (element(
            payload,
            0x30,
        ) matches Some((body, _)) && element(body, 0x02) is Some),
{
}

/// What can not be read as an element: another tag, a length of no bytes or
/// of more than four, and one that says more than there is.
pub proof fn law_only_elements_are_read(buf: Seq<u8>, tag: u8)
    ensures
        buf.len() < 2 || buf[0] != tag ==> element(buf, tag) is None,
        buf.len() >= 2 && (buf[1] == 128 || buf[1] > 132) ==> element(buf, tag) is None,
        buf.len() >= 2 && buf[1] < 128 && buf.len() < 2 + buf[1] ==> element(buf, tag) is None,
        buf.len() >= 2 && 128 < buf[1] <= 132 && buf.len() < buf[1] - 126 ==> element(
            buf,
            tag,
        ) is None,
        buf.len() >= 2 && 128 < buf[1] <= 132 && buf.len() >= buf[1] - 126 && buf.len() < (buf[1]
            - 126) + be_value(buf.subrange(2, buf[1] - 126)) ==> element(buf, tag) is None,
{
}

/// Length bytes are read in network order.
pub proof fn law_be_value(bytes: Seq<u8>, b: u8)
    ensures
        be_value(Seq::<u8>::empty()) == 0,
        be_value(bytes.push(b)) == 256 * be_value(bytes) + b,
{
    assert(bytes.push(b).drop_last() =~= bytes);
}

} // verus!
