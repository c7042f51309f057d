//! DNS classifier: UDP queries and responses, mDNS among them.
//!
//! A message has a header of twelve bytes. The fifth and sixth hold the
//! number of questions, the top bit of the third tells responses from
//! queries, and the low half of the fourth is the response code. The first
//! question follows: a name, a type and a class.

use vstd::prelude::*;

use super::{AppProtocol, Classifier, ProtocolView};
use crate::scan;

verus! {

/// The length of the header.
pub const HEADER: usize = 12;

/// The longest label (RFC 1035).
pub const MAX_LABEL: u8 = 63;

/// The longest name on the wire (RFC 1035).
pub const MAX_NAME: usize = 255;

/// Whether bytes are printable ASCII without the space.
pub open spec fn graphic(bytes: Seq<u8>) -> bool {
    forall|i: int| 0 <= i < bytes.len() ==> 0x21 <= #[trigger] bytes[i] <= 0x7e
}

/// ASCII bytes as characters.
pub open spec fn ascii_text(bytes: Seq<u8>) -> Seq<char> {
    bytes.map_values(|b: u8| b as char)
}

/// Two parts of a name with a dot between them, where neither is empty.
pub open spec fn join(a: Seq<char>, b: Seq<char>) -> Seq<char> {
    if a.len() == 0 {
        b
    } else if b.len() == 0 {
        a
    } else {
        a + seq!['.'] + b
    }
}

/// The name at the start of `s`, a row of labels that an empty one ends, and
/// the number of bytes it takes. The name of a first question is never
/// compressed.
pub open spec fn name(s: Seq<u8>) -> Option<(Seq<char>, int)>
    decreases s.len(),
{
    if s.len() == 0 {
        None
    } else if s[0] == 0 {
        Some((seq![], 1))
    } else if s[0] > MAX_LABEL || s.len() <= s[0] || !graphic(s.subrange(1, 1 + s[0])) {
        None
    } else {
        match name(s.skip(1 + s[0])) {
            None => None,
            Some((rest, used)) => Some(
                (join(ascii_text(s.subrange(1, 1 + s[0])), rest), 1 + s[0] + used),
            ),
        }
    }
}

/// The first question of a message: its name, which is `.` for the root, and
/// its type.
pub open spec fn question(payload: Seq<u8>) -> Option<(Seq<char>, u16)> {
    if payload.len() < HEADER || scan::be16(payload[4], payload[5]) == 0 {
        None
    } else {
        let s = payload.skip(HEADER as int);
        match name(s) {
            None => None,
            Some((text, used)) => if used > MAX_NAME || used + 4 > s.len() {
                None
            } else {
                Some(
                    (
                        if text.len() == 0 {
                            "."@
                        } else {
                            text
                        },
                        scan::be16(s[used], s[used + 1]),
                    ),
                )
            },
        }
    }
}

/// The response code of a message, if it is a response.
pub open spec fn response_code(payload: Seq<u8>) -> Option<u8> {
    if payload[2] >= 128 {
        Some(payload[3] % 16)
    } else {
        None
    }
}

proof fn lemma_name_used(s: Seq<u8>)
    ensures
        name(s) matches Some((_, used)) ==> 1 <= used <= s.len(),
    decreases s.len(),
{
    if s.len() > 0 && s[0] != 0 && s[0] < s.len() {
        lemma_name_used(s.skip(1 + s[0]));
    }
}

proof fn lemma_join_associates(a: Seq<char>, b: Seq<char>, c: Seq<char>)
    ensures
        join(join(a, b), c) == join(a, join(b, c)),
{
    assert(join(join(a, b), c) =~= join(a, join(b, c)));
}

fn is_graphic(bytes: &[u8]) -> (r: bool)
    ensures
        r == graphic(bytes@),
{
    let mut i: usize = 0;
    while i < bytes.len()
        invariant
            i <= bytes@.len(),
            forall|j: int| 0 <= j < i ==> 0x21 <= #[trigger] bytes@[j] <= 0x7e,
        decreases bytes@.len() - i,
    {
        if bytes[i] < 0x21 || bytes[i] > 0x7e {
            assert(!(0x21 <= bytes@[i as int] <= 0x7e));
            return false;
        }
        i = i + 1;
    }
    true
}

/// Appends a label to a name.
fn push_label(out: &mut String, is_first: bool, label: &[u8])
    requires
        is_first <==> old(out)@.len() == 0,
        label@.len() > 0,
    ensures
        final(out)@ == join(old(out)@, ascii_text(label@)),
        final(out)@.len() > 0,
{
    let ghost start = out@;
    if !is_first {
        out.push('.');
    }
    let ghost lead = out@;
    let mut i: usize = 0;
    assert(lead + ascii_text(label@.take(0)) =~= lead);
    while i < label.len()
        invariant
            i <= label@.len(),
            out@ == lead + ascii_text(label@.take(i as int)),
        decreases label@.len() - i,
    {
        out.push(label[i] as char);
        assert(out@ =~= lead + ascii_text(label@.take(i + 1)));
        i = i + 1;
    }
    assert(label@.take(i as int) == label@);
    assert(out@ =~= join(start, ascii_text(label@)));
}

/// Reads the name at the start of `s`.
pub fn read_name(s: &[u8]) -> (r: Option<(String, usize)>)
    ensures
        match r {
            Some((text, used)) => used <= MAX_NAME && name(s@) == Some((text@, used as int)),
            None => match name(s@) {
                Some((_, used)) => used > MAX_NAME,
                None => true,
            },
        },
{
    let mut out = String::new();
    let mut is_first = true;
    let mut at: usize = 0;
    assert(s@.skip(0) == s@);
    proof {
        lemma_name_used(s@);
        assert(out@.len() == 0);
    }
    loop
        invariant
            at <= s@.len(),
            at <= MAX_NAME,
            is_first <==> out@.len() == 0,
            match name(s@.skip(at as int)) {
                Some((rest, used)) => name(s@) == Some((join(out@, rest), at + used)),
                None => name(s@) is None,
            },
        decreases s@.len() - at,
    {
        let ghost rest = s@.skip(at as int);
        if at >= s.len() {
            return None;
        }
        let n = s[at];
        assert(rest[0] == n);
        if n == 0 {
            assert(join(out@, Seq::<char>::empty()) =~= out@);
            if at >= MAX_NAME {
                return None;
            }
            return Some((out, at + 1));
        }
        if n > MAX_LABEL || s.len() - at <= n as usize {
            return None;
        }
        let next = at + 1 + n as usize;
        let label = &s[at + 1..next];
        assert(label@ == rest.subrange(1, 1 + n));
        if !is_graphic(label) {
            return None;
        }
        let ghost before = out@;
        proof {
            let tail = s@.skip(next as int);
            assert(rest.skip(1 + n) == tail);
            lemma_name_used(tail);
            if let Some((remainder, _)) = name(tail) {
                lemma_join_associates(before, ascii_text(label@), remainder);
            }
        }
        push_label(&mut out, is_first, label);
        is_first = false;
        if next > MAX_NAME {
            return None;
        }
        at = next;
    }
}

pub struct DnsClassifier;

impl Classifier for DnsClassifier {
    open spec fn verdict(&self, payload: Seq<u8>, is_tcp: bool) -> Option<ProtocolView> {
        if is_tcp {
            None
        } else {
            match question(payload) {
                None => None,
                Some((qname, qtype)) => Some(
                    ProtocolView::Dns { qname, qtype, rcode: response_code(payload) },
                ),
            }
        }
    }

    fn classify(&self, payload: &[u8], is_tcp: bool) -> (r: Option<AppProtocol>) {
        if is_tcp || payload.len() < HEADER {
            return None;
        }
        if scan::read_be16(payload[4], payload[5]) == 0 {
            return None;
        }
        let s = &payload[HEADER..payload.len()];
        assert(s@ == payload@.skip(HEADER as int));
        match read_name(s) {
            None => None,
            Some((text, used)) => {
                if s.len() < used + 4 {
                    return None;
                }
                let qtype = scan::read_be16(s[used], s[used + 1]);
                let rcode = if payload[2] >= 128 {
                    Some(payload[3] % 16)
                } else {
                    None
                };
                assert(s@[0] != 0 ==> ascii_text(s@.subrange(1, 1 + s@[0])).len() > 0);
                let qname = if s[0] == 0 {
                    ".".to_string()
                } else {
                    text
                };
                Some(AppProtocol::Dns { qname, qtype, rcode })
            },
        }
    }
}

/// The wire form of a name.
pub open spec fn name_bytes(labels: Seq<Seq<u8>>) -> Seq<u8>
    decreases labels.len(),
{
    if labels.len() == 0 {
        seq![0u8]
    } else {
        seq![labels[0].len() as u8] + labels[0] + name_bytes(labels.drop_first())
    }
}

/// The labels of a name with dots between them.
pub open spec fn name_text(labels: Seq<Seq<u8>>) -> Seq<char>
    decreases labels.len(),
{
    if labels.len() == 0 {
        seq![]
    } else {
        join(ascii_text(labels[0]), name_text(labels.drop_first()))
    }
}

/// Whether labels can stand in a name.
pub open spec fn proper_labels(labels: Seq<Seq<u8>>) -> bool {
    forall|i: int|
        0 <= i < labels.len() ==> 0 < (#[trigger] labels[i]).len() <= MAX_LABEL && graphic(
            labels[i],
        )
}

/// A name is read back from its wire form, and what follows it is left alone.
pub proof fn law_name_round_trip(labels: Seq<Seq<u8>>, rest: Seq<u8>)
    requires
        proper_labels(labels),
    ensures
        name(name_bytes(labels) + rest) == Some(
            (name_text(labels), name_bytes(labels).len() as int),
        ),
    decreases labels.len(),
{
    let s = name_bytes(labels) + rest;
    if labels.len() > 0 {
        let label = labels[0];
        let others = labels.drop_first();
        let n = label.len() as int;
        assert(0 < n <= MAX_LABEL);
        assert forall|i: int| 0 <= i < others.len() implies 0 < (#[trigger] others[i]).len()
            <= MAX_LABEL && graphic(others[i]) by {
            assert(others[i] == labels[i + 1]);
        }
        law_name_round_trip(others, rest);
        assert(s[0] == n);
        assert(s.subrange(1, 1 + n) =~= label);
        assert(s.skip(1 + n) =~= name_bytes(others) + rest);
    }
}

/// The first question of a message is the one reported, with the response
/// code of a response.
pub proof fn law_question_round_trip(
    header: Seq<u8>,
    labels: Seq<Seq<u8>>,
    qtype: u16,
    rest: Seq<u8>,
)
    requires
        header.len() == HEADER,
        scan::be16(header[4], header[5]) > 0,
        proper_labels(labels),
        name_bytes(labels).len() <= MAX_NAME,
        rest.len() >= 2,
    ensures
        DnsClassifier.verdict(
            header + name_bytes(labels) + seq![(qtype / 256) as u8, (qtype % 256) as u8] + rest,
            false,
        ) == Some(
            ProtocolView::Dns {
                qname: if labels.len() == 0 {
                    "."@
                } else {
                    name_text(labels)
                },
                qtype,
                rcode: if header[2] >= 128 {
                    Some(header[3] % 16)
                } else {
                    None
                },
            },
        ),
{
    let number = seq![(qtype / 256) as u8, (qtype % 256) as u8];
    let used = name_bytes(labels).len() as int;
    let payload = header + name_bytes(labels) + number + rest;
    let s = payload.skip(HEADER as int);
    assert(s =~= name_bytes(labels) + (number + rest));
    law_name_round_trip(labels, number + rest);
    assert(s[used] == number[0] && s[used + 1] == number[1]);
    assert(scan::be16(number[0], number[1]) == qtype);
    assert(labels.len() > 0 ==> ascii_text(labels[0]).len() > 0);
    assert(payload[4] == header[4] && payload[5] == header[5]);
    assert(payload[2] == header[2] && payload[3] == header[3]);
}

/// The labels that a name comes apart into.
proof fn lemma_name_comes_apart(s: Seq<u8>) -> (labels: Seq<Seq<u8>>)
    requires
        name(s) is Some,
    ensures
        proper_labels(labels),
        name(s) == Some((name_text(labels), name_bytes(labels).len() as int)),
        name_bytes(labels).len() <= s.len(),
        s.take(name_bytes(labels).len() as int) == name_bytes(labels),
    decreases s.len(),
{
    let none = Seq::<Seq<u8>>::empty();
    if s[0] == 0 {
        assert(s.take(1) =~= name_bytes(none));
        none
    } else {
        let n = s[0] as int;
        let label = s.subrange(1, 1 + n);
        let rest = s.skip(1 + n);
        let others = lemma_name_comes_apart(rest);
        let labels = seq![label] + others;
        assert(labels.drop_first() =~= others);
        assert forall|i: int| 0 <= i < labels.len() implies 0 < (#[trigger] labels[i]).len()
            <= MAX_LABEL && graphic(labels[i]) by {
            if i > 0 {
                assert(labels[i] == others[i - 1]);
            }
        }
        let k = name_bytes(others).len() as int;
        assert(name_bytes(labels) =~= seq![s[0]] + label + name_bytes(others));
        assert forall|i: int| 0 <= i < 1 + n + k implies s[i] == name_bytes(labels)[i] by {
            if i > n {
                assert(rest.take(k)[i - 1 - n] == rest[i - 1 - n]);
            }
        }
        assert(s.take(1 + n + k) =~= name_bytes(labels));
        labels
    }
}

/// What is read as a name is one: rows of up to 63 printable characters, each
/// behind its length, that an empty one ends; above all, no compressed name.
pub proof fn law_only_names_are_read(s: Seq<u8>)
    ensures
        name(s) matches Some((text, used)) ==> exists|labels: Seq<Seq<u8>>|
            {
                &&& forall|i: int|
                    0 <= i < labels.len() ==> 1 <= (#[trigger] labels[i]).len() <= 63 && (forall|
                        j: int,
                    |
                        0 <= j < labels[i].len() ==> 0x21 <= #[trigger] labels[i][j] <= 0x7e)
                &&& used <= s.len()
                &&& s.take(used) == #[trigger] name_bytes(labels)
                &&& text == name_text(labels)
            },
        s.len() > 0 && s[0] >= 64 ==> name(s) is None,
        s.len() == 0 ==> name(s) is None,
{
    if name(s) is Some {
        let labels = lemma_name_comes_apart(s);
        assert forall|i: int| 0 <= i < labels.len() implies 1 <= (#[trigger] labels[i]).len() <= 63
            && (forall|j: int|
            0 <= j < labels[i].len() ==> 0x21 <= #[trigger] labels[i][j] <= 0x7e) by {
            assert(graphic(labels[i]));
        }
    }
}

/// Nothing else is a message: it takes UDP, a header of twelve bytes that
/// counts a question, a name of up to 255 bytes, and four bytes behind it.
pub proof fn law_only_messages_are_recognized(payload: Seq<u8>)
    ensures
        DnsClassifier.verdict(payload, true) is None,
        payload.len() < 12 ==> DnsClassifier.verdict(payload, false) is None,
        payload.len() >= 12 && payload[4] == 0 && payload[5] == 0 ==> DnsClassifier.verdict(
            payload,
            false,
        ) is None,
        DnsClassifier.verdict(payload, false) matches Some(p) ==> p is Dns && (name(
            payload.skip(12),
        ) matches Some((_, used)) && used <= 255 && 12 + used + 4 <= payload.len()),
{
    if payload.len() >= 12 {
        scan::law_be16(payload[4], payload[5], 0);
    }
}

/// Dots stand between labels: joining puts one between two parts, and none
/// where a part is empty.
pub proof fn law_join(a: Seq<char>, b: Seq<char>)
    ensures
        join(a, Seq::<char>::empty()) == a,
        join(Seq::<char>::empty(), b) == b,
        a.len() > 0 && b.len() > 0 ==> join(a, b) == a + "."@ + b,
{
    reveal_strlit(".");
    assert("."@ =~= seq!['.']);
}

/// The text of a name is that of its labels, byte for character, joined.
pub proof fn law_name_text(label: Seq<u8>, others: Seq<Seq<u8>>, i: int)
    requires
        0 <= i < label.len(),
    ensures
        name_text(Seq::<Seq<u8>>::empty()).len() == 0,
        name_text(seq![label] + others) == join(ascii_text(label), name_text(others)),
        ascii_text(label).len() == label.len() && ascii_text(label)[i] == label[i] as char,
{
    assert((seq![label] + others).drop_first() =~= others);
}

} // verus!
