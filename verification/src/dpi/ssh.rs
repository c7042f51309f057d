//! SSH classifier: the protocol-version exchange banner (RFC 4253, 4.2).
//!
//! Both sides open an SSH connection with an identification string of the
//! form `SSH-protoversion-softwareversion SP comments CR LF`, in cleartext.

use vstd::prelude::*;
use vstd::utf8::*;

use super::{AppProtocol, Classifier, ProtocolView};
use crate::scan;
use crate::text;

verus! {

/// RFC 4253 caps the identification string at 255 bytes, CR LF counted.
pub const MAX_BANNER: usize = 255;

/// Whether `payload` opens as a banner does: `SSH-` and a digit.
pub open spec fn banner_start(payload: Seq<u8>) -> bool {
    scan::spells(payload, "SSH-"@) && payload.len() > 4 && 48 <= payload[4] <= 57
}

/// The bytes of the identification string in front of its line end.
pub open spec fn banner_line(payload: Seq<u8>) -> Seq<u8> {
    let head = scan::at_most(payload, MAX_BANNER as int);
    head.take(scan::line_end(head))
}

/// The banner that a payload opens with.
pub open spec fn banner(payload: Seq<u8>) -> Option<Seq<char>> {
    if !banner_start(payload) || !valid_utf8(banner_line(payload)) {
        None
    } else {
        let version = text::trimmed(decode_utf8(banner_line(payload)));
        if encode_utf8(version).len() < 6 {
            None
        } else {
            Some(version)
        }
    }
}

pub struct SshClassifier;

impl Classifier for SshClassifier {
    open spec fn verdict(&self, payload: Seq<u8>, is_tcp: bool) -> Option<ProtocolView> {
        if !is_tcp {
            None
        } else {
            match banner(payload) {
                Some(version) => Some(ProtocolView::Ssh { version }),
                None => None,
            }
        }
    }

    fn classify(&self, payload: &[u8], is_tcp: bool) -> (r: Option<AppProtocol>) {
        if !is_tcp {
            return None;
        }
        if !scan::begins_with(payload, "SSH-") {
            return None;
        }
        if payload.len() <= 4 || payload[4] < 48 || payload[4] > 57 {
            return None;
        }
        let head = scan::head(payload, MAX_BANNER);
        let end = scan::find_line_end(head);
        let line = &head[0..end];
        assert(line@ == banner_line(payload@));
        match text::decode(line) {
            None => None,
            Some(chars) => {
                let version = text::string_of(text::trim(chars.as_slice()));
                if version.as_str().as_bytes().len() < 6 {
                    return None;
                }
                Some(AppProtocol::Ssh { version })
            },
        }
    }
}

/// What follows the longest possible banner makes no difference.
pub proof fn law_banner_is_bounded(payload: Seq<u8>, more: Seq<u8>)
    requires
        payload.len() >= MAX_BANNER,
    ensures
        SshClassifier.verdict(payload + more, true) == SshClassifier.verdict(payload, true),
{
    let n = MAX_BANNER as int;
    assert(scan::at_most(payload + more, n) =~= scan::at_most(payload, n));
    reveal_strlit("SSH-");
    assert(is_ascii_chars("SSH-"@));
    is_ascii_chars_encode_utf8("SSH-"@);
    let want = encode_utf8("SSH-"@);
    assert(want.is_prefix_of(payload + more) <==> want.is_prefix_of(payload)) by {
        assert((payload + more).take(4) =~= payload.take(4));
    }
}

/// A banner is reported as it was sent, without its line end and the white
/// space in front of that: `SSH-`, a digit, and anything that is text.
pub proof fn law_banners_are_recognized(
    version: Seq<char>,
    blanks: Seq<char>,
    end: u8,
    more: Seq<u8>,
)
    requires
        version.len() > 0,
        '0' <= version[0] <= '9',
        !text::white_space(version.last()),
        text::blank(blanks),
        !version.contains('\r') && !version.contains('\n'),
        !blanks.contains('\r') && !blanks.contains('\n'),
        encode_utf8(version).len() >= 2,
        end == 13 || end == 10,
        encode_utf8("SSH-"@ + version + blanks).len() < 255,
    ensures
        SshClassifier.verdict(
            encode_utf8("SSH-"@ + version + blanks) + seq![end] + more,
            true,
        ) == Some(ProtocolView::Ssh { version: "SSH-"@ + version }),
        SshClassifier.verdict(encode_utf8("SSH-"@ + version + blanks), true) == Some(
            ProtocolView::Ssh { version: "SSH-"@ + version },
        ),
{
    let line = "SSH-"@ + version + blanks;
    let bytes = encode_utf8(line);
    lemma_banner_text(version, blanks);
    scan::lemma_lacks_add("SSH-"@, version, '\r');
    scan::lemma_lacks_add("SSH-"@, version, '\n');
    scan::lemma_lacks_add("SSH-"@ + version, blanks, '\r');
    scan::lemma_lacks_add("SSH-"@ + version, blanks, '\n');
    text::lemma_encode_lacks(line, 13);
    text::lemma_encode_lacks(line, 10);
    let payload = bytes + seq![end] + more;
    let head = scan::at_most(payload, 255);
    let rest = head.skip(bytes.len() as int + 1);
    assert(head =~= bytes + seq![end] + rest);
    scan::law_line_end(bytes, end, rest);
    assert(head.take(bytes.len() as int) =~= bytes);
    assert(bytes.take(bytes.len() as int) =~= bytes);
    encode_utf8_valid_utf8(line);
    encode_utf8_decode_utf8(line);
    assert forall|i: int| 0 <= i < 4 implies encode_utf8("SSH-"@)[i] == payload[i] by {
        assert(payload[i] == bytes[i]);
    }
    assert(payload[4] == bytes[4]);
}

proof fn lemma_banner_text(version: Seq<char>, blanks: Seq<char>)
    requires
        version.len() > 0,
        '0' <= version[0] <= '9',
        !text::white_space(version.last()),
        text::blank(blanks),
        encode_utf8(version).len() >= 2,
    ensures
        ({
            let bytes = encode_utf8("SSH-"@ + version + blanks);
            &&& !"SSH-"@.contains('\r') && !"SSH-"@.contains('\n')
            &&& encode_utf8("SSH-"@).len() == 4
            &&& bytes.len() >= 6
            &&& forall|i: int| 0 <= i < 4 ==> encode_utf8("SSH-"@)[i] == #[trigger] bytes[i]
            &&& bytes[4] == version[0] as u8
            &&& text::trimmed("SSH-"@ + version + blanks) == "SSH-"@ + version
            &&& encode_utf8("SSH-"@ + version).len() >= 6
        }),
{
    reveal_strlit("SSH-");
    let start = "SSH-"@;
    assert(is_ascii_chars(start));
    is_ascii_chars_encode_utf8(start);
    let t = start + version;
    text::lemma_encode_add(start, version);
    text::lemma_encode_add(t, blanks);
    let digit = seq![version[0]];
    let others = version.skip(1);
    assert(version =~= digit + others);
    text::lemma_encode_add(digit, others);
    assert(is_ascii_chars(digit));
    is_ascii_chars_encode_utf8(digit);
    let e = Seq::<char>::empty();
    assert(t[0] == 'S' && t.last() == version.last());
    text::law_trim(e, t, blanks);
    assert(e + t + blanks =~= t + blanks);
}

/// Nothing else is a banner: it takes TCP, `SSH-` and a digit.
pub proof fn law_only_banners_are_recognized(payload: Seq<u8>)
    ensures
        SshClassifier.verdict(payload, true) matches Some(p) ==> p is Ssh && scan::spells(
            payload,
            "SSH-"@,
        ) && payload.len() > 4 && '0' as int <= payload[4] <= '9' as int,
        SshClassifier.verdict(payload, false) is None,
{
}

} // verus!
