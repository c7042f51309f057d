//! FTP classifier: TCP control channel, and only on port 21.
//!
//! A client sends a command verb with its arguments on a line, a server a
//! reply code of three digits and a text. Either side identifies the channel.

use vstd::prelude::*;
use vstd::utf8::*;

use super::{AppProtocol, Classifier, ProtocolView};
use crate::scan;

verus! {

/// The command that a verb names, whatever its case: those of RFC 959 and the
/// common ones of its extensions.
pub open spec fn command(verb: Seq<u8>) -> Option<Seq<char>> {
    if scan::same_letters(verb, encode_utf8("USER"@)) {
        Some("USER"@)
    } else if scan::same_letters(verb, encode_utf8("PASS"@)) {
        Some("PASS"@)
    } else if scan::same_letters(verb, encode_utf8("ACCT"@)) {
        Some("ACCT"@)
    } else if scan::same_letters(verb, encode_utf8("CWD"@)) {
        Some("CWD"@)
    } else if scan::same_letters(verb, encode_utf8("CDUP"@)) {
        Some("CDUP"@)
    } else if scan::same_letters(verb, encode_utf8("SMNT"@)) {
        Some("SMNT"@)
    } else if scan::same_letters(verb, encode_utf8("QUIT"@)) {
        Some("QUIT"@)
    } else if scan::same_letters(verb, encode_utf8("REIN"@)) {
        Some("REIN"@)
    } else if scan::same_letters(verb, encode_utf8("PORT"@)) {
        Some("PORT"@)
    } else if scan::same_letters(verb, encode_utf8("PASV"@)) {
        Some("PASV"@)
    } else if scan::same_letters(verb, encode_utf8("TYPE"@)) {
        Some("TYPE"@)
    } else if scan::same_letters(verb, encode_utf8("STRU"@)) {
        Some("STRU"@)
    } else if scan::same_letters(verb, encode_utf8("MODE"@)) {
        Some("MODE"@)
    } else if scan::same_letters(verb, encode_utf8("RETR"@)) {
        Some("RETR"@)
    } else if scan::same_letters(verb, encode_utf8("STOR"@)) {
        Some("STOR"@)
    } else if scan::same_letters(verb, encode_utf8("STOU"@)) {
        Some("STOU"@)
    } else if scan::same_letters(verb, encode_utf8("APPE"@)) {
        Some("APPE"@)
    } else if scan::same_letters(verb, encode_utf8("ALLO"@)) {
        Some("ALLO"@)
    } else if scan::same_letters(verb, encode_utf8("REST"@)) {
        Some("REST"@)
    } else if scan::same_letters(verb, encode_utf8("RNFR"@)) {
        Some("RNFR"@)
    } else if scan::same_letters(verb, encode_utf8("RNTO"@)) {
        Some("RNTO"@)
    } else if scan::same_letters(verb, encode_utf8("ABOR"@)) {
        Some("ABOR"@)
    } else if scan::same_letters(verb, encode_utf8("DELE"@)) {
        Some("DELE"@)
    } else if scan::same_letters(verb, encode_utf8("RMD"@)) {
        Some("RMD"@)
    } else if scan::same_letters(verb, encode_utf8("MKD"@)) {
        Some("MKD"@)
    } else if scan::same_letters(verb, encode_utf8("PWD"@)) {
        Some("PWD"@)
    } else if scan::same_letters(verb, encode_utf8("LIST"@)) {
        Some("LIST"@)
    } else if scan::same_letters(verb, encode_utf8("NLST"@)) {
        Some("NLST"@)
    } else if scan::same_letters(verb, encode_utf8("SITE"@)) {
        Some("SITE"@)
    } else if scan::same_letters(verb, encode_utf8("SYST"@)) {
        Some("SYST"@)
    } else if scan::same_letters(verb, encode_utf8("STAT"@)) {
        Some("STAT"@)
    } else if scan::same_letters(verb, encode_utf8("HELP"@)) {
        Some("HELP"@)
    } else if scan::same_letters(verb, encode_utf8("NOOP"@)) {
        Some("NOOP"@)
    } else if scan::same_letters(verb, encode_utf8("FEAT"@)) {
        Some("FEAT"@)
    } else if scan::same_letters(verb, encode_utf8("OPTS"@)) {
        Some("OPTS"@)
    } else if scan::same_letters(verb, encode_utf8("AUTH"@)) {
        Some("AUTH"@)
    } else if scan::same_letters(verb, encode_utf8("EPSV"@)) {
        Some("EPSV"@)
    } else if scan::same_letters(verb, encode_utf8("EPRT"@)) {
        Some("EPRT"@)
    } else if scan::same_letters(verb, encode_utf8("SIZE"@)) {
        Some("SIZE"@)
    } else if scan::same_letters(verb, encode_utf8("MDTM"@)) {
        Some("MDTM"@)
    } else if scan::same_letters(verb, encode_utf8("MLSD"@)) {
        Some("MLSD"@)
    } else {
        None
    }
}

fn find_command(verb: &[u8]) -> (r: Option<&'static str>)
    ensures
        match r {
            Some(name) => command(verb@) == Some(name@),
            None => command(verb@) is None,
        },
{
    if scan::eq_ignore_case(verb, "USER".as_bytes()) {
        Some("USER")
    } else if scan::eq_ignore_case(verb, "PASS".as_bytes()) {
        Some("PASS")
    } else if scan::eq_ignore_case(verb, "ACCT".as_bytes()) {
        Some("ACCT")
    } else if scan::eq_ignore_case(verb, "CWD".as_bytes()) {
        Some("CWD")
    } else if scan::eq_ignore_case(verb, "CDUP".as_bytes()) {
        Some("CDUP")
    } else if scan::eq_ignore_case(verb, "SMNT".as_bytes()) {
        Some("SMNT")
    } else if scan::eq_ignore_case(verb, "QUIT".as_bytes()) {
        Some("QUIT")
    } else if scan::eq_ignore_case(verb, "REIN".as_bytes()) {
        Some("REIN")
    } else if scan::eq_ignore_case(verb, "PORT".as_bytes()) {
        Some("PORT")
    } else if scan::eq_ignore_case(verb, "PASV".as_bytes()) {
        Some("PASV")
    } else if scan::eq_ignore_case(verb, "TYPE".as_bytes()) {
        Some("TYPE")
    } else if scan::eq_ignore_case(verb, "STRU".as_bytes()) {
        Some("STRU")
    } else if scan::eq_ignore_case(verb, "MODE".as_bytes()) {
        Some("MODE")
    } else if scan::eq_ignore_case(verb, "RETR".as_bytes()) {
        Some("RETR")
    } else if scan::eq_ignore_case(verb, "STOR".as_bytes()) {
        Some("STOR")
    } else if scan::eq_ignore_case(verb, "STOU".as_bytes()) {
        Some("STOU")
    } else if scan::eq_ignore_case(verb, "APPE".as_bytes()) {
        Some("APPE")
    } else if scan::eq_ignore_case(verb, "ALLO".as_bytes()) {
        Some("ALLO")
    } else if scan::eq_ignore_case(verb, "REST".as_bytes()) {
        Some("REST")
    } else if scan::eq_ignore_case(verb, "RNFR".as_bytes()) {
        Some("RNFR")
    } else if scan::eq_ignore_case(verb, "RNTO".as_bytes()) {
        Some("RNTO")
    } else if scan::eq_ignore_case(verb, "ABOR".as_bytes()) {
        Some("ABOR")
    } else if scan::eq_ignore_case(verb, "DELE".as_bytes()) {
        Some("DELE")
    } else if scan::eq_ignore_case(verb, "RMD".as_bytes()) {
        Some("RMD")
    } else if scan::eq_ignore_case(verb, "MKD".as_bytes()) {
        Some("MKD")
    } else if scan::eq_ignore_case(verb, "PWD".as_bytes()) {
        Some("PWD")
    } else if scan::eq_ignore_case(verb, "LIST".as_bytes()) {
        Some("LIST")
    } else if scan::eq_ignore_case(verb, "NLST".as_bytes()) {
        Some("NLST")
    } else if scan::eq_ignore_case(verb, "SITE".as_bytes()) {
        Some("SITE")
    } else if scan::eq_ignore_case(verb, "SYST".as_bytes()) {
        Some("SYST")
    } else if scan::eq_ignore_case(verb, "STAT".as_bytes()) {
        Some("STAT")
    } else if scan::eq_ignore_case(verb, "HELP".as_bytes()) {
        Some("HELP")
    } else if scan::eq_ignore_case(verb, "NOOP".as_bytes()) {
        Some("NOOP")
    } else if scan::eq_ignore_case(verb, "FEAT".as_bytes()) {
        Some("FEAT")
    } else if scan::eq_ignore_case(verb, "OPTS".as_bytes()) {
        Some("OPTS")
    } else if scan::eq_ignore_case(verb, "AUTH".as_bytes()) {
        Some("AUTH")
    } else if scan::eq_ignore_case(verb, "EPSV".as_bytes()) {
        Some("EPSV")
    } else if scan::eq_ignore_case(verb, "EPRT".as_bytes()) {
        Some("EPRT")
    } else if scan::eq_ignore_case(verb, "SIZE".as_bytes()) {
        Some("SIZE")
    } else if scan::eq_ignore_case(verb, "MDTM".as_bytes()) {
        Some("MDTM")
    } else if scan::eq_ignore_case(verb, "MLSD".as_bytes()) {
        Some("MLSD")
    } else {
        None
    }
}

/// Whether a line starts with a reply code, as `220 ` and `220-` do.
pub open spec fn reply(payload: Seq<u8>) -> bool {
    &&& payload.len() >= 4
    &&& 49 <= payload[0] <= 53
    &&& 48 <= payload[1] <= 57
    &&& 48 <= payload[2] <= 57
    &&& payload[3] == 32 || payload[3] == 45
}

/// The position of the first space, carriage return or line feed.
pub open spec fn verb_end(payload: Seq<u8>) -> int {
    scan::index_where(payload, |b: u8| b == 32 || b == 13 || b == 10)
}

/// The reply code or the command verb that a TCP payload starts with.
pub open spec fn ftp_line(payload: Seq<u8>) -> Option<Seq<char>> {
    if reply(payload) {
        Some(seq![payload[0] as char, payload[1] as char, payload[2] as char])
    } else {
        command(payload.take(verb_end(payload)))
    }
}

fn find_verb_end(payload: &[u8]) -> (r: usize)
    ensures
        r == verb_end(payload@),
        r <= payload@.len(),
{
    let mut i: usize = 0;
    while i < payload.len() && payload[i] != 32 && payload[i] != 13 && payload[i] != 10
        invariant
            i <= payload@.len(),
            forall|j: int|
                0 <= j < i ==> #[trigger] payload@[j] != 32 && payload@[j] != 13 && payload@[j]
                    != 10,
        decreases payload@.len() - i,
    {
        i = i + 1;
    }
    proof {
        scan::lemma_index_where_is(payload@, |b: u8| b == 32 || b == 13 || b == 10, i as int);
    }
    i
}

pub struct FtpClassifier;

impl Classifier for FtpClassifier {
    open spec fn verdict(&self, payload: Seq<u8>, is_tcp: bool) -> Option<ProtocolView> {
        if !is_tcp {
            None
        } else {
            match ftp_line(payload) {
                None => None,
                Some(command) => Some(ProtocolView::Ftp { command }),
            }
        }
    }

    fn classify(&self, payload: &[u8], is_tcp: bool) -> (r: Option<AppProtocol>) {
        if !is_tcp {
            return None;
        }
        if payload.len() >= 4 && 49 <= payload[0] && payload[0] <= 53 && 48 <= payload[1]
            && payload[1] <= 57 && 48 <= payload[2] && payload[2] <= 57 && (payload[3] == 32
            || payload[3] == 45) {
            let mut command = String::new();
            command.push(payload[0] as char);
            command.push(payload[1] as char);
            command.push(payload[2] as char);
            assert(command@ =~= seq![
                payload@[0] as char,
                payload@[1] as char,
                payload@[2] as char,
            ]);
            return Some(AppProtocol::Ftp { command });
        }
        let end = find_verb_end(payload);
        let verb = &payload[0..end];
        assert(verb@ == payload@.take(end as int));
        match find_command(verb) {
            Some(name) => Some(AppProtocol::Ftp { command: name.to_string() }),
            None => None,
        }
    }
}

/// The verbs that are known.
pub open spec fn a_verb(w: Seq<char>) -> bool {
    w == "USER"@
        || w == "PASS"@
        || w == "ACCT"@
        || w == "CWD"@
        || w == "CDUP"@
        || w == "SMNT"@
        || w == "QUIT"@
        || w == "REIN"@
        || w == "PORT"@
        || w == "PASV"@
        || w == "TYPE"@
        || w == "STRU"@
        || w == "MODE"@
        || w == "RETR"@
        || w == "STOR"@
        || w == "STOU"@
        || w == "APPE"@
        || w == "ALLO"@
        || w == "REST"@
        || w == "RNFR"@
        || w == "RNTO"@
        || w == "ABOR"@
        || w == "DELE"@
        || w == "RMD"@
        || w == "MKD"@
        || w == "PWD"@
        || w == "LIST"@
        || w == "NLST"@
        || w == "SITE"@
        || w == "SYST"@
        || w == "STAT"@
        || w == "HELP"@
        || w == "NOOP"@
        || w == "FEAT"@
        || w == "OPTS"@
        || w == "AUTH"@
        || w == "EPSV"@
        || w == "EPRT"@
        || w == "SIZE"@
        || w == "MDTM"@
        || w == "MLSD"@
}

/// A known verb in any case of its letters is recognized as a command that
/// spells it, and what is recognized is a known verb.
pub proof fn law_commands(verb: Seq<u8>, w: Seq<char>)
    ensures
        a_verb(w) && scan::same_letters(verb, encode_utf8(w)) ==> (command(verb) matches Some(c)
            && a_verb(c) && scan::same_letters(encode_utf8(c), encode_utf8(w))),
        command(verb) matches Some(c) ==> a_verb(c) && scan::same_letters(verb, encode_utf8(c)),
{
    if a_verb(w) && scan::same_letters(verb, encode_utf8(w)) {
        assert(command(verb) is Some);
        let c = command(verb)->0;
        assert(scan::same_letters(verb, encode_utf8(c)));
        let (x, y) = (encode_utf8(c), encode_utf8(w));
        assert forall|i: int| 0 <= i < x.len() implies scan::lower(#[trigger] x[i]) == scan::lower(
            y[i],
        ) by {
            assert(scan::lower(verb[i]) == scan::lower(x[i]));
            assert(scan::lower(verb[i]) == scan::lower(y[i]));
        }
    }
}

/// A line is told by the verb in front of its first space or line end, or by
/// a reply code of three digits with a space or a hyphen behind it; there is
/// none over UDP.
pub proof fn law_lines(verb: Seq<u8>, end: u8, more: Seq<u8>, a: u8, b: u8, c: u8)
    requires
        !verb.contains(32) && !verb.contains(13) && !verb.contains(10),
        verb.len() > 0 && !(48 <= verb[0] <= 57),
        end == 32 || end == 13 || end == 10,
        49 <= a <= 53 && 48 <= b <= 57 && 48 <= c <= 57,
    ensures
        FtpClassifier.verdict(verb + seq![end] + more, true) == (match command(verb) {
            Some(command) => Some(ProtocolView::Ftp { command }),
            None => None,
        }),
        FtpClassifier.verdict(verb, true) == (match command(verb) {
            Some(command) => Some(ProtocolView::Ftp { command }),
            None => None,
        }),
        FtpClassifier.verdict(seq![a, b, c, 32u8] + more, true) == Some(
            ProtocolView::Ftp { command: seq![a as char, b as char, c as char] },
        ),
        FtpClassifier.verdict(seq![a, b, c, 45u8] + more, true) == Some(
            ProtocolView::Ftp { command: seq![a as char, b as char, c as char] },
        ),
        FtpClassifier.verdict(more, false) is None,
{
    let s = verb + seq![end] + more;
    let p = |b: u8| b == 32 || b == 13 || b == 10;
    assert forall|j: int| 0 <= j < verb.len() implies !p(#[trigger] verb[j]) by {
        assert(verb.contains(verb[j]));
    }
    assert forall|j: int| 0 <= j < verb.len() implies !p(#[trigger] s[j]) by {
        assert(s[j] == verb[j]);
    }
    assert(s[verb.len() as int] == end);
    scan::lemma_index_where_is(s, p, verb.len() as int);
    scan::lemma_index_where_is(verb, p, verb.len() as int);
    assert(s.take(verb.len() as int) =~= verb);
    assert(verb.take(verb.len() as int) =~= verb);
    assert(s[0] == verb[0]);
    let r = seq![a, b, c, 32u8] + more;
    let h = seq![a, b, c, 45u8] + more;
    assert(r[0] == a && r[1] == b && r[2] == c && r[3] == 32);
    assert(h[0] == a && h[1] == b && h[2] == c && h[3] == 45);
}

} // verus!
