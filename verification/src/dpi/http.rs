//! HTTP/1.x classifier: TCP, cleartext only.
//!
//! Recognizes either side of a connection:
//!   - a request, `METHOD SP request-target SP HTTP/1.x CRLF` and header
//!     lines, with the method, the request-target and the `Host:` header;
//!   - a response, `HTTP/1.x SP status CRLF`, reported under the method name
//!     `RESPONSE` with its status code.
//!
//! A request line has to contain ` HTTP/1.`, so that text which happens to
//! start with an upper-case word is not taken for HTTP.

use vstd::prelude::*;
use vstd::utf8::*;

use super::{AppProtocol, Classifier, ProtocolView};
use crate::scan;
use crate::text;

verus! {

/// How far into a payload the header scan goes.
pub const MAX_SCAN: usize = 2048;

/// The methods of RFC 7231, and PATCH (RFC 5789).
pub open spec fn known_method(m: Seq<char>) -> bool {
    ||| m == "GET"@
    ||| m == "POST"@
    ||| m == "PUT"@
    ||| m == "DELETE"@
    ||| m == "HEAD"@
    ||| m == "OPTIONS"@
    ||| m == "PATCH"@
    ||| m == "TRACE"@
    ||| m == "CONNECT"@
}

fn is_known_method(m: &[char]) -> (r: bool)
    ensures
        r == known_method(m@),
{
    text::is_text(m, "GET") || text::is_text(m, "POST") || text::is_text(m, "PUT") || text::is_text(
        m,
        "DELETE",
    ) || text::is_text(m, "HEAD") || text::is_text(m, "OPTIONS") || text::is_text(m, "PATCH")
        || text::is_text(m, "TRACE") || text::is_text(m, "CONNECT")
}

/// The first line of `slice`, in front of its CR or LF, when it is text.
pub open spec fn line_text(slice: Seq<u8>) -> Option<Seq<char>> {
    text::decoded(slice.take(scan::line_end(slice)))
}

/// The first line of `slice`, in front of its CR or LF, when it is text.
pub fn first_line(slice: &[u8]) -> (r: Option<Vec<char>>)
    ensures
        r is Some <==> line_text(slice@) is Some,
        r matches Some(line) ==> Some(line@) == line_text(slice@),
{
    let end = scan::find_line_end(slice);
    let line = &slice[0..end];
    assert(line@ == slice@.take(scan::line_end(slice@)));
    text::decode(line)
}

/// Whether a header line has the field name `name`, whatever its case.
pub open spec fn names_field(line: Seq<u8>, name: Seq<char>) -> bool {
    let colon = scan::until(line, 58);
    colon < line.len() && scan::same_letters(line.take(colon), encode_utf8(name))
}

/// Whether a line is the blank one that ends a header block.
pub open spec fn blank_line(line: Seq<u8>) -> bool {
    line.len() == 0 || line == seq![13u8]
}

/// The value of the first field called `name` in a header block: what
/// follows the colon on its line.
pub open spec fn field_value(block: Seq<u8>, name: Seq<char>) -> Option<Seq<u8>>
    decreases block.len(),
{
    let end = scan::until(block, 10);
    let line = block.take(end);
    if blank_line(line) {
        None
    } else if names_field(line, name) {
        Some(line.skip(scan::until(line, 58) + 1))
    } else if end >= block.len() {
        None
    } else {
        proof {
            scan::lemma_index_where(block, scan::equal_to(10u8));
        }
        field_value(block.skip(end + 1), name)
    }
}

/// What follows the first line of a message.
pub open spec fn after_first_line(slice: Seq<u8>) -> Option<Seq<u8>> {
    let n = scan::until(slice, 10);
    if n < slice.len() {
        Some(slice.skip(n + 1))
    } else {
        None
    }
}

/// The trimmed text of the first field called `name` in a message, when it
/// is there, readable and not blank.
pub open spec fn header_text(slice: Seq<u8>, name: Seq<char>) -> Option<Seq<char>> {
    match after_first_line(slice) {
        None => None,
        Some(block) => match field_value(block, name) {
            None => None,
            Some(value) => if valid_utf8(value) && text::trimmed(decode_utf8(value)).len() > 0 {
                Some(text::trimmed(decode_utf8(value)))
            } else {
                None
            },
        },
    }
}

/// The trimmed text of one field value, unless it is blank or no text.
fn readable(value: &[u8]) -> (r: Option<String>)
    ensures
        text::text_of(r) == (if valid_utf8(value@) && text::trimmed(decode_utf8(value@)).len() > 0 {
            Some(text::trimmed(decode_utf8(value@)))
        } else {
            None
        }),
{
    match text::decode(value) {
        None => None,
        Some(chars) => {
            let t = text::trim(chars.as_slice());
            if t.len() == 0 {
                None
            } else {
                Some(text::string_of(t))
            }
        },
    }
}

/// Scans the header lines of a message for the field called `name`.
pub fn find_header(slice: &[u8], name: &str) -> (r: Option<String>)
    ensures
        text::text_of(r) == header_text(slice@, name@),
{
    let first = scan::find_byte(slice, 10);
    if first >= slice.len() {
        return None;
    }
    let mut at: usize = first + 1;
    let ghost block = slice@.skip(first + 1);
    loop
        invariant
            at <= slice@.len(),
            after_first_line(slice@) == Some(block),
            field_value(slice@.skip(at as int), name@) == field_value(block, name@),
        decreases slice@.len() - at,
    {
        let rest = &slice[at..slice.len()];
        assert(rest@ == slice@.skip(at as int));
        let end = scan::find_byte(rest, 10);
        let line = &rest[0..end];
        assert(line@ == rest@.take(end as int));
        if line.len() == 0 {
            return None;
        }
        if line.len() == 1 && line[0] == 13 {
            assert(line@ =~= seq![13u8]);
            return None;
        }
        assert(!blank_line(line@)) by {
            if line@ == seq![13u8] {
                assert(line@.len() == 1 && line@[0] == 13);
            }
        }
        let colon = scan::find_byte(line, 58);
        if colon < line.len() {
            let field = &line[0..colon];
            assert(field@ == line@.take(colon as int));
            if scan::eq_ignore_case(field, name.as_bytes()) {
                let value = &line[colon + 1..line.len()];
                assert(value@ == line@.skip(colon + 1));
                return readable(value);
            }
        }
        if end >= rest.len() {
            return None;
        }
        assert(rest@.skip(end + 1) == slice@.skip(at + end + 1));
        at = at + end + 1;
    }
}

/// The trimmed value of the `Host:` header of a request.
pub fn find_host_header(slice: &[u8]) -> (r: Option<String>)
    ensures
        text::text_of(r) == header_text(slice@, "host"@),
{
    find_header(slice, "host")
}

/// The method of a request line: what stands in front of its first space.
pub open spec fn method_of(line: Seq<char>) -> Seq<char> {
    line.take(scan::until(line, ' '))
}

/// The position of the first character that is not a space, or the length.
pub open spec fn space_end(t: Seq<char>) -> int {
    scan::index_where(t, |c: char| c != ' ')
}

/// The request-target of a request line: the field behind the method. Fields
/// are parted by spaces, and the last one is the version, so there is no
/// target when no further field follows.
pub open spec fn target_of(line: Seq<char>) -> Option<Seq<char>> {
    let after_method = line.skip(scan::until(line, ' '));
    let field = after_method.skip(space_end(after_method));
    let rest = field.skip(scan::until(field, ' '));
    if space_end(rest) < rest.len() {
        Some(field.take(scan::until(field, ' ')))
    } else {
        None
    }
}

fn find_non_space(t: &[char]) -> (r: usize)
    ensures
        r == space_end(t@),
        r <= t@.len(),
{
    let mut i: usize = 0;
    while i < t.len() && t[i] == ' '
        invariant
            i <= t@.len(),
            forall|j: int| 0 <= j < i ==> #[trigger] t@[j] == ' ',
        decreases t@.len() - i,
    {
        i = i + 1;
    }
    proof {
        scan::lemma_index_where_is(t@, |c: char| c != ' ', i as int);
    }
    i
}

fn request_target(line: &[char]) -> (r: Option<String>)
    ensures
        text::text_of(r) == target_of(line@),
{
    let m = scan::find_char(line, ' ');
    let after_method = &line[m..line.len()];
    assert(after_method@ == line@.skip(m as int));
    let a = find_non_space(after_method);
    let field = &after_method[a..after_method.len()];
    assert(field@ == after_method@.skip(a as int));
    let n = scan::find_char(field, ' ');
    let rest = &field[n..field.len()];
    assert(rest@ == field@.skip(n as int));
    if find_non_space(rest) >= rest.len() {
        return None;
    }
    let target = &field[0..n];
    assert(target@ == field@.take(n as int));
    Some(text::string_of(target))
}

/// The status code of a response: the three digits that form the second
/// field of its first line.
pub open spec fn status_of(slice: Seq<u8>) -> Option<u16> {
    let line = slice.take(scan::line_end(slice));
    let s = scan::until(line, 32);
    if s >= line.len() {
        None
    } else {
        let rest = line.skip(s + 1);
        let code = rest.take(scan::until(rest, 32));
        if code.len() == 3 && (forall|i: int| 0 <= i < 3 ==> 48 <= #[trigger] code[i] <= 57) {
            Some(((code[0] - 48) * 100 + (code[1] - 48) * 10 + (code[2] - 48)) as u16)
        } else {
            None
        }
    }
}

fn response_status(slice: &[u8]) -> (r: Option<u16>)
    ensures
        r == status_of(slice@),
{
    let end = scan::find_line_end(slice);
    let line = &slice[0..end];
    assert(line@ == slice@.take(end as int));
    let s = scan::find_byte(line, 32);
    if s >= line.len() {
        return None;
    }
    let rest = &line[s + 1..line.len()];
    assert(rest@ == line@.skip(s + 1));
    let n = scan::find_byte(rest, 32);
    let code = &rest[0..n];
    assert(code@ == rest@.take(n as int));
    if code.len() != 3 {
        return None;
    }
    if code[0] < 48 || code[0] > 57 || code[1] < 48 || code[1] > 57 || code[2] < 48 || code[2] > 57 {
        assert(!(48 <= code@[0] <= 57) || !(48 <= code@[1] <= 57) || !(48 <= code@[2] <= 57));
        return None;
    }
    Some((code[0] - 48) as u16 * 100 + (code[1] - 48) as u16 * 10 + (code[2] - 48) as u16)
}

/// What the scanned part of a TCP payload says as HTTP.
pub open spec fn http_message(slice: Seq<u8>) -> Option<ProtocolView> {
    if scan::spells(slice, "HTTP/1."@) {
        Some(
            ProtocolView::Http {
                method: "RESPONSE"@,
                host: None,
                path: None,
                status: status_of(slice),
            },
        )
    } else {
        match line_text(slice) {
            None => None,
            Some(line) => if text::contains(line, " HTTP/1."@) && known_method(method_of(line)) {
                Some(
                    ProtocolView::Http {
                        method: method_of(line),
                        host: header_text(slice, "host"@),
                        path: target_of(line),
                        status: None,
                    },
                )
            } else {
                None
            },
        }
    }
}

pub struct HttpClassifier;

impl Classifier for HttpClassifier {
    open spec fn verdict(&self, payload: Seq<u8>, is_tcp: bool) -> Option<ProtocolView> {
        if !is_tcp {
            None
        } else {
            http_message(scan::at_most(payload, MAX_SCAN as int))
        }
    }

    fn classify(&self, payload: &[u8], is_tcp: bool) -> (r: Option<AppProtocol>) {
        if !is_tcp {
            return None;
        }
        let slice = scan::head(payload, MAX_SCAN);
        if scan::begins_with(slice, "HTTP/1.") {
            let status = response_status(slice);
            return Some(
                AppProtocol::Http {
                    method: "RESPONSE".to_string(),
                    host: None,
                    path: None,
                    status,
                },
            );
        }
        match first_line(slice) {
            None => None,
            Some(line) => {
                let line = line.as_slice();
                if !text::contains_text(line, " HTTP/1.") {
                    return None;
                }
                let m = scan::find_char(line, ' ');
                let method = &line[0..m];
                assert(method@ == method_of(line@));
                if !is_known_method(method) {
                    return None;
                }
                let host = find_host_header(slice);
                let path = request_target(line);
                Some(
                    AppProtocol::Http {
                        method: text::string_of(method),
                        host,
                        path,
                        status: None,
                    },
                )
            },
        }
    }
}

/// Requests carry no status, and responses neither host nor request-target.
pub proof fn law_requests_and_responses_differ(payload: Seq<u8>)
    ensures
        HttpClassifier.verdict(payload, true) matches Some(
            ProtocolView::Http { method, host, path, status },
        ) ==> {
            &&& method == "RESPONSE"@ ==> host is None && path is None
            &&& method != "RESPONSE"@ ==> known_method(method) && status is None
        },
{
    assert(!known_method("RESPONSE"@)) by {
        reveal_strlit("RESPONSE");
        reveal_strlit("GET");
        reveal_strlit("POST");
        reveal_strlit("PUT");
        reveal_strlit("DELETE");
        reveal_strlit("HEAD");
        reveal_strlit("OPTIONS");
        reveal_strlit("PATCH");
        reveal_strlit("TRACE");
        reveal_strlit("CONNECT");
        assert("RESPONSE"@.len() == 8);
        assert("GET"@.len() == 3 && "POST"@.len() == 4 && "PUT"@.len() == 3);
        assert("DELETE"@.len() == 6 && "HEAD"@.len() == 4 && "OPTIONS"@.len() == 7);
        assert("PATCH"@.len() == 5 && "TRACE"@.len() == 5 && "CONNECT"@.len() == 7);
    }
}

/// What follows the scanned part of a payload makes no difference.
pub proof fn law_scan_is_bounded(payload: Seq<u8>, more: Seq<u8>)
    requires
        payload.len() >= MAX_SCAN,
    ensures
        HttpClassifier.verdict(payload + more, true) == HttpClassifier.verdict(payload, true),
{
    let n = MAX_SCAN as int;
    assert(scan::at_most(payload + more, n) =~= scan::at_most(payload, n));
}

/// A request line of method, request-target and version gives back the
/// request-target, whatever it looks like; one of method and version alone
/// has none.
pub proof fn law_request_target_round_trip(
    method: Seq<char>,
    target: Seq<char>,
    version: Seq<char>,
)
    requires
        !method.contains(' '),
        target.len() > 0,
        !target.contains(' '),
        version.len() > 0,
        !version.contains(' '),
    ensures
        target_of(method + seq![' '] + target + seq![' '] + version) == Some(target),
        target_of(method + seq![' '] + version) is None,
{
    lemma_field_behind(method, target, seq![' '] + version);
    assert(method + seq![' '] + target + seq![' '] + version =~= method + seq![' '] + target + (
    seq![' '] + version));
    let tail = seq![' '] + version;
    assert(tail[1] == version[0] && version.contains(version[0]));
    scan::lemma_index_where_is(tail, |c: char| c != ' ', 1);
    lemma_field_behind(method, version, seq![]);
    assert(method + seq![' '] + version + Seq::<char>::empty() =~= method + seq![' '] + version);
    scan::lemma_index_where_is(Seq::<char>::empty(), |c: char| c != ' ', 0);
}

/// How a line comes apart behind its method.
proof fn lemma_field_behind(method: Seq<char>, field: Seq<char>, rest: Seq<char>)
    requires
        !method.contains(' '),
        field.len() > 0,
        !field.contains(' '),
        rest.len() > 0 ==> rest[0] == ' ',
    ensures
        target_of(method + seq![' '] + field + rest) == (if space_end(rest) < rest.len() {
            Some(field)
        } else {
            None
        }),
{
    let line = method + seq![' '] + field + rest;
    let space = scan::equal_to(' ');
    let m = method.len() as int;
    let n = field.len() as int;
    assert forall|j: int| 0 <= j < m implies !space(#[trigger] line[j]) by {
        assert(line[j] == method[j] && method.contains(method[j]));
    }
    assert(line[m] == ' ');
    scan::lemma_index_where_is(line, space, m);
    let after_method = line.skip(m);
    assert(after_method[0] == ' ' && after_method[1] == field[0]);
    assert(field.contains(field[0]));
    scan::lemma_index_where_is(after_method, |c: char| c != ' ', 1);
    let here = after_method.skip(1);
    assert(here =~= field + rest);
    assert forall|j: int| 0 <= j < n implies !space(#[trigger] here[j]) by {
        assert(here[j] == field[j] && field.contains(field[j]));
    }
    assert(n < here.len() ==> here[n] == rest[0]);
    scan::lemma_index_where_is(here, space, n);
    assert(here.skip(n) =~= rest);
    assert(here.take(n) =~= field);
}

/// The texts of the nine methods.
pub open spec fn one_of_nine(m: Seq<char>) -> bool {
    m == "GET"@ || m == "POST"@ || m == "PUT"@ || m == "DELETE"@ || m == "HEAD"@ || m == "OPTIONS"@
        || m == "PATCH"@ || m == "TRACE"@ || m == "CONNECT"@
}

proof fn lemma_methods(m: Seq<char>)
    requires
        one_of_nine(m),
    ensures
        known_method(m),
        !m.contains(' ') && !m.contains('\r') && !m.contains('\n'),
        is_ascii_chars(m),
        3 <= m.len() <= 7,
        m[0] != 'H' || m[1] != 'T',
{
    reveal_strlit("GET");
    reveal_strlit("POST");
    reveal_strlit("PUT");
    reveal_strlit("DELETE");
    reveal_strlit("HEAD");
    reveal_strlit("OPTIONS");
    reveal_strlit("PATCH");
    reveal_strlit("TRACE");
    reveal_strlit("CONNECT");
}

/// A request with any of the nine methods is recognized: a line of method,
/// request-target and version, with CR LF behind it in the scanned part, gives
/// back the method and the request-target.
pub proof fn law_requests_are_recognized(
    method: Seq<char>,
    target: Seq<char>,
    minor: Seq<char>,
    more: Seq<u8>,
)
    requires
        one_of_nine(method),
        target.len() > 0,
        !target.contains(' ') && !target.contains('\r') && !target.contains('\n'),
        !minor.contains(' ') && !minor.contains('\r') && !minor.contains('\n'),
        encode_utf8(method + seq![' '] + target + " HTTP/1."@ + minor).len() + 2 <= 2048,
    ensures
        ({
            let line = method + seq![' '] + target + " HTTP/1."@ + minor;
            HttpClassifier.verdict(encode_utf8(line) + seq![13u8, 10u8] + more, true) matches Some(
                ProtocolView::Http { method: m, host: _, path, status },
            ) && m == method && path == Some(target) && status is None
        }),
{
    let line = method + seq![' '] + target + " HTTP/1."@ + minor;
    let bytes = encode_utf8(line);
    let slice = scan::at_most(bytes + seq![13u8, 10u8] + more, 2048);
    lemma_request_line(method, target, minor);
    lemma_first_line_is_text(line, more);
    assert(slice.take(bytes.len() as int) =~= bytes);
    lemma_no_response(method, line, slice);
}

proof fn lemma_request_line(method: Seq<char>, target: Seq<char>, minor: Seq<char>)
    requires
        one_of_nine(method),
        target.len() > 0,
        !target.contains(' ') && !target.contains('\r') && !target.contains('\n'),
        !minor.contains(' ') && !minor.contains('\r') && !minor.contains('\n'),
    ensures
        ({
            let line = method + seq![' '] + target + " HTTP/1."@ + minor;
            &&& !line.contains('\r') && !line.contains('\n')
            &&& text::contains(line, " HTTP/1."@)
            &&& method_of(line) == method
            &&& known_method(method)
            &&& target_of(line) == Some(target)
            &&& line.take(method.len() as int) == method
        }),
{
    lemma_methods(method);
    lemma_mark();
    let mark = " HTTP/1."@;
    let head = method + seq![' '] + target;
    let line = head + mark + minor;
    lemma_line_lacks(method, target, minor, '\r');
    lemma_line_lacks(method, target, minor, '\n');
    text::law_contains(line, mark, head, minor);
    let tail = target + mark + minor;
    assert(line =~= method + seq![' '] + tail);
    scan::law_until(method, ' ', tail);
    assert(line.take(method.len() as int) =~= method);
    let version = "HTTP/1."@ + minor;
    assert(line =~= method + seq![' '] + target + seq![' '] + version);
    scan::lemma_lacks_add("HTTP/1."@, minor, ' ');
    law_request_target_round_trip(method, target, version);
}

proof fn lemma_mark()
    ensures
        " HTTP/1."@ == seq![' '] + "HTTP/1."@,
        "HTTP/1."@.len() == 7,
        !"HTTP/1."@.contains(' ') && !"HTTP/1."@.contains('\r') && !"HTTP/1."@.contains('\n'),
        !" HTTP/1."@.contains('\r') && !" HTTP/1."@.contains('\n'),
{
    reveal_strlit(" HTTP/1.");
    reveal_strlit("HTTP/1.");
    assert(" HTTP/1."@ =~= seq![' '] + "HTTP/1."@);
}

proof fn lemma_line_lacks(method: Seq<char>, target: Seq<char>, minor: Seq<char>, c: char)
    requires
        c != ' ',
        !method.contains(c) && !target.contains(c) && !minor.contains(c),
        !" HTTP/1."@.contains(c),
    ensures
        !(method + seq![' '] + target + " HTTP/1."@ + minor).contains(c),
{
    let space = seq![' '];
    assert(!space.contains(c)) by {
        if space.contains(c) {
            let i = choose|i: int| 0 <= i < 1 && space[i] == c;
        }
    }
    scan::lemma_lacks_add(method, space, c);
    scan::lemma_lacks_add(method + space, target, c);
    scan::lemma_lacks_add(method + space + target, " HTTP/1."@, c);
    scan::lemma_lacks_add(method + space + target + " HTTP/1."@, minor, c);
}

proof fn lemma_first_line_is_text(line: Seq<char>, more: Seq<u8>)
    requires
        !line.contains('\r') && !line.contains('\n'),
        encode_utf8(line).len() + 2 <= 2048,
    ensures
        line_text(scan::at_most(encode_utf8(line) + seq![13u8, 10u8] + more, 2048)) == Some(line),
{
    let bytes = encode_utf8(line);
    let slice = scan::at_most(bytes + seq![13u8, 10u8] + more, 2048);
    text::lemma_encode_lacks(line, 13);
    text::lemma_encode_lacks(line, 10);
    let rest = slice.skip(bytes.len() as int + 1);
    assert(slice =~= bytes + seq![13u8] + rest);
    scan::law_line_end(bytes, 13, rest);
    assert(slice.take(bytes.len() as int) =~= bytes);
    text::law_decoding(line, bytes);
}

proof fn lemma_no_response(method: Seq<char>, line: Seq<char>, slice: Seq<u8>)
    requires
        one_of_nine(method),
        line.len() >= method.len(),
        line.take(method.len() as int) == method,
        slice.len() >= encode_utf8(line).len(),
        slice.take(encode_utf8(line).len() as int) == encode_utf8(line),
    ensures
        !scan::spells(slice, "HTTP/1."@),
{
    lemma_methods(method);
    let bytes = encode_utf8(line);
    let rest = line.skip(method.len() as int);
    assert(line =~= method + rest);
    text::lemma_encode_add(method, rest);
    is_ascii_chars_encode_utf8(method);
    assert(bytes[0] == method[0] as u8 && bytes[1] == method[1] as u8);
    assert(slice.take(bytes.len() as int)[0] == slice[0]);
    assert(slice.take(bytes.len() as int)[1] == slice[1]);
    lemma_response_start();
    let want = encode_utf8("HTTP/1."@);
    if scan::spells(slice, "HTTP/1."@) {
        assert(want[0] == slice[0] && want[1] == slice[1]);
    }
}

proof fn lemma_response_start()
    ensures
        ({
            let want = encode_utf8("HTTP/1."@);
            &&& want.len() == 7
            &&& want[0] == 72 && want[1] == 84
            &&& !want.contains(32) && !want.contains(13) && !want.contains(10)
        }),
{
    reveal_strlit("HTTP/1.");
    let t = "HTTP/1."@;
    assert(is_ascii_chars(t));
    is_ascii_chars_encode_utf8(t);
    assert(t[0] == 'H' && t[1] == 'T');
    let want = encode_utf8(t);
    assert(want[0] == t[0] as u8 && want[1] == t[1] as u8);
    assert(!t.contains(' ') && !t.contains('\r') && !t.contains('\n'));
    text::lemma_encode_lacks(t, 32);
    text::lemma_encode_lacks(t, 13);
    text::lemma_encode_lacks(t, 10);
}

/// Nothing else is a request: what is taken for one starts with one of the
/// nine methods and a space, and its first line speaks of HTTP/1.
pub proof fn law_requests_start_with_a_method(payload: Seq<u8>)
    ensures
        HttpClassifier.verdict(payload, true) matches Some(
            ProtocolView::Http { method, host, path, status },
        ) ==> method == "RESPONSE"@ || {
            &&& one_of_nine(method)
            &&& scan::spells(payload, method + seq![' '])
            &&& line_text(scan::at_most(payload, 2048)) matches Some(line) && text::contains(
                line,
                " HTTP/1."@,
            )
        },
        HttpClassifier.verdict(payload, true) is Some ==> HttpClassifier.verdict(payload, true)
            matches Some(ProtocolView::Http { .. }),
        HttpClassifier.verdict(payload, false) is None,
{
    let slice = scan::at_most(payload, 2048);
    if !scan::spells(slice, "HTTP/1."@) && http_message(slice) is Some {
        let line = line_text(slice)->0;
        let end = scan::line_end(slice);
        scan::lemma_index_where(slice, |b: u8| b == 13 || b == 10);
        let bytes = slice.take(end);
        text::law_decoding(line, bytes);
        let n = scan::until(line, ' ');
        scan::lemma_index_where(line, scan::equal_to(' '));
        let m = method_of(line);
        reveal_strlit(" HTTP/1.");
        let k = choose|k: int| scan::occurs_at(line, " HTTP/1."@, k);
        assert(line.subrange(k, k + 8)[0] == line[k]);
        assert(line[k] == ' ');
        if n >= line.len() {
            assert(!scan::equal_to(' ')(line[k]));
        }
        let rest = line.skip(n + 1);
        assert(line =~= m + seq![' '] + rest);
        text::lemma_encode_add(m + seq![' '], rest);
        let want = encode_utf8(m + seq![' ']);
        assert forall|i: int| 0 <= i < want.len() implies want[i] == payload[i] by {
            assert(bytes[i] == want[i]);
        }
    }
}

/// A payload that starts with `HTTP/1.` is a response. Its status is the
/// number that the three digits of its second field spell.
pub proof fn law_responses_are_recognized(
    minor: Seq<u8>,
    a: u8,
    b: u8,
    c: u8,
    more: Seq<u8>,
    payload: Seq<u8>,
)
    requires
        !minor.contains(32) && !minor.contains(13) && !minor.contains(10),
        48 <= a <= 57 && 48 <= b <= 57 && 48 <= c <= 57,
        more.len() > 0 ==> more[0] == 32 || more[0] == 13 || more[0] == 10,
        minor.len() <= 2000,
    ensures
        scan::spells(payload, "HTTP/1."@) ==> (HttpClassifier.verdict(payload, true) matches Some(
            ProtocolView::Http { method, host: None, path: None, status: _ },
        ) && method == "RESPONSE"@),
        HttpClassifier.verdict(
            encode_utf8("HTTP/1."@) + minor + seq![32u8, a, b, c] + more,
            true,
        ) matches Some(ProtocolView::Http { method: _, host: _, path: _, status: Some(code) })
            && code == 100 * (a - 48) + 10 * (b - 48) + (c - 48),
{
    let start = encode_utf8("HTTP/1."@);
    lemma_response_start();
    let one = scan::at_most(payload, 2048);
    if scan::spells(payload, "HTTP/1."@) {
        assert forall|i: int| 0 <= i < start.len() implies start[i] == one[i] by {
            assert(start[i] == payload[i]);
        }
        assert(scan::spells(one, "HTTP/1."@));
    }
    let first = start + minor;
    assert(!first.contains(32) && !first.contains(13) && !first.contains(10)) by {
        assert forall|x: u8| x == 32 || x == 13 || x == 10 implies !first.contains(x) by {
            if first.contains(x) {
                let i = choose|i: int| 0 <= i < first.len() && first[i] == x;
                if i < 7 {
                    assert(start[i] == x);
                } else {
                    assert(minor[i - 7] == x);
                }
            }
        }
    }
    let message = first + seq![32u8, a, b, c] + more;
    let slice = scan::at_most(message, 2048);
    let rest = slice.skip(first.len() as int + 4);
    assert(slice =~= first + seq![32u8, a, b, c] + rest);
    assert(rest.len() > 0 ==> rest[0] == more[0]);
    assert forall|i: int| 0 <= i < start.len() implies start[i] == slice[i] by {}
    assert(scan::spells(slice, "HTTP/1."@));
    lemma_status(first, a, b, c, rest);
}

proof fn lemma_status(first: Seq<u8>, a: u8, b: u8, c: u8, rest: Seq<u8>)
    requires
        !first.contains(32) && !first.contains(13) && !first.contains(10),
        48 <= a <= 57 && 48 <= b <= 57 && 48 <= c <= 57,
        rest.len() > 0 ==> rest[0] == 32 || rest[0] == 13 || rest[0] == 10,
    ensures
        status_of(first + seq![32u8, a, b, c] + rest) == Some(
            (100 * (a - 48) + 10 * (b - 48) + (c - 48)) as u16,
        ),
{
    let slice = first + seq![32u8, a, b, c] + rest;
    let n = first.len() as int;
    let p = |b: u8| b == 13 || b == 10;
    scan::lemma_index_where(slice, p);
    let end = scan::line_end(slice);
    assert(slice[n] == 32 && slice[n + 1] == a && slice[n + 2] == b && slice[n + 3] == c);
    assert(end >= n + 4) by {
        if end < n + 4 {
            assert(p(slice[end]));
            if end < n {
                assert(slice[end] == first[end]);
                assert(first.contains(first[end]));
            }
        }
    }
    let line = slice.take(end);
    let back = line.skip(n + 1);
    assert(line =~= first + seq![32u8] + back);
    scan::law_until(first, 32u8, back);
    let code = seq![a, b, c];
    let behind = back.skip(3);
    assert(back =~= code + behind);
    assert(!code.contains(32)) by {
        if code.contains(32) {
            let i = choose|i: int| 0 <= i < 3 && code[i] == 32;
        }
    }
    if behind.len() > 0 {
        assert(behind[0] == slice[n + 4]);
        assert(slice[n + 4] == rest[0]);
        assert(!p(slice[n + 4]));
        assert(back =~= code + seq![32u8] + behind.skip(1));
        scan::law_until(code, 32u8, behind.skip(1));
    } else {
        assert(back =~= code);
        scan::law_until(code, 32u8, behind);
    }
    assert(back.take(3) =~= code);
    assert(code[0] == a && code[1] == b && code[2] == c);
}

/// How header lines are passed over. A line that is not blank and names
/// another field makes no difference; a blank one ends the block.
pub proof fn law_header_lines(
    field: Seq<u8>,
    value: Seq<u8>,
    rest: Seq<u8>,
    name: Seq<char>,
    other: Seq<u8>,
)
    requires
        !field.contains(58) && !field.contains(10) && !value.contains(10),
        !other.contains(58) && !other.contains(10),
        other.len() > 0 && other != seq![13u8],
    ensures
        scan::same_letters(field, encode_utf8(name)) ==> field_value(
            field + seq![58u8] + value + seq![10u8] + rest,
            name,
        ) == Some(value),
        !scan::same_letters(field, encode_utf8(name)) ==> field_value(
            field + seq![58u8] + value + seq![10u8] + rest,
            name,
        ) == field_value(rest, name),
        field_value(other + seq![10u8] + rest, name) == field_value(rest, name),
        field_value(seq![10u8] + rest, name) is None,
        field_value(seq![13u8, 10u8] + rest, name) is None,
{
    let line = field + seq![58u8] + value;
    assert(!line.contains(10)) by {
        if line.contains(10) {
            let i = choose|i: int| 0 <= i < line.len() && line[i] == 10;
            if i < field.len() {
                assert(field[i] == 10);
            } else if i > field.len() {
                assert(value[i - field.len() - 1] == 10);
            }
        }
    }
    let block = line + seq![10u8] + rest;
    assert(field + seq![58u8] + value + seq![10u8] + rest =~= block);
    scan::law_until(line, 10u8, rest);
    assert(block.take(line.len() as int) =~= line);
    assert(block.skip(line.len() as int + 1) =~= rest);
    assert(line.contains(58)) by {
        assert(line[field.len() as int] == 58);
    }
    assert(!blank_line(line)) by {
        if line == seq![13u8] {
            assert(line[field.len() as int] == 58);
        }
    }
    scan::law_until(field, 58u8, value);
    assert(line.take(field.len() as int) =~= field);
    assert(line.skip(field.len() as int + 1) =~= value);
    let plain = other + seq![10u8] + rest;
    scan::law_until(other, 10u8, rest);
    assert(plain.take(other.len() as int) =~= other);
    assert(plain.skip(other.len() as int + 1) =~= rest);
    scan::law_until(other, 58u8, rest);
    let e = Seq::<u8>::empty();
    scan::law_until(e, 10u8, rest);
    assert(e + seq![10u8] + rest =~= seq![10u8] + rest);
    assert((seq![10u8] + rest).take(0) =~= e);
    let cr = seq![13u8];
    assert(!cr.contains(10)) by {
        if cr.contains(10) {
            let i = choose|i: int| 0 <= i < 1 && cr[i] == 10;
        }
    }
    scan::law_until(cr, 10u8, rest);
    assert(cr + seq![10u8] + rest =~= seq![13u8, 10u8] + rest);
    assert((seq![13u8, 10u8] + rest).take(1) =~= cr);
}

/// The text of a header is what stands behind the colon of its first line,
/// without the white space around it: that of the block behind the first line
/// of the message, and none when that is blank or no text.
pub proof fn law_header_text(
    first: Seq<u8>,
    block: Seq<u8>,
    name: Seq<char>,
    a: Seq<char>,
    value: Seq<char>,
    b: Seq<char>,
)
    requires
        !first.contains(10),
        text::blank(a),
        text::blank(b),
        value.len() > 0 ==> !text::white_space(value[0]) && !text::white_space(value.last()),
    ensures
        header_text(first, name) is None,
        field_value(block, name) is None ==> header_text(first + seq![10u8] + block, name) is None,
        field_value(block, name) == Some(encode_utf8(a + value + b)) ==> header_text(
            first + seq![10u8] + block,
            name,
        ) == (if value.len() > 0 {
            Some(value)
        } else {
            None
        }),
        field_value(block, name) matches Some(bytes) && text::decoded(bytes) is None
            ==> header_text(first + seq![10u8] + block, name) is None,
{
    let slice = first + seq![10u8] + block;
    scan::law_until(first, 10u8, block);
    assert(slice.skip(first.len() as int + 1) =~= block);
    text::law_trim(a, value, b);
    encode_utf8_valid_utf8(a + value + b);
    encode_utf8_decode_utf8(a + value + b);
}

/// The host of a request is the text of its `Host` header, in any case of its
/// letters.
pub proof fn law_host_is_the_header(payload: Seq<u8>)
    ensures
        HttpClassifier.verdict(payload, true) matches Some(
            ProtocolView::Http { method, host, path, status },
        ) ==> method == "RESPONSE"@ || host == header_text(
            scan::at_most(payload, 2048),
            "host"@,
        ),
{
}

/// A header block whose last line has no line feed is read to its end.
pub proof fn law_last_header_line(field: Seq<u8>, value: Seq<u8>, name: Seq<char>, other: Seq<u8>)
    requires
        !field.contains(58) && !field.contains(10) && !value.contains(10),
        !other.contains(58) && !other.contains(10),
    ensures
        field_value(field + seq![58u8] + value, name) == (if scan::same_letters(
            field,
            encode_utf8(name),
        ) {
            Some(value)
        } else {
            None
        }),
        field_value(other, name) is None,
{
    let line = field + seq![58u8] + value;
    let colon = seq![58u8];
    assert(!colon.contains(10)) by {
        if colon.contains(10) {
            let i = choose|i: int| 0 <= i < 1 && colon[i] == 10;
        }
    }
    scan::lemma_lacks_add(field, colon, 10u8);
    scan::lemma_lacks_add(field + colon, value, 10u8);
    scan::law_until(line, 10u8, seq![]);
    assert(line.take(line.len() as int) =~= line);
    assert(line[field.len() as int] == 58);
    assert(!blank_line(line)) by {
        if line == seq![13u8] {
            assert(line[field.len() as int] == 58);
        }
    }
    scan::law_until(field, 58u8, value);
    assert(line.take(field.len() as int) =~= field);
    assert(line.skip(field.len() as int + 1) =~= value);
    scan::law_until(other, 10u8, seq![]);
    assert(other.take(other.len() as int) =~= other);
    scan::law_until(other, 58u8, seq![]);
}

/// The first line of a message is what stands in front of its first CR or LF,
/// when that is text.
pub proof fn law_first_lines(line: Seq<u8>, end: u8, more: Seq<u8>)
    requires
        !line.contains(13) && !line.contains(10),
        end == 13 || end == 10,
    ensures
        line_text(line + seq![end] + more) == text::decoded(line),
        line_text(line) == text::decoded(line),
{
    scan::law_line_end(line, end, more);
    assert((line + seq![end] + more).take(line.len() as int) =~= line);
    assert(line.take(line.len() as int) =~= line);
}

/// A response whose second field is not made of three digits, or that has no
/// second field, carries no status.
pub proof fn law_other_statuses(first: Seq<u8>, field: Seq<u8>, rest: Seq<u8>, end: Seq<u8>)
    requires
        !first.contains(32) && !first.contains(13) && !first.contains(10),
        !field.contains(32) && !field.contains(13) && !field.contains(10),
        field.len() != 3 || exists|i: int| 0 <= i < 3 && !(48 <= #[trigger] field[i] <= 57),
        rest.len() > 0 ==> rest[0] == 32 || rest[0] == 13 || rest[0] == 10,
        end.len() > 0 ==> end[0] == 13 || end[0] == 10,
    ensures
        status_of(first + seq![32u8] + field + rest) is None,
        status_of(first + end) is None,
{
    let slice = first + seq![32u8] + field + rest;
    let head = first + seq![32u8] + field;
    let n = first.len() as int;
    let p = |b: u8| b == 13 || b == 10;
    scan::lemma_index_where(slice, p);
    let at = scan::line_end(slice);
    let space = seq![32u8];
    assert(!space.contains(13) && !space.contains(10)) by {
        if space.contains(13) {
            let i = choose|i: int| 0 <= i < 1 && space[i] == 13;
        }
        if space.contains(10) {
            let i = choose|i: int| 0 <= i < 1 && space[i] == 10;
        }
    }
    scan::lemma_lacks_add(first, space, 13u8);
    scan::lemma_lacks_add(first, space, 10u8);
    scan::lemma_lacks_add(first + space, field, 13u8);
    scan::lemma_lacks_add(first + space, field, 10u8);
    assert(at >= head.len()) by {
        if at < head.len() {
            assert(p(slice[at]));
            assert(slice[at] == head[at]);
            assert(head.contains(head[at]));
        }
    }
    let line = slice.take(at);
    let back = line.skip(n + 1);
    assert(line =~= first + seq![32u8] + back);
    scan::law_until(first, 32u8, back);
    let behind = back.skip(field.len() as int);
    assert(back =~= field + behind);
    if behind.len() > 0 {
        assert(behind[0] == slice[head.len() as int]);
        assert(slice[head.len() as int] == rest[0]);
        assert(!p(slice[head.len() as int]));
        assert(back =~= field + seq![32u8] + behind.skip(1));
        scan::law_until(field, 32u8, behind.skip(1));
    } else {
        assert(back =~= field);
        scan::law_until(field, 32u8, behind);
    }
    assert(back.take(field.len() as int) =~= field);
    // Without a second field.
    let alone = first + end;
    if end.len() > 0 {
        let more = end.skip(1);
        assert(alone =~= first + seq![end[0]] + more);
        scan::law_line_end(first, end[0], more);
    } else {
        assert(alone =~= first);
        scan::law_line_end(first, 13, seq![]);
    }
    assert(alone.take(n) =~= first);
    scan::law_until(first, 32u8, seq![]);
}

} // verus!
