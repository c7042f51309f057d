//! Traceroute: the state of a run, the output of the `traceroute` program,
//! and the probing sequence of the native path.

use vstd::prelude::*;
use vstd::utf8::*;

use crate::number;
use crate::scan;
use crate::text;

verus! {

/// One round-trip time.
#[derive(Debug, Clone)]
pub enum Rtt {
    /// Milliseconds as a program printed them: a floating-point literal.
    Printed(String),
    /// Nanoseconds as a probe measured them.
    Measured(u64),
}

/// An [`Rtt`] with its text as a character sequence.
pub enum RttView {
    Printed(Seq<char>),
    Measured(u64),
}

impl View for Rtt {
    type V = RttView;

    open spec fn view(&self) -> RttView {
        match *self {
            Rtt::Printed(s) => RttView::Printed(s@),
            Rtt::Measured(ns) => RttView::Measured(ns),
        }
    }
}

/// An answer to one probe, or its absence.
pub open spec fn rtt_of(r: Option<Rtt>) -> Option<RttView> {
    match r {
        Some(t) => Some(t@),
        None => None,
    }
}

/// The answers to a row of probes.
pub open spec fn rtts_of(list: Seq<Option<Rtt>>) -> Seq<Option<RttView>> {
    list.map_values(|r: Option<Rtt>| rtt_of(r))
}

/// One step on the way to the target.
#[derive(Debug, Clone)]
pub struct TracerouteHop {
    pub hop_number: u8,
    pub host: Option<String>,
    pub ip: Option<String>,
    /// One entry per probe; `None` where no answer came.
    pub rtt_ms: Vec<Option<Rtt>>,
}

/// A [`TracerouteHop`] with its texts as character sequences.
pub struct HopView {
    pub hop_number: u8,
    pub host: Option<Seq<char>>,
    pub ip: Option<Seq<char>>,
    pub rtt_ms: Seq<Option<RttView>>,
}

impl View for TracerouteHop {
    type V = HopView;

    open spec fn view(&self) -> HopView {
        HopView {
            hop_number: self.hop_number,
            host: text::text_of(self.host),
            ip: text::text_of(self.ip),
            rtt_ms: rtts_of(self.rtt_ms@),
        }
    }
}

/// The hops of a list, as views.
pub open spec fn hops_of(list: Seq<TracerouteHop>) -> Seq<HopView> {
    list.map_values(|h: TracerouteHop| h@)
}

/// Appends an answer to a row of probes.
fn push_rtt(rtts: &mut Vec<Option<Rtt>>, r: Option<Rtt>)
    ensures
        rtts_of(final(rtts)@) == rtts_of(old(rtts)@).push(rtt_of(r)),
{
    let ghost before = rtts@;
    rtts.push(r);
    assert(rtts_of(rtts@) =~= rtts_of(before).push(rtt_of(r)));
}

/// Appends a hop.
fn push_hop(hops: &mut Vec<TracerouteHop>, hop: TracerouteHop)
    ensures
        hops_of(final(hops)@) == hops_of(old(hops)@).push(hop@),
{
    let ghost before = hops@;
    hops.push(hop);
    assert(hops_of(hops@) =~= hops_of(before).push(hop@));
}

/// `t` without the opening parentheses at its front.
pub open spec fn after_parens(t: Seq<char>) -> Seq<char> {
    t.skip(scan::index_where(t, |c: char| c != '('))
}

/// `t` without the closing parentheses at its end.
pub open spec fn before_parens(t: Seq<char>) -> Seq<char>
    decreases t.len(),
{
    if t.len() > 0 && t.last() == ')' {
        before_parens(t.drop_last())
    } else {
        t
    }
}

/// An address without the parentheses around it.
pub open spec fn bare_address(t: Seq<char>) -> Seq<char> {
    before_parens(after_parens(t))
}

fn strip_parens(t: &[char]) -> (r: String)
    ensures
        r@ == bare_address(t@),
{
    let mut a: usize = 0;
    while a < t.len() && t[a] == '('
        invariant
            a <= t@.len(),
            forall|j: int| 0 <= j < a ==> #[trigger] t@[j] == '(',
        decreases t@.len() - a,
    {
        a = a + 1;
    }
    let ghost u = after_parens(t@);
    proof {
        scan::lemma_index_where_is(t@, |c: char| c != '(', a as int);
    }
    let mut b: usize = t.len();
    assert(t@.subrange(a as int, b as int) == u);
    while a < b && t[b - 1] == ')'
        invariant
            a <= b <= t@.len(),
            before_parens(t@.subrange(a as int, b as int)) == before_parens(u),
        decreases b,
    {
        let ghost s = t@.subrange(a as int, b as int);
        assert(s.last() == t@[b - 1]);
        assert(s.drop_last() == t@.subrange(a as int, b - 1));
        b = b - 1;
    }
    assert(a < b ==> t@.subrange(a as int, b as int).last() == t@[b - 1]);
    text::string_of(&t[a..b])
}

/// What has been read of a hop line.
pub struct Fields {
    pub host: Option<Seq<char>>,
    pub ip: Option<Seq<char>>,
    pub rtts: Seq<Option<RttView>>,
}

impl Fields {
    /// Nothing read yet.
    pub open spec fn none() -> Fields {
        Fields { host: None, ip: None, rtts: seq![] }
    }

    /// What one more token says: `*` for a lost probe, a number for a
    /// round-trip time, and else a host name or an address.
    pub open spec fn read(self, tok: Seq<char>) -> Fields {
        if tok == "*"@ {
            Fields { rtts: self.rtts.push(None), ..self }
        } else if tok == "ms"@ {
            self
        } else if number::float_literal(tok) {
            Fields { rtts: self.rtts.push(Some(RttView::Printed(tok))), ..self }
        } else if self.ip is None {
            if tok.contains('.') || tok.contains(':') {
                Fields { ip: Some(bare_address(tok)), ..self }
            } else {
                Fields { host: Some(tok), ..self }
            }
        } else if tok.len() > 0 && tok[0] == '(' && tok.last() == ')' {
            Fields { ip: Some(bare_address(tok)), ..self }
        } else {
            self
        }
    }
}

/// What a row of tokens says.
pub open spec fn fields_of(tokens: Seq<Seq<char>>) -> Fields {
    tokens.fold_left(Fields::none(), |f: Fields, tok: Seq<char>| f.read(tok))
}

/// The hop that a line of output describes: its number and at least one more
/// token.
pub open spec fn hop_of_line(line: Seq<char>) -> Option<HopView> {
    let words = text::words(line);
    if words.len() < 2 {
        None
    } else {
        match number::octet(words[0]) {
            None => None,
            Some(hop_number) => {
                let tokens = words.skip(1);
                if forall|i: int| 0 <= i < tokens.len() ==> #[trigger] tokens[i] == "*"@ {
                    Some(
                        HopView { hop_number, host: None, ip: None, rtt_ms: seq![None, None, None] },
                    )
                } else {
                    let f = fields_of(tokens);
                    Some(HopView { hop_number, host: f.host, ip: f.ip, rtt_ms: f.rtts })
                }
            },
        }
    }
}

/// The hops that the lines of `output` describe, in order.
pub open spec fn output_hops(output: Seq<char>) -> Seq<HopView>
    decreases output.len(),
{
    let n = scan::until(output, '\n');
    let here = match hop_of_line(output.take(n)) {
        Some(hop) => seq![hop],
        None => seq![],
    };
    if n < output.len() {
        proof {
            scan::lemma_index_where(output, scan::equal_to('\n'));
        }
        here + output_hops(output.skip(n + 1))
    } else {
        here
    }
}

fn has_char(t: &[char], c: char) -> (r: bool)
    ensures
        r == t@.contains(c),
{
    let n = scan::find_char(t, c);
    proof {
        scan::lemma_index_where(t@, scan::equal_to(c));
    }
    n < t.len()
}

fn read_fields(hop_number: u8, tokens: &[&[char]]) -> (r: TracerouteHop)
    ensures
        r@.hop_number == hop_number,
        r@.host == fields_of(text::texts(tokens@)).host,
        r@.ip == fields_of(text::texts(tokens@)).ip,
        r@.rtt_ms == fields_of(text::texts(tokens@)).rtts,
{
    let mut host: Option<String> = None;
    let mut ip: Option<String> = None;
    let mut rtts: Vec<Option<Rtt>> = Vec::new();
    let ghost all = text::texts(tokens@);
    let mut i: usize = 0;
    assert(rtts_of(rtts@) =~= Seq::<Option<RttView>>::empty());
    while i < tokens.len()
        invariant
            i <= tokens@.len(),
            all == text::texts(tokens@),
            text::text_of(host) == fields_of(all.take(i as int)).host,
            text::text_of(ip) == fields_of(all.take(i as int)).ip,
            rtts_of(rtts@) == fields_of(all.take(i as int)).rtts,
        decreases tokens@.len() - i,
    {
        let tok = tokens[i];
        let ghost seen = all.take(i as int);
        proof {
            let next = all.take(i + 1);
            assert(next.drop_last() == seen);
            assert(next.last() == tok@);
            assert(fields_of(next) == fields_of(seen).read(tok@));
        }
        if text::is_text(tok, "*") {
            push_rtt(&mut rtts, None);
        } else if text::is_text(tok, "ms") {
        } else if number::is_float_literal(tok) {
            push_rtt(&mut rtts, Some(Rtt::Printed(text::string_of(tok))));
        } else if ip.is_none() {
            if has_char(tok, '.') || has_char(tok, ':') {
                ip = Some(strip_parens(tok));
            } else {
                host = Some(text::string_of(tok));
            }
        } else if tok.len() > 0 && tok[0] == '(' && tok[tok.len() - 1] == ')' {
            ip = Some(strip_parens(tok));
        }
        i = i + 1;
    }
    assert(all.take(i as int) == all);
    TracerouteHop { hop_number, host, ip, rtt_ms: rtts }
}

fn all_stars(tokens: &[&[char]]) -> (r: bool)
    ensures
        r == (forall|i: int|
            0 <= i < tokens@.len() ==> #[trigger] text::texts(tokens@)[i] == "*"@),
{
    let mut i: usize = 0;
    while i < tokens.len()
        invariant
            i <= tokens@.len(),
            forall|j: int| 0 <= j < i ==> #[trigger] text::texts(tokens@)[j] == "*"@,
        decreases tokens@.len() - i,
    {
        if !text::is_text(tokens[i], "*") {
            assert(text::texts(tokens@)[i as int] != "*"@);
            return false;
        }
        i = i + 1;
    }
    true
}

fn parse_line(line: &[char]) -> (r: Option<TracerouteHop>)
    ensures
        r is Some <==> hop_of_line(line@) is Some,
        r matches Some(hop) ==> Some(hop@) == hop_of_line(line@),
{
    let words = text::split_words(line);
    if words.len() < 2 {
        return None;
    }
    assert(text::texts(words@)[0] == words@[0]@);
    let hop_number = match number::parse_octet(words[0]) {
        Some(n) => n,
        None => return None,
    };
    let tokens = &words.as_slice()[1..words.len()];
    assert(text::texts(tokens@) =~= text::words(line@).skip(1));
    if all_stars(tokens) {
        let mut rtt_ms: Vec<Option<Rtt>> = Vec::new();
        rtt_ms.push(None);
        rtt_ms.push(None);
        rtt_ms.push(None);
        assert(rtts_of(rtt_ms@) =~= seq![None, None, None]);
        return Some(TracerouteHop { hop_number, host: None, ip: None, rtt_ms });
    }
    Some(read_fields(hop_number, tokens))
}

/// Reads the output of `traceroute -n` or `tracert -d`.
pub fn parse_traceroute_output(output: &str) -> (r: Vec<TracerouteHop>)
    ensures
        hops_of(r@) == output_hops(output@),
{
    let all = text::chars_of(output);
    let all = all.as_slice();
    let mut hops: Vec<TracerouteHop> = Vec::new();
    let mut at: usize = 0;
    assert(all@.skip(0) == all@);
    assert(hops_of(hops@) + output_hops(all@) =~= output_hops(all@));
    loop
        invariant
            at <= all@.len(),
            all@ == output@,
            hops_of(hops@) + output_hops(all@.skip(at as int)) == output_hops(output@),
        decreases all@.len() - at,
    {
        let rest = &all[at..all.len()];
        assert(rest@ == all@.skip(at as int));
        let n = scan::find_char(rest, '\n');
        let line = &rest[0..n];
        assert(line@ == rest@.take(n as int));
        let ghost before = hops_of(hops@);
        match parse_line(line) {
            Some(hop) => {
                push_hop(&mut hops, hop);
                assert(hops_of(hops@) =~= before + seq![hop@]);
            },
            None => {},
        }
        if n >= rest.len() {
            assert(hops_of(hops@) =~= before + output_hops(rest@));
            return hops;
        }
        proof {
            let tail = all@.skip(at + n + 1);
            assert(rest@.skip(n + 1) == tail);
            assert(hops_of(hops@) + output_hops(tail) =~= before + output_hops(rest@));
        }
        at = at + n + 1;
    }
}

/// Every line stands for itself: the hops of two texts, one below the other,
/// are those of the first and then those of the second.
pub proof fn law_lines_are_independent(a: Seq<char>, b: Seq<char>)
    ensures
        output_hops(a + seq!['\n'] + b) == output_hops(a) + output_hops(b),
    decreases a.len(),
{
    let s = a + seq!['\n'] + b;
    let newline = scan::equal_to('\n');
    let n = scan::until(a, '\n');
    scan::lemma_index_where(a, newline);
    assert forall|j: int| 0 <= j < n implies !newline(#[trigger] s[j]) by {
        assert(s[j] == a[j]);
    }
    scan::lemma_index_where_is(s, newline, n);
    assert(s.take(n) =~= a.take(n));
    if n < a.len() {
        let rest = a.skip(n + 1);
        law_lines_are_independent(rest, b);
        assert(s.skip(n + 1) =~= rest + seq!['\n'] + b);
        let here = match hop_of_line(a.take(n)) {
            Some(hop) => seq![hop],
            None => seq![],
        };
        assert(here + (output_hops(rest) + output_hops(b)) =~= (here + output_hops(rest))
            + output_hops(b));
    } else {
        assert(s.skip(n + 1) =~= b);
    }
}

/// What `String::from_utf8_lossy` makes of `bytes`.
pub uninterp spec fn lossy_text(bytes: Seq<u8>) -> Seq<char>;

/// `String::from_utf8_lossy`: the characters that `bytes` encode, with
/// U+FFFD where they are not UTF-8. Well-formed UTF-8 comes out as it is.
/// How many replacement characters an ill-formed stretch gives is left to
/// the name `lossy_text`.
#[verifier::external_body]
fn lossy_utf8(bytes: &[u8]) -> (r: String)
    ensures
        r@ == lossy_text(bytes@),
        valid_utf8(bytes@) ==> r@ == decode_utf8(bytes@),
{
    String::from_utf8_lossy(bytes).into_owned()
}

/// What a finished `traceroute` process gave: an error when it failed and
/// said why on its standard error, and else the hops on its standard output.
pub fn output_result(success: bool, stdout: &str, stderr: &str) -> (r: Result<
    Vec<TracerouteHop>,
    String,
>)
    ensures
        r is Err <==> !success && text::trimmed(stderr@).len() > 0,
        match r {
            Ok(hops) => hops_of(hops@) == output_hops(stdout@),
            Err(message) => message@ == text::trimmed(stderr@),
        },
{
    if !success {
        let said = text::chars_of(stderr);
        let said = text::trim(said.as_slice());
        if said.len() > 0 {
            return Err(text::string_of(said));
        }
    }
    Ok(parse_traceroute_output(stdout))
}

/// What a finished `traceroute` process gave, from the bytes it wrote.
pub fn subprocess_result(success: bool, stdout: &[u8], stderr: &[u8]) -> (r: Result<
    Vec<TracerouteHop>,
    String,
>)
    ensures
        r is Err <==> !success && text::trimmed(lossy_text(stderr@)).len() > 0,
        match r {
            Ok(hops) => hops_of(hops@) == output_hops(lossy_text(stdout@)),
            Err(message) => message@ == text::trimmed(lossy_text(stderr@)),
        },
{
    output_result(success, lossy_utf8(stdout).as_str(), lossy_utf8(stderr).as_str())
}

/// Why a program could not be started.
pub enum SpawnFailure {
    /// There is no such program.
    NotFound,
    /// Anything else, in the words of the system.
    Other(String),
}

/// How to get a program that is missing.
pub open spec fn install_hint(binary: Seq<char>) -> Seq<char> {
    if binary == "traceroute"@ {
        "install with `sudo apt install traceroute` (Debian/Ubuntu), `sudo dnf install traceroute` (Fedora), or `brew install traceroute` (macOS)"@
    } else if binary == "tracert"@ {
        "tracert ships with Windows; PATH or %SystemRoot%\\System32 may be misconfigured"@
    } else {
        "binary not found on PATH"@
    }
}

/// The message for a program that could not be started.
pub open spec fn spawn_message(binary: Seq<char>, failure: SpawnFailure) -> Seq<char> {
    match failure {
        SpawnFailure::NotFound => "`"@ + binary + "` not installed — "@ + install_hint(binary),
        SpawnFailure::Other(why) => "Failed to run "@ + binary + ": "@ + why@,
    }
}

/// Puts the failure to start a program into words, with a hint how to install
/// one that is missing.
pub fn spawn_error(binary: &str, failure: &SpawnFailure) -> (r: String)
    ensures
        r@ == spawn_message(binary@, *failure),
{
    match failure {
        SpawnFailure::NotFound => {
            let name = text::chars_of(binary);
            let hint = if text::is_text(name.as_slice(), "traceroute") {
                "install with `sudo apt install traceroute` (Debian/Ubuntu), `sudo dnf install traceroute` (Fedora), or `brew install traceroute` (macOS)"
            } else if text::is_text(name.as_slice(), "tracert") {
                "tracert ships with Windows; PATH or %SystemRoot%\\System32 may be misconfigured"
            } else {
                "binary not found on PATH"
            };
            let mut out = "`".to_string();
            out.append(binary);
            out.append("` not installed — ");
            out.append(hint);
            out
        },
        SpawnFailure::Other(why) => {
            let mut out = "Failed to run ".to_string();
            out.append(binary);
            out.append(": ");
            out.append(why.as_str());
            out
        },
    }
}

/// Where a run stands.
#[derive(Debug, Clone, PartialEq, Eq)]
pub enum TracerouteStatus {
    Idle,
    Running,
    Done,
    Error(String),
}

/// A [`TracerouteStatus`] with its text as a character sequence.
pub enum StatusView {
    Idle,
    Running,
    Done,
    Error(Seq<char>),
}

impl View for TracerouteStatus {
    type V = StatusView;

    open spec fn view(&self) -> StatusView {
        match *self {
            TracerouteStatus::Idle => StatusView::Idle,
            TracerouteStatus::Running => StatusView::Running,
            TracerouteStatus::Done => StatusView::Done,
            TracerouteStatus::Error(e) => StatusView::Error(e@),
        }
    }
}

/// The target of a run, where it stands, and the hops it found.
#[derive(Debug, Clone)]
pub struct TracerouteResult {
    pub target: String,
    pub status: TracerouteStatus,
    pub hops: Vec<TracerouteHop>,
}

/// A [`TracerouteResult`] as mathematical values.
pub struct ResultView {
    pub target: Seq<char>,
    pub status: StatusView,
    pub hops: Seq<HopView>,
}

impl View for TracerouteResult {
    type V = ResultView;

    open spec fn view(&self) -> ResultView {
        ResultView { target: self.target@, status: self.status@, hops: hops_of(self.hops@) }
    }
}

impl ResultView {
    /// No run yet.
    pub open spec fn idle() -> ResultView {
        ResultView { target: seq![], status: StatusView::Idle, hops: seq![] }
    }

    /// After a request to trace `target`, which a run in progress ignores.
    pub open spec fn begun(self, target: Seq<char>) -> ResultView {
        if self.status is Running {
            self
        } else {
            ResultView { target, status: StatusView::Running, hops: seq![] }
        }
    }

    /// After a run ended with `hops`.
    pub open spec fn succeeded(self, hops: Seq<HopView>) -> ResultView {
        ResultView { status: StatusView::Done, hops, ..self }
    }

    /// After a run ended with an error.
    pub open spec fn failed(self, message: Seq<char>) -> ResultView {
        ResultView { status: StatusView::Error(message), ..self }
    }
}

impl TracerouteResult {
    /// No run yet.
    pub fn new() -> (r: TracerouteResult)
        ensures
            r@ == ResultView::idle(),
    {
        let r = TracerouteResult {
            target: String::new(),
            status: TracerouteStatus::Idle,
            hops: Vec::new(),
        };
        assert(hops_of(r.hops@) =~= Seq::<HopView>::empty());
        assert(r.target@ =~= Seq::<char>::empty());
        r
    }

    /// Starts a run, unless one is in progress. Returns whether it did.
    pub fn begin(&mut self, target: &str) -> (started: bool)
        ensures
            started == !(old(self)@.status is Running),
            !started ==> *final(self) == *old(self),
            final(self)@ == old(self)@.begun(target@),
    {
        match self.status {
            TracerouteStatus::Running => false,
            _ => {
                self.target = target.to_string();
                self.status = TracerouteStatus::Running;
                self.hops = Vec::new();
                assert(hops_of(self.hops@) =~= Seq::<HopView>::empty());
                true
            },
        }
    }

    /// Records how a run ended.
    pub fn finish(&mut self, outcome: Result<Vec<TracerouteHop>, String>)
        ensures
            final(self)@ == (match outcome {
                Ok(hops) => old(self)@.succeeded(hops_of(hops@)),
                Err(message) => old(self)@.failed(message@),
            }),
    {
        match outcome {
            Ok(hops) => {
                self.hops = hops;
                self.status = TracerouteStatus::Done;
            },
            Err(message) => {
                self.status = TracerouteStatus::Error(message);
            },
        }
    }

    /// Forgets the run.
    pub fn clear(&mut self)
        ensures
            final(self)@ == ResultView::idle(),
    {
        self.target = String::new();
        self.status = TracerouteStatus::Idle;
        self.hops = Vec::new();
        assert(hops_of(self.hops@) =~= Seq::<HopView>::empty());
        assert(self.target@ =~= Seq::<char>::empty());
    }
}

/// A request during a run changes nothing; after the run has ended, whatever
/// its outcome, or has been cleared, the next request starts from scratch.
pub proof fn law_one_run_at_a_time(
    r: ResultView,
    first: Seq<char>,
    second: Seq<char>,
    hops: Seq<HopView>,
    message: Seq<char>,
)
    ensures
        r.begun(first).begun(second) == r.begun(first),
        r.begun(first).succeeded(hops).begun(second) == ResultView::idle().begun(second),
        r.begun(first).failed(message).begun(second) == ResultView::idle().begun(second),
{
}

/// Probes per hop.
pub const PROBES: usize = 3;

/// The highest TTL that is tried.
pub const MAX_HOPS: u8 = 30;

/// The destination port that the probes count up from.
pub const BASE_PORT: u16 = 33434;

/// The origin code of an error that an ICMP message caused.
pub const ORIGIN_ICMP: u8 = 2;

/// One entry of a socket's error queue.
#[derive(Debug, Clone)]
pub struct QueuedError {
    /// Who raised the error.
    pub origin: u8,
    /// ICMP type.
    pub kind: u8,
    /// ICMP code.
    pub code: u8,
    /// The IPv4 address that sent the ICMP message.
    pub source: Option<(u8, u8, u8, u8)>,
}

impl QueuedError {
    /// An ICMP message caused it.
    pub open spec fn from_icmp(self) -> bool {
        self.origin == ORIGIN_ICMP
    }

    /// ICMP port unreachable: the probe arrived at the target.
    pub open spec fn from_target(self) -> bool {
        self.from_icmp() && self.kind == 3 && self.code == 3
    }

    /// ICMP time exceeded or port unreachable: an answer to a probe.
    pub open spec fn answers(self) -> bool {
        self.from_target() || self.from_icmp() && self.kind == 11
    }
}

/// What became of one probe.
#[derive(Debug, Clone)]
pub enum ProbeReply {
    /// It could not be sent, or nothing came back in time.
    Silence,
    /// The error queue held these entries, so long after the probe was sent.
    Errors { elapsed_ns: u64, queue: Vec<QueuedError> },
}

/// The address of the first ICMP message in a queue that carries one.
pub open spec fn first_source(queue: Seq<QueuedError>) -> Option<Seq<char>>
    decreases queue.len(),
{
    if queue.len() == 0 {
        None
    } else {
        match queue[0].source {
            Some((a, b, c, d)) if queue[0].from_icmp() => Some(number::dotted(a, b, c, d)),
            _ => first_source(queue.drop_first()),
        }
    }
}

/// Whether a queue holds an answer to a probe.
pub open spec fn answered(queue: Seq<QueuedError>) -> bool {
    exists|i: int| 0 <= i < queue.len() && (#[trigger] queue[i]).answers()
}

/// Whether a queue holds an answer from the target.
pub open spec fn target_answered(queue: Seq<QueuedError>) -> bool {
    exists|i: int| 0 <= i < queue.len() && (#[trigger] queue[i]).from_target()
}

/// A trace in progress.
#[verifier::ext_equal]
pub struct TraceView {
    /// The hops that have had all their probes.
    pub hops: Seq<HopView>,
    /// What became of the probes of the current hop.
    pub rtts: Seq<Option<RttView>>,
    /// The address of the current hop.
    pub ip: Option<Seq<char>>,
    /// Whether the target has answered.
    pub reached: bool,
}

impl TraceView {
    /// Before the first probe.
    pub open spec fn start() -> TraceView {
        TraceView { hops: seq![], rtts: seq![], ip: None, reached: false }
    }

    /// The TTL of the current hop.
    pub open spec fn ttl(self) -> int {
        self.hops.len() as int + 1
    }

    /// No probe is left to send: a hop with the target in it is complete, or
    /// the last hop is.
    pub open spec fn over(self) -> bool {
        self.rtts.len() == 0 && (self.reached || self.hops.len() >= MAX_HOPS)
    }

    /// The destination port of the next probe.
    pub open spec fn port(self) -> int {
        BASE_PORT + self.ttl() * PROBES + self.rtts.len()
    }

    /// After one more probe of the current hop.
    pub open spec fn probed(self, reply: ProbeReply) -> TraceView {
        match reply {
            ProbeReply::Silence => TraceView { rtts: self.rtts.push(None), ..self },
            ProbeReply::Errors { elapsed_ns, queue } => TraceView {
                rtts: self.rtts.push(
                    if answered(queue@) {
                        Some(RttView::Measured(elapsed_ns))
                    } else {
                        None
                    },
                ),
                ip: if self.ip is Some {
                    self.ip
                } else {
                    first_source(queue@)
                },
                reached: self.reached || target_answered(queue@),
                ..self
            },
        }
    }

    /// The current hop as far as it has been probed.
    pub open spec fn hop(self) -> HopView {
        HopView { hop_number: self.ttl() as u8, host: None, ip: self.ip, rtt_ms: self.rtts }
    }

    /// After one more probe, and on to the next hop when that was the last
    /// one of this hop. A trace that is over stays as it is.
    pub open spec fn after(self, reply: ProbeReply) -> TraceView {
        let next = self.probed(reply);
        if self.over() {
            self
        } else if next.rtts.len() < PROBES {
            next
        } else {
            TraceView {
                hops: self.hops.push(next.hop()),
                rtts: seq![],
                ip: None,
                reached: next.reached,
            }
        }
    }

    /// At most thirty hops, numbered from one, each with all its probes.
    pub open spec fn valid(self) -> bool {
        &&& self.hops.len() <= MAX_HOPS
        &&& self.hops.len() == MAX_HOPS ==> self.rtts.len() == 0
        &&& self.rtts.len() < PROBES
        &&& forall|i: int|
            0 <= i < self.hops.len() ==> {
                let hop = #[trigger] self.hops[i];
                hop.hop_number == i + 1 && hop.host is None && hop.rtt_ms.len() == PROBES
            }
    }
}

/// The next thing to do in a trace.
#[derive(Debug, Clone, PartialEq, Eq)]
pub enum TraceStep {
    /// Send a probe with this TTL to this port. `first` marks the first probe
    /// of a hop, where the TTL changes.
    Probe { ttl: u8, port: u16, first: bool },
    /// Nothing: the trace is over.
    Stop,
}

/// A trace in progress.
pub struct Trace {
    hops: Vec<TracerouteHop>,
    rtts: Vec<Option<Rtt>>,
    ip: Option<String>,
    reached: bool,
}

impl View for Trace {
    type V = TraceView;

    closed spec fn view(&self) -> TraceView {
        TraceView {
            hops: hops_of(self.hops@),
            rtts: rtts_of(self.rtts@),
            ip: text::text_of(self.ip),
            reached: self.reached,
        }
    }
}

fn is_from_target(e: &QueuedError) -> (r: bool)
    ensures
        r == e.from_target(),
{
    e.origin == ORIGIN_ICMP && e.kind == 3 && e.code == 3
}

fn is_answer(e: &QueuedError) -> (r: bool)
    ensures
        r == e.answers(),
{
    e.origin == ORIGIN_ICMP && (e.kind == 11 || (e.kind == 3 && e.code == 3))
}

/// What the entries of an error queue say together: the first address, and
/// whether one of them is an answer, and one from the target.
fn read_queue(queue: &Vec<QueuedError>) -> (r: (Option<String>, bool, bool))
    ensures
        text::text_of(r.0) == first_source(queue@),
        r.1 == answered(queue@),
        r.2 == target_answered(queue@),
{
    let mut source: Option<String> = None;
    let mut useful = false;
    let mut reached = false;
    let mut i: usize = 0;
    assert(queue@.skip(0) == queue@);
    while i < queue.len()
        invariant
            i <= queue@.len(),
            source is None ==> first_source(queue@) == first_source(queue@.skip(i as int)),
            source is Some ==> text::text_of(source) == first_source(queue@),
            useful == (exists|j: int| 0 <= j < i && (#[trigger] queue@[j]).answers()),
            reached == (exists|j: int| 0 <= j < i && (#[trigger] queue@[j]).from_target()),
        decreases queue@.len() - i,
    {
        let ghost rest = queue@.skip(i as int);
        assert(rest[0] == queue@[i as int]);
        assert(rest.drop_first() == queue@.skip(i + 1));
        let e = &queue[i];
        if e.origin == ORIGIN_ICMP && source.is_none() {
            match e.source {
                Some((a, b, c, d)) => {
                    source = Some(number::dotted_quad(a, b, c, d));
                },
                None => {},
            }
        }
        if is_answer(e) {
            useful = true;
        }
        if is_from_target(e) {
            reached = true;
        }
        i = i + 1;
    }
    (source, useful, reached)
}

impl Trace {
    #[verifier::type_invariant]
    spec fn inv(self) -> bool {
        self@.valid()
    }

    /// A trace before its first probe.
    pub fn start() -> (r: Trace)
        ensures
            r@ == TraceView::start(),
    {
        let hops: Vec<TracerouteHop> = Vec::new();
        let rtts: Vec<Option<Rtt>> = Vec::new();
        assert(hops_of(hops@) =~= Seq::<HopView>::empty());
        assert(rtts_of(rtts@) =~= Seq::<Option<RttView>>::empty());
        Trace { hops, rtts, ip: None, reached: false }
    }

    /// What to do next.
    pub fn step(&self) -> (r: TraceStep)
        ensures
            self@.valid(),
            r is Stop <==> self@.over(),
            r matches TraceStep::Probe { ttl, port, first } ==> {
                &&& ttl == self@.ttl()
                &&& port == self@.port()
                &&& first == (self@.rtts.len() == 0)
            },
    {
        proof {
            use_type_invariant(self);
        }
        if self.rtts.len() == 0 && (self.reached || self.hops.len() >= MAX_HOPS as usize) {
            return TraceStep::Stop;
        }
        let ttl = (self.hops.len() + 1) as u8;
        let port = BASE_PORT + (ttl as u16) * (PROBES as u16) + (self.rtts.len() as u16);
        TraceStep::Probe { ttl, port, first: self.rtts.len() == 0 }
    }

    /// Takes in what became of the probe that `step` asked for.
    pub fn record(self, reply: &ProbeReply) -> (r: Trace)
        ensures
            r@ == self@.after(*reply),
    {
        proof {
            use_type_invariant(&self);
        }
        if self.rtts.len() == 0 && (self.reached || self.hops.len() >= MAX_HOPS as usize) {
            return self;
        }
        let ghost before = self@;
        let Trace { hops, rtts, ip, reached } = self;
        let mut hops = hops;
        let mut rtts = rtts;
        let mut ip = ip;
        let mut reached = reached;
        match reply {
            ProbeReply::Silence => {
                push_rtt(&mut rtts, None);
            },
            ProbeReply::Errors { elapsed_ns, queue } => {
                let (source, useful, arrived) = read_queue(queue);
                push_rtt(
                    &mut rtts,
                    if useful {
                        Some(Rtt::Measured(*elapsed_ns))
                    } else {
                        None
                    },
                );
                if ip.is_none() {
                    ip = source;
                }
                if arrived {
                    reached = true;
                }
            },
        }
        let ghost next = before.probed(*reply);
        assert(rtts_of(rtts@) == next.rtts);
        assert(text::text_of(ip) == next.ip);
        if rtts.len() < PROBES {
            return Trace { hops, rtts, ip, reached };
        }
        let hop = TracerouteHop {
            hop_number: (hops.len() + 1) as u8,
            host: None,
            ip,
            rtt_ms: rtts,
        };
        assert(hop@ == next.hop());
        push_hop(&mut hops, hop);
        let rtts: Vec<Option<Rtt>> = Vec::new();
        assert(rtts_of(rtts@) =~= Seq::<Option<RttView>>::empty());
        Trace { hops, rtts, ip: None, reached }
    }

    /// The hops found so far.
    pub fn into_hops(self) -> (r: Vec<TracerouteHop>)
        ensures
            hops_of(r@) == self@.hops,
            r@.len() <= MAX_HOPS,
            forall|i: int| 0 <= i < r@.len() ==> (#[trigger] r@[i]).hop_number == i + 1,
    {
        proof {
            use_type_invariant(&self);
            assert forall|i: int| 0 <= i < self.hops@.len() implies (
            #[trigger] self.hops@[i]).hop_number == i + 1 by {
                assert(self@.hops[i] == self.hops@[i]@);
            }
        }
        let Trace { hops, rtts, ip, reached } = self;
        hops
    }
}

/// Every probe keeps a trace valid: hops are numbered from one without gaps,
/// there are at most thirty, and each has three probes.
pub proof fn law_traces_stay_valid(t: TraceView, reply: ProbeReply)
    requires
        t.valid(),
    ensures
        TraceView::start().valid(),
        t.after(reply).valid(),
        t.hops.is_prefix_of(t.after(reply).hops),
{
}

/// The number of probes that a trace can still ask for.
pub open spec fn probes_left(t: TraceView) -> int {
    if t.over() {
        0
    } else {
        (MAX_HOPS - t.hops.len()) * PROBES - t.rtts.len()
    }
}

/// A trace ends: every probe brings it closer to its end, which is at most
/// ninety probes away at the start.
pub proof fn law_traces_end(t: TraceView, reply: ProbeReply)
    requires
        t.valid(),
    ensures
        probes_left(TraceView::start()) == 90,
        probes_left(t) >= 0,
        !t.over() ==> probes_left(t.after(reply)) < probes_left(t),
        probes_left(t) == 0 <==> t.over(),
{
}

/// A trace after a row of replies.
pub open spec fn replayed(t: TraceView, replies: Seq<ProbeReply>) -> TraceView
    decreases replies.len(),
{
    if replies.len() == 0 {
        t
    } else {
        replayed(t, replies.drop_last()).after(replies.last())
    }
}

/// Whatever the replies are, a trace stays valid, and ninety of them end it.
pub proof fn law_ninety_probes_suffice(replies: Seq<ProbeReply>)
    ensures
        replayed(TraceView::start(), replies).valid(),
        replies.len() >= 90 ==> replayed(TraceView::start(), replies).over(),
{
    lemma_probes_run_out(replies);
    law_traces_end(replayed(TraceView::start(), replies), ProbeReply::Silence);
}

proof fn lemma_probes_run_out(replies: Seq<ProbeReply>)
    ensures
        replayed(TraceView::start(), replies).valid(),
        probes_left(replayed(TraceView::start(), replies)) <= 90 - replies.len() || replayed(
            TraceView::start(),
            replies,
        ).over(),
    decreases replies.len(),
{
    if replies.len() > 0 {
        lemma_probes_run_out(replies.drop_last());
        let t = replayed(TraceView::start(), replies.drop_last());
        law_traces_stay_valid(t, replies.last());
        law_traces_end(t, replies.last());
    } else {
        law_traces_end(TraceView::start(), ProbeReply::Silence);
    }
}

/// No two probes of a trace go to the same port, and every port is one that
/// fits in sixteen bits.
pub proof fn law_ports_differ(t: TraceView, u: TraceView)
    requires
        t.valid(),
        u.valid(),
        !t.over(),
        !u.over(),
    ensures
        BASE_PORT < t.port() <= 65535,
        t.port() == u.port() <==> t.ttl() == u.ttl() && t.rtts.len() == u.rtts.len(),
{
}

/// Once the target has answered, the trace ends with the hop in which it did.
pub proof fn law_target_ends_the_trace(t: TraceView, reply: ProbeReply)
    requires
        t.valid(),
        t.reached,
    ensures
        t.after(reply).reached,
        t.after(reply).hops.len() > t.hops.len() ==> t.after(reply).over(),
{
}

/// The first address that answers in a hop stays the address of that hop.
pub proof fn law_first_address_stays(t: TraceView, reply: ProbeReply)
    requires
        t.valid(),
        t.ip is Some,
        !t.over(),
    ensures
        t.after(reply).hops.len() == t.hops.len() ==> t.after(reply).ip == t.ip,
        t.after(reply).hops.len() > t.hops.len() ==> t.after(reply).hops.last().ip == t.ip,
{
}

/// Whether a reply holds an ICMP time-exceeded (type 11) or port-unreachable
/// (type 3, code 3) message.
pub open spec fn heard(reply: ProbeReply) -> bool {
    reply matches ProbeReply::Errors { elapsed_ns, queue } && exists|i: int|
        0 <= i < queue@.len() && (#[trigger] queue@[i]).origin == 2 && (queue@[i].kind == 11 || (
        queue@[i].kind == 3 && queue@[i].code == 3))
}

/// Whether a reply holds an ICMP port-unreachable (type 3, code 3) message.
pub open spec fn heard_from_target(reply: ProbeReply) -> bool {
    reply matches ProbeReply::Errors { elapsed_ns, queue } && exists|i: int|
        0 <= i < queue@.len() && (#[trigger] queue@[i]).origin == 2 && queue@[i].kind == 3
            && queue@[i].code == 3
}

/// The time that a probe is shown with: how long it took when an answer was
/// heard, and none when not.
pub open spec fn time_of(reply: ProbeReply) -> Option<RttView> {
    match reply {
        ProbeReply::Errors { elapsed_ns, queue } if heard(reply) => Some(
            RttView::Measured(elapsed_ns),
        ),
        _ => None,
    }
}

/// The address of the first ICMP message in a reply that has one.
pub open spec fn source_of(reply: ProbeReply) -> Option<Seq<char>> {
    match reply {
        ProbeReply::Errors { elapsed_ns, queue } => first_source(queue@),
        ProbeReply::Silence => None,
    }
}

/// In the queue of a reply, the address is that of the first ICMP message
/// with one, whatever stands behind it, and there is none without such a
/// message.
pub proof fn law_first_source(
    before: Seq<QueuedError>,
    kind: u8,
    code: u8,
    address: (u8, u8, u8, u8),
    behind: Seq<QueuedError>,
)
    requires
        forall|i: int|
            0 <= i < before.len() ==> (#[trigger] before[i]).origin != 2 || before[i].source is None,
    ensures
        first_source(before) is None,
        first_source(
            before + seq![QueuedError { origin: 2, kind, code, source: Some(address) }] + behind,
        ) == Some(number::dotted(address.0, address.1, address.2, address.3)),
    decreases before.len(),
{
    let e = QueuedError { origin: 2, kind, code, source: Some(address) };
    let all = before + seq![e] + behind;
    if before.len() > 0 {
        let rest = before.drop_first();
        assert forall|i: int| 0 <= i < rest.len() implies (#[trigger] rest[i]).origin != 2
            || rest[i].source is None by {
            assert(rest[i] == before[i + 1]);
        }
        law_first_source(rest, kind, code, address, behind);
        assert(all[0] == before[0]);
        assert(all.drop_first() =~= rest + seq![e] + behind);
    } else {
        assert(all[0] == e);
    }
}

/// What one more probe does to a trace that is not over. It is entered with
/// its own time, whatever earlier probes got. The address is the first one
/// heard in this hop. The third probe completes the hop, which gets the next
/// number, and the hops before it stay as they were. The trace is over once a
/// hop is complete and the target has been heard or thirty hops are there.
pub proof fn law_probes_are_recorded(t: TraceView, reply: ProbeReply)
    requires
        t.valid(),
        !t.over(),
    ensures
        ({
            let u = t.after(reply);
            let row = t.rtts.push(time_of(reply));
            let address = if t.ip is Some {
                t.ip
            } else {
                source_of(reply)
            };
            let hit = t.reached || heard_from_target(reply);
            &&& u.reached == hit
            &&& t.rtts.len() < 2 ==> u.hops == t.hops && u.rtts == row && u.ip == address
            &&& t.rtts.len() == 2 ==> {
                &&& u.hops.len() == t.hops.len() + 1
                &&& u.hops.drop_last() == t.hops
                &&& u.hops.last() == (HopView {
                    hop_number: (t.hops.len() + 1) as u8,
                    host: None,
                    ip: address,
                    rtt_ms: row,
                })
                &&& u.rtts.len() == 0
                &&& u.ip is None
            }
            &&& u.over() <==> t.rtts.len() == 2 && (hit || t.hops.len() + 1 == 30)
        }),
{
    match reply {
        ProbeReply::Errors { elapsed_ns, queue } => {
            assert(answered(queue@) == heard(reply)) by {
                if answered(queue@) {
                    let i = choose|i: int| 0 <= i < queue@.len() && (#[trigger] queue@[i]).answers();
                    assert(queue@[i].origin == 2);
                }
                if heard(reply) {
                    let i = choose|i: int|
                        0 <= i < queue@.len() && (#[trigger] queue@[i]).origin == 2 && (
                        queue@[i].kind == 11 || (queue@[i].kind == 3 && queue@[i].code == 3));
                    assert(queue@[i].answers());
                }
            }
            assert(target_answered(queue@) == heard_from_target(reply)) by {
                if target_answered(queue@) {
                    let i = choose|i: int|
                        0 <= i < queue@.len() && (#[trigger] queue@[i]).from_target();
                    assert(queue@[i].origin == 2);
                }
                if heard_from_target(reply) {
                    let i = choose|i: int|
                        0 <= i < queue@.len() && (#[trigger] queue@[i]).origin == 2
                            && queue@[i].kind == 3 && queue@[i].code == 3;
                    assert(queue@[i].from_target());
                }
            }
        },
        ProbeReply::Silence => {},
    }
    let u = t.after(reply);
    if t.rtts.len() == 2 {
        assert(u.hops.drop_last() =~= t.hops);
    }
}

/// A trace that is over stays as it is.
pub proof fn law_finished_traces_do_not_change(t: TraceView, reply: ProbeReply)
    requires
        t.over(),
    ensures
        t.after(reply) == t,
{
}

/// Before the first probe there is nothing; the probes of a hop have its
/// number as TTL and ports that count up by one from 33437.
pub proof fn law_probe_schedule(t: TraceView)
    requires
        t.valid(),
    ensures
        TraceView::start().hops.len() == 0 && TraceView::start().rtts.len() == 0,
        TraceView::start().ip is None && !TraceView::start().reached,
        t.ttl() == t.hops.len() + 1,
        t.port() == 33437 + 3 * t.hops.len() + t.rtts.len(),
        t.over() <==> t.rtts.len() == 0 && (t.reached || t.hops.len() == 30),
{
}

/// In a trace every entry is that of one reply: the `k`-th entry of a hop is
/// the time of the `k`-th reply to that hop.
pub proof fn law_entries_follow_replies(replies: Seq<ProbeReply>, h: int, k: int)
    requires
        0 <= h < 30,
        0 <= k < 3,
    ensures
        ({
            let t = replayed(TraceView::start(), replies);
            &&& h < t.hops.len() ==> 3 * h + k < replies.len() && t.hops[h].rtt_ms[k] == time_of(
                replies[3 * h + k],
            )
            &&& h == t.hops.len() && k < t.rtts.len() ==> 3 * h + k < replies.len() && t.rtts[k]
                == time_of(replies[3 * h + k])
        }),
    decreases replies.len(),
{
    lemma_probes_run_out(replies);
    lemma_replies_used(replies);
    if replies.len() > 0 {
        let front = replies.drop_last();
        let s = replayed(TraceView::start(), front);
        let t = replayed(TraceView::start(), replies);
        lemma_probes_run_out(front);
        lemma_replies_used(front);
        law_entries_follow_replies(front, h, k);
        if !s.over() {
            law_probes_are_recorded(s, replies.last());
            if s.rtts.len() == 2 {
                assert(h < s.hops.len() ==> t.hops[h] == t.hops.drop_last()[h]);
            }
        }
    }
}

proof fn lemma_replies_used(replies: Seq<ProbeReply>)
    ensures
        ({
            let t = replayed(TraceView::start(), replies);
            &&& 3 * t.hops.len() + t.rtts.len() <= replies.len()
            &&& !t.over() ==> 3 * t.hops.len() + t.rtts.len() == replies.len()
        }),
    decreases replies.len(),
{
    if replies.len() > 0 {
        let front = replies.drop_last();
        lemma_probes_run_out(front);
        lemma_replies_used(front);
        let s = replayed(TraceView::start(), front);
        if !s.over() {
            law_probes_are_recorded(s, replies.last());
        }
    }
}

proof fn lemma_before_parens(t: Seq<char>, b: Seq<char>)
    requires
        forall|i: int| 0 <= i < b.len() ==> #[trigger] b[i] == ')',
        t.len() > 0 ==> t.last() != ')',
    ensures
        before_parens(t + b) == t,
    decreases b.len(),
{
    let s = t + b;
    if b.len() > 0 {
        assert(s.last() == b[b.len() - 1]);
        assert(s.drop_last() =~= t + b.drop_last());
        assert forall|i: int| 0 <= i < b.drop_last().len() implies #[trigger] b.drop_last()[i]
            == ')' by {
            assert(b.drop_last()[i] == b[i]);
        }
        lemma_before_parens(t, b.drop_last());
    } else {
        assert(s =~= t);
    }
}

/// An address loses the parentheses around it, however many there are, and
/// nothing else.
pub proof fn law_bare_address(a: Seq<char>, t: Seq<char>, b: Seq<char>)
    requires
        forall|i: int| 0 <= i < a.len() ==> #[trigger] a[i] == '(',
        forall|i: int| 0 <= i < b.len() ==> #[trigger] b[i] == ')',
        t.len() > 0,
        t[0] != '(',
        t.last() != ')',
    ensures
        bare_address(a + t + b) == t,
{
    let s = a + t + b;
    let p = |c: char| c != '(';
    assert forall|j: int| 0 <= j < a.len() implies !p(#[trigger] s[j]) by {
        assert(s[j] == a[j]);
    }
    assert(s[a.len() as int] == t[0]);
    scan::lemma_index_where_is(s, p, a.len() as int);
    assert(s.skip(a.len() as int) =~= t + b);
    lemma_before_parens(t, b);
}

/// Whether a token can name a host or give an address: it is not `*`, not
/// `ms` and not a number.
pub open spec fn a_name(tok: Seq<char>) -> bool {
    tok != "*"@ && tok != "ms"@ && !number::float_literal(tok)
}

proof fn lemma_marks_are_no_numbers()
    ensures
        !number::float_literal("*"@),
        !number::float_literal("ms"@),
        "*"@ != "ms"@,
{
    reveal_strlit("*");
    reveal_strlit("ms");
    reveal_strlit("inf");
    reveal_strlit("infinity");
    reveal_strlit("nan");
    assert("*"@.len() == 1 && "ms"@.len() == 2);
    let star = "*"@;
    let ms = "ms"@;
    assert("inf"@.len() == 3 && "infinity"@.len() == 8 && "nan"@.len() == 3);
    assert(number::unsigned(star, set!['+', '-']) == star);
    assert(number::unsigned(ms, set!['+', '-']) == ms);
    let q = |c: char| c == 'e' || c == 'E';
    scan::lemma_index_where_is(star, q, 1);
    scan::lemma_index_where_is(ms, q, 2);
    assert(star.take(1) =~= star);
    assert(ms.take(2) =~= ms);
    assert(star[0] == '*' && ms[0] == 'm' && ms[1] == 's');
    scan::lemma_index_where_is(star, scan::equal_to('.'), 1);
    scan::lemma_index_where_is(ms, scan::equal_to('.'), 2);
    assert(!number::digit(star[0]) && !number::digit(ms[0]));
}

/// How a token changes what is known of a hop: `*` adds a lost probe, a
/// number a round-trip time in its own words, and `ms` nothing. Of the other
/// tokens, the first with a dot or a colon is the address, those in front of
/// it are host names, and behind it only one in parentheses counts, as the
/// address.
pub proof fn law_tokens(tokens: Seq<Seq<char>>, tok: Seq<char>)
    ensures
        ({
            let f = fields_of(tokens);
            let g = fields_of(tokens.push(tok));
            let dotted = tok.contains('.') || tok.contains(':');
            let wrapped = tok.len() > 0 && tok[0] == '(' && tok.last() == ')';
            &&& tok == "*"@ ==> g.rtts == f.rtts.push(None)
            &&& number::float_literal(tok) ==> g.rtts == f.rtts.push(
                Some(RttView::Printed(tok)),
            )
            &&& tok == "ms"@ || a_name(tok) ==> g.rtts == f.rtts
            &&& !a_name(tok) ==> g.host == f.host && g.ip == f.ip
            &&& a_name(tok) && f.ip is None && dotted ==> g.ip == Some(bare_address(tok)) && g.host
                == f.host
            &&& a_name(tok) && f.ip is None && !dotted ==> g.ip is None && g.host == Some(tok)
            &&& a_name(tok) && f.ip is Some && wrapped ==> g.ip == Some(bare_address(tok)) && g.host
                == f.host
            &&& a_name(tok) && f.ip is Some && !wrapped ==> g.ip == f.ip && g.host == f.host
        }),
        fields_of(Seq::<Seq<char>>::empty()).rtts.len() == 0,
        fields_of(Seq::<Seq<char>>::empty()).host is None,
        fields_of(Seq::<Seq<char>>::empty()).ip is None,
{
    lemma_marks_are_no_numbers();
    assert(tokens.push(tok).drop_last() =~= tokens);
}

/// The tokens of a row of probes: a number and `ms` for an answer, `*` for
/// none.
pub open spec fn time_tokens(times: Seq<Option<Seq<char>>>) -> Seq<Seq<char>>
    decreases times.len(),
{
    if times.len() == 0 {
        seq![]
    } else {
        match times.last() {
            Some(x) => time_tokens(times.drop_last()).push(x).push("ms"@),
            None => time_tokens(times.drop_last()).push("*"@),
        }
    }
}

/// Printed times as they are kept.
pub open spec fn kept_times(times: Seq<Option<Seq<char>>>) -> Seq<Option<RttView>> {
    times.map_values(
        |x: Option<Seq<char>>|
            match x {
                Some(x) => Some(RttView::Printed(x)),
                None => None,
            },
    )
}

proof fn lemma_times_are_read(names: Seq<Seq<char>>, times: Seq<Option<Seq<char>>>)
    requires
        forall|i: int|
            0 <= i < times.len() && (#[trigger] times[i]) is Some ==> number::float_literal(
                times[i]->0,
            ),
    ensures
        fields_of(names + time_tokens(times)).host == fields_of(names).host,
        fields_of(names + time_tokens(times)).ip == fields_of(names).ip,
        fields_of(names + time_tokens(times)).rtts == fields_of(names).rtts + kept_times(times),
    decreases times.len(),
{
    lemma_marks_are_no_numbers();
    if times.len() > 0 {
        let front = times.drop_last();
        assert forall|i: int|
            0 <= i < front.len() && (#[trigger] front[i]) is Some implies number::float_literal(
            front[i]->0,
        ) by {
            assert(front[i] == times[i]);
        }
        lemma_times_are_read(names, front);
        let seen = names + time_tokens(front);
        assert(kept_times(times) =~= kept_times(front).push(
            match times.last() {
                Some(x) => Some(RttView::Printed(x)),
                None => None,
            },
        ));
        match times.last() {
            Some(x) => {
                assert(times[times.len() - 1] == Some(x));
                law_tokens(seen, x);
                law_tokens(seen.push(x), "ms"@);
                assert(names + time_tokens(times) =~= seen.push(x).push("ms"@));
            },
            None => {
                law_tokens(seen, "*"@);
                assert(names + time_tokens(times) =~= seen.push("*"@));
            },
        }
        assert(fields_of(names).rtts + kept_times(times) =~= (fields_of(names).rtts
            + kept_times(front)).push(kept_times(times).last()));
    } else {
        assert(names + time_tokens(times) =~= names);
        assert(fields_of(names).rtts + kept_times(times) =~= fields_of(names).rtts);
    }
}

/// A line of hop number, address and any number of times gives that hop: the
/// number, the address, and the times in order with `None` for each `*`.
pub proof fn law_numeric_hop_lines(
    line: Seq<char>,
    n: u8,
    address: Seq<char>,
    times: Seq<Option<Seq<char>>>,
)
    requires
        text::words(line) == seq![number::decimal(n as nat), address] + time_tokens(times),
        a_name(address),
        address.contains('.') || address.contains(':'),
        address[0] != '(',
        address.last() != ')',
        forall|i: int|
            0 <= i < times.len() && (#[trigger] times[i]) is Some ==> number::float_literal(
                times[i]->0,
            ),
    ensures
        hop_of_line(line) == Some(
            HopView { hop_number: n, host: None, ip: Some(address), rtt_ms: kept_times(times) },
        ),
{
    let words = text::words(line);
    let e = Seq::<char>::empty();
    number::law_octets(e, n as nat);
    assert(e + number::decimal(n as nat) =~= number::decimal(n as nat));
    let tokens = words.skip(1);
    let names = seq![address];
    assert(tokens =~= names + time_tokens(times));
    let none = Seq::<Seq<char>>::empty();
    law_tokens(none, address);
    assert(none.push(address) =~= names);
    law_bare_address(e, address, e);
    assert(e + address + e =~= address);
    lemma_times_are_read(names, times);
    assert(tokens[0] == address);
    assert(fields_of(tokens).rtts =~= kept_times(times));
}

/// A line of hop number, host name, address in parentheses and times gives
/// the host name and the bare address.
pub proof fn law_named_hop_lines(
    line: Seq<char>,
    n: u8,
    host: Seq<char>,
    address: Seq<char>,
    times: Seq<Option<Seq<char>>>,
)
    requires
        text::words(line) == seq![
            number::decimal(n as nat),
            host,
            seq!['('] + address + seq![')'],
        ] + time_tokens(times),
        a_name(host),
        !host.contains('.') && !host.contains(':'),
        address.contains('.') || address.contains(':'),
        address[0] != '(',
        address.last() != ')',
        forall|i: int|
            0 <= i < times.len() && (#[trigger] times[i]) is Some ==> number::float_literal(
                times[i]->0,
            ),
    ensures
        hop_of_line(line) == Some(
            HopView {
                hop_number: n,
                host: Some(host),
                ip: Some(address),
                rtt_ms: kept_times(times),
            },
        ),
{
    let words = text::words(line);
    let e = Seq::<char>::empty();
    number::law_octets(e, n as nat);
    assert(e + number::decimal(n as nat) =~= number::decimal(n as nat));
    let tokens = words.skip(1);
    let wrapped = seq!['('] + address + seq![')'];
    let names = seq![host, wrapped];
    assert(tokens =~= names + time_tokens(times));
    let none = Seq::<Seq<char>>::empty();
    assert(a_name(wrapped)) by {
        lemma_wrapped_is_a_name(address);
    }
    assert(wrapped.contains('.') || wrapped.contains(':')) by {
        let c = if address.contains('.') {
            '.'
        } else {
            ':'
        };
        let i = choose|i: int| 0 <= i < address.len() && address[i] == c;
        assert(wrapped[i + 1] == c);
    }
    law_tokens(none, host);
    law_tokens(none.push(host), wrapped);
    assert(none.push(host).push(wrapped) =~= names);
    law_bare_address(seq!['('], address, seq![')']);
    lemma_times_are_read(names, times);
    assert(tokens[0] == host);
    assert(fields_of(tokens).rtts =~= kept_times(times));
}

proof fn lemma_wrapped_is_a_name(address: Seq<char>)
    ensures
        a_name(seq!['('] + address + seq![')']),
{
    let t = seq!['('] + address + seq![')'];
    assert(t[0] == '(');
    reveal_strlit("*");
    reveal_strlit("ms");
    reveal_strlit("inf");
    reveal_strlit("infinity");
    reveal_strlit("nan");
    assert("*"@[0] == '*' && "ms"@[0] == 'm');
    assert("inf"@[0] == 'i' && "infinity"@[0] == 'i' && "nan"@[0] == 'n');
    assert(number::unsigned(t, set!['+', '-']) == t);
    let q = |c: char| c == 'e' || c == 'E';
    let e = number::exponent_mark(t);
    scan::lemma_index_where(t, q);
    assert(e > 0);
    let m = t.take(e);
    assert(m[0] == '(' && !number::digit(m[0]));
    scan::lemma_index_where(m, scan::equal_to('.'));
    let point = scan::until(m, '.');
    if point < m.len() {
        assert(point > 0);
        assert(m.take(point)[0] == '(');
    }
}

/// A line of which only `*` follows the hop number is a hop without host and
/// address, and with three lost probes.
pub proof fn law_lost_hop_lines(line: Seq<char>, n: u8, stars: Seq<Seq<char>>)
    requires
        text::words(line) == seq![number::decimal(n as nat)] + stars,
        stars.len() > 0,
        forall|i: int| 0 <= i < stars.len() ==> #[trigger] stars[i] == "*"@,
    ensures
        hop_of_line(line) == Some(
            HopView { hop_number: n, host: None, ip: None, rtt_ms: seq![None, None, None] },
        ),
{
    let e = Seq::<char>::empty();
    number::law_octets(e, n as nat);
    assert(e + number::decimal(n as nat) =~= number::decimal(n as nat));
    assert(text::words(line).skip(1) =~= stars);
}

/// A line is a hop exactly when it has at least two words and the first is a
/// number below 256, which is the number of the hop.
pub proof fn law_hop_lines(line: Seq<char>)
    ensures
        hop_of_line(line) is Some <==> text::words(line).len() >= 2 && number::octet(
            text::words(line)[0],
        ) is Some,
        hop_of_line(line) matches Some(hop) ==> number::octet(text::words(line)[0]) == Some(
            hop.hop_number,
        ),
{
}

/// A text of one line has the hop of that line, or none.
pub proof fn law_single_lines(line: Seq<char>)
    requires
        !line.contains('\n'),
    ensures
        output_hops(line) == (match hop_of_line(line) {
            Some(hop) => seq![hop],
            None => Seq::<HopView>::empty(),
        }),
{
    scan::law_until(line, '\n', seq![]);
    assert(line.take(line.len() as int) =~= line);
}

/// What a run goes through. A request starts one with its target and without
/// hops, unless one is in progress; success leaves the target and brings the
/// hops; failure leaves target and hops and brings the message.
pub proof fn law_run_states(r: ResultView, target: Seq<char>, hops: Seq<HopView>, message: Seq<char>)
    ensures
        r.status is Running ==> r.begun(target) == r,
        !(r.status is Running) ==> r.begun(target).target == target && r.begun(target).status
            is Running && r.begun(target).hops.len() == 0,
        r.succeeded(hops).target == r.target && r.succeeded(hops).hops == hops && r.succeeded(
            hops,
        ).status is Done,
        r.failed(message).target == r.target && r.failed(message).hops == r.hops && r.failed(
            message,
        ).status == StatusView::Error(message),
        ResultView::idle().target.len() == 0 && ResultView::idle().hops.len() == 0,
        ResultView::idle().status is Idle,
{
}

/// A missing program is named in front of the hint for it, and any other
/// failure is told in the words of the system.
pub proof fn law_spawn_messages(binary: Seq<char>, why: String)
    ensures
        spawn_message(binary, SpawnFailure::Other(why)) == "Failed to run "@ + binary + ": "@
            + why@,
        spawn_message(binary, SpawnFailure::NotFound) == "`"@ + binary + "` not installed — "@
            + install_hint(binary),
        binary != "traceroute"@ && binary != "tracert"@ ==> install_hint(binary)
            == "binary not found on PATH"@,
{
}

/// Views keep every field of a hop, a time, a status and a result, and lists
/// keep their order.
pub proof fn law_views(
    hop: TracerouteHop,
    ns: u64,
    s: String,
    r: TracerouteResult,
    hops: Seq<TracerouteHop>,
    times: Seq<Option<Rtt>>,
    i: int,
)
    ensures
        hop@.hop_number == hop.hop_number && hop@.host == text::text_of(hop.host) && hop@.ip
            == text::text_of(hop.ip) && hop@.rtt_ms == rtts_of(hop.rtt_ms@),
        Rtt::Measured(ns)@ == RttView::Measured(ns) && Rtt::Printed(s)@ == RttView::Printed(s@),
        rtt_of(Some(Rtt::Measured(ns))) == Some(RttView::Measured(ns)) && rtt_of(None) is None,
        TracerouteStatus::Error(s)@ == StatusView::Error(s@) && TracerouteStatus::Idle@ is Idle
            && TracerouteStatus::Running@ is Running && TracerouteStatus::Done@ is Done,
        r@.target == r.target@ && r@.status == r.status@ && r@.hops == hops_of(r.hops@),
        hops_of(hops).len() == hops.len() && rtts_of(times).len() == times.len(),
        0 <= i < hops.len() ==> hops_of(hops)[i] == hops[i]@,
        0 <= i < times.len() ==> rtts_of(times)[i] == rtt_of(times[i]),
{
}

} // verus!
