//! Deep packet inspection: application-layer protocol classification.
//!
//! Each classifier looks at the first bytes of an application-layer payload
//! (what TCP or UDP carries) and decides whether the flow is its protocol.

pub mod bittorrent;
pub mod dhcp;
pub mod dns;
pub mod ftp;
pub mod http;
pub mod ja4;
pub mod ja4_db;
pub mod llmnr;
pub mod mqtt;
pub mod netbios;
pub mod ntp;
pub mod quic;
pub mod snmp;
pub mod ssdp;
pub mod ssh;
pub mod stun;
pub mod tls;

use vstd::prelude::*;

use bittorrent::BitTorrentClassifier;
use dhcp::DhcpClassifier;
use dns::DnsClassifier;
use ftp::FtpClassifier;
use http::HttpClassifier;
use llmnr::LlmnrClassifier;
use mqtt::MqttClassifier;
use netbios::NetBiosClassifier;
use ntp::NtpClassifier;
use quic::QuicClassifier;
use snmp::SnmpClassifier;
use ssdp::SsdpClassifier;
use ssh::SshClassifier;
use stun::StunClassifier;
use tls::TlsClassifier;

use crate::text;

verus! {

/// What a classifier found in a payload.
#[derive(Debug, Clone, PartialEq, Eq)]
#[allow(inconsistent_fields)]
pub enum AppProtocol {
    /// TLS handshake observed; SNI and ALPN extracted when present. `ech` is
    /// true when the ClientHello carries an `encrypted_client_hello`
    /// extension, in which case `sni` is the outer SNI.
    Tls {
        sni: Option<String>,
        alpn: Option<String>,
        ech: bool,
        /// JA4 fingerprint of the ClientHello. `None` when the ClientHello
        /// was too malformed to fingerprint.
        ja4: Option<String>,
    },
    /// HTTP/1.x request line and `Host:` header.
    Http {
        method: String,
        host: Option<String>,
        /// Request-target from the request line. `None` on responses.
        path: Option<String>,
        /// Response status code. `None` on requests.
        status: Option<u16>,
    },
    /// DNS query or response: the first question's name and type, and the
    /// header RCODE on responses.
    Dns {
        qname: String,
        qtype: u16,
        /// `Some` only when the QR bit marks this a response.
        rcode: Option<u8>,
    },
    /// SSH banner line, such as `SSH-2.0-OpenSSH_9.0`.
    Ssh { version: String },
    /// QUIC Initial packet. `sni`, `ech` and `ja4` describe the ClientHello
    /// once its CRYPTO frames have been reassembled.
    Quic { sni: Option<String>, ech: bool, ja4: Option<String> },
    /// MQTT control packet, with the client id of a CONNECT.
    Mqtt { client_id: Option<String> },
    /// STUN message: method and class.
    Stun { message_type: String },
    /// BitTorrent peer-wire handshake, with the info hash in hex.
    BitTorrent { info_hash: Option<String> },
    /// NetBIOS name service, datagram or session traffic.
    NetBios { service: String },
    /// SNMP message: version and, when readable, community string.
    Snmp { version: String, community: Option<String> },
    /// SSDP control message: `NOTIFY` or `M-SEARCH`, with NT or ST.
    Ssdp { method: String, target: Option<String> },
    /// FTP control channel command.
    Ftp { command: String },
    /// LLMNR query: DNS wire format on port 5355.
    Llmnr { qname: String, qtype: u16 },
    /// DHCP or BOOTP message, by its op code (1 = request, 2 = reply).
    Dhcp { op: u8 },
    /// NTP message: version and mode of its first byte.
    Ntp { version: u8, mode: u8 },
}

/// An [`AppProtocol`] with its strings as character sequences.
#[allow(inconsistent_fields)]
pub enum ProtocolView {
    Tls { sni: Option<Seq<char>>, alpn: Option<Seq<char>>, ech: bool, ja4: Option<Seq<char>> },
    Http {
        method: Seq<char>,
        host: Option<Seq<char>>,
        path: Option<Seq<char>>,
        status: Option<u16>,
    },
    Dns { qname: Seq<char>, qtype: u16, rcode: Option<u8> },
    Ssh { version: Seq<char> },
    Quic { sni: Option<Seq<char>>, ech: bool, ja4: Option<Seq<char>> },
    Mqtt { client_id: Option<Seq<char>> },
    Stun { message_type: Seq<char> },
    BitTorrent { info_hash: Option<Seq<char>> },
    NetBios { service: Seq<char> },
    Snmp { version: Seq<char>, community: Option<Seq<char>> },
    Ssdp { method: Seq<char>, target: Option<Seq<char>> },
    Ftp { command: Seq<char> },
    Llmnr { qname: Seq<char>, qtype: u16 },
    Dhcp { op: u8 },
    Ntp { version: u8, mode: u8 },
}

impl View for AppProtocol {
    type V = ProtocolView;

    open spec fn view(&self) -> ProtocolView {
        match *self {
            AppProtocol::Tls { sni, alpn, ech, ja4 } => ProtocolView::Tls {
                sni: text::text_of(sni),
                alpn: text::text_of(alpn),
                ech,
                ja4: text::text_of(ja4),
            },
            AppProtocol::Http { method, host, path, status } => ProtocolView::Http {
                method: method@,
                host: text::text_of(host),
                path: text::text_of(path),
                status,
            },
            AppProtocol::Dns { qname, qtype, rcode } => ProtocolView::Dns {
                qname: qname@,
                qtype,
                rcode,
            },
            AppProtocol::Ssh { version } => ProtocolView::Ssh { version: version@ },
            AppProtocol::Quic { sni, ech, ja4 } => ProtocolView::Quic {
                sni: text::text_of(sni),
                ech,
                ja4: text::text_of(ja4),
            },
            AppProtocol::Mqtt { client_id } => ProtocolView::Mqtt {
                client_id: text::text_of(client_id),
            },
            AppProtocol::Stun { message_type } => ProtocolView::Stun {
                message_type: message_type@,
            },
            AppProtocol::BitTorrent { info_hash } => ProtocolView::BitTorrent {
                info_hash: text::text_of(info_hash),
            },
            AppProtocol::NetBios { service } => ProtocolView::NetBios { service: service@ },
            AppProtocol::Snmp { version, community } => ProtocolView::Snmp {
                version: version@,
                community: text::text_of(community),
            },
            AppProtocol::Ssdp { method, target } => ProtocolView::Ssdp {
                method: method@,
                target: text::text_of(target),
            },
            AppProtocol::Ftp { command } => ProtocolView::Ftp { command: command@ },
            AppProtocol::Llmnr { qname, qtype } => ProtocolView::Llmnr { qname: qname@, qtype },
            AppProtocol::Dhcp { op } => ProtocolView::Dhcp { op },
            AppProtocol::Ntp { version, mode } => ProtocolView::Ntp { version, mode },
        }
    }
}

/// What a classification says, with strings as character sequences.
pub open spec fn answer(r: Option<AppProtocol>) -> Option<ProtocolView> {
    match r {
        Some(p) => Some(p@),
        None => None,
    }
}

/// A recognizer of one application-layer protocol.
pub trait Classifier {
    /// What this classifier makes of `payload`: the protocol when it
    /// recognizes it, `None` to fall through to the next classifier.
    spec fn verdict(&self, payload: Seq<u8>, is_tcp: bool) -> Option<ProtocolView>;

    /// Classifies one payload.
    fn classify(&self, payload: &[u8], is_tcp: bool) -> (r: Option<AppProtocol>)
        ensures
            answer(r) == self.verdict(payload@, is_tcp),
    ;
}

/// Whether either side of a flow uses port `p`.
pub open spec fn on_port(src_port: u16, dst_port: u16, p: u16) -> bool {
    src_port == p || dst_port == p
}

/// The first verdict, or the second one when the first is none.
pub open spec fn or_else(first: Option<ProtocolView>, second: Option<ProtocolView>) -> Option<
    ProtocolView,
> {
    if first is Some {
        first
    } else {
        second
    }
}

/// A verdict that counts only under a condition.
pub open spec fn gated(condition: bool, verdict: Option<ProtocolView>) -> Option<ProtocolView> {
    if condition {
        verdict
    } else {
        None
    }
}

/// The verdict on a TCP payload: that of the first classifier with one, in
/// order of priority. FTP, MQTT and NetBIOS are tried on their ports only.
pub open spec fn tcp_verdict(payload: Seq<u8>, src: u16, dst: u16) -> Option<ProtocolView> {
    or_else(
        BitTorrentClassifier.verdict(payload, true),
        or_else(
            SshClassifier.verdict(payload, true),
            or_else(
                gated(on_port(src, dst, 21), FtpClassifier.verdict(payload, true)),
                or_else(
                    HttpClassifier.verdict(payload, true),
                    or_else(
                        TlsClassifier.verdict(payload, true),
                        or_else(
                            gated(
                                on_port(src, dst, 1883) || on_port(src, dst, 8883),
                                MqttClassifier.verdict(payload, true),
                            ),
                            gated(
                                on_port(src, dst, 139),
                                NetBiosClassifier.verdict(payload, true),
                            ),
                        ),
                    ),
                ),
            ),
        ),
    )
}

/// The verdict on a UDP payload: that of the first classifier with one, in
/// order of priority. All but QUIC, STUN and DNS are tried on their ports
/// only.
pub open spec fn udp_verdict(payload: Seq<u8>, src: u16, dst: u16) -> Option<ProtocolView> {
    or_else(
        QuicClassifier.verdict(payload, false),
        or_else(
            gated(
                on_port(src, dst, 67) || on_port(src, dst, 68),
                DhcpClassifier.verdict(payload, false),
            ),
            or_else(
                gated(on_port(src, dst, 123), NtpClassifier.verdict(payload, false)),
                or_else(
                    gated(on_port(src, dst, 1900), SsdpClassifier.verdict(payload, false)),
                    or_else(
                        gated(on_port(src, dst, 5355), LlmnrClassifier.verdict(payload, false)),
                        or_else(
                            gated(
                                on_port(src, dst, 161) || on_port(src, dst, 162),
                                SnmpClassifier.verdict(payload, false),
                            ),
                            or_else(
                                gated(
                                    on_port(src, dst, 137) || on_port(src, dst, 138),
                                    NetBiosClassifier.verdict(payload, false),
                                ),
                                or_else(
                                    StunClassifier.verdict(payload, false),
                                    DnsClassifier.verdict(payload, false),
                                ),
                            ),
                        ),
                    ),
                ),
            ),
        ),
    )
}

/// The verdict on a payload; one of fewer than four bytes has none.
pub open spec fn flow_verdict(payload: Seq<u8>, is_tcp: bool, src: u16, dst: u16) -> Option<
    ProtocolView,
> {
    if payload.len() < 4 {
        None
    } else if is_tcp {
        tcp_verdict(payload, src, dst)
    } else {
        udp_verdict(payload, src, dst)
    }
}

/// Runs the classifiers in order of priority and returns the first match.
///
/// Ports tell protocols apart that look the same on the wire (LLMNR and DNS,
/// SSDP and HTTP) or that are bound to a port (SNMP, MQTT, NetBIOS); either
/// side's port will do.
pub fn classify_once(payload: &[u8], is_tcp: bool, src_port: u16, dst_port: u16) -> (r: Option<
    AppProtocol,
>)
    ensures
        answer(r) == flow_verdict(payload@, is_tcp, src_port, dst_port),
{
    if payload.len() < 4 {
        return None;
    }
    if is_tcp {
        classify_tcp(payload, src_port, dst_port)
    } else {
        classify_udp(payload, src_port, dst_port)
    }
}

fn any_port(src_port: u16, dst_port: u16, p: u16) -> (r: bool)
    ensures
        r == on_port(src_port, dst_port, p),
{
    src_port == p || dst_port == p
}

fn classify_tcp(payload: &[u8], src_port: u16, dst_port: u16) -> (r: Option<AppProtocol>)
    ensures
        answer(r) == tcp_verdict(payload@, src_port, dst_port),
{
    if let Some(p) = BitTorrentClassifier.classify(payload, true) {
        return Some(p);
    }
    if let Some(p) = SshClassifier.classify(payload, true) {
        return Some(p);
    }
    // Replies of other protocols look like FTP replies.
    if any_port(src_port, dst_port, 21) {
        if let Some(p) = FtpClassifier.classify(payload, true) {
            return Some(p);
        }
    }
    if let Some(p) = HttpClassifier.classify(payload, true) {
        return Some(p);
    }
    if let Some(p) = TlsClassifier.classify(payload, true) {
        return Some(p);
    }
    if any_port(src_port, dst_port, 1883) || any_port(src_port, dst_port, 8883) {
        if let Some(p) = MqttClassifier.classify(payload, true) {
            return Some(p);
        }
    }
    if any_port(src_port, dst_port, 139) {
        if let Some(p) = NetBiosClassifier.classify(payload, true) {
            return Some(p);
        }
    }
    None
}

fn classify_udp(payload: &[u8], src_port: u16, dst_port: u16) -> (r: Option<AppProtocol>)
    ensures
        answer(r) == udp_verdict(payload@, src_port, dst_port),
{
    if let Some(p) = QuicClassifier.classify(payload, false) {
        return Some(p);
    }
    if any_port(src_port, dst_port, 67) || any_port(src_port, dst_port, 68) {
        if let Some(p) = DhcpClassifier.classify(payload, false) {
            return Some(p);
        }
    }
    if any_port(src_port, dst_port, 123) {
        if let Some(p) = NtpClassifier.classify(payload, false) {
            return Some(p);
        }
    }
    if any_port(src_port, dst_port, 1900) {
        if let Some(p) = SsdpClassifier.classify(payload, false) {
            return Some(p);
        }
    }
    if any_port(src_port, dst_port, 5355) {
        if let Some(p) = LlmnrClassifier.classify(payload, false) {
            return Some(p);
        }
    }
    if any_port(src_port, dst_port, 161) || any_port(src_port, dst_port, 162) {
        if let Some(p) = SnmpClassifier.classify(payload, false) {
            return Some(p);
        }
    }
    if any_port(src_port, dst_port, 137) || any_port(src_port, dst_port, 138) {
        if let Some(p) = NetBiosClassifier.classify(payload, false) {
            return Some(p);
        }
    }
    // STUN runs on ephemeral ports too; its magic cookie is unambiguous.
    if let Some(p) = StunClassifier.classify(payload, false) {
        return Some(p);
    }
    DnsClassifier.classify(payload, false)
}

/// It does not matter which side of a flow uses which port.
pub proof fn law_ports_are_symmetric(payload: Seq<u8>, is_tcp: bool, a: u16, b: u16)
    ensures
        flow_verdict(payload, is_tcp, a, b) == flow_verdict(payload, is_tcp, b, a),
{
}

/// Protocols that run over one transport are never found on the other.
pub proof fn law_transports_are_separate(payload: Seq<u8>, src: u16, dst: u16)
    ensures
        match flow_verdict(payload, true, src, dst) {
            Some(p) => p is BitTorrent || p is Ssh || p is Ftp || p is Http || p is Tls || p is Mqtt
                || p is NetBios,
            None => true,
        },
        match flow_verdict(payload, false, src, dst) {
            Some(p) => p is Quic || p is Dhcp || p is Ntp || p is Ssdp || p is Llmnr || p is Snmp
                || p is NetBios || p is Stun || p is Dns,
            None => true,
        },
{
}

/// Protocols that are bound to ports are found on these ports only.
pub proof fn law_bound_protocols_keep_to_their_ports(
    payload: Seq<u8>,
    is_tcp: bool,
    src: u16,
    dst: u16,
)
    ensures
        match flow_verdict(payload, is_tcp, src, dst) {
            Some(p) => {
                &&& p is Ftp ==> on_port(src, dst, 21)
                &&& p is Mqtt ==> on_port(src, dst, 1883) || on_port(src, dst, 8883)
                &&& p is NetBios && is_tcp ==> on_port(src, dst, 139)
                &&& p is NetBios && !is_tcp ==> on_port(src, dst, 137) || on_port(src, dst, 138)
                &&& p is Dhcp ==> on_port(src, dst, 67) || on_port(src, dst, 68)
                &&& p is Ntp ==> on_port(src, dst, 123)
                &&& p is Ssdp ==> on_port(src, dst, 1900)
                &&& p is Llmnr ==> on_port(src, dst, 5355)
                &&& p is Snmp ==> on_port(src, dst, 161) || on_port(src, dst, 162)
            },
            None => true,
        },
{
}

/// On the LLMNR port nothing is taken for DNS, though the two look the same,
/// and off that port nothing is taken for LLMNR.
pub proof fn law_port_tells_llmnr_from_dns(payload: Seq<u8>, src: u16, dst: u16)
    ensures
        on_port(src, dst, 5355) ==> !(flow_verdict(payload, false, src, dst) matches Some(
            ProtocolView::Dns { .. },
        )),
        !on_port(src, dst, 5355) ==> !(flow_verdict(payload, false, src, dst) matches Some(
            ProtocolView::Llmnr { .. },
        )),
        LlmnrClassifier.verdict(payload, false) is Some <==> DnsClassifier.verdict(payload, false) is Some,
{
}

/// Payloads of fewer than four bytes are not classified.
pub proof fn law_short_payloads_have_no_verdict(payload: Seq<u8>, is_tcp: bool, src: u16, dst: u16)
    requires
        payload.len() < 4,
    ensures
        flow_verdict(payload, is_tcp, src, dst) is None,
{
}

/// On a TCP flow the first classifier that claims the payload decides, in the
/// order BitTorrent, SSH, FTP, HTTP, TLS, MQTT, NetBIOS, where FTP, MQTT and
/// NetBIOS can claim it on their ports only; with no claim there is no
/// verdict.
pub proof fn law_first_tcp_claim_wins(payload: Seq<u8>, src: u16, dst: u16)
    requires
        payload.len() >= 4,
    ensures
        ({
            let flow = flow_verdict(payload, true, src, dst);
            let bittorrent = BitTorrentClassifier.verdict(payload, true);
            let bittorrent_claims = bittorrent is Some;
            let ssh = SshClassifier.verdict(payload, true);
            let ssh_claims = ssh is Some;
            let ftp = FtpClassifier.verdict(payload, true);
            let ftp_claims = ftp is Some && (src == 21 || dst == 21);
            let http = HttpClassifier.verdict(payload, true);
            let http_claims = http is Some;
            let tls = TlsClassifier.verdict(payload, true);
            let tls_claims = tls is Some;
            let mqtt = MqttClassifier.verdict(payload, true);
            let mqtt_claims = mqtt is Some && (src == 1883 || dst == 1883 || src == 8883 || dst == 8883);
            let netbios = NetBiosClassifier.verdict(payload, true);
            let netbios_claims = netbios is Some && (src == 139 || dst == 139);
            &&& bittorrent_claims ==> flow == bittorrent
            &&& !bittorrent_claims && ssh_claims ==> flow == ssh
            &&& !bittorrent_claims && !ssh_claims && ftp_claims ==> flow == ftp
            &&& !bittorrent_claims && !ssh_claims && !ftp_claims && http_claims ==> flow == http
            &&& !bittorrent_claims && !ssh_claims && !ftp_claims && !http_claims && tls_claims ==> flow == tls
            &&& !bittorrent_claims && !ssh_claims && !ftp_claims && !http_claims && !tls_claims && mqtt_claims ==> flow == mqtt
            &&& !bittorrent_claims && !ssh_claims && !ftp_claims && !http_claims && !tls_claims && !mqtt_claims && netbios_claims ==> flow == netbios
            &&& !bittorrent_claims && !ssh_claims && !ftp_claims && !http_claims && !tls_claims && !mqtt_claims && !netbios_claims ==> flow is None
        }),
{
}

/// On a UDP flow the first classifier that claims the payload decides, in the
/// order QUIC, DHCP, NTP, SSDP, LLMNR, SNMP, NetBIOS, STUN, DNS, where all but
/// QUIC, STUN and DNS can claim it on their ports only; with no claim there
/// is no verdict.
pub proof fn law_first_udp_claim_wins(payload: Seq<u8>, src: u16, dst: u16)
    requires
        payload.len() >= 4,
    ensures
        ({
            let flow = flow_verdict(payload, false, src, dst);
            let quic = QuicClassifier.verdict(payload, false);
            let quic_claims = quic is Some;
            let dhcp = DhcpClassifier.verdict(payload, false);
            let dhcp_claims = dhcp is Some && (src == 67 || dst == 67 || src == 68 || dst == 68);
            let ntp = NtpClassifier.verdict(payload, false);
            let ntp_claims = ntp is Some && (src == 123 || dst == 123);
            let ssdp = SsdpClassifier.verdict(payload, false);
            let ssdp_claims = ssdp is Some && (src == 1900 || dst == 1900);
            let llmnr = LlmnrClassifier.verdict(payload, false);
            let llmnr_claims = llmnr is Some && (src == 5355 || dst == 5355);
            let snmp = SnmpClassifier.verdict(payload, false);
            let snmp_claims = snmp is Some && (src == 161 || dst == 161 || src == 162 || dst == 162);
            let netbios = NetBiosClassifier.verdict(payload, false);
            let netbios_claims = netbios is Some && (src == 137 || dst == 137 || src == 138 || dst == 138);
            let stun = StunClassifier.verdict(payload, false);
            let stun_claims = stun is Some;
            let dns = DnsClassifier.verdict(payload, false);
            let dns_claims = dns is Some;
            &&& quic_claims ==> flow == quic
            &&& !quic_claims && dhcp_claims ==> flow == dhcp
            &&& !quic_claims && !dhcp_claims && ntp_claims ==> flow == ntp
            &&& !quic_claims && !dhcp_claims && !ntp_claims && ssdp_claims ==> flow == ssdp
            &&& !quic_claims && !dhcp_claims && !ntp_claims && !ssdp_claims && llmnr_claims ==> flow == llmnr
            &&& !quic_claims && !dhcp_claims && !ntp_claims && !ssdp_claims && !llmnr_claims && snmp_claims ==> flow == snmp
            &&& !quic_claims && !dhcp_claims && !ntp_claims && !ssdp_claims && !llmnr_claims && !snmp_claims && netbios_claims ==> flow == netbios
            &&& !quic_claims && !dhcp_claims && !ntp_claims && !ssdp_claims && !llmnr_claims && !snmp_claims && !netbios_claims && stun_claims ==> flow == stun
            &&& !quic_claims && !dhcp_claims && !ntp_claims && !ssdp_claims && !llmnr_claims && !snmp_claims && !netbios_claims && !stun_claims && dns_claims ==> flow == dns
            &&& !quic_claims && !dhcp_claims && !ntp_claims && !ssdp_claims && !llmnr_claims && !snmp_claims && !netbios_claims && !stun_claims && !dns_claims ==> flow is None
        }),
{
}

/// The view of a protocol has the same variant and the same contents in every
/// field, with strings as their characters.
pub proof fn law_views(
    a: String,
    b: Option<String>,
    c: Option<String>,
    d: Option<String>,
    flag: bool,
    n: u16,
    x: u8,
    y: u8,
    status: Option<u16>,
    rcode: Option<u8>,
)
    ensures
        (AppProtocol::Tls { sni: b, alpn: c, ech: flag, ja4: d })@ == (ProtocolView::Tls {
            sni: text::text_of(b),
            alpn: text::text_of(c),
            ech: flag,
            ja4: text::text_of(d),
        }),
        (AppProtocol::Http { method: a, host: b, path: c, status })@ == (ProtocolView::Http {
            method: a@,
            host: text::text_of(b),
            path: text::text_of(c),
            status,
        }),
        (AppProtocol::Dns { qname: a, qtype: n, rcode })@ == (ProtocolView::Dns {
            qname: a@,
            qtype: n,
            rcode,
        }),
        (AppProtocol::Ssh { version: a })@ == (ProtocolView::Ssh { version: a@ }),
        (AppProtocol::Quic { sni: b, ech: flag, ja4: c })@ == (ProtocolView::Quic {
            sni: text::text_of(b),
            ech: flag,
            ja4: text::text_of(c),
        }),
        (AppProtocol::Mqtt { client_id: b })@ == (ProtocolView::Mqtt {
            client_id: text::text_of(b),
        }),
        (AppProtocol::Stun { message_type: a })@ == (ProtocolView::Stun { message_type: a@ }),
        (AppProtocol::BitTorrent { info_hash: b })@ == (ProtocolView::BitTorrent {
            info_hash: text::text_of(b),
        }),
        (AppProtocol::NetBios { service: a })@ == (ProtocolView::NetBios { service: a@ }),
        (AppProtocol::Snmp { version: a, community: b })@ == (ProtocolView::Snmp {
            version: a@,
            community: text::text_of(b),
        }),
        (AppProtocol::Ssdp { method: a, target: b })@ == (ProtocolView::Ssdp {
            method: a@,
            target: text::text_of(b),
        }),
        (AppProtocol::Ftp { command: a })@ == (ProtocolView::Ftp { command: a@ }),
        (AppProtocol::Llmnr { qname: a, qtype: n })@ == (ProtocolView::Llmnr {
            qname: a@,
            qtype: n,
        }),
        (AppProtocol::Dhcp { op: x })@ == (ProtocolView::Dhcp { op: x }),
        (AppProtocol::Ntp { version: x, mode: y })@ == (ProtocolView::Ntp { version: x, mode: y }),
        text::text_of(Some(a)) == Some(a@),
        text::text_of(None) is None,
        answer(Some(AppProtocol::Dhcp { op: x })) == Some((AppProtocol::Dhcp { op: x })@),
        answer(None) is None,
{
}

} // verus!
