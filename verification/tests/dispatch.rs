use netwatch::dpi::dhcp::DhcpClassifier;
use netwatch::dpi::dns::{read_name, DnsClassifier};
use netwatch::dpi::ftp::FtpClassifier;
use netwatch::dpi::ntp::NtpClassifier;
use netwatch::dpi::quic::QuicClassifier;
use netwatch::dpi::ssdp::SsdpClassifier;
use netwatch::dpi::tls::TlsClassifier;
use netwatch::dpi::{classify_once, AppProtocol, Classifier};

/// Tiny deterministic xorshift PRNG: keeps the fuzz corpus reproducible.
struct XorShift(u64);
impl XorShift {
    fn next(&mut self) -> u64 {
        let mut x = self.0;
        x ^= x << 13;
        x ^= x >> 7;
        x ^= x << 17;
        self.0 = x;
        x
    }
    fn byte(&mut self) -> u8 {
        (self.next() & 0xFF) as u8
    }
}

#[test]
fn classifiers_never_panic_on_hostile_input() {
    let mut rng = XorShift(0x9E37_79B9_7F4A_7C15);
    // A few real protocol prefixes to seed structured mutation: a
    // valid-looking header followed by garbage is the nastiest case
    // for a length-trusting parser.
    let seeds: &[&[u8]] = &[
        &[0x16, 0x03, 0x01],                   // TLS handshake record
        &[0x47, 0x45, 0x54, 0x20],             // "GET "
        b"HTTP/1.1 200 OK\r\n",                // HTTP response line
        &[0xAB, 0xCD, 0x01, 0x00, 0x00, 0x01], // DNS-ish header
        &[0x13, b'B', b'i', b't'],             // BitTorrent length prefix
        b"SSH-2.0-",                           // SSH banner
    ];

    for iter in 0..20_000u32 {
        let len = (rng.next() % 2048) as usize;
        let mut buf = Vec::with_capacity(len);
        // Optionally prepend a structured seed so we exercise the
        // "valid prefix, hostile tail" path, not just pure noise.
        if iter % 3 == 0 {
            let seed = seeds[(iter as usize / 3) % seeds.len()];
            buf.extend_from_slice(seed);
        }
        while buf.len() < len {
            buf.push(rng.byte());
        }

        let sp = (rng.next() & 0xFFFF) as u16;
        let dp = (rng.next() & 0xFFFF) as u16;
        // Both transports, and a couple of canonical ports to unlock
        // the port-gated classifiers (FTP/SNMP/NetBIOS/DNS).
        let _ = classify_once(&buf, true, sp, dp);
        let _ = classify_once(&buf, false, sp, dp);
        let _ = classify_once(&buf, false, 53, dp);
        let _ = classify_once(&buf, true, 21, dp);
    }
}

fn dns(flags: [u8; 2], labels: &[&str], qtype: u16) -> Vec<u8> {
    let mut p = vec![0xab, 0xcd, flags[0], flags[1], 0, 1, 0, 0, 0, 0, 0, 0];
    for label in labels {
        p.push(label.len() as u8);
        p.extend_from_slice(label.as_bytes());
    }
    p.push(0);
    p.extend_from_slice(&qtype.to_be_bytes());
    p.extend_from_slice(&[0, 1]);
    p
}

#[test]
fn short_payloads_have_no_verdict() {
    assert_eq!(classify_once(b"", false, 67, 68), None);
    assert_eq!(classify_once(&[1, 0, 0], false, 67, 68), None);
    assert_eq!(classify_once(&[1, 0, 0, 0], false, 67, 68), Some(AppProtocol::Dhcp { op: 1 }));
}

#[test]
fn dns_queries_and_responses() {
    let query = dns([0x01, 0x00], &["www", "example", "com"], 28);
    assert_eq!(
        DnsClassifier.classify(&query, false),
        Some(AppProtocol::Dns {
            qname: "www.example.com".into(),
            qtype: 28,
            rcode: None,
        })
    );
    let response = dns([0x81, 0x83], &["nope", "example"], 1);
    assert_eq!(
        DnsClassifier.classify(&response, false),
        Some(AppProtocol::Dns {
            qname: "nope.example".into(),
            qtype: 1,
            rcode: Some(3),
        })
    );
    let root = dns([0x01, 0x00], &[], 2);
    assert_eq!(
        DnsClassifier.classify(&root, false),
        Some(AppProtocol::Dns {
            qname: ".".into(),
            qtype: 2,
            rcode: None,
        })
    );
    assert_eq!(DnsClassifier.classify(&query, true), None);
    assert_eq!(DnsClassifier.classify(&query[..query.len() - 1], false), None);
    let mut no_question = query.clone();
    no_question[5] = 0;
    assert_eq!(DnsClassifier.classify(&no_question, false), None);
    assert_eq!(DnsClassifier.classify(&dns([1, 0], &["a b"], 1), false), None);
}

#[test]
fn dns_names() {
    assert_eq!(read_name(b"\x01a\x02bc\x00rest"), Some(("a.bc".to_string(), 6)));
    assert_eq!(read_name(b"\x00"), Some((String::new(), 1)));
    assert_eq!(read_name(b""), None);
    assert_eq!(read_name(b"\x05abc"), None);
    assert_eq!(read_name(b"\x01a"), None);
    assert_eq!(read_name(&[0xc0, 0x0c]), None);
    let mut long = Vec::new();
    for _ in 0..127 {
        long.extend_from_slice(b"\x01x");
    }
    long.push(0);
    assert_eq!(long.len(), 255);
    assert_eq!(read_name(&long).map(|n| n.1), Some(255));
    long.insert(0, b'x');
    long.insert(0, 1);
    assert_eq!(read_name(&long), None);
    let mut label = vec![63];
    label.extend_from_slice(&[b'y'; 63]);
    label.push(0);
    assert_eq!(read_name(&label).map(|n| n.1), Some(65));
    let mut label = vec![64];
    label.extend_from_slice(&[b'y'; 64]);
    label.push(0);
    assert_eq!(read_name(&label), None);
}

#[test]
fn the_port_tells_llmnr_from_dns() {
    let p = dns([0, 0], &["wpad"], 1);
    let llmnr = Some(AppProtocol::Llmnr {
        qname: "wpad".into(),
        qtype: 1,
    });
    let dns = Some(AppProtocol::Dns {
        qname: "wpad".into(),
        qtype: 1,
        rcode: None,
    });
    assert_eq!(classify_once(&p, false, 5355, 40000), llmnr);
    assert_eq!(classify_once(&p, false, 40000, 5355), llmnr);
    assert_eq!(classify_once(&p, false, 53, 40000), dns);
    assert_eq!(classify_once(&p, false, 5353, 5353), dns);
    assert_eq!(classify_once(&p, true, 53, 40000), None);
}

#[test]
fn ports_unlock_bound_protocols() {
    let mqtt = [0x30, 0x00, 0x00, 0x00];
    let found = Some(AppProtocol::Mqtt { client_id: None });
    assert_eq!(classify_once(&mqtt, true, 1883, 9), found);
    assert_eq!(classify_once(&mqtt, true, 9, 8883), found);
    assert_eq!(classify_once(&mqtt, true, 9, 1884), None);

    let session = [0x81, 0x00, 0x00, 0x44];
    assert!(matches!(
        classify_once(&session, true, 9, 139),
        Some(AppProtocol::NetBios { .. })
    ));
    assert_eq!(classify_once(&session, true, 9, 137), None);

    let datagram = [0x10, 0, 0, 0, 0, 0, 0, 0, 0, 0, 0, 0];
    for port in [137, 138] {
        assert!(matches!(
            classify_once(&datagram, false, port, 9),
            Some(AppProtocol::NetBios { .. })
        ));
    }
    assert_eq!(classify_once(&datagram, false, 139, 9), None);
    assert_eq!(classify_once(&datagram, false, 136, 9), None);

    let snmp = [0x30, 0x03, 0x02, 0x01, 0x03];
    for port in [161, 162] {
        assert!(matches!(
            classify_once(&snmp, false, 9, port),
            Some(AppProtocol::Snmp { .. })
        ));
    }
    assert_eq!(classify_once(&snmp, false, 9, 163), None);

    let ntp = [0x23, 0, 0, 0];
    assert_eq!(
        classify_once(&ntp, false, 123, 123),
        Some(AppProtocol::Ntp { version: 4, mode: 3 })
    );
    assert_eq!(classify_once(&ntp, false, 124, 9), None);

    let reply = b"220 ready\r\n";
    assert_eq!(
        classify_once(reply, true, 21, 9),
        Some(AppProtocol::Ftp {
            command: "220".into()
        })
    );
    assert_eq!(classify_once(reply, true, 25, 9), None);
}

#[test]
fn earlier_classifiers_win() {
    // An SSH banner on the FTP port is SSH.
    assert!(matches!(
        classify_once(b"SSH-2.0-x\r\n", true, 21, 9),
        Some(AppProtocol::Ssh { .. })
    ));
    // A DHCP op byte on both the DHCP and the NTP port is DHCP.
    assert_eq!(
        classify_once(&[2, 0, 0, 0], false, 123, 67),
        Some(AppProtocol::Dhcp { op: 2 })
    );
    // A TLS record on the NetBIOS port is TLS.
    assert!(matches!(
        classify_once(&[0x16, 3, 1, 0, 0], true, 139, 9),
        Some(AppProtocol::Tls { .. })
    ));
}

#[test]
fn ports_are_symmetric() {
    let payloads: [&[u8]; 5] = [
        &[1, 0, 0, 0, 0, 1],
        b"USER me\r\n",
        &[0x30, 0x03, 0x02, 0x01, 0x03],
        &[0x10, 0, 0, 0, 0, 0, 0, 0, 0, 0, 0, 0],
        b"M-SEARCH * HTTP/1.1\r\nST: ssdp:all\r\n\r\n",
    ];
    let ports = [21, 53, 67, 68, 123, 137, 138, 139, 161, 162, 1883, 1900, 5355, 8883, 40000];
    for p in payloads {
        for a in ports {
            for b in ports {
                for tcp in [false, true] {
                    assert_eq!(classify_once(p, tcp, a, b), classify_once(p, tcp, b, a));
                }
            }
        }
    }
}

#[test]
fn dhcp_op_codes() {
    assert_eq!(DhcpClassifier.classify(&[1, 1, 6, 0], false), Some(AppProtocol::Dhcp { op: 1 }));
    assert_eq!(DhcpClassifier.classify(&[2, 1, 6, 0], false), Some(AppProtocol::Dhcp { op: 2 }));
    assert_eq!(DhcpClassifier.classify(&[3, 1, 6, 0], false), None);
    assert_eq!(DhcpClassifier.classify(&[], false), None);
    assert_eq!(DhcpClassifier.classify(&[1, 1, 6, 0], true), None);
}

#[test]
fn ntp_version_and_mode() {
    assert_eq!(
        NtpClassifier.classify(&[0xe4], false),
        Some(AppProtocol::Ntp { version: 4, mode: 4 })
    );
    assert_eq!(
        NtpClassifier.classify(&[0x1b], false),
        Some(AppProtocol::Ntp { version: 3, mode: 3 })
    );
    assert_eq!(NtpClassifier.classify(&[], false), None);
    assert_eq!(NtpClassifier.classify(&[0x1b], true), None);
}

#[test]
fn ssdp_searches_and_notices() {
    let search = b"M-SEARCH * HTTP/1.1\r\nHOST: 239.255.255.250:1900\r\nst: ssdp:all\r\n\r\n";
    assert_eq!(
        SsdpClassifier.classify(search, false),
        Some(AppProtocol::Ssdp {
            method: "M-SEARCH".into(),
            target: Some("ssdp:all".into()),
        })
    );
    let notice = b"NOTIFY * HTTP/1.1\r\nNT: upnp:rootdevice\r\nST: other\r\n\r\n";
    assert_eq!(
        SsdpClassifier.classify(notice, false),
        Some(AppProtocol::Ssdp {
            method: "NOTIFY".into(),
            target: Some("upnp:rootdevice".into()),
        })
    );
    assert_eq!(
        SsdpClassifier.classify(b"NOTIFY * HTTP/1.1\r\n\r\n", false),
        Some(AppProtocol::Ssdp {
            method: "NOTIFY".into(),
            target: None,
        })
    );
    assert_eq!(SsdpClassifier.classify(b"HTTP/1.1 200 OK\r\n\r\n", false), None);
    assert_eq!(SsdpClassifier.classify(search, true), None);
    assert_eq!(classify_once(search, false, 1901, 9), None);
}

#[test]
fn ftp_commands_and_replies() {
    let command = |p: &[u8]| match FtpClassifier.classify(p, true) {
        Some(AppProtocol::Ftp { command }) => Some(command),
        Some(other) => panic!("{:?}", other),
        None => None,
    };
    assert_eq!(command(b"USER anonymous\r\n").as_deref(), Some("USER"));
    assert_eq!(command(b"quit\r\n").as_deref(), Some("QUIT"));
    assert_eq!(command(b"Mlsd").as_deref(), Some("MLSD"));
    assert_eq!(command(b"331 Password?\r\n").as_deref(), Some("331"));
    assert_eq!(command(b"220-Welcome\r\n").as_deref(), Some("220"));
    assert_eq!(command(b"22x Welcome\r\n"), None);
    assert_eq!(command(b"620 Welcome\r\n"), None);
    assert_eq!(command(b"2200 Welcome\r\n"), None);
    assert_eq!(command(b"USERS\r\n"), None);
    assert_eq!(command(b""), None);
    assert_eq!(FtpClassifier.classify(b"USER a\r\n", false), None);
}

#[test]
fn quic_initial_packets() {
    let found = Some(AppProtocol::Quic {
        sni: None,
        ech: false,
        ja4: None,
    });
    assert_eq!(QuicClassifier.classify(&[0xc3, 0, 0, 0, 1, 8], false), found);
    assert_eq!(QuicClassifier.classify(&[0xcf, 0xff, 0, 0, 29, 20], false), found);
    assert_eq!(QuicClassifier.classify(&[0xd0, 0x6b, 0x33, 0x43, 0xcf, 0], false), found);
    // Handshake packets, unknown versions, short headers and overlong ids.
    assert_eq!(QuicClassifier.classify(&[0xe3, 0, 0, 0, 1, 8], false), None);
    assert_eq!(QuicClassifier.classify(&[0xc0, 0x6b, 0x33, 0x43, 0xcf, 0], false), None);
    assert_eq!(QuicClassifier.classify(&[0xc3, 0, 0, 0, 0, 8], false), None);
    assert_eq!(QuicClassifier.classify(&[0x43, 0, 0, 0, 1, 8], false), None);
    assert_eq!(QuicClassifier.classify(&[0xc3, 0, 0, 0, 1, 21], false), None);
    assert_eq!(QuicClassifier.classify(&[0xc3, 0, 0, 0, 1], false), None);
    assert_eq!(QuicClassifier.classify(&[0xc3, 0, 0, 0, 1, 8], true), None);
}

fn extension(code: u16, data: &[u8]) -> Vec<u8> {
    let mut e = code.to_be_bytes().to_vec();
    e.extend_from_slice(&(data.len() as u16).to_be_bytes());
    e.extend_from_slice(data);
    e
}

fn client_hello(extensions: &[u8]) -> Vec<u8> {
    let mut hello = vec![0x03, 0x03];
    hello.extend_from_slice(&[7u8; 32]);
    hello.extend_from_slice(&[2, 9, 9]); // session id
    hello.extend_from_slice(&[0, 6, 0x13, 0x03, 0x0a, 0x0a, 0x13, 0x01]);
    hello.extend_from_slice(&[1, 0]); // compression methods
    hello.extend_from_slice(&(extensions.len() as u16).to_be_bytes());
    hello.extend_from_slice(extensions);
    let mut p = vec![0x16, 0x03, 0x01];
    p.extend_from_slice(&((hello.len() + 4) as u16).to_be_bytes());
    p.extend_from_slice(&[1, 0]);
    p.extend_from_slice(&(hello.len() as u16).to_be_bytes());
    p.extend_from_slice(&hello);
    p
}

fn full_extensions() -> Vec<u8> {
    let mut e = extension(0x0000, b"\x00\x0e\x00\x00\x0bexample.com");
    e.extend_from_slice(&extension(0x0010, b"\x00\x0c\x02h2\x08http/1.1"));
    e.extend_from_slice(&extension(0x002b, &[6, 0x7a, 0x7a, 0x03, 0x04, 0x03, 0x03]));
    e.extend_from_slice(&extension(0x000d, &[0, 2, 0x04, 0x03]));
    e
}

#[test]
fn client_hellos_are_fingerprinted() {
    let p = client_hello(&full_extensions());
    assert_eq!(
        TlsClassifier.classify(&p, true),
        Some(AppProtocol::Tls {
            sni: Some("example.com".into()),
            alpn: Some("h2".into()),
            ech: false,
            ja4: Some("t13d0204h2_88d8eb61a8ee_3953dc75acc4".into()),
        })
    );
    assert_eq!(classify_once(&p, true, 443, 50000), TlsClassifier.classify(&p, true));
    assert_eq!(TlsClassifier.classify(&p, false), None);
}

#[test]
fn hello_with_few_extensions() {
    let p = client_hello(&extension(0xfe0d, &[1, 2, 3]));
    match TlsClassifier.classify(&p, true) {
        Some(AppProtocol::Tls { sni, alpn, ech, ja4 }) => {
            assert_eq!(sni, None);
            assert_eq!(alpn, None);
            assert!(ech);
            assert!(ja4.unwrap().starts_with("t12i020100_88d8eb61a8ee_"));
        }
        other => panic!("{:?}", other),
    }
    match TlsClassifier.classify(&client_hello(&[]), true) {
        Some(AppProtocol::Tls { ech, ja4, .. }) => {
            assert!(!ech);
            assert_eq!(ja4.as_deref(), Some("t12i020000_88d8eb61a8ee_d2e2adf7177b"));
        }
        other => panic!("{:?}", other),
    }
}

#[test]
fn cut_off_hellos() {
    let p = client_hello(&full_extensions());
    // Cut inside the extensions: what is whole still counts.
    match TlsClassifier.classify(&p[..p.len() - 1], true) {
        Some(AppProtocol::Tls { sni, ja4, .. }) => {
            assert_eq!(sni.as_deref(), Some("example.com"));
            assert!(ja4.unwrap().starts_with("t13d0204h2_88d8eb61a8ee_"));
        }
        other => panic!("{:?}", other),
    }
    // Cut inside the cipher suites: nothing to fingerprint.
    assert_eq!(
        TlsClassifier.classify(&p[..50], true),
        Some(AppProtocol::Tls {
            sni: None,
            alpn: None,
            ech: false,
            ja4: None,
        })
    );
    assert_eq!(TlsClassifier.classify(&p[..4], true), None);
}

#[test]
fn other_records_and_handshakes() {
    let nothing = Some(AppProtocol::Tls {
        sni: None,
        alpn: None,
        ech: false,
        ja4: None,
    });
    assert_eq!(TlsClassifier.classify(&[0x16, 3, 3, 0, 4, 2, 0, 0, 0], true), nothing);
    assert_eq!(TlsClassifier.classify(&[0x17, 3, 3, 0, 4, 1, 0, 0, 0], true), None);
    assert_eq!(TlsClassifier.classify(&[0x16, 2, 3, 0, 4, 1, 0, 0, 0], true), None);
}
