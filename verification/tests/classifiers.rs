use netwatch::dpi::bittorrent::BitTorrentClassifier;
use netwatch::dpi::http::{find_header, find_host_header, first_line, HttpClassifier};
use netwatch::dpi::llmnr::LlmnrClassifier;
use netwatch::dpi::mqtt::{decode_remaining_length, parse_connect, read_string, MqttClassifier};
use netwatch::dpi::netbios::{classify_session, classify_udp, NetBiosClassifier};
use netwatch::dpi::snmp::{read_tlv, SnmpClassifier};
use netwatch::dpi::ssh::SshClassifier;
use netwatch::dpi::stun::StunClassifier;
use netwatch::dpi::{AppProtocol, Classifier};

const PROTOCOL_STRING: &[u8] = b"BitTorrent protocol";
const STUN_MAGIC: [u8; 4] = [0x21, 0x12, 0xA4, 0x42];

// BitTorrent

fn build_handshake(info_hash: [u8; 20]) -> Vec<u8> {
    let mut p = vec![19];
    p.extend_from_slice(PROTOCOL_STRING);
    p.extend_from_slice(&[0u8; 8]); // reserved
    p.extend_from_slice(&info_hash);
    p.extend_from_slice(&[0u8; 20]); // peer_id
    p
}

#[test]
fn handshake_with_info_hash() {
    let ih = [0xDEu8; 20];
    let p = build_handshake(ih);
    let r = BitTorrentClassifier.classify(&p, true).unwrap();
    assert_eq!(
        r,
        AppProtocol::BitTorrent {
            info_hash: Some("de".repeat(20)),
        }
    );
}

#[test]
fn wrong_pstrlen_returns_none() {
    let mut p = build_handshake([0u8; 20]);
    p[0] = 18;
    assert!(BitTorrentClassifier.classify(&p, true).is_none());
}

#[test]
fn wrong_protocol_string_returns_none() {
    let mut p = build_handshake([0u8; 20]);
    p[1] = b'X';
    assert!(BitTorrentClassifier.classify(&p, true).is_none());
}

#[test]
fn bittorrent_too_short_returns_none() {
    let p = vec![19u8; 10];
    assert!(BitTorrentClassifier.classify(&p, true).is_none());
}

#[test]
fn handshake_needs_all_its_bytes_and_tcp() {
    let p = build_handshake([7u8; 20]);
    assert_eq!(p.len(), 68);
    assert!(BitTorrentClassifier.classify(&p[..67], true).is_none());
    assert!(BitTorrentClassifier.classify(&p, false).is_none());
}

// HTTP

#[test]
fn get_request_with_host() {
    let p = b"GET /index.html HTTP/1.1\r\nHost: example.com\r\nUser-Agent: x\r\n\r\n";
    let r = HttpClassifier.classify(p, true).unwrap();
    assert_eq!(
        r,
        AppProtocol::Http {
            method: "GET".into(),
            host: Some("example.com".into()),
            path: Some("/index.html".into()),
            status: None,
        }
    );
}

#[test]
fn post_request_host_with_port() {
    let p = b"POST /api HTTP/1.1\r\nHost: api.example.com:8080\r\n\r\n";
    let r = HttpClassifier.classify(p, true).unwrap();
    assert_eq!(
        r,
        AppProtocol::Http {
            method: "POST".into(),
            host: Some("api.example.com:8080".into()),
            path: Some("/api".into()),
            status: None,
        }
    );
}

#[test]
fn host_header_case_insensitive() {
    let p = b"GET / HTTP/1.1\r\nhOsT:    lower.example\r\n\r\n";
    let r = HttpClassifier.classify(p, true).unwrap();
    assert_eq!(
        r,
        AppProtocol::Http {
            method: "GET".into(),
            host: Some("lower.example".into()),
            path: Some("/".into()),
            status: None,
        }
    );
}

#[test]
fn request_without_host() {
    let p = b"GET / HTTP/1.0\r\n\r\n";
    let r = HttpClassifier.classify(p, true).unwrap();
    assert_eq!(
        r,
        AppProtocol::Http {
            method: "GET".into(),
            host: None,
            path: Some("/".into()),
            status: None,
        }
    );
}

#[test]
fn server_response() {
    let p = b"HTTP/1.1 404 Not Found\r\nContent-Length: 0\r\n\r\n";
    let r = HttpClassifier.classify(p, true).unwrap();
    assert_eq!(
        r,
        AppProtocol::Http {
            method: "RESPONSE".into(),
            host: None,
            path: None,
            status: Some(404),
        }
    );
}

#[test]
fn connect_method() {
    let p = b"CONNECT example.com:443 HTTP/1.1\r\nHost: example.com:443\r\n\r\n";
    let r = HttpClassifier.classify(p, true).unwrap();
    assert_eq!(
        r,
        AppProtocol::Http {
            method: "CONNECT".into(),
            host: Some("example.com:443".into()),
            path: Some("example.com:443".into()),
            status: None,
        }
    );
}

#[test]
fn not_http_random_text() {
    let p = b"HELLO there this is not http\r\n";
    assert!(HttpClassifier.classify(p, true).is_none());
}

#[test]
fn lowercase_method_rejected() {
    // Methods are case-sensitive on the wire; a lowercase "get" is not HTTP.
    let p = b"get / HTTP/1.1\r\nHost: x\r\n\r\n";
    assert!(HttpClassifier.classify(p, true).is_none());
}

#[test]
fn http_udp_returns_none() {
    let p = b"GET / HTTP/1.1\r\nHost: example.com\r\n\r\n";
    assert!(HttpClassifier.classify(p, false).is_none());
}

#[test]
fn request_targets() {
    let path = |line: &str| match HttpClassifier.classify(line.as_bytes(), true) {
        Some(AppProtocol::Http { path, .. }) => path,
        other => panic!("{:?}", other),
    };
    assert_eq!(path("GET /a HTTP/1.1\r\n").as_deref(), Some("/a"));
    assert_eq!(path("OPTIONS * HTTP/1.1\r\n").as_deref(), Some("*"));
    // A target may look like a version.
    assert_eq!(path("GET HTTP/1.0 HTTP/1.1\r\n").as_deref(), Some("HTTP/1.0"));
    assert_eq!(path("GET HTTP/1.1 HTTP/1.1\r\n").as_deref(), Some("HTTP/1.1"));
    // More spaces than one part the same fields.
    assert_eq!(path("GET  /a  HTTP/1.1\r\n").as_deref(), Some("/a"));
    // No field between method and version.
    assert_eq!(path("GET HTTP/1.1\r\n"), None);
    assert_eq!(path("GET  HTTP/1.1\r\n"), None);
    assert_eq!(path("GET HTTP/1.1 \r\n"), None);
}

#[test]
fn host_after_the_blank_line_does_not_count() {
    let p = b"GET / HTTP/1.1\r\nAccept: x\r\n\r\nHost: body.example\r\n";
    assert_eq!(find_host_header(p), None);
    let p = b"GET / HTTP/1.1\nHost:\n\n";
    assert_eq!(find_host_header(p), None);
    let p = b"GET / HTTP/1.1\nHost: \xff\n\n";
    assert_eq!(find_host_header(p), None);
    assert_eq!(find_host_header(b"GET / HTTP/1.1"), None);
}

#[test]
fn headers_are_found_by_name() {
    let p = b"NOTIFY * HTTP/1.1\r\nNT: upnp:rootdevice\r\nHost: h\r\n\r\n";
    assert_eq!(find_header(p, "nt").as_deref(), Some("upnp:rootdevice"));
    assert_eq!(find_header(p, "host").as_deref(), Some("h"));
    assert_eq!(find_header(p, "st"), None);
}

#[test]
fn first_lines_end_at_cr_or_lf_and_are_text() {
    let line = |p: &[u8]| first_line(p).map(|c| c.iter().collect::<String>());
    assert_eq!(line(b"one\r\ntwo").as_deref(), Some("one"));
    assert_eq!(line(b"one\ntwo").as_deref(), Some("one"));
    assert_eq!(line(b"one").as_deref(), Some("one"));
    assert_eq!(line("h\u{e9}llo\n".as_bytes()).as_deref(), Some("h\u{e9}llo"));
    assert_eq!(line(b"\xffone\n"), None);
}

#[test]
fn host_beyond_the_scanned_part_is_not_seen() {
    let mut p = b"GET / HTTP/1.1\r\nX: ".to_vec();
    p.extend_from_slice(&[b'a'; 3000]);
    p.extend_from_slice(b"\r\nHost: far.example\r\n\r\n");
    let r = HttpClassifier.classify(&p, true).unwrap();
    assert!(matches!(r, AppProtocol::Http { host: None, .. }));
}

// LLMNR

fn build_dns_query(qname_labels: &[&str], qtype: u16) -> Vec<u8> {
    let mut p = vec![0u8; 12];
    // qdcount = 1
    p[5] = 1;
    for label in qname_labels {
        p.push(label.len() as u8);
        p.extend_from_slice(label.as_bytes());
    }
    p.push(0); // qname terminator
    p.extend_from_slice(&qtype.to_be_bytes());
    p.extend_from_slice(&[0x00, 0x01]); // qclass = IN
    p
}

#[test]
fn llmnr_query_for_wpad() {
    let p = build_dns_query(&["wpad"], 1); // A record
    let r = LlmnrClassifier.classify(&p, false).unwrap();
    assert_eq!(
        r,
        AppProtocol::Llmnr {
            qname: "wpad".into(),
            qtype: 1,
        }
    );
}

#[test]
fn llmnr_tcp_returns_none() {
    let p = build_dns_query(&["wpad"], 1);
    assert!(LlmnrClassifier.classify(&p, true).is_none());
}

#[test]
fn garbage_returns_none() {
    let p = vec![0u8; 8];
    assert!(LlmnrClassifier.classify(&p, false).is_none());
}

// MQTT

#[test]
fn connect_with_client_id() {
    // CONNECT packet: type=1, flags=0, remaining_length, then:
    // proto name "MQTT" (length-prefixed), level=4, flags=0,
    // keepalive=60, client_id "my-client" (length-prefixed).
    let mut payload = vec![0x10]; // CONNECT
    let body: Vec<u8> = {
        let mut b = vec![];
        b.extend_from_slice(&(4u16).to_be_bytes());
        b.extend_from_slice(b"MQTT");
        b.push(4); // protocol level (3.1.1)
        b.push(0); // connect flags
        b.extend_from_slice(&60u16.to_be_bytes());
        let cid = b"my-client";
        b.extend_from_slice(&(cid.len() as u16).to_be_bytes());
        b.extend_from_slice(cid);
        b
    };
    payload.push(body.len() as u8); // remaining length (single byte)
    payload.extend_from_slice(&body);

    let r = MqttClassifier.classify(&payload, true).unwrap();
    assert_eq!(
        r,
        AppProtocol::Mqtt {
            client_id: Some("my-client".into()),
        }
    );
}

#[test]
fn non_connect_returns_mqtt_with_no_id() {
    // PUBLISH packet: type=3, remaining_length=0.
    let payload = vec![0x30, 0x00];
    let r = MqttClassifier.classify(&payload, true).unwrap();
    assert_eq!(r, AppProtocol::Mqtt { client_id: None });
}

#[test]
fn random_binary_with_zero_nibble_returns_none() {
    // type=0 is reserved/invalid: SSH banners and other arbitrary TCP
    // traffic must not get misclassified.
    let payload = vec![0x00, 0x00];
    assert!(MqttClassifier.classify(&payload, true).is_none());
}

#[test]
fn mqtt_udp_returns_none() {
    let payload = vec![0x30, 0x00];
    assert!(MqttClassifier.classify(&payload, false).is_none());
}

#[test]
fn remaining_lengths() {
    assert_eq!(decode_remaining_length(&[0x00]), Some((0, 1)));
    assert_eq!(decode_remaining_length(&[0x7f, 0xff]), Some((127, 1)));
    assert_eq!(decode_remaining_length(&[0x80, 0x01]), Some((128, 2)));
    assert_eq!(decode_remaining_length(&[0xc1, 0x02]), Some((321, 2)));
    assert_eq!(
        decode_remaining_length(&[0xff, 0xff, 0xff, 0x7f]),
        Some((268_435_455, 4))
    );
    assert_eq!(decode_remaining_length(&[0xff, 0xff, 0xff, 0xff, 0x01]), None);
    assert_eq!(decode_remaining_length(&[0x80]), None);
    assert_eq!(decode_remaining_length(&[]), None);
}

#[test]
fn connect_packets_of_any_length() {
    for n in [1usize, 100, 120, 5000, 60000] {
        let id = "i".repeat(n);
        let mut body = b"\x00\x04MQTT\x04\x02\x00\x3c".to_vec();
        body.extend_from_slice(&(n as u16).to_be_bytes());
        body.extend_from_slice(id.as_bytes());
        let mut payload = vec![0x10];
        let mut left = body.len();
        while left >= 128 {
            payload.push(128 + (left % 128) as u8);
            left /= 128;
        }
        payload.push(left as u8);
        payload.extend_from_slice(&body);
        assert_eq!(
            MqttClassifier.classify(&payload, true),
            Some(AppProtocol::Mqtt { client_id: Some(id) })
        );
    }
}

#[test]
fn connect_without_client_id_or_with_another_protocol() {
    let mut body = b"\x00\x06MQIsdp".to_vec();
    body.extend_from_slice(&[3, 0, 0, 60, 0, 0]);
    assert_eq!(parse_connect(&body), Some(AppProtocol::Mqtt { client_id: None }));
    let mut other = b"\x00\x04AMQP".to_vec();
    other.extend_from_slice(&[4, 0, 0, 60, 0, 1, b'a']);
    assert_eq!(parse_connect(&other), None);
    assert_eq!(parse_connect(b"\x00\x04MQTT\x04\x00\x00"), None);
    assert_eq!(parse_connect(b"\x00\x04MQTT\x04\x00\x00\x3c\x00\x02a"), None);
    assert_eq!(MqttClassifier.classify(&[0xf0, 0x00], true), None);
}

#[test]
fn length_prefixed_strings() {
    let (s, rest) = read_string(b"\x00\x02hi!").unwrap();
    assert_eq!(s, vec!['h', 'i']);
    assert_eq!(rest, b"!");
    assert!(read_string(b"\x00\x03hi").is_none());
    assert!(read_string(b"\x00").is_none());
    assert!(read_string(b"\x00\x01\xff").is_none());
}

// NetBIOS

#[test]
fn nbss_session_request() {
    // type 0x81, flags 0, length 0x0044.
    let p = [0x81, 0x00, 0x00, 0x44];
    let r = NetBiosClassifier.classify(&p, true).unwrap();
    assert!(matches!(
        r,
        AppProtocol::NetBios { ref service } if service.contains("Session Request"),
    ));
}

#[test]
fn nbss_unknown_type_returns_none() {
    let p = [0x77, 0x00, 0x00, 0x00];
    assert!(NetBiosClassifier.classify(&p, true).is_none());
}

#[test]
fn nbns_name_query() {
    let mut p = vec![0u8; 12];
    // qdcount = 1
    p[4] = 0;
    p[5] = 1;
    let r = NetBiosClassifier.classify(&p, false).unwrap();
    assert_eq!(
        r,
        AppProtocol::NetBios {
            service: "Name Query".into(),
        }
    );
}

#[test]
fn nbns_name_response() {
    let mut p = vec![0u8; 12];
    p[2] = 0x80; // QR bit set
    p[6] = 0;
    p[7] = 1; // ancount = 1
    let r = NetBiosClassifier.classify(&p, false).unwrap();
    assert_eq!(
        r,
        AppProtocol::NetBios {
            service: "Name Response".into(),
        }
    );
}

#[test]
fn nbds_direct_unique() {
    let mut p = vec![0u8; 12];
    p[0] = 0x10;
    let r = NetBiosClassifier.classify(&p, false).unwrap();
    assert_eq!(
        r,
        AppProtocol::NetBios {
            service: "Datagram Direct Unique".into(),
        }
    );
}

#[test]
fn udp_too_short_returns_none() {
    let p = vec![0u8; 11];
    assert!(NetBiosClassifier.classify(&p, false).is_none());
}

#[test]
fn netbios_service_names() {
    let session = |kind: u8| classify_session(&[kind, 0, 0, 0]);
    let named = |service: &str| Some(AppProtocol::NetBios { service: service.into() });
    assert_eq!(session(0x00), named("Session Session Message"));
    assert_eq!(session(0x81), named("Session Session Request"));
    assert_eq!(session(0x82), named("Session Positive Session Response"));
    assert_eq!(session(0x83), named("Session Negative Session Response"));
    assert_eq!(session(0x84), named("Session Retarget Session Response"));
    assert_eq!(session(0x85), named("Session Session Keepalive"));
    assert_eq!(session(0x86), None);
    assert_eq!(classify_session(&[0x81, 0, 0]), None);

    let datagram = |kind: u8| {
        let mut p = [0u8; 12];
        p[0] = kind;
        classify_udp(&p)
    };
    assert_eq!(datagram(0x11), named("Datagram Direct Group"));
    assert_eq!(datagram(0x12), named("Datagram Broadcast"));
    assert_eq!(datagram(0x13), named("Datagram Error"));
    assert_eq!(datagram(0x14), named("Datagram Query Request"));
    assert_eq!(datagram(0x15), named("Datagram Positive Query Response"));
    assert_eq!(datagram(0x16), named("Datagram Negative Query Response"));
    assert_eq!(datagram(0x17), None);
    assert_eq!(datagram(0x0f), None);
}

// SNMP

fn build_v2c_get(community: &[u8]) -> Vec<u8> {
    // SEQUENCE { INTEGER 1, OCTET STRING <community>, ... padding }
    let mut inner = vec![];
    // version = 1 (v2c)
    inner.extend_from_slice(&[0x02, 0x01, 0x01]);
    // community
    inner.push(0x04);
    inner.push(community.len() as u8);
    inner.extend_from_slice(community);
    // placeholder for remaining PDU
    inner.extend_from_slice(&[0xA0, 0x00]);

    let mut p = vec![0x30, inner.len() as u8];
    p.extend_from_slice(&inner);
    p
}

#[test]
fn v2c_with_public_community() {
    let p = build_v2c_get(b"public");
    let r = SnmpClassifier.classify(&p, false).unwrap();
    assert_eq!(
        r,
        AppProtocol::Snmp {
            version: "v2c".into(),
            community: Some("public".into()),
        }
    );
}

#[test]
fn v1_with_private_community() {
    let mut inner = vec![0x02, 0x01, 0x00]; // version=0 (v1)
    inner.extend_from_slice(&[0x04, 0x07]);
    inner.extend_from_slice(b"private");
    inner.extend_from_slice(&[0xA0, 0x00]);
    let mut p = vec![0x30, inner.len() as u8];
    p.extend_from_slice(&inner);

    let r = SnmpClassifier.classify(&p, false).unwrap();
    assert_eq!(
        r,
        AppProtocol::Snmp {
            version: "v1".into(),
            community: Some("private".into()),
        }
    );
}

#[test]
fn invalid_sequence_tag_returns_none() {
    let p = vec![0x31, 0x03, 0x02, 0x01, 0x01];
    assert!(SnmpClassifier.classify(&p, false).is_none());
}

#[test]
fn unsupported_version_returns_none() {
    let mut inner = vec![0x02, 0x01, 0x05];
    let mut p = vec![0x30, inner.len() as u8];
    p.append(&mut inner);
    assert!(SnmpClassifier.classify(&p, false).is_none());
}

#[test]
fn snmp_tcp_returns_none() {
    let p = build_v2c_get(b"public");
    assert!(SnmpClassifier.classify(&p, true).is_none());
}

#[test]
fn v3_has_no_community_and_unreadable_ones_are_left_out() {
    let p = [0x30, 0x03, 0x02, 0x01, 0x03];
    assert_eq!(
        SnmpClassifier.classify(&p, false),
        Some(AppProtocol::Snmp {
            version: "v3".into(),
            community: None,
        })
    );
    assert_eq!(
        SnmpClassifier.classify(&build_v2c_get(b"\xff\xfe"), false),
        Some(AppProtocol::Snmp {
            version: "v2c".into(),
            community: None,
        })
    );
    // v1 needs a community.
    assert_eq!(
        SnmpClassifier.classify(&[0x30, 0x03, 0x02, 0x01, 0x00], false),
        None
    );
    // An empty INTEGER.
    assert_eq!(SnmpClassifier.classify(&[0x30, 0x02, 0x02, 0x00], false), None);
}

#[test]
fn communities_of_any_length() {
    let element = |tag: u8, value: &[u8]| {
        let mut p = vec![tag];
        match value.len() {
            n if n < 128 => p.push(n as u8),
            n if n < 256 => p.extend_from_slice(&[0x81, n as u8]),
            n if n < 65536 => p.extend_from_slice(&[0x82, (n / 256) as u8, (n % 256) as u8]),
            n => p.extend_from_slice(&[0x83, (n / 65536) as u8, (n / 256) as u8, n as u8]),
        }
        p.extend_from_slice(value);
        p
    };
    for n in [0, 1, 127, 128, 255, 256, 65535, 65536, 70000] {
        let community = "c".repeat(n);
        let mut body = element(0x02, &[1]);
        body.extend_from_slice(&element(0x04, community.as_bytes()));
        body.extend_from_slice(&[0xa0, 0x00]);
        let mut p = element(0x30, &body);
        p.extend_from_slice(b"rest");
        assert_eq!(
            SnmpClassifier.classify(&p, false),
            Some(AppProtocol::Snmp {
                version: "v2c".into(),
                community: Some(community),
            })
        );
        assert_eq!(read_tlv(&p, 0x30).unwrap(), (&body[..], &b"rest"[..]));
    }
}

#[test]
fn ber_lengths() {
    let (value, rest) = read_tlv(&[0x04, 0x02, 7, 8, 9], 0x04).unwrap();
    assert_eq!((value, rest), (&[7u8, 8][..], &[9u8][..]));
    let (value, rest) = read_tlv(&[0x04, 0x82, 0x00, 0x01, 7, 9], 0x04).unwrap();
    assert_eq!((value, rest), (&[7u8][..], &[9u8][..]));
    let mut long = vec![0x04, 0x82, 0x01, 0x00];
    long.extend_from_slice(&[5u8; 256]);
    assert_eq!(read_tlv(&long, 0x04).unwrap().0.len(), 256);
    assert!(read_tlv(&[0x04, 0x80], 0x04).is_none());
    assert!(read_tlv(&[0x04, 0x85, 0, 0, 0, 0, 0], 0x04).is_none());
    assert!(read_tlv(&[0x04, 0x84, 0xff, 0xff, 0xff, 0xff], 0x04).is_none());
    assert!(read_tlv(&[0x04, 0x82, 0x01], 0x04).is_none());
    assert!(read_tlv(&[0x04, 0x02, 7], 0x04).is_none());
    assert!(read_tlv(&[0x04], 0x04).is_none());
    assert!(read_tlv(&[0x05, 0x00], 0x04).is_none());
}

// SSH

#[test]
fn openssh_server_banner() {
    let p = b"SSH-2.0-OpenSSH_9.0\r\n";
    let r = SshClassifier.classify(p, true).unwrap();
    assert_eq!(
        r,
        AppProtocol::Ssh {
            version: "SSH-2.0-OpenSSH_9.0".into()
        }
    );
}

#[test]
fn banner_with_comment() {
    let p = b"SSH-2.0-OpenSSH_8.9p1 Ubuntu-3ubuntu0.4\r\n";
    let r = SshClassifier.classify(p, true).unwrap();
    assert_eq!(
        r,
        AppProtocol::Ssh {
            version: "SSH-2.0-OpenSSH_8.9p1 Ubuntu-3ubuntu0.4".into()
        }
    );
}

#[test]
fn legacy_1_99_protoversion() {
    let p = b"SSH-1.99-OpenSSH_3.9p1\r\n";
    let r = SshClassifier.classify(p, true).unwrap();
    assert_eq!(
        r,
        AppProtocol::Ssh {
            version: "SSH-1.99-OpenSSH_3.9p1".into()
        }
    );
}

#[test]
fn no_trailing_crlf_still_parses() {
    let p = b"SSH-2.0-libssh_0.10.4";
    let r = SshClassifier.classify(p, true).unwrap();
    assert_eq!(
        r,
        AppProtocol::Ssh {
            version: "SSH-2.0-libssh_0.10.4".into()
        }
    );
}

#[test]
fn ssh_prefix_without_digit_rejected() {
    // "SSH-foo" isn't a valid protoversion banner.
    let p = b"SSHFS mount in progress\r\n";
    assert!(SshClassifier.classify(p, true).is_none());
}

#[test]
fn random_text_rejected() {
    let p = b"hello world\r\n";
    assert!(SshClassifier.classify(p, true).is_none());
}

#[test]
fn ssh_udp_returns_none() {
    let p = b"SSH-2.0-OpenSSH_9.0\r\n";
    assert!(SshClassifier.classify(p, false).is_none());
}

#[test]
fn ssh_banner_edges() {
    assert_eq!(SshClassifier.classify(b"SSH-2\r\n", true), None);
    assert_eq!(SshClassifier.classify(b"SSH-", true), None);
    assert_eq!(SshClassifier.classify(b"SSH-x.0-a", true), None);
    assert_eq!(SshClassifier.classify(b"SSH-2.0-\xff\r\n", true), None);
    assert_eq!(
        SshClassifier.classify(b"SSH-2. \t \r\n", true),
        Some(AppProtocol::Ssh {
            version: "SSH-2.".into()
        })
    );
    let mut long = b"SSH-2.0-".to_vec();
    long.extend_from_slice(&[b'a'; 400]);
    match SshClassifier.classify(&long, true) {
        Some(AppProtocol::Ssh { version }) => assert_eq!(version.len(), 255),
        other => panic!("{:?}", other),
    }
}

// STUN

fn build_stun(message_type: u16) -> Vec<u8> {
    let mut p = vec![0u8; 20];
    p[0..2].copy_from_slice(&message_type.to_be_bytes());
    // length = 0
    p[4..8].copy_from_slice(&STUN_MAGIC);
    // transaction ID stays zero
    p
}

#[test]
fn binding_request_recognized() {
    let p = build_stun(0x0001);
    let r = StunClassifier.classify(&p, false).unwrap();
    assert_eq!(
        r,
        AppProtocol::Stun {
            message_type: "BindingRequest".into(),
        }
    );
}

#[test]
fn binding_success_response() {
    // class = 0b10 (success): bit 8 set; method 0x001 (Binding).
    // 0x0101 = method bits | success class encoding.
    let p = build_stun(0x0101);
    let r = StunClassifier.classify(&p, false).unwrap();
    assert_eq!(
        r,
        AppProtocol::Stun {
            message_type: "BindingSuccessResponse".into(),
        }
    );
}

#[test]
fn missing_magic_cookie_returns_none() {
    let mut p = build_stun(0x0001);
    p[4] = 0;
    assert!(StunClassifier.classify(&p, false).is_none());
}

#[test]
fn stun_too_short_returns_none() {
    let p = vec![0u8; 19];
    assert!(StunClassifier.classify(&p, false).is_none());
}

#[test]
fn stun_tcp_returns_none() {
    let p = build_stun(0x0001);
    assert!(StunClassifier.classify(&p, true).is_none());
}

#[test]
fn stun_methods_and_classes() {
    let named = |message_type: u16| match StunClassifier.classify(&build_stun(message_type), false) {
        Some(AppProtocol::Stun { message_type }) => message_type,
        other => panic!("{:?}", other),
    };
    assert_eq!(named(0x0011), "BindingIndication");
    assert_eq!(named(0x0111), "BindingErrorResponse");
    assert_eq!(named(0x0003), "AllocateRequest");
    assert_eq!(named(0x0104), "RefreshSuccessResponse");
    assert_eq!(named(0x0016), "SendIndication");
    assert_eq!(named(0x0017), "DataIndication");
    assert_eq!(named(0x0008), "CreatePermissionRequest");
    assert_eq!(named(0x0009), "ChannelBindRequest");
    assert_eq!(named(0x000a), "ConnectRequest");
    assert_eq!(named(0x000b), "ConnectionBindRequest");
    assert_eq!(named(0x001c), "ConnectionAttemptIndication");
    assert_eq!(named(0x0002), "SharedSecretRequest");
    assert_eq!(named(0x0005), "UnknownRequest");
    // Method bits above the class bits.
    assert_eq!(named(0x0201), "UnknownRequest");
    assert_eq!(named(0x0021), "UnknownRequest");
    assert!(StunClassifier.classify(&build_stun(0x4001), false).is_none());
    assert!(StunClassifier.classify(&build_stun(0x8001), false).is_none());
}
