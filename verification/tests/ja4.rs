use netwatch::dpi::ja4::{
    alpn_hint, assemble_ja4, cipher_text, compute_ja4, extension_text, extension_type_codes,
    is_grease, sha256_truncated_12, tls_version_str, Ja4Input,
};

#[test]
fn grease_pattern_matches_canonical_values() {
    for nibble in 0u8..=0xF {
        let v = u16::from_be_bytes([(nibble << 4) | 0x0A, (nibble << 4) | 0x0A]);
        assert!(is_grease(v), "expected 0x{:04x} to be GREASE", v);
    }
}

#[test]
fn grease_pattern_rejects_real_values() {
    // Real cipher / extension IDs that look superficially close to
    // GREASE but aren't.
    for v in [
        0x1301, 0xC02C, 0x00FF, 0x0000, 0x0010, 0x002B, 0xAA0A, 0x0A0B,
    ] {
        assert!(!is_grease(v), "expected 0x{:04x} to NOT be GREASE", v);
    }
}

#[test]
fn there_are_sixteen_grease_values() {
    assert_eq!((0..=u16::MAX).filter(|v| is_grease(*v)).count(), 16);
}

#[test]
fn tls_version_string_known_versions() {
    assert_eq!(tls_version_str(0x0304), "13");
    assert_eq!(tls_version_str(0x0303), "12");
    assert_eq!(tls_version_str(0x0302), "11");
    assert_eq!(tls_version_str(0x0301), "10");
    assert_eq!(tls_version_str(0x0300), "s3");
    assert_eq!(tls_version_str(0xFFFF), "00");
}

#[test]
fn alpn_hint_handles_common_protocols() {
    assert_eq!(alpn_hint(Some(b"h2")), "h2");
    assert_eq!(alpn_hint(Some(b"h3")), "h3");
    assert_eq!(alpn_hint(Some(b"http/1.1")), "h1");
    assert_eq!(alpn_hint(Some(b"http/0.9")), "h9");
}

#[test]
fn alpn_hint_handles_missing_and_invalid() {
    assert_eq!(alpn_hint(None), "00");
    assert_eq!(alpn_hint(Some(b"")), "00");
    // Single ASCII char: first==last is fine.
    assert_eq!(alpn_hint(Some(b"x")), "xx");
    // Non-alphanumeric edge bytes: "00".
    assert_eq!(alpn_hint(Some(b"\x01h2\x02")), "00");
}

#[test]
fn alpn_hint_edges_must_be_letters_or_digits() {
    for b in 0u8..=255 {
        let expected = if b.is_ascii_alphanumeric() {
            format!("{0}{0}", b as char)
        } else {
            "00".to_string()
        };
        assert_eq!(alpn_hint(Some(&[b])), expected);
    }
    assert_eq!(alpn_hint(Some(b"a-")), "00");
    assert_eq!(alpn_hint(Some(b"-a")), "00");
}

#[test]
fn extension_type_codes_round_trips() {
    // Three extensions: SNI (0x0000, len 5), supported_versions (0x002b, len 3),
    // padding (0x0015, len 0).
    let ext_data: &[u8] = &[
        0x00, 0x00, 0x00, 0x05, b'a', b'b', b'c', b'd', b'e', // SNI
        0x00, 0x2b, 0x00, 0x03, 0x02, 0x03, 0x04, // supported_versions
        0x00, 0x15, 0x00, 0x00, // padding
    ];
    let codes = extension_type_codes(ext_data);
    assert_eq!(codes, vec![0x0000, 0x002b, 0x0015]);
}

#[test]
fn extension_type_codes_handles_truncated_input() {
    // Length field claims 100 bytes but data only has 2: stop, don't panic.
    let ext_data: &[u8] = &[0x00, 0x05, 0x00, 0x64, 0xAA, 0xBB];
    let codes = extension_type_codes(ext_data);
    assert_eq!(codes, vec![0x0005]);
}

#[test]
fn extension_type_codes_keep_what_precedes_a_cut() {
    let whole = [0x00, 0x0a, 0x00, 0x02, 0x01, 0x02, 0xfe, 0x0d, 0x00, 0x00];
    for (more, codes) in [
        (&[0x00u8, 0x2b, 0x00, 0x09, 0x01][..], vec![0x000a, 0xfe0d, 0x002b]),
        (&[0x00, 0x2b, 0x00][..], vec![0x000a, 0xfe0d]),
        (&[0x00, 0x2b, 0x00, 0x00][..], vec![0x000a, 0xfe0d, 0x002b]),
        (&[][..], vec![0x000a, 0xfe0d]),
    ] {
        let mut bytes = whole.to_vec();
        bytes.extend_from_slice(more);
        assert_eq!(extension_type_codes(&bytes), codes);
    }
}

#[test]
fn extension_type_codes_of_short_input() {
    assert_eq!(extension_type_codes(&[]), Vec::<u16>::new());
    assert_eq!(extension_type_codes(&[0, 5, 0]), Vec::<u16>::new());
    assert_eq!(extension_type_codes(&[0, 5, 0, 0, 0, 6, 0]), vec![5]);
}

#[test]
fn compute_ja4_minimal_synthetic_clienthello() {
    let input = Ja4Input {
        is_quic: false,
        tls_version: 0x0304,
        sni_present: true,
        alpn_first: Some(b"h2"),
        ciphers: &[0x1301, 0x1303],
        extensions: &[0x0000, 0x0010, 0x002b, 0x000d],
        signature_algorithms: &[0x0403],
    };
    let ja4 = compute_ja4(&input);
    let expected_b = sha256_truncated_12("1301,1303");
    let expected_c = sha256_truncated_12("000d,002b_0403");
    let expected = format!("t13d0204h2_{}_{}", expected_b, expected_c);
    assert_eq!(ja4, expected);
    // Sanity-check the parts have the right shape independently.
    let parts: Vec<&str> = ja4.split('_').collect();
    assert_eq!(
        parts.len(),
        3,
        "JA4 should be three underscore-separated parts"
    );
    assert_eq!(parts[0].len(), 10, "JA4_a must be 10 chars");
    assert_eq!(parts[1].len(), 12, "JA4_b must be 12 chars");
    assert_eq!(parts[2].len(), 12, "JA4_c must be 12 chars");
}

#[test]
fn digests_are_sha256() {
    assert_eq!(sha256_truncated_12(""), "e3b0c44298fc");
    assert_eq!(sha256_truncated_12("_"), "d2e2adf7177b");
    assert_eq!(sha256_truncated_12("1301,1303"), "88d8eb61a8ee");
    assert_eq!(sha256_truncated_12("000d,002b_0403"), "3953dc75acc4");
}

#[test]
fn compute_ja4_exact_values() {
    let input = Ja4Input {
        is_quic: false,
        tls_version: 0x0304,
        sni_present: true,
        alpn_first: Some(b"h2"),
        ciphers: &[0x1301, 0x1303],
        extensions: &[0x0000, 0x0010, 0x002b, 0x000d],
        signature_algorithms: &[0x0403],
    };
    assert_eq!(compute_ja4(&input), "t13d0204h2_88d8eb61a8ee_3953dc75acc4");
    let empty = Ja4Input {
        is_quic: true,
        tls_version: 0x0305,
        sni_present: false,
        alpn_first: None,
        ciphers: &[],
        extensions: &[],
        signature_algorithms: &[],
    };
    assert_eq!(compute_ja4(&empty), "q00i000000_e3b0c44298fc_d2e2adf7177b");
}

#[test]
fn compute_ja4_filters_grease_from_all_lists() {
    // Add GREASE values to ciphers, extensions, sig algs. Result
    // must equal the same input without GREASE.
    let with_grease = Ja4Input {
        is_quic: false,
        tls_version: 0x0304,
        sni_present: true,
        alpn_first: Some(b"h2"),
        ciphers: &[0x0A0A, 0x1301, 0x1A1A, 0x1303],
        extensions: &[0xFAFA, 0x0000, 0x0010, 0x002b, 0x000d, 0x2A2A],
        signature_algorithms: &[0xCACA, 0x0403],
    };
    let without_grease = Ja4Input {
        is_quic: false,
        tls_version: 0x0304,
        sni_present: true,
        alpn_first: Some(b"h2"),
        ciphers: &[0x1301, 0x1303],
        extensions: &[0x0000, 0x0010, 0x002b, 0x000d],
        signature_algorithms: &[0x0403],
    };
    assert_eq!(compute_ja4(&with_grease), compute_ja4(&without_grease));
}

#[test]
fn compute_ja4_sni_indicator_distinguishes_d_vs_i() {
    let base = Ja4Input {
        is_quic: false,
        tls_version: 0x0304,
        sni_present: true,
        alpn_first: None,
        ciphers: &[0x1301],
        extensions: &[],
        signature_algorithms: &[],
    };
    let with_d = compute_ja4(&base);
    assert!(with_d.starts_with("t13d"), "got {}", with_d);
    let no_sni = Ja4Input {
        sni_present: false,
        ..base
    };
    let with_i = compute_ja4(&no_sni);
    assert!(with_i.starts_with("t13i"), "got {}", with_i);
}

#[test]
fn compute_ja4_quic_emits_q_prefix() {
    let input = Ja4Input {
        is_quic: true,
        tls_version: 0x0304,
        sni_present: true,
        alpn_first: Some(b"h3"),
        ciphers: &[0x1301],
        extensions: &[],
        signature_algorithms: &[],
    };
    let ja4 = compute_ja4(&input);
    assert!(ja4.starts_with("q13d"), "expected q-prefix, got {}", ja4);
}

#[test]
fn compute_ja4_caps_counts_at_99() {
    let many_ciphers: Vec<u16> = (0..120).collect();
    let input = Ja4Input {
        is_quic: false,
        tls_version: 0x0304,
        sni_present: true,
        alpn_first: None,
        ciphers: &many_ciphers,
        extensions: &[],
        signature_algorithms: &[],
    };
    let ja4 = compute_ja4(&input);
    // JA4_a layout: t13d99XX00, chars 4-5 are cipher count, capped to 99.
    assert_eq!(
        &ja4[4..6],
        "99",
        "expected count to saturate at 99, got {}",
        ja4
    );
}

#[test]
fn order_matters_for_signature_algorithms_only() {
    let a = Ja4Input {
        is_quic: false,
        tls_version: 0x0303,
        sni_present: false,
        alpn_first: None,
        ciphers: &[0xc02b, 0x1301, 0x00ff],
        extensions: &[0x002b, 0x000a, 0x0000, 0xff01],
        signature_algorithms: &[0x0804, 0x0403],
    };
    let b = Ja4Input {
        ciphers: &[0x00ff, 0xc02b, 0x1301],
        extensions: &[0xff01, 0x0000, 0x002b, 0x000a],
        ..a
    };
    let c = Ja4Input {
        signature_algorithms: &[0x0403, 0x0804],
        ..a
    };
    assert_eq!(compute_ja4(&a), compute_ja4(&b));
    assert_ne!(compute_ja4(&a), compute_ja4(&c));
    assert_eq!(cipher_text(&a), "00ff,1301,c02b");
    assert_eq!(extension_text(&a), "000a,002b,ff01_0804,0403");
    assert_eq!(extension_text(&c), "000a,002b,ff01_0403,0804");
}

#[test]
fn repeated_values_count_and_stay() {
    let input = Ja4Input {
        is_quic: false,
        tls_version: 0x0302,
        sni_present: false,
        alpn_first: Some(b"http/1.1"),
        ciphers: &[2, 1, 2],
        extensions: &[0x0010, 0x0010, 3],
        signature_algorithms: &[],
    };
    assert_eq!(cipher_text(&input), "0001,0002,0002");
    assert_eq!(extension_text(&input), "0003_");
    let ja4 = assemble_ja4(&input, &[0x01, 0x23, 0x45, 0x67, 0x89, 0xab, 0xcd], &[0xff; 6]);
    assert_eq!(ja4, "t11i0303h1_0123456789ab_ffffffffffff");
}

#[test]
fn hexadecimal_text_sorts_as_the_numbers_do() {
    let numbers: [u16; 7] = [0, 0x9, 0xa, 0xff, 0x100, 0x9fff, 0xffff];
    for a in numbers {
        for b in numbers {
            assert_eq!(a < b, format!("{:04x}", a) < format!("{:04x}", b));
        }
    }
    let input = Ja4Input {
        is_quic: false,
        tls_version: 0,
        sni_present: false,
        alpn_first: None,
        ciphers: &[0xffff, 0xa, 0x9fff, 0x9, 0x100, 0, 0xff],
        extensions: &[],
        signature_algorithms: &[],
    };
    assert_eq!(cipher_text(&input), "0000,0009,000a,00ff,0100,9fff,ffff");
}

#[test]
fn server_name_and_alpn_are_not_hashed() {
    let with = Ja4Input {
        is_quic: false,
        tls_version: 0x0304,
        sni_present: true,
        alpn_first: Some(b"h2"),
        ciphers: &[0x1301],
        extensions: &[0x0010, 0x000a, 0x0000, 0x002b],
        signature_algorithms: &[0x0403],
    };
    let without = Ja4Input {
        extensions: &[0x000a, 0x002b],
        ..with
    };
    assert_eq!(extension_text(&with), "000a,002b_0403");
    assert_eq!(extension_text(&without), extension_text(&with));
    assert_eq!(compute_ja4(&with)[11..], compute_ja4(&without)[11..]);
    assert_eq!(&compute_ja4(&with)[..10], "t13d0104h2");
    assert_eq!(&compute_ja4(&without)[..10], "t13d0102h2");
}
