use netwatch::dpi::ja4_db;
use netwatch::dpi::ja4_db::{
    bundled, load_overlay, lookup_bundled, overlay_from, Overlay, OverlayFile, OverlayProblem,
    BUNDLED_LEN,
};

fn lookup(ja4: &str) -> Option<String> {
    ja4_db::lookup(ja4, &Overlay::empty()).map(|s| s.to_string())
}

#[test]
fn bundled_table_is_sorted_for_binary_search() {
    // Binary search returns wrong/missing results on an unsorted
    // input; protect the invariant explicitly.
    for i in 0..BUNDLED_LEN - 1 {
        assert!(
            bundled(i).0 < bundled(i + 1).0,
            "BUNDLED must be sorted: {} >= {}",
            bundled(i).0,
            bundled(i + 1).0
        );
    }
}

#[test]
fn lookup_hits_known_chromium_fingerprint() {
    assert_eq!(
        lookup("t13d1517h2_8daaf6152771_b1ff8ab2d16f").as_deref(),
        Some("Chromium Browser")
    );
}

#[test]
fn lookup_hits_known_firefox_fingerprint() {
    assert_eq!(
        lookup("t13d1715h2_5b57614c22b0_7121afd63204").as_deref(),
        Some("Mozilla Firefox")
    );
}

#[test]
fn lookup_hits_joined_label_for_shared_tls_stack() {
    // Sliver agent inherits Go's TLS stack, so the JA4 matches
    // both: the joined label preserves both possibilities so
    // an analyst doesn't assume "GoLang" means "definitely benign".
    assert_eq!(
        lookup("t13d190900_9dc949149365_97f8aa674fd9").as_deref(),
        Some("GoLang / Sliver Agent")
    );
}

#[test]
fn lookup_misses_on_unknown_fingerprint() {
    assert_eq!(lookup("t13d9999h2_deadbeefcafe_facefeed0000"), None);
    assert_eq!(lookup(""), None);
    assert_eq!(lookup("not a ja4"), None);
}

#[test]
fn bundled_does_not_leak_ja4plus_columns() {
    // Spot-check: no bundled label should reference JA4S/JA4H/JA4X/
    // JA4T variants that are FoxIO-licensed. Labels describe TLS
    // clients only.
    for i in 0..BUNDLED_LEN {
        let label = bundled(i).1;
        assert!(
            !label.to_lowercase().contains("ja4s")
                && !label.to_lowercase().contains("ja4h")
                && !label.to_lowercase().contains("ja4x")
                && !label.to_lowercase().contains("ja4t"),
            "label leaks JA4+ provenance: {}",
            label
        );
    }
}

#[test]
fn every_bundled_entry_is_found() {
    assert_eq!(BUNDLED_LEN, 32);
    for i in 0..BUNDLED_LEN {
        let (ja4, label) = bundled(i);
        assert_eq!(ja4.len(), 36);
        assert_eq!(lookup_bundled(ja4), Some(label));
        assert_eq!(lookup(ja4).as_deref(), Some(label));
        assert_eq!(lookup_bundled(&ja4[..35]), None);
    }
    assert_eq!(lookup_bundled("~"), None);
    assert_eq!(
        bundled(0),
        ("q13d0312h3_55b375c5d22e_06cda9e17597", "Chromium Browser")
    );
    assert_eq!(
        bundled(31),
        ("t13i880900_fcb5b95cb75a_b0d3b4ac2a14", "SoftEther VPN Client")
    );
}

#[test]
fn overlay_wins_over_the_bundled_table() {
    let chromium = "t13d1517h2_8daaf6152771_b1ff8ab2d16f";
    let text = format!(
        "{{\"{}\": \"Our own build\", \"t13d1234_abc_def\": \"Internal\\u0021\"}}",
        chromium
    );
    let (overlay, problem) = load_overlay(OverlayFile::Text(text));
    assert!(problem.is_none());
    assert_eq!(ja4_db::lookup(chromium, &overlay), Some("Our own build"));
    assert_eq!(ja4_db::lookup("t13d1234_abc_def", &overlay), Some("Internal!"));
    assert_eq!(
        ja4_db::lookup("t13d1715h2_5b57614c22b0_7121afd63204", &overlay),
        Some("Mozilla Firefox")
    );
    assert_eq!(overlay.get("t13d1715h2_5b57614c22b0_7121afd63204"), None);
}

#[test]
fn malformed_overlays_are_ignored() {
    for text in ["", "not json", "[]", "{\"a\": 1}", "{\"a\": \"b\"} x", "{\"a\": \"b\",}"] {
        let (overlay, problem) = load_overlay(OverlayFile::Text(text.to_string()));
        assert!(matches!(problem, Some(OverlayProblem::Malformed(_))), "{}", text);
        assert_eq!(overlay.get("a"), None);
        assert_eq!(
            ja4_db::lookup("t13d1715h2_5b57614c22b0_7121afd63204", &overlay),
            Some("Mozilla Firefox")
        );
    }
}

#[test]
fn absent_and_unreadable_overlays() {
    let (overlay, problem) = load_overlay(OverlayFile::Absent);
    assert!(problem.is_none());
    assert_eq!(overlay.get(""), None);
    let (overlay, problem) = load_overlay(OverlayFile::Unreadable("denied".to_string()));
    assert!(matches!(problem, Some(OverlayProblem::Unreadable(why)) if why == "denied"));
    assert_eq!(overlay.get(""), None);
}

#[test]
fn empty_objects_and_repeated_members() {
    let (overlay, problem) = load_overlay(OverlayFile::Text(" { } ".to_string()));
    assert!(problem.is_none());
    assert_eq!(overlay.get("a"), None);
    let text = "{\"a\": \"first\", \"b\": \"\", \"a\": \"last\"}";
    let (overlay, _) = load_overlay(OverlayFile::Text(text.to_string()));
    assert_eq!(overlay.get("a"), Some("last"));
    assert_eq!(overlay.get("b"), Some(""));
}

#[test]
fn overlays_from_pairs() {
    let pairs = vec![
        ("a".to_string(), "first".to_string()),
        ("b".to_string(), "other".to_string()),
        ("a".to_string(), "last".to_string()),
    ];
    let (overlay, problem) = overlay_from(Ok(pairs));
    assert!(problem.is_none());
    assert_eq!(overlay.get("a"), Some("last"));
    assert_eq!(overlay.get("b"), Some("other"));
    assert_eq!(overlay.get("c"), None);
    let error = serde_json::from_str::<bool>("maybe").unwrap_err();
    let (overlay, problem) = overlay_from(Err(error));
    assert!(matches!(problem, Some(OverlayProblem::Malformed(_))));
    assert_eq!(overlay.get("a"), None);
}
