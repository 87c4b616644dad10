use vibetap::fingerprint::{check_fingerprint, compute_hash, detect_drift, format_digest, Fingerprint};

#[test]
fn digest_is_stable_and_sensitive() {
    let a = compute_hash("foo");
    assert_eq!(a, compute_hash("foo"));
    assert_eq!(a.len(), 16);
    assert!(a.chars().all(|c| c.is_ascii_hexdigit() && !c.is_ascii_uppercase()));
    assert_ne!(compute_hash("foo"), compute_hash("fop"));
    assert_ne!(compute_hash(""), compute_hash(" "));
}

#[test]
fn digest_text_is_zero_padded_hex() {
    assert_eq!(format_digest(0), "0000000000000000");
    assert_eq!(format_digest(0xabc), "0000000000000abc");
    assert_eq!(format_digest(u64::MAX), "ffffffffffffffff");
}

#[test]
fn drift_of_changed_and_deleted_files() {
    let saved = vec![
        Fingerprint { path: "src/a.ts".to_string(), digest: compute_hash("foo") },
        Fingerprint { path: "src/b.ts".to_string(), digest: compute_hash("same") },
        Fingerprint { path: "src/c.ts".to_string(), digest: compute_hash("gone") },
    ];
    let now = vec![Some("bar".to_string()), Some("same".to_string()), None];
    assert_eq!(
        detect_drift(&saved, &now),
        vec!["src/a.ts".to_string(), "src/c.ts (deleted or unreadable)".to_string()]
    );
    let unchanged = vec![Some("foo".to_string()), Some("same".to_string()), Some("gone".to_string())];
    assert!(detect_drift(&saved, &unchanged).is_empty());
}

#[test]
fn one_fingerprint_check() {
    let p = "p.ts".to_string();
    let d = "0123".to_string();
    assert_eq!(check_fingerprint(&p, &d, &Some("0123".to_string())), None);
    assert_eq!(check_fingerprint(&p, &d, &Some("9999".to_string())), Some("p.ts".to_string()));
    assert_eq!(check_fingerprint(&p, &d, &None), Some("p.ts (deleted or unreadable)".to_string()));
}
