use vibetap::config::{refresh_failure_is_final, refresh_refused_for_good, refreshed_tokens};
use vibetap::fingerprint::{compute_hash, snapshot};
use vibetap::hook::{install_script, uninstall_script};
use vibetap::args::InstallArgs;
use vibetap::hush::{hush_state_for, is_forever, DurationError};
use vibetap::scan::test_base_name;
use vibetap::stream::{SseDecoder, SseEvent};
use vibetap::text::{chars_of, is_confirmation, replace_str};

#[test]
fn uninstall_removes_only_our_section() {
    let ours = install_script(&None, InstallArgs::default()).unwrap();
    assert_eq!(uninstall_script(&ours), None);
    let mixed = install_script(&Some("#!/bin/sh\nmake lint\n".to_string()), InstallArgs { block: true, security_only: false }).unwrap();
    assert_eq!(uninstall_script(&mixed).as_deref(), Some("#!/bin/sh\nmake lint\n"));
    let crlf = "#!/bin/sh\r\necho hi\r\n# VibeTap pre-commit hook\r\nx\r\n# End VibeTap hook\r\necho bye";
    assert_eq!(uninstall_script(crlf).as_deref(), Some("#!/bin/sh\necho hi\necho bye\n"));
    assert_eq!(uninstall_script("").as_deref(), None);
}

#[test]
fn stream_events_split_at_blank_lines() {
    let mut d = SseDecoder::new();
    assert!(d.push("event: progress\ndata: {\"a\":1}\n").is_empty());
    let events = d.push("\nevent: complete\r\ndata: {}\r\ndata: {\"b\":2}\n\nevent: err");
    assert_eq!(
        events,
        vec![
            SseEvent { event_type: Some("progress".to_string()), data: Some("{\"a\":1}".to_string()) },
            SseEvent { event_type: Some("complete".to_string()), data: Some("{\"b\":2}".to_string()) },
        ]
    );
    assert_eq!(d.buffer, "event: err");
    let more = d.push("or\n\n\n\ndata: x\n\n");
    assert_eq!(more.len(), 3);
    assert_eq!(more[0].event_type.as_deref(), Some("error"));
    assert_eq!(more[1], SseEvent { event_type: None, data: None });
    assert_eq!(more[2].data.as_deref(), Some("x"));
    assert_eq!(d.buffer, "");
}

#[test]
fn snapshot_skips_unreadable_files() {
    let paths = vec!["a.ts".to_string(), "b.ts".to_string(), "c.ts".to_string()];
    let contents = vec![Some("A".to_string()), None, Some("C".to_string())];
    let s = snapshot(&paths, &contents);
    assert_eq!(s.len(), 2);
    assert_eq!(s[0].path, "a.ts");
    assert_eq!(s[0].digest, compute_hash("A"));
    assert_eq!(s[1].path, "c.ts");
    assert_eq!(s[1].digest, compute_hash("C"));
}

#[test]
fn text_helpers() {
    assert!(is_confirmation(" Y\n"));
    assert!(is_confirmation("y"));
    assert!(!is_confirmation("yes"));
    assert!(!is_confirmation(""));
    assert_eq!(chars_of("añb"), vec!['a', 'ñ', 'b']);
    assert_eq!(replace_str("aXXbXXX", "XX", "-"), "a-b-X");
    assert_eq!(test_base_name("user.test.ts"), "user.ts");
    assert_eq!(test_base_name("api_test.go"), "api.go");
    assert_eq!(test_base_name("model.spec.js"), "model.js");
}

#[test]
fn hush_requests() {
    assert!(is_forever("Forever"));
    assert!(!is_forever("for ever"));
    assert_eq!(hush_state_for("FOREVER", 10).unwrap().hush_until, None);
    assert_eq!(hush_state_for("1h", 10).unwrap().hush_until, Some(3610));
    assert_eq!(hush_state_for("x", 10), Err(DurationError::InvalidFormat));
}

#[test]
fn refresh_rules() {
    assert!(refresh_refused_for_good(true, ""));
    assert!(refresh_refused_for_good(false, "token expired"));
    assert!(!refresh_refused_for_good(false, "server busy"));
    assert!(refresh_failure_is_final("Invalid grant"));
    assert!(!refresh_failure_is_final("rate limited"));
    let t = refreshed_tokens("a".to_string(), "r".to_string(), 99);
    assert_eq!(t.auth_type, "oauth");
    assert_eq!(t.refresh_token.as_deref(), Some("r"));
    assert_eq!(t.expires_at, Some(99));
}
