use std::collections::HashMap;
use vibetap::args::RevertArgs;
use vibetap::ledger::{
    applied_record, revert_action, ApplyHistory, RevertAction, RevertReport, RevertScope, Suggestion,
};

fn suggestion(id: &str, path: &str, code: &str) -> Suggestion {
    Suggestion { id: id.to_string(), file_path: path.to_string(), code: code.to_string() }
}

/// Applies suggestions to an in-memory file map, all at time `at`.
fn apply(files: &mut HashMap<String, String>, history: &mut ApplyHistory, batch: &[Suggestion], at: i64) {
    for s in batch {
        let existing = files.get(&s.file_path).cloned();
        let record = applied_record(s, existing, at);
        files.insert(s.file_path.clone(), s.code.clone());
        history.push_record(record);
    }
}

/// Reverts `scope` on the in-memory file map.
fn revert(files: &mut HashMap<String, String>, history: &mut ApplyHistory, scope: RevertScope) -> RevertReport {
    let taken = history.take_for_revert(scope);
    let mut report = RevertReport::new();
    for r in &taken {
        match revert_action(r) {
            RevertAction::Delete { path } => {
                files.remove(&path);
                report.record_success();
            }
            RevertAction::Restore { path, content } => {
                files.insert(path, content);
                report.record_success();
            }
            RevertAction::Unrestorable { message, .. } => report.record_failure(message),
        }
    }
    report
}

#[test]
fn revert_removes_a_created_file() {
    let mut files = HashMap::new();
    let mut history = ApplyHistory::default();
    apply(&mut files, &mut history, &[suggestion("s1", "tests/new.test.ts", "code")], 100);
    assert!(history.records[0].created_file);
    assert_eq!(history.records[0].original_content, None);
    assert_eq!(files.get("tests/new.test.ts").map(|s| s.as_str()), Some("code"));
    let report = revert(&mut files, &mut history, RevertScope::LastBatch);
    assert_eq!(report.reverted_count, 1);
    assert!(!files.contains_key("tests/new.test.ts"));
    assert!(history.records.is_empty());
}

#[test]
fn revert_restores_an_overwritten_file() {
    let mut files = HashMap::new();
    files.insert("src/a.test.ts".to_string(), "original".to_string());
    let mut history = ApplyHistory::default();
    apply(&mut files, &mut history, &[suggestion("s1", "src/a.test.ts", "new code")], 100);
    assert!(!history.records[0].created_file);
    assert_eq!(history.records[0].original_content.as_deref(), Some("original"));
    revert(&mut files, &mut history, RevertScope::LastBatch);
    assert_eq!(files.get("src/a.test.ts").map(|s| s.as_str()), Some("original"));
}

#[test]
fn default_revert_takes_only_the_last_batch() {
    let mut files = HashMap::new();
    let mut history = ApplyHistory::default();
    apply(&mut files, &mut history, &[suggestion("a", "a.ts", "A"), suggestion("b", "b.ts", "B")], 100);
    apply(&mut files, &mut history, &[suggestion("c", "c.ts", "C")], 200);
    assert_eq!(history.last_batch_start(), 2);
    let report = revert(&mut files, &mut history, RevertScope::LastBatch);
    assert_eq!(report.reverted_count, 1);
    let ids: Vec<&str> = history.records.iter().map(|r| r.suggestion_id.as_str()).collect();
    assert_eq!(ids, vec!["a", "b"]);
    assert!(files.contains_key("a.ts") && files.contains_key("b.ts"));
    assert!(!files.contains_key("c.ts"));
}

#[test]
fn count_and_all_scopes() {
    let mut files = HashMap::new();
    let mut history = ApplyHistory::default();
    apply(&mut files, &mut history, &[suggestion("a", "a.ts", "A"), suggestion("b", "b.ts", "B")], 100);
    apply(&mut files, &mut history, &[suggestion("c", "c.ts", "C")], 200);
    let taken = history.take_for_revert(RevertScope::Count(2));
    assert_eq!(taken.len(), 2);
    assert_eq!(taken[0].suggestion_id, "b");
    assert_eq!(history.records.len(), 1);
    history.restore_records(taken);
    assert_eq!(history.records.len(), 3);
    assert_eq!(history.take_for_revert(RevertScope::Count(99)).len(), 3);
    assert!(history.records.is_empty());
    assert_eq!(history.take_for_revert(RevertScope::LastBatch).len(), 0);
    apply(&mut files, &mut history, &[suggestion("d", "d.ts", "D")], 300);
    assert_eq!(history.take_for_revert(RevertScope::All).len(), 1);
}

#[test]
fn missing_original_content_is_reported_and_dropped() {
    let mut history = ApplyHistory::default();
    let mut broken = applied_record(&suggestion("x", "x.ts", "X"), Some("old".to_string()), 5);
    broken.original_content = None;
    history.push_record(broken);
    let mut files = HashMap::new();
    files.insert("x.ts".to_string(), "X".to_string());
    let report = revert(&mut files, &mut history, RevertScope::LastBatch);
    assert_eq!(report.reverted_count, 0);
    assert_eq!(report.errors, vec!["x.ts: no original content recorded".to_string()]);
    assert!(history.records.is_empty());
    assert_eq!(files.get("x.ts").map(|s| s.as_str()), Some("X"));
}

#[test]
fn revert_options_choose_the_scope() {
    assert_eq!(RevertArgs { yes: false, all: true, count: Some(3) }.scope(), RevertScope::All);
    assert_eq!(RevertArgs { yes: false, all: false, count: Some(3) }.scope(), RevertScope::Count(3));
    assert_eq!(RevertArgs { yes: true, all: false, count: None }.scope(), RevertScope::LastBatch);
}
