use vibetap::diff::{file_matches, filter_to_file, parse_diff, DiffHunk, GitError, HunkHeader, PatchLine, StagedDiff};

fn line(file: &str, hunk: Option<HunkHeader>, origin: char, text: &str) -> PatchLine {
    PatchLine { file: Some(file.to_string()), hunk, origin, text: Some(text.to_string()) }
}

fn one_file_patch(path: &str) -> Vec<PatchLine> {
    let h = HunkHeader { old_start: 1, old_lines: 2, new_start: 1, new_lines: 3 };
    vec![
        line(path, None, 'F', "diff --git a/x b/x\n"),
        line(path, Some(h), 'H', "@@ -1,2 +1,3 @@\n"),
        line(path, Some(h), ' ', "keep\n"),
        line(path, Some(h), '-', "old\n"),
        line(path, Some(h), '+', "new one\n"),
        line(path, Some(h), '+', "new two\n"),
    ]
}

#[test]
fn one_staged_modification_gives_one_hunk() {
    let d = parse_diff(&one_file_patch("lib.ts")).unwrap();
    assert_eq!(d.hunks.len(), 1);
    let h = &d.hunks[0];
    assert_eq!(h.file_path, "lib.ts");
    assert_eq!((h.old_start, h.old_lines, h.new_start, h.new_lines), (1, 2, 1, 3));
    assert_eq!(h.content, " keep\n-old\n+new one\n+new two\n");
    assert_eq!(h.content.lines().filter(|l| l.starts_with('-')).count(), 1);
    assert_eq!(h.content.lines().filter(|l| l.starts_with('+')).count(), 2);
    assert_eq!(d.files_changed, vec!["lib.ts".to_string()]);
}

#[test]
fn empty_patch_is_no_changes() {
    assert!(matches!(parse_diff(&Vec::new()), Err(GitError::NoStagedChanges)));
    let header_only = vec![line("a.ts", None, 'F', "diff --git a/a.ts b/a.ts\n")];
    assert!(matches!(parse_diff(&header_only), Err(GitError::NoStagedChanges)));
}

#[test]
fn a_hunk_needs_a_named_file() {
    let h = HunkHeader { old_start: 1, old_lines: 1, new_start: 1, new_lines: 1 };
    let no_file = vec![
        PatchLine { file: None, hunk: Some(h), origin: 'H', text: Some("@@\n".to_string()) },
        PatchLine { file: None, hunk: Some(h), origin: '+', text: Some("x\n".to_string()) },
    ];
    assert!(matches!(parse_diff(&no_file), Err(GitError::NoStagedChanges)));
    let empty_name = vec![line("", Some(h), 'H', "@@\n"), line("", Some(h), '+', "x\n")];
    assert!(matches!(parse_diff(&empty_name), Err(GitError::NoStagedChanges)));
    let mut later = empty_name.clone();
    later.extend(one_file_patch("b.ts"));
    let d = parse_diff(&later).unwrap();
    assert_eq!(d.hunks.len(), 1);
    assert_eq!(d.hunks[0].file_path, "b.ts");
    assert_eq!(d.files_changed, vec!["b.ts".to_string()]);
}

#[test]
fn hunks_follow_files_in_order() {
    let mut lines = one_file_patch("a.ts");
    lines.extend(one_file_patch("b.ts"));
    lines.extend(one_file_patch("a.ts"));
    let d = parse_diff(&lines).unwrap();
    let paths: Vec<&str> = d.hunks.iter().map(|h| h.file_path.as_str()).collect();
    assert_eq!(paths, vec!["a.ts", "b.ts", "a.ts"]);
    assert_eq!(d.files_changed, vec!["a.ts".to_string(), "b.ts".to_string()]);
}

#[test]
fn content_before_a_hunk_header_or_undecodable_is_dropped() {
    let h = HunkHeader { old_start: 3, old_lines: 1, new_start: 3, new_lines: 1 };
    let lines = vec![
        line("a.ts", None, '+', "orphan\n"),
        line("a.ts", Some(h), 'H', "@@\n"),
        PatchLine { file: Some("a.ts".to_string()), hunk: Some(h), origin: '+', text: None },
        line("a.ts", Some(h), '=', "eof\n"),
        line("a.ts", Some(h), '-', "x\n"),
    ];
    let d = parse_diff(&lines).unwrap();
    assert_eq!(d.hunks.len(), 1);
    assert_eq!(d.hunks[0].content, "-x\n");
}

fn hunk(path: &str) -> DiffHunk {
    DiffHunk {
        file_path: path.to_string(),
        old_start: 1,
        old_lines: 1,
        new_start: 1,
        new_lines: 1,
        content: "+x\n".to_string(),
    }
}

#[test]
fn filtering_by_file_suffix() {
    assert!(file_matches("./src/lib.ts", "lib.ts"));
    assert!(file_matches("src/lib.ts", "./src/lib.ts"));
    assert!(file_matches("././a.ts", "a.ts"));
    assert!(!file_matches("src/lib.ts", "main.ts"));
    assert!(!file_matches("a.ts", "src/a.ts"));
    let d = StagedDiff {
        hunks: vec![hunk("src/lib.ts"), hunk("src/main.ts"), hunk("src/lib.ts")],
        files_changed: vec!["src/lib.ts".to_string(), "src/main.ts".to_string()],
    };
    let f = filter_to_file(&d, "lib.ts");
    assert_eq!(f.hunks.len(), 2);
    assert_eq!(f.files_changed, vec!["src/lib.ts".to_string()]);
    let none = filter_to_file(&d, "other.ts");
    assert!(none.hunks.is_empty() && none.files_changed.is_empty());
}
