use vibetap::api::{
    build_request, parse_u64_text, status_error, ApiError, ApiErrorResponse, ApiResponse, ResponseMeta,
};
use vibetap::args::{ApplyArgs, InstallArgs};
use vibetap::config::{AuthTokens, Config, GlobalConfig, ProjectConfig};
use vibetap::diff::{DiffHunk, StagedDiff};
use vibetap::hook::{
    generate_blocking_hook, generate_non_blocking_hook, hook_status, install_script, trim_end_string,
};
use vibetap::language::{detect_language, detect_source_language, format_category, path_extension};
use vibetap::project::{build_command, detect_project_type, detect_test_runner, initial_test_runner, ProjectFiles};
use vibetap::scan::{analyze_coverage, determine_risk, is_skipped_entry, is_source_file, is_test_file_name, RiskLevel, SourceFile, TestFile};
use vibetap::watch::{get_diff_hash, is_ignored_path};

#[test]
fn languages_from_extensions() {
    assert_eq!(path_extension("a/b.test.ts"), "ts");
    assert_eq!(path_extension("Makefile"), "Makefile");
    assert_eq!(path_extension("dir.d/"), "d/");
    assert_eq!(detect_language("src/x.tsx"), "typescript");
    assert_eq!(detect_language("x.yml"), "yaml");
    assert_eq!(detect_language("x.unknown"), "text");
    assert_eq!(detect_source_language("x.py").as_deref(), Some("python"));
    assert_eq!(detect_source_language("x.json"), None);
    assert_eq!(format_category("edge_case"), "Edge case test");
    assert_eq!(format_category("perf"), "perf");
}

#[test]
fn hook_scripts() {
    let h = generate_non_blocking_hook("vibetap now");
    assert!(h.starts_with("\n# VibeTap pre-commit hook\n"));
    assert!(h.contains("    vibetap now || true\n"));
    let b = generate_blocking_hook("vibetap now");
    assert!(b.contains("output=$(vibetap now 2>&1)"));
    assert!(b.ends_with("# End VibeTap hook\n"));
    let fresh = install_script(&None, InstallArgs { block: false, security_only: true }).unwrap();
    assert!(fresh.starts_with("#!/bin/sh\n\n# VibeTap pre-commit hook"));
    assert!(fresh.contains("vibetap now --staged --quiet --security || true"));
    let appended = install_script(&Some("#!/bin/bash\nmake lint\n\n".to_string()), InstallArgs::default()).unwrap();
    assert!(appended.starts_with("#!/bin/bash\nmake lint\n\n\n# VibeTap"));
    let shebangless = install_script(&Some("make lint".to_string()), InstallArgs::default()).unwrap();
    assert!(shebangless.starts_with("#!/bin/sh\nmake lint\n\n\n# VibeTap"));
    assert_eq!(install_script(&Some(fresh.clone()), InstallArgs::default()), None);
    let st = hook_status(&fresh);
    assert!(st.installed && st.security_only && !st.blocking);
    assert!(!hook_status("#!/bin/sh\n").installed);
    assert_eq!(trim_end_string("ab \n\t"), "ab");
}

#[test]
fn watch_rules() {
    assert!(is_ignored_path("./node_modules/x/index.js"));
    assert!(is_ignored_path("Cargo.lock"));
    assert!(is_ignored_path("logs/app.log"));
    assert!(!is_ignored_path("src/main.rs"));
    let d = StagedDiff {
        hunks: vec![DiffHunk {
            file_path: "a".to_string(),
            old_start: 1,
            old_lines: 1,
            new_start: 1,
            new_lines: 1,
            content: "ab".to_string(),
        }],
        files_changed: vec!["a".to_string()],
    };
    // ('a' * 31 + 'b') = 97 * 31 + 98 = 3105
    assert_eq!(get_diff_hash(&Ok(d)), "c21");
    assert_eq!(get_diff_hash(&Err(vibetap::diff::GitError::NotARepo)), "");
}

#[test]
fn risk_and_coverage() {
    assert_eq!(determine_risk("src/auth/login.ts", "login.ts").0, RiskLevel::High);
    assert_eq!(determine_risk("src/services/user.ts", "user.ts").1, "Core business logic");
    assert_eq!(determine_risk("src/utils/fmt.ts", "fmt.ts"), (RiskLevel::Low, "Utility/helper code".to_string()));
    assert_eq!(determine_risk("src/main.ts", "main.ts").1, "General source file");
    assert_eq!(RiskLevel::Medium.as_str(), "MED");
    assert!(is_test_file_name("a.test.ts") && is_test_file_name("x_test.go"));
    assert!(!is_test_file_name("a.ts"));
    assert!(is_source_file("ts", "a.ts"));
    assert!(!is_source_file("ts", "a.d.ts"));
    assert!(!is_source_file("md", "a.md"));
    assert!(is_skipped_entry("node_modules", true));
    assert!(is_skipped_entry(".next", false) && !is_skipped_entry(".next", true));
    let sources = vec![
        SourceFile { path: "src/Auth.ts".to_string(), file_name: "Auth.ts".to_string(), extension: "ts".to_string() },
        SourceFile { path: "src/view.ts".to_string(), file_name: "view.ts".to_string(), extension: "ts".to_string() },
    ];
    let tests = vec![
        TestFile { base_name: "view.ts".to_string(), path: "old/view.test.ts".to_string() },
        TestFile { base_name: "view.ts".to_string(), path: "src/view.test.ts".to_string() },
    ];
    let r = analyze_coverage(&sources, &tests);
    assert_eq!(r[0].risk_level, RiskLevel::High);
    assert!(!r[0].has_tests);
    assert_eq!(r[1].test_file.as_deref(), Some("src/view.test.ts"));
    assert_eq!(r[1].reason, "UI component");
}

#[test]
fn project_detection_and_commands() {
    let mut f = ProjectFiles::default();
    assert_eq!(detect_project_type(&f), "unknown");
    assert_eq!(detect_test_runner(&None, &f), None);
    f.cargo_toml = true;
    assert_eq!(detect_project_type(&f), "rust");
    assert_eq!(detect_test_runner(&None, &f).as_deref(), Some("cargo-test"));
    assert_eq!(detect_test_runner(&Some("jest".to_string()), &f).as_deref(), Some("jest"));
    f.package_json = Some("{\"devDependencies\":{\"jest\":\"1\"}}".to_string());
    assert_eq!(detect_project_type(&f), "node");
    assert_eq!(initial_test_runner(&f), "jest");
    let files = vec!["a.test.ts".to_string()];
    let extra = vec!["--watch".to_string()];
    let c = build_command(&"vitest".to_string(), &files, &extra);
    assert_eq!(c.program, "npx");
    assert_eq!(c.args, vec!["vitest", "run", "a.test.ts", "--watch"]);
    let g = build_command(&"go-test".to_string(), &Vec::new(), &Vec::new());
    assert_eq!(g.args, vec!["test", "./..."]);
    let cargo = build_command(&"cargo-test".to_string(), &files, &extra);
    assert_eq!(cargo.args, vec!["test", "--watch"]);
    assert!(cargo.files_ignored);
    let custom = build_command(&"mocha".to_string(), &files, &Vec::new());
    assert_eq!(custom.program, "mocha");
    assert_eq!(custom.args, vec!["a.test.ts"]);
}

fn tokens(kind: &str, expires_at: Option<i64>) -> AuthTokens {
    AuthTokens {
        access_token: "SECRET-REDACTED".to_string(),
        refresh_token: None,
        expires_at,
        auth_type: kind.to_string(),
    }
}

#[test]
fn configuration_rules() {
    let c = Config::from_parts(GlobalConfig::default(), None);
    assert_eq!(c.api_url(), "https://vibetap.dev");
    assert!(!c.is_authenticated());
    assert!(c.access_token().is_err());
    assert!(c.is_token_expired_at(0));
    let g = GlobalConfig { api_url: Some("http://localhost:3000".to_string()), tokens: Some(tokens("oauth", Some(1000))) };
    let c = Config::from_parts(g, Some(ProjectConfig::default()));
    assert_eq!(c.api_url(), "http://localhost:3000");
    assert_eq!(c.access_token().unwrap(), "SECRET-REDACTED");
    assert!(!c.is_token_expired_at(699));
    assert!(c.is_token_expired_at(701));
    let k = Config::from_parts(GlobalConfig { api_url: None, tokens: Some(tokens("api_key", Some(0))) }, None);
    assert!(!k.is_token_expired_at(i64::MAX));
    assert_eq!(Config::config_dir_in(Some("/home/u/.config".to_string())), "/home/u/.config/vibetap");
    assert_eq!(Config::config_dir_in(Some("/cfg/".to_string())), "/cfg/vibetap");
    assert_eq!(Config::config_dir_in(None), "./vibetap");
    assert!(Config::global_config_path().ends_with("vibetap/config.toml"));
    assert!(ApplyArgs { selections: vec![], yes: false, force: false }.checks_drift(2));
    assert!(!ApplyArgs { selections: vec![], yes: false, force: true }.checks_drift(2));
}

fn meta() -> ResponseMeta {
    ResponseMeta { request_id: "r".to_string(), tokens_used: None, timestamp: "t".to_string() }
}

#[test]
fn service_responses() {
    assert!(matches!(status_error(401, &None), Some(ApiError::Unauthorized)));
    assert!(matches!(status_error(429, &Some("17".to_string())), Some(ApiError::RateLimited { retry_after: 17 })));
    assert!(matches!(status_error(429, &Some("soon".to_string())), Some(ApiError::RateLimited { retry_after: 60 })));
    assert!(status_error(200, &None).is_none());
    assert_eq!(parse_u64_text("+42"), Some(42));
    assert_eq!(parse_u64_text("18446744073709551616"), None);
    let ok = ApiResponse { success: true, data: Some(5u32), error: None, meta: meta() };
    assert_eq!(ok.into_data().unwrap(), 5);
    let quota = ApiResponse::<u32> {
        success: false,
        data: None,
        error: Some(ApiErrorResponse { code: "QUOTA_EXCEEDED".to_string(), message: "m".to_string(), retry_after: None }),
        meta: meta(),
    };
    assert!(matches!(quota.into_data(), Err(ApiError::QuotaExceeded)));
    let failed = ApiResponse::<u32> {
        success: false,
        data: None,
        error: Some(ApiErrorResponse { code: "BAD".to_string(), message: "m".to_string(), retry_after: None }),
        meta: meta(),
    };
    assert!(matches!(failed.into_data(), Err(ApiError::Api { code, .. }) if code == "BAD"));
    let empty = ApiResponse::<u32> { success: true, data: None, error: None, meta: meta() };
    assert!(matches!(empty.into_data(), Err(ApiError::Api { code, .. }) if code == "NO_DATA"));
}

#[test]
fn request_building() {
    let d = StagedDiff {
        hunks: vec![DiffHunk {
            file_path: "a.rs".to_string(),
            old_start: 1,
            old_lines: 2,
            new_start: 3,
            new_lines: 4,
            content: "+x\n".to_string(),
        }],
        files_changed: vec![],
    };
    let mut paths = Vec::new();
    let mut contents = Vec::new();
    for i in 0..12 {
        paths.push(format!("f{}.rs", i));
        contents.push(if i == 1 { None } else { Some("y".repeat(50001)) });
    }
    let r = build_request(&d, &paths, &contents, &None, &Some("jest".to_string()), 3, true, false);
    assert_eq!(r.diff.hunks.len(), 1);
    assert_eq!(r.diff.hunks[0].new_lines, 4);
    assert_eq!(r.context.len(), 10);
    assert_eq!(r.context[1].path, "f2.rs");
    assert_eq!(r.context[0].content.chars().count(), 50000);
    assert_eq!(r.context[0].language.as_deref(), Some("rust"));
    assert_eq!(r.options.test_runner, "jest");
    assert_eq!(r.options.model_tier, "default");
    let r2 = build_request(&d, &vec!["n.md".to_string()], &vec![Some("z".to_string())], &Some("pytest".to_string()), &None, 1, false, true);
    assert_eq!(r2.context[0].language.as_deref(), Some("markdown"));
    assert_eq!(r2.options.test_runner, "pytest");
    let r3 = build_request(&d, &vec![], &vec![], &None, &None, 1, false, true);
    assert_eq!(r3.options.test_runner, "vitest");
}
