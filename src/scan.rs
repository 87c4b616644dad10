//! Coverage-gap scanning: which source files lack tests, and how risky
//! each looks from its path.
use vstd::prelude::*;
use crate::text::{contains, ends_with, lowercase_of, replace_all, replace_str, str_contains, str_ends_with, to_lowercase};
use crate::text::opt_view;

verus! {

#[derive(Debug, Clone, Copy, PartialEq, Eq, PartialOrd, Ord, Hash)]
pub enum RiskLevel {
    High,
    Medium,
    Low,
}

impl RiskLevel {
    pub fn as_str(&self) -> (r: &'static str)
        ensures
            r@ == risk_label(*self),
    {
        match self {
            RiskLevel::High => "HIGH",
            RiskLevel::Medium => "MED",
            RiskLevel::Low => "LOW",
        }
    }

    /// Position in the order High, Medium, Low.
    pub fn rank(&self) -> (r: u8)
        ensures
            r == risk_rank(*self),
    {
        match self {
            RiskLevel::High => 0,
            RiskLevel::Medium => 1,
            RiskLevel::Low => 2,
        }
    }
}

pub open spec fn risk_label(r: RiskLevel) -> Seq<char> {
    match r {
        RiskLevel::High => "HIGH"@,
        RiskLevel::Medium => "MED"@,
        RiskLevel::Low => "LOW"@,
    }
}

pub open spec fn risk_rank(r: RiskLevel) -> u8 {
    match r {
        RiskLevel::High => 0,
        RiskLevel::Medium => 1,
        RiskLevel::Low => 2,
    }
}

pub open spec fn any_of(s: Seq<char>, pats: Seq<Seq<char>>) -> bool {
    exists|i: int| 0 <= i < pats.len() && contains(s, #[trigger] pats[i])
}

pub open spec fn views_of(pats: Seq<&str>) -> Seq<Seq<char>> {
    pats.map_values(|p: &str| p@)
}

/// Whether any of `pats` occurs in `s`.
pub fn contains_any(s: &str, pats: &[&str]) -> (r: bool)
    ensures
        r == any_of(s@, views_of(pats@)),
{
    let mut i: usize = 0;
    while i < pats.len()
        invariant
            i <= pats@.len(),
            forall|k: int| 0 <= k < i ==> !contains(s@, #[trigger] views_of(pats@)[k]),
        decreases pats@.len() - i,
    {
        if str_contains(s, pats[i]) {
            assert(views_of(pats@)[i as int] == pats@[i as int]@);
            return true;
        }
        assert(views_of(pats@)[i as int] == pats@[i as int]@);
        i = i + 1;
    }
    false
}

/// Risk of a source file from its lower-cased path, and why.
pub open spec fn risk_of(path: Seq<char>) -> (RiskLevel, Seq<char>) {
    if any_of(path, seq!["auth"@, "login"@, "password"@, "token"@, "session"@]) {
        (RiskLevel::High, "Authentication/authorization code"@)
    } else if any_of(path, seq!["payment"@, "billing"@, "checkout"@, "stripe"@, "subscription"@]) {
        (RiskLevel::High, "Payment/billing logic"@)
    } else if any_of(path, seq!["api/"@, "routes/"@, "endpoints"@, "handlers"@]) {
        (RiskLevel::High, "API endpoint"@)
    } else if any_of(path, seq!["crypto"@, "encrypt"@, "decrypt"@, "hash"@]) {
        (RiskLevel::High, "Cryptographic operations"@)
    } else if any_of(path, seq!["service"@, "controller"@, "repository"@]) {
        (RiskLevel::Medium, "Core business logic"@)
    } else if any_of(path, seq!["database"@, "db/"@, "model"@, "schema"@]) {
        (RiskLevel::Medium, "Database operations"@)
    } else if any_of(path, seq!["middleware"@, "interceptor"@]) {
        (RiskLevel::Medium, "Middleware/interceptor"@)
    } else if any_of(path, seq!["validation"@, "validator"@, "schema"@]) {
        (RiskLevel::Medium, "Input validation"@)
    } else if any_of(path, seq!["util"@, "helper"@, "lib/"@]) {
        (RiskLevel::Low, "Utility/helper code"@)
    } else if any_of(path, seq!["component"@, "ui/"@, "view"@]) {
        (RiskLevel::Low, "UI component"@)
    } else if any_of(path, seq!["config"@, "constant"@]) {
        (RiskLevel::Low, "Configuration"@)
    } else {
        (RiskLevel::Low, "General source file"@)
    }
}

/// Risk of a source file from its lower-cased path, and why.
pub fn determine_risk(path: &str, _file_name: &str) -> (r: (RiskLevel, String))
    ensures
        r.0 == risk_of(path@).0,
        r.1@ == risk_of(path@).1,
{
    let p1 = ["auth", "login", "password", "token", "session"];
    let p2 = ["payment", "billing", "checkout", "stripe", "subscription"];
    let p3 = ["api/", "routes/", "endpoints", "handlers"];
    let p4 = ["crypto", "encrypt", "decrypt", "hash"];
    let p5 = ["service", "controller", "repository"];
    let p6 = ["database", "db/", "model", "schema"];
    let p7 = ["middleware", "interceptor"];
    let p8 = ["validation", "validator", "schema"];
    let p9 = ["util", "helper", "lib/"];
    let p10 = ["component", "ui/", "view"];
    let p11 = ["config", "constant"];
    assert(views_of(p1@) =~= seq!["auth"@, "login"@, "password"@, "token"@, "session"@]);
    assert(views_of(p2@) =~= seq!["payment"@, "billing"@, "checkout"@, "stripe"@, "subscription"@]);
    assert(views_of(p3@) =~= seq!["api/"@, "routes/"@, "endpoints"@, "handlers"@]);
    assert(views_of(p4@) =~= seq!["crypto"@, "encrypt"@, "decrypt"@, "hash"@]);
    assert(views_of(p5@) =~= seq!["service"@, "controller"@, "repository"@]);
    assert(views_of(p6@) =~= seq!["database"@, "db/"@, "model"@, "schema"@]);
    assert(views_of(p7@) =~= seq!["middleware"@, "interceptor"@]);
    assert(views_of(p8@) =~= seq!["validation"@, "validator"@, "schema"@]);
    assert(views_of(p9@) =~= seq!["util"@, "helper"@, "lib/"@]);
    assert(views_of(p10@) =~= seq!["component"@, "ui/"@, "view"@]);
    assert(views_of(p11@) =~= seq!["config"@, "constant"@]);
    let (level, reason) = if contains_any(path, &p1) {
        (RiskLevel::High, "Authentication/authorization code")
    } else if contains_any(path, &p2) {
        (RiskLevel::High, "Payment/billing logic")
    } else if contains_any(path, &p3) {
        (RiskLevel::High, "API endpoint")
    } else if contains_any(path, &p4) {
        (RiskLevel::High, "Cryptographic operations")
    } else if contains_any(path, &p5) {
        (RiskLevel::Medium, "Core business logic")
    } else if contains_any(path, &p6) {
        (RiskLevel::Medium, "Database operations")
    } else if contains_any(path, &p7) {
        (RiskLevel::Medium, "Middleware/interceptor")
    } else if contains_any(path, &p8) {
        (RiskLevel::Medium, "Input validation")
    } else if contains_any(path, &p9) {
        (RiskLevel::Low, "Utility/helper code")
    } else if contains_any(path, &p10) {
        (RiskLevel::Low, "UI component")
    } else if contains_any(path, &p11) {
        (RiskLevel::Low, "Configuration")
    } else {
        (RiskLevel::Low, "General source file")
    };
    (level, String::from_str(reason))
}

/// Whether a file name marks a test file.
pub open spec fn test_name(name: Seq<char>) -> bool {
    contains(name, ".test."@) || contains(name, ".spec."@) || contains(name, "_test."@)
        || ends_with(name, "_test.go"@) || ends_with(name, "_test.py"@)
}

pub fn is_test_file_name(name: &str) -> (r: bool)
    ensures
        r == test_name(name@),
{
    str_contains(name, ".test.") || str_contains(name, ".spec.") || str_contains(name, "_test.")
        || str_ends_with(name, "_test.go") || str_ends_with(name, "_test.py")
}

pub open spec fn source_extensions() -> Seq<Seq<char>> {
    seq!["ts"@, "tsx"@, "js"@, "jsx"@, "py"@, "rs"@, "go"@, "rb"@, "java"@]
}

/// Whether a file with extension `ext` and name `name` is a source file to
/// scan: a source extension, not a test, not a type declaration file.
pub open spec fn source_name(ext: Seq<char>, name: Seq<char>) -> bool {
    source_extensions().contains(ext) && !test_name(name) && !ends_with(name, ".d.ts"@)
}

pub fn is_source_file(ext: &str, name: &str) -> (r: bool)
    ensures
        r == source_name(ext@, name@),
{
    let exts = ["ts", "tsx", "js", "jsx", "py", "rs", "go", "rb", "java"];
    assert(views_of(exts@) =~= source_extensions());
    let e = ext.to_owned();
    let mut found = false;
    let mut i: usize = 0;
    while i < exts.len()
        invariant
            i <= exts@.len(),
            e@ == ext@,
            views_of(exts@) == source_extensions(),
            found == exists|k: int| 0 <= k < i && source_extensions()[k] == ext@,
        decreases exts@.len() - i,
    {
        assert(views_of(exts@)[i as int] == exts@[i as int]@);
        if e == String::from_str(exts[i]) {
            found = true;
        }
        i = i + 1;
    }
    assert(found == source_extensions().contains(ext@));
    found && !is_test_file_name(name) && !str_ends_with(name, ".d.ts")
}

/// Directory and file names the scan never enters.
pub open spec fn skipped_names(for_tests: bool) -> Seq<Seq<char>> {
    if for_tests {
        seq!["node_modules"@, "target"@, "dist"@, "build"@, ".git"@, "__pycache__"@]
    } else {
        seq![
            "node_modules"@, "target"@, "dist"@, "build"@, ".git"@, "__pycache__"@, ".next"@,
            "coverage"@, ".turbo"@,
        ]
    }
}

/// Whether the walk for source files (or, with `for_tests`, for test
/// files) skips an entry named `name`.
pub fn is_skipped_entry(name: &str, for_tests: bool) -> (r: bool)
    ensures
        r == any_of(name@, skipped_names(for_tests)),
{
    if for_tests {
        let p = ["node_modules", "target", "dist", "build", ".git", "__pycache__"];
        assert(views_of(p@) =~= skipped_names(true));
        contains_any(name, &p)
    } else {
        let p = ["node_modules", "target", "dist", "build", ".git", "__pycache__", ".next", "coverage", ".turbo"];
        assert(views_of(p@) =~= skipped_names(false));
        contains_any(name, &p)
    }
}

/// The name of the file a test file tests: its test marker taken out.
pub open spec fn tested_name(name: Seq<char>) -> Seq<char> {
    replace_all(
        replace_all(
            replace_all(replace_all(replace_all(name, ".test."@, "."@), ".spec."@, "."@), "_test."@, "."@),
            "_test.go"@,
            ".go"@,
        ),
        "_test.py"@,
        ".py"@,
    )
}

pub fn test_base_name(name: &str) -> (r: String)
    ensures
        r@ == tested_name(name@),
{
    proof {
        reveal_strlit(".test.");
        reveal_strlit(".spec.");
        reveal_strlit("_test.");
        reveal_strlit("_test.go");
        reveal_strlit("_test.py");
        assert(".test."@.len() > 0 && ".spec."@.len() > 0 && "_test."@.len() > 0);
        assert("_test.go"@.len() > 0 && "_test.py"@.len() > 0);
    }
    let a = replace_str(name, ".test.", ".");
    let b = replace_str(a.as_str(), ".spec.", ".");
    let c = replace_str(b.as_str(), "_test.", ".");
    let d = replace_str(c.as_str(), "_test.go", ".go");
    replace_str(d.as_str(), "_test.py", ".py")
}

/// A source file found by the walk.
#[derive(Debug, Clone)]
pub struct SourceFile {
    pub path: String,
    pub file_name: String,
    pub extension: String,
}

/// A test file found by the walk, and the file name of what it tests.
#[derive(Debug, Clone)]
pub struct TestFile {
    pub base_name: String,
    pub path: String,
}

#[derive(Debug, Clone)]
pub struct ScanResult {
    pub path: String,
    pub file_type: String,
    pub risk_level: RiskLevel,
    pub has_tests: bool,
    pub test_file: Option<String>,
    pub reason: String,
}

/// The path of the last test file whose base name is `name`.
pub open spec fn test_for(tests: Seq<TestFile>, name: Seq<char>) -> Option<Seq<char>>
    decreases tests.len(),
{
    if tests.len() == 0 {
        None
    } else if tests.last().base_name@ == name {
        Some(tests.last().path@)
    } else {
        test_for(tests.drop_last(), name)
    }
}

fn find_test(tests: &Vec<TestFile>, name: &String) -> (r: Option<String>)
    ensures
        opt_view(r) == test_for(tests@, name@),
{
    let mut k = tests.len();
    assert(tests@.subrange(0, k as int) == tests@);
    while k > 0
        invariant
            k <= tests@.len(),
            test_for(tests@, name@) == test_for(tests@.subrange(0, k as int), name@),
        decreases k,
    {
        assert(tests@.subrange(0, k as int).drop_last() == tests@.subrange(0, k - 1));
        if tests[k - 1].base_name == *name {
            return Some(tests[k - 1].path.clone());
        }
        k = k - 1;
    }
    None
}

pub open spec fn result_matches(r: ScanResult, s: SourceFile, tests: Seq<TestFile>) -> bool {
    &&& r.path@ == s.path@
    &&& r.file_type@ == s.extension@
    &&& opt_view(r.test_file) == test_for(tests, s.file_name@)
    &&& r.has_tests == r.test_file is Some
    &&& r.risk_level == risk_of(lowercase_of(s.path@)).0
    &&& r.reason@ == risk_of(lowercase_of(s.path@)).1
}

/// For each source file: its matching test file, if any, and its risk.
pub fn analyze_coverage(sources: &Vec<SourceFile>, tests: &Vec<TestFile>) -> (r: Vec<ScanResult>)
    ensures
        r@.len() == sources@.len(),
        forall|i: int| 0 <= i < sources@.len() ==> result_matches(#[trigger] r@[i], sources@[i], tests@),
{
    let mut out: Vec<ScanResult> = Vec::new();
    let mut i: usize = 0;
    while i < sources.len()
        invariant
            i <= sources@.len(),
            out@.len() == i,
            forall|k: int| 0 <= k < i ==> result_matches(#[trigger] out@[k], sources@[k], tests@),
        decreases sources@.len() - i,
    {
        let s = &sources[i];
        let test_file = find_test(tests, &s.file_name);
        let lowered = to_lowercase(s.path.as_str());
        let (risk_level, reason) = determine_risk(lowered.as_str(), s.file_name.as_str());
        out.push(
            ScanResult {
                path: s.path.clone(),
                file_type: s.extension.clone(),
                risk_level,
                has_tests: test_file.is_some(),
                test_file,
                reason,
            },
        );
        i = i + 1;
    }
    out
}

} // verus!
