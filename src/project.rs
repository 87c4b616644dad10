//! Project detection and test-runner commands.
use vstd::prelude::*;
use crate::diff::string_views;
use crate::language::eq_lit;
use crate::text::{contains, str_contains};

verus! {

/// Which marker files exist in the project root, and what two of them hold.
#[derive(Debug, Clone, Default)]
pub struct ProjectFiles {
    /// `next.config.js`, `.ts` or `.mjs`.
    pub next_config: bool,
    /// `vitest.config.ts` or `.js`.
    pub vitest_config: bool,
    /// `vitest.config.mts`.
    pub vitest_config_mts: bool,
    /// `jest.config.ts` or `.js`.
    pub jest_config: bool,
    /// `jest.config.json`.
    pub jest_config_json: bool,
    /// `pytest.ini`, `pyproject.toml` or `setup.py`.
    pub python_config: bool,
    pub pyproject: Option<String>,
    pub cargo_toml: bool,
    pub go_mod: bool,
    pub package_json: Option<String>,
}

pub open spec fn project_type_of(f: ProjectFiles) -> Seq<char> {
    if f.next_config {
        "nextjs"@
    } else if f.package_json is Some {
        "node"@
    } else if f.cargo_toml {
        "rust"@
    } else {
        "unknown"@
    }
}

pub fn detect_project_type(f: &ProjectFiles) -> (r: &'static str)
    ensures
        r@ == project_type_of(*f),
{
    if f.next_config {
        "nextjs"
    } else if f.package_json.is_some() {
        "node"
    } else if f.cargo_toml {
        "rust"
    } else {
        "unknown"
    }
}

/// The runner written into a new project configuration.
pub open spec fn initial_runner_of(f: ProjectFiles) -> Seq<char> {
    if f.vitest_config {
        "vitest"@
    } else if f.jest_config {
        "jest"@
    } else {
        match f.package_json {
            Some(c) => if contains(c@, "vitest"@) {
                "vitest"@
            } else if contains(c@, "jest"@) {
                "jest"@
            } else {
                "vitest"@
            },
            None => "vitest"@,
        }
    }
}

pub fn initial_test_runner(f: &ProjectFiles) -> (r: &'static str)
    ensures
        r@ == initial_runner_of(*f),
{
    if f.vitest_config {
        return "vitest";
    }
    if f.jest_config {
        return "jest";
    }
    match &f.package_json {
        Some(c) => if str_contains(c.as_str(), "vitest") {
            "vitest"
        } else if str_contains(c.as_str(), "jest") {
            "jest"
        } else {
            "vitest"
        },
        None => "vitest",
    }
}

/// The runner to use: the configured one, else one recognised from the
/// project's files, else none.
pub open spec fn runner_of(configured: Option<Seq<char>>, f: ProjectFiles) -> Option<Seq<char>> {
    match configured {
        Some(c) => Some(c),
        None => if f.vitest_config || f.vitest_config_mts {
            Some("vitest"@)
        } else if f.jest_config || f.jest_config_json {
            Some("jest"@)
        } else if f.python_config && f.pyproject is Some && contains(f.pyproject->0@, "pytest"@) {
            Some("pytest"@)
        } else if f.cargo_toml {
            Some("cargo-test"@)
        } else if f.go_mod {
            Some("go-test"@)
        } else if f.package_json is Some {
            Some("vitest"@)
        } else {
            None
        },
    }
}

pub fn detect_test_runner(configured: &Option<String>, f: &ProjectFiles) -> (r: Option<String>)
    ensures
        crate::text::opt_view(r) == runner_of(crate::text::opt_view(*configured), *f),
{
    if let Some(c) = configured {
        return Some(c.clone());
    }
    let name = if f.vitest_config || f.vitest_config_mts {
        "vitest"
    } else if f.jest_config || f.jest_config_json {
        "jest"
    } else if f.python_config && match &f.pyproject {
        Some(p) => str_contains(p.as_str(), "pytest"),
        None => false,
    } {
        "pytest"
    } else if f.cargo_toml {
        "cargo-test"
    } else if f.go_mod {
        "go-test"
    } else if f.package_json.is_some() {
        "vitest"
    } else {
        return None;
    };
    Some(String::from_str(name))
}

/// A program and its arguments.
#[derive(Debug, Clone)]
pub struct RunCommand {
    pub program: String,
    pub args: Vec<String>,
    /// Cargo runs every test; the given files were not passed on.
    pub files_ignored: bool,
}

/// The command that runs `files` with `runner`, then `extra` arguments.
pub open spec fn command_of(runner: Seq<char>, files: Seq<Seq<char>>, extra: Seq<Seq<char>>) -> (Seq<char>, Seq<Seq<char>>) {
    if runner == "vitest"@ {
        ("npx"@, seq!["vitest"@, "run"@] + files + extra)
    } else if runner == "jest"@ {
        ("npx"@, seq!["jest"@] + files + extra)
    } else if runner == "pytest"@ {
        ("pytest"@, files + extra)
    } else if runner == "cargo-test"@ {
        ("cargo"@, seq!["test"@] + extra)
    } else if runner == "go-test"@ {
        ("go"@, seq!["test"@] + (if files.len() == 0 {
            seq!["./..."@]
        } else {
            files
        }) + extra)
    } else {
        (runner, files + extra)
    }
}

fn extend_strings(dst: &mut Vec<String>, src: &Vec<String>)
    ensures
        string_views(final(dst)@) == string_views(old(dst)@) + string_views(src@),
{
    let mut i: usize = 0;
    while i < src.len()
        invariant
            i <= src@.len(),
            string_views(dst@) == string_views(old(dst)@) + string_views(src@.subrange(0, i as int)),
        decreases src@.len() - i,
    {
        let ghost before = dst@;
        dst.push(src[i].clone());
        assert(string_views(dst@) =~= string_views(before).push(src@[i as int]@));
        assert(string_views(src@.subrange(0, i + 1)) =~= string_views(src@.subrange(0, i as int)).push(src@[i as int]@));
        i = i + 1;
    }
    assert(src@.subrange(0, i as int) == src@);
}

fn strings_of(items: &[&str]) -> (r: Vec<String>)
    ensures
        string_views(r@) == items@.map_values(|s: &str| s@),
{
    let mut r: Vec<String> = Vec::new();
    let mut i: usize = 0;
    while i < items.len()
        invariant
            i <= items@.len(),
            string_views(r@) == items@.subrange(0, i as int).map_values(|s: &str| s@),
        decreases items@.len() - i,
    {
        r.push(String::from_str(items[i]));
        assert(items@.subrange(0, i + 1).map_values(|s: &str| s@) =~= items@.subrange(0, i as int).map_values(|s: &str| s@).push(items@[i as int]@));
        assert(string_views(r@) =~= items@.subrange(0, i + 1).map_values(|s: &str| s@));
        i = i + 1;
    }
    assert(items@.subrange(0, i as int) == items@);
    r
}

proof fn lemma_runner_names_distinct()
    ensures
        "vitest"@ != "jest"@,
        "vitest"@ != "pytest"@,
        "vitest"@ != "cargo-test"@,
        "vitest"@ != "go-test"@,
        "jest"@ != "pytest"@,
        "jest"@ != "cargo-test"@,
        "jest"@ != "go-test"@,
        "pytest"@ != "cargo-test"@,
        "pytest"@ != "go-test"@,
        "cargo-test"@ != "go-test"@,
{
    reveal_strlit("vitest");
    reveal_strlit("jest");
    reveal_strlit("pytest");
    reveal_strlit("cargo-test");
    reveal_strlit("go-test");
    assert("vitest"@.len() == 6 && "vitest"@[0] == 'v');
    assert("pytest"@.len() == 6 && "pytest"@[0] == 'p');
    assert("jest"@.len() == 4);
    assert("cargo-test"@.len() == 10);
    assert("go-test"@.len() == 7);
}

fn one_string(s: &str) -> (r: Vec<String>)
    ensures
        string_views(r@) == seq![s@],
{
    let mut r: Vec<String> = Vec::new();
    r.push(String::from_str(s));
    assert(string_views(r@) =~= seq![s@]);
    r
}

/// The command line for `runner`; an unknown runner is run as a program.
pub fn build_command(runner: &String, test_files: &Vec<String>, extra_args: &Vec<String>) -> (r: RunCommand)
    ensures
        r.program@ == command_of(runner@, string_views(test_files@), string_views(extra_args@)).0,
        string_views(r.args@) == command_of(runner@, string_views(test_files@), string_views(extra_args@)).1,
        r.files_ignored == (runner@ == "cargo-test"@ && test_files@.len() > 0),
{
    let (program, mut args, files_ignored) = if eq_lit(runner, "vitest") {
        let a = ["vitest", "run"];
        (String::from_str("npx"), strings_of(&a), false)
    } else if eq_lit(runner, "jest") {
        (String::from_str("npx"), one_string("jest"), false)
    } else if eq_lit(runner, "pytest") {
        (String::from_str("pytest"), Vec::new(), false)
    } else if eq_lit(runner, "cargo-test") {
        (String::from_str("cargo"), one_string("test"), test_files.len() > 0)
    } else if eq_lit(runner, "go-test") {
        (String::from_str("go"), one_string("test"), false)
    } else {
        (runner.clone(), Vec::new(), false)
    };
    let ghost start = string_views(args@);
    proof {
        lemma_runner_names_distinct();
        if runner@ == "vitest"@ {
            assert(start =~= seq!["vitest"@, "run"@]);
        } else if runner@ == "jest"@ || runner@ == "cargo-test"@ || runner@ == "go-test"@ {
            assert(start.len() == 1);
        } else {
            assert(start =~= Seq::<Seq<char>>::empty());
        }
    }
    if eq_lit(runner, "go-test") && test_files.len() == 0 {
        let more = one_string("./...");
        extend_strings(&mut args, &more);
    } else if !eq_lit(runner, "cargo-test") {
        extend_strings(&mut args, test_files);
    }
    extend_strings(&mut args, extra_args);
    proof {
        let f = string_views(test_files@);
        let x = string_views(extra_args@);
        if runner@ == "vitest"@ {
            assert(string_views(args@) =~= seq!["vitest"@, "run"@] + f + x);
        } else if runner@ == "jest"@ {
            assert(string_views(args@) =~= seq!["jest"@] + f + x);
        } else if runner@ == "pytest"@ {
            assert(string_views(args@) =~= f + x);
        } else if runner@ == "cargo-test"@ {
            assert(string_views(args@) =~= seq!["test"@] + x);
        } else if runner@ == "go-test"@ {
            if f.len() == 0 {
                assert(string_views(args@) =~= seq!["test"@] + seq!["./..."@] + x);
            } else {
                assert(string_views(args@) =~= seq!["test"@] + f + x);
            }
        } else {
            assert(string_views(args@) =~= f + x);
        }
    }
    RunCommand { program, args, files_ignored }
}

} // verus!
