//! Names derived from file paths and suggestion categories.
use vstd::prelude::*;
use crate::text::{chars_of, string_of_range};

verus! {

/// The text after the last `.` of `s`, or all of `s` when it has none.
pub open spec fn extension(s: Seq<char>) -> Seq<char>
    decreases s.len(),
{
    if s.len() == 0 {
        s
    } else if s.last() == '.' {
        Seq::empty()
    } else {
        extension(s.drop_last()).push(s.last())
    }
}

/// The extension of `path`, as `extension` says.
pub fn path_extension(path: &str) -> (r: String)
    ensures
        r@ == extension(path@),
{
    let v = chars_of(path);
    let mut k = v.len();
    while k > 0 && v[k - 1] != '.'
        invariant
            k <= v@.len(),
            forall|j: int| k <= j < v@.len() ==> v@[j] != '.',
        decreases k,
    {
        k = k - 1;
    }
    proof {
        lemma_extension_at(v@, k as int);
    }
    string_of_range(&v, k, v.len())
}

proof fn lemma_extension_at(s: Seq<char>, k: int)
    requires
        0 <= k <= s.len(),
        forall|j: int| k <= j < s.len() ==> s[j] != '.',
        k == 0 || s[k - 1] == '.',
    ensures
        extension(s) == s.subrange(k, s.len() as int),
    decreases s.len(),
{
    if s.len() == k {
        if k > 0 {
            assert(s.last() == '.');
        }
        assert(s.subrange(k, k) =~= Seq::<char>::empty());
    } else {
        let d = s.drop_last();
        lemma_extension_at(d, k);
        assert(s.subrange(k, s.len() as int) =~= d.subrange(k, d.len() as int).push(s.last()));
    }
}

pub fn eq_lit(s: &String, lit: &str) -> (r: bool)
    ensures
        r == (s@ == lit@),
{
    *s == String::from_str(lit)
}

/// Language name for a file extension; `text` when unknown.
pub open spec fn language_name(ext: Seq<char>) -> Seq<char> {
    if ext == "ts"@ || ext == "tsx"@ {
        "typescript"@
    } else if ext == "js"@ || ext == "jsx"@ {
        "javascript"@
    } else if ext == "py"@ {
        "python"@
    } else if ext == "rs"@ {
        "rust"@
    } else if ext == "go"@ {
        "go"@
    } else if ext == "java"@ {
        "java"@
    } else if ext == "rb"@ {
        "ruby"@
    } else if ext == "php"@ {
        "php"@
    } else if ext == "cs"@ {
        "csharp"@
    } else if ext == "cpp"@ || ext == "cc"@ || ext == "cxx"@ {
        "cpp"@
    } else if ext == "c"@ || ext == "h"@ {
        "c"@
    } else if ext == "json"@ {
        "json"@
    } else if ext == "yaml"@ || ext == "yml"@ {
        "yaml"@
    } else if ext == "toml"@ {
        "toml"@
    } else if ext == "md"@ {
        "markdown"@
    } else if ext == "sql"@ {
        "sql"@
    } else if ext == "sh"@ || ext == "bash"@ {
        "shell"@
    } else if ext == "css"@ {
        "css"@
    } else if ext == "scss"@ || ext == "sass"@ {
        "scss"@
    } else if ext == "html"@ || ext == "htm"@ {
        "html"@
    } else {
        "text"@
    }
}

/// The language of the file at `path`, from its extension.
pub fn detect_language(path: &str) -> (r: String)
    ensures
        r@ == language_name(extension(path@)),
{
    let e = path_extension(path);
    let name = if eq_lit(&e, "ts") || eq_lit(&e, "tsx") {
        "typescript"
    } else if eq_lit(&e, "js") || eq_lit(&e, "jsx") {
        "javascript"
    } else if eq_lit(&e, "py") {
        "python"
    } else if eq_lit(&e, "rs") {
        "rust"
    } else if eq_lit(&e, "go") {
        "go"
    } else if eq_lit(&e, "java") {
        "java"
    } else if eq_lit(&e, "rb") {
        "ruby"
    } else if eq_lit(&e, "php") {
        "php"
    } else if eq_lit(&e, "cs") {
        "csharp"
    } else if eq_lit(&e, "cpp") || eq_lit(&e, "cc") || eq_lit(&e, "cxx") {
        "cpp"
    } else if eq_lit(&e, "c") || eq_lit(&e, "h") {
        "c"
    } else if eq_lit(&e, "json") {
        "json"
    } else if eq_lit(&e, "yaml") || eq_lit(&e, "yml") {
        "yaml"
    } else if eq_lit(&e, "toml") {
        "toml"
    } else if eq_lit(&e, "md") {
        "markdown"
    } else if eq_lit(&e, "sql") {
        "sql"
    } else if eq_lit(&e, "sh") || eq_lit(&e, "bash") {
        "shell"
    } else if eq_lit(&e, "css") {
        "css"
    } else if eq_lit(&e, "scss") || eq_lit(&e, "sass") {
        "scss"
    } else if eq_lit(&e, "html") || eq_lit(&e, "htm") {
        "html"
    } else {
        "text"
    };
    String::from_str(name)
}

/// Language name of a source file for the request context; `None` when unknown.
pub open spec fn source_language_name(ext: Seq<char>) -> Option<Seq<char>> {
    let n = language_name(ext);
    if n == "json"@ || n == "yaml"@ || n == "toml"@ || n == "markdown"@ || n == "sql"@ || n
        == "shell"@ || n == "css"@ || n == "scss"@ || n == "html"@ || n == "text"@ {
        None
    } else {
        Some(n)
    }
}

/// The language of a source file at `path`, if it is a known programming language.
pub fn detect_source_language(path: &str) -> (r: Option<String>)
    ensures
        match r {
            Some(s) => source_language_name(extension(path@)) == Some(s@),
            None => source_language_name(extension(path@)) is None,
        },
{
    let n = detect_language(path);
    if eq_lit(&n, "json") || eq_lit(&n, "yaml") || eq_lit(&n, "toml") || eq_lit(&n, "markdown")
        || eq_lit(&n, "sql") || eq_lit(&n, "shell") || eq_lit(&n, "css") || eq_lit(&n, "scss")
        || eq_lit(&n, "html") || eq_lit(&n, "text") {
        None
    } else {
        Some(n)
    }
}

/// Display name of a suggestion category; other categories show as they are.
pub open spec fn category_name(c: Seq<char>) -> Seq<char> {
    if c == "unit"@ {
        "Unit test"@
    } else if c == "integration"@ {
        "Integration test"@
    } else if c == "security"@ {
        "Security test"@
    } else if c == "edge_case"@ {
        "Edge case test"@
    } else if c == "regression"@ {
        "Regression test"@
    } else {
        c
    }
}

pub fn format_category(category: &str) -> (r: String)
    ensures
        r@ == category_name(category@),
{
    let c = category.to_owned();
    if eq_lit(&c, "unit") {
        String::from_str("Unit test")
    } else if eq_lit(&c, "integration") {
        String::from_str("Integration test")
    } else if eq_lit(&c, "security") {
        String::from_str("Security test")
    } else if eq_lit(&c, "edge_case") {
        String::from_str("Edge case test")
    } else if eq_lit(&c, "regression") {
        String::from_str("Regression test")
    } else {
        c
    }
}

} // verus!
