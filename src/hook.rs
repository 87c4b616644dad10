//! The pre-commit hook script: composing it and recognising it.
use vstd::prelude::*;
use crate::text::{contains, starts_with, trim, trim_end, trim_bounds, chars_of, string_of_range, str_contains, str_starts_with};
use crate::args::InstallArgs;

verus! {

/// First line of the section this tool adds to a hook.
pub const PRE_COMMIT_HOOK_MARKER: &'static str = "# VibeTap pre-commit hook";

pub open spec fn marker() -> Seq<char> {
    "# VibeTap pre-commit hook"@
}

pub open spec fn advisory_hook(cmd: Seq<char>) -> Seq<char> {
    "\n"@ + marker() + "\n# Shows test suggestions before commit (advisory only)\nif command -v vibetap >/dev/null 2>&1; then\n    "@
        + cmd + " || true\nfi\n# End VibeTap hook\n"@
}

pub open spec fn blocking_hook(cmd: Seq<char>) -> Seq<char> {
    "\n"@ + marker() + "\n# Shows test suggestions and blocks commit if suggestions are available\nif command -v vibetap >/dev/null 2>&1; then\n    output=$("@
        + cmd + " 2>&1)\n    result=$?\n    if [ -n \"$output\" ]; then\n        echo \"$output\"\n        echo \"\"\n        echo \"Commit blocked: Test suggestions available.\"\n        echo \"Run 'vibetap apply' to add tests, or commit with --no-verify to skip.\"\n        exit 1\n    fi\nfi\n# End VibeTap hook\n"@
}

/// The hook section that shows suggestions and never blocks.
pub fn generate_non_blocking_hook(vibetap_cmd: &str) -> (r: String)
    ensures
        r@ == advisory_hook(vibetap_cmd@),
{
    let mut s = String::from_str("\n");
    s.append(PRE_COMMIT_HOOK_MARKER);
    s.append("\n# Shows test suggestions before commit (advisory only)\nif command -v vibetap >/dev/null 2>&1; then\n    ");
    s.append(vibetap_cmd);
    s.append(" || true\nfi\n# End VibeTap hook\n");
    s
}

/// The hook section that blocks the commit when suggestions are shown.
pub fn generate_blocking_hook(vibetap_cmd: &str) -> (r: String)
    ensures
        r@ == blocking_hook(vibetap_cmd@),
{
    let mut s = String::from_str("\n");
    s.append(PRE_COMMIT_HOOK_MARKER);
    s.append("\n# Shows test suggestions and blocks commit if suggestions are available\nif command -v vibetap >/dev/null 2>&1; then\n    output=$(");
    s.append(vibetap_cmd);
    s.append(" 2>&1)\n    result=$?\n    if [ -n \"$output\" ]; then\n        echo \"$output\"\n        echo \"\"\n        echo \"Commit blocked: Test suggestions available.\"\n        echo \"Run 'vibetap apply' to add tests, or commit with --no-verify to skip.\"\n        exit 1\n    fi\nfi\n# End VibeTap hook\n");
    s
}

pub open spec fn hook_command(security_only: bool) -> Seq<char> {
    if security_only {
        "vibetap now --staged --quiet --security"@
    } else {
        "vibetap now --staged --quiet"@
    }
}

/// The whole hook file after installing into `existing` (`None`: no hook
/// yet), or `None` when the section is already there.
pub open spec fn installed_script(existing: Option<Seq<char>>, block: bool, security_only: bool) -> Option<Seq<char>> {
    let cmd = hook_command(security_only);
    let hook = if block {
        blocking_hook(cmd)
    } else {
        advisory_hook(cmd)
    };
    match existing {
        Some(e) => if contains(e, marker()) {
            None
        } else if starts_with(e, "#!/"@) {
            Some(trim_end(e) + "\n\n"@ + hook)
        } else {
            Some("#!/bin/sh\n"@ + trim_end(e) + "\n\n"@ + hook)
        },
        None => Some("#!/bin/sh\n"@ + hook),
    }
}

/// `s` without trailing white space.
pub fn trim_end_string(s: &str) -> (r: String)
    ensures
        r@ == trim_end(s@),
{
    let v = chars_of(s);
    let mut b = v.len();
    while b > 0 && crate::text::is_white_char(v[b - 1])
        invariant
            b <= v@.len(),
            forall|k: int| b <= k < v@.len() ==> crate::text::is_white(#[trigger] v@[k]),
        decreases b,
    {
        b = b - 1;
    }
    proof {
        lemma_trim_end_at(v@, b as int);
    }
    string_of_range(&v, 0, b)
}

proof fn lemma_trim_end_at(s: Seq<char>, j: int)
    requires
        0 <= j <= s.len(),
        forall|k: int| j <= k < s.len() ==> crate::text::is_white(#[trigger] s[k]),
        j == 0 || !crate::text::is_white(s[j - 1]),
    ensures
        trim_end(s) == s.subrange(0, j),
    decreases s.len() - j,
{
    if j == s.len() {
        assert(s.subrange(0, j) == s);
    } else {
        let t = s.drop_last();
        assert forall|k: int| j <= k < t.len() implies crate::text::is_white(#[trigger] t[k]) by {
            assert(t[k] == s[k]);
        }
        if j > 0 {
            assert(t[j - 1] == s[j - 1]);
        }
        lemma_trim_end_at(t, j);
        assert(t.subrange(0, j) == s.subrange(0, j));
    }
}

/// The hook file after installing the section into `existing`, or `None`
/// when it is already installed.
pub fn install_script(existing: &Option<String>, args: InstallArgs) -> (r: Option<String>)
    ensures
        crate::text::opt_view(r) == installed_script(
            crate::text::opt_view(*existing),
            args.block,
            args.security_only,
        ),
{
    let mut cmd = String::from_str("vibetap now --staged --quiet");
    if args.security_only {
        cmd.append(" --security");
        proof {
            reveal_strlit("vibetap now --staged --quiet");
            reveal_strlit(" --security");
            reveal_strlit("vibetap now --staged --quiet --security");
            assert(cmd@ =~= hook_command(true));
        }
    }
    assert(cmd@ == hook_command(args.security_only));
    let hook = if args.block {
        generate_blocking_hook(cmd.as_str())
    } else {
        generate_non_blocking_hook(cmd.as_str())
    };
    match existing {
        Some(e) => {
            if str_contains(e.as_str(), PRE_COMMIT_HOOK_MARKER) {
                return None;
            }
            let mut s = if str_starts_with(e.as_str(), "#!/") {
                String::new()
            } else {
                String::from_str("#!/bin/sh\n")
            };
            let t = trim_end_string(e.as_str());
            s.append(t.as_str());
            s.append("\n\n");
            s.append(hook.as_str());
            assert(s@ =~= installed_script(crate::text::opt_view(*existing), args.block, args.security_only)->0);
            Some(s)
        },
        None => {
            let mut s = String::from_str("#!/bin/sh\n");
            s.append(hook.as_str());
            Some(s)
        },
    }
}

/// What a hook file shows about the installed section.
#[derive(Debug, Clone, Copy, PartialEq, Eq)]
pub struct HookStatus {
    pub installed: bool,
    pub blocking: bool,
    pub security_only: bool,
}

/// Reads the status of the section from a hook file's content.
pub fn hook_status(content: &str) -> (r: HookStatus)
    ensures
        r.installed == contains(content@, marker()),
        r.blocking == contains(content@, "exit $result"@),
        r.security_only == contains(content@, "--security"@),
{
    HookStatus {
        installed: str_contains(content, PRE_COMMIT_HOOK_MARKER),
        blocking: str_contains(content, "exit $result"),
        security_only: str_contains(content, "--security"),
    }
}

/// The pieces of `s` between line feeds, empty pieces included.
pub open spec fn nl_fields(s: Seq<char>) -> Seq<Seq<char>>
    decreases s.len(),
{
    if s.len() == 0 {
        seq![Seq::empty()]
    } else {
        let f = nl_fields(s.drop_last());
        if s.last() == '\n' {
            f.push(Seq::empty())
        } else {
            f.update(f.len() - 1, f.last().push(s.last()))
        }
    }
}

pub open spec fn strip_cr(l: Seq<char>) -> Seq<char> {
    if l.len() > 0 && l.last() == '\r' {
        l.drop_last()
    } else {
        l
    }
}

/// The lines of `s` as `str::lines` gives them: split at `\n`, a `\r`
/// before it removed, no empty line after a final `\n`.
pub open spec fn lines_of(s: Seq<char>) -> Seq<Seq<char>> {
    let f = nl_fields(s);
    let body = f.drop_last().map_values(|l: Seq<char>| strip_cr(l));
    if f.last().len() == 0 {
        body
    } else {
        body.push(f.last())
    }
}

pub open spec fn end_marker() -> Seq<char> {
    "# End VibeTap hook"@
}

/// Lines kept so far, and whether the walk is inside our section.
pub struct SectionWalk {
    pub inside: bool,
    pub kept: Seq<Seq<char>>,
}

pub open spec fn walk_line(w: SectionWalk, line: Seq<char>) -> SectionWalk {
    if contains(line, marker()) {
        SectionWalk { inside: true, kept: w.kept }
    } else if w.inside && contains(line, end_marker()) {
        SectionWalk { inside: false, kept: w.kept }
    } else if !w.inside {
        SectionWalk { inside: false, kept: w.kept.push(line) }
    } else {
        w
    }
}

pub open spec fn walk_lines(ls: Seq<Seq<char>>) -> SectionWalk
    decreases ls.len(),
{
    if ls.len() == 0 {
        SectionWalk { inside: false, kept: Seq::empty() }
    } else {
        walk_line(walk_lines(ls.drop_last()), ls.last())
    }
}

pub open spec fn drop_trailing_empty(ls: Seq<Seq<char>>) -> Seq<Seq<char>>
    decreases ls.len(),
{
    if ls.len() > 0 && ls.last().len() == 0 {
        drop_trailing_empty(ls.drop_last())
    } else {
        ls
    }
}

pub open spec fn join_lines(ls: Seq<Seq<char>>) -> Seq<char>
    decreases ls.len(),
{
    if ls.len() == 0 {
        Seq::empty()
    } else if ls.len() == 1 {
        ls[0]
    } else {
        join_lines(ls.drop_last()) + "\n"@ + ls.last()
    }
}

/// The hook file with our section removed, or `None` when nothing but a
/// shebang (or nothing at all) would remain.
pub open spec fn uninstalled_script(content: Seq<char>) -> Option<Seq<char>> {
    let rest = join_lines(drop_trailing_empty(walk_lines(lines_of(content)).kept));
    if trim(rest).len() == 0 || trim(rest) == "#!/bin/sh"@ {
        None
    } else {
        Some(rest + "\n"@)
    }
}

pub open spec fn spans(v: Seq<char>, r: Seq<(usize, usize)>) -> Seq<Seq<char>> {
    Seq::new(r.len(), |i: int| v.subrange(r[i].0 as int, r[i].1 as int))
}

proof fn lemma_nl_fields_nonempty(s: Seq<char>)
    ensures
        nl_fields(s).len() >= 1,
    decreases s.len(),
{
    if s.len() > 0 {
        lemma_nl_fields_nonempty(s.drop_last());
    }
}

/// Bounds of the lines of `v`, as `lines_of` says.
pub(crate) fn line_bounds(v: &Vec<char>) -> (r: Vec<(usize, usize)>)
    ensures
        forall|i: int| 0 <= i < r@.len() ==> r@[i].0 <= #[trigger] r@[i].1 <= v@.len(),
        spans(v@, r@) == lines_of(v@),
{
    let mut r: Vec<(usize, usize)> = Vec::new();
    let mut start: usize = 0;
    let mut k: usize = 0;
    assert(v@.subrange(0, 0) =~= Seq::<char>::empty());
    assert(spans(v@, r@) =~~= nl_fields(v@.subrange(0, 0)).drop_last().map_values(|l: Seq<char>| strip_cr(l)));
    while k < v.len()
        invariant
            start <= k <= v@.len(),
            forall|i: int| 0 <= i < r@.len() ==> r@[i].0 <= #[trigger] r@[i].1 <= v@.len(),
            nl_fields(v@.subrange(0, k as int)).len() >= 1,
            spans(v@, r@) == nl_fields(v@.subrange(0, k as int)).drop_last().map_values(|l: Seq<char>| strip_cr(l)),
            nl_fields(v@.subrange(0, k as int)).last() == v@.subrange(start as int, k as int),
        decreases v@.len() - k,
    {
        let c = v[k];
        let ghost pre = v@.subrange(0, k + 1);
        let ghost f0 = nl_fields(v@.subrange(0, k as int));
        assert(pre.drop_last() == v@.subrange(0, k as int));
        assert(pre.last() == c);
        if c == '\n' {
            let end = if k > start && v[k - 1] == '\r' { k - 1 } else { k };
            proof {
                let l = v@.subrange(start as int, k as int);
                if k > start && v@[k - 1] == '\r' {
                    assert(l.last() == v@[k - 1]);
                    assert(l.drop_last() =~= v@.subrange(start as int, end as int));
                } else {
                    assert(l.len() > 0 ==> l.last() == v@[k - 1]);
                }
                assert(strip_cr(l) == v@.subrange(start as int, end as int));
            }
            let ghost old_r = r@;
            r.push((start, end));
            start = k + 1;
            assert(v@.subrange(start as int, k + 1) =~= Seq::<char>::empty());
            assert(nl_fields(pre) == f0.push(Seq::empty()));
            assert(nl_fields(pre).drop_last() == f0);
            assert(f0.map_values(|l: Seq<char>| strip_cr(l)) =~~= f0.drop_last().map_values(|l: Seq<char>| strip_cr(l)).push(strip_cr(f0.last())));
            assert(spans(v@, r@) =~~= spans(v@, old_r).push(v@.subrange(r@.last().0 as int, r@.last().1 as int)));
        } else {
            assert(v@.subrange(start as int, k + 1) == v@.subrange(start as int, k as int).push(c));
            assert(nl_fields(pre) == f0.update(f0.len() - 1, f0.last().push(c)));
            assert(nl_fields(pre).drop_last() =~= f0.drop_last());
        }
        proof {
            lemma_nl_fields_nonempty(pre);
        }
        k = k + 1;
    }
    assert(v@.subrange(0, k as int) == v@);
    if start < k {
        let ghost old_r = r@;
        r.push((start, k));
        assert(spans(v@, r@) =~~= spans(v@, old_r).push(v@.subrange(start as int, k as int)));
    } else {
        assert(v@.subrange(start as int, k as int).len() == 0);
    }
    r
}

/// The hook file once our section is removed from `content`, or `None`
/// when the file should be deleted.
pub fn uninstall_script(content: &str) -> (r: Option<String>)
    ensures
        crate::text::opt_view(r) == uninstalled_script(content@),
{
    let v = chars_of(content);
    let lines = line_bounds(&v);
    let ghost ls = lines_of(v@);
    let mut kept: Vec<(usize, usize)> = Vec::new();
    let mut inside = false;
    let mut i: usize = 0;
    assert(ls.subrange(0, 0) =~= Seq::<Seq<char>>::empty());
    assert(spans(v@, kept@) =~= Seq::<Seq<char>>::empty());
    while i < lines.len()
        invariant
            i <= lines@.len(),
            ls == lines_of(v@),
            spans(v@, lines@) == ls,
            forall|q: int| 0 <= q < lines@.len() ==> lines@[q].0 <= #[trigger] lines@[q].1 <= v@.len(),
            forall|q: int| 0 <= q < kept@.len() ==> kept@[q].0 <= #[trigger] kept@[q].1 <= v@.len(),
            walk_lines(ls.subrange(0, i as int)) == (SectionWalk { inside, kept: spans(v@, kept@) }),
        decreases lines@.len() - i,
    {
        let (a, b) = lines[i];
        let line = string_of_range(&v, a, b);
        assert(ls[i as int] == v@.subrange(a as int, b as int));
        assert(ls.subrange(0, i + 1).drop_last() == ls.subrange(0, i as int));
        assert(ls.subrange(0, i + 1).last() == ls[i as int]);
        let ghost w0 = walk_lines(ls.subrange(0, i as int));
        assert(walk_lines(ls.subrange(0, i + 1)) == walk_line(w0, line@));
        if str_contains(line.as_str(), PRE_COMMIT_HOOK_MARKER) {
            inside = true;
        } else if inside && str_contains(line.as_str(), "# End VibeTap hook") {
            inside = false;
        } else if !inside {
            let ghost old_kept = kept@;
            kept.push((a, b));
            assert(spans(v@, kept@) =~= spans(v@, old_kept).push(v@.subrange(a as int, b as int)));
        }
        i = i + 1;
    }
    assert(ls.subrange(0, i as int) == ls);
    let ghost all_kept = spans(v@, kept@);
    while kept.len() > 0 && kept[kept.len() - 1].0 == kept[kept.len() - 1].1
        invariant
            forall|q: int| 0 <= q < kept@.len() ==> kept@[q].0 <= #[trigger] kept@[q].1 <= v@.len(),
            drop_trailing_empty(all_kept) == drop_trailing_empty(spans(v@, kept@)),
        decreases kept@.len(),
    {
        let ghost before = spans(v@, kept@);
        kept.pop();
        assert(before.drop_last() =~= spans(v@, kept@));
    }
    assert(drop_trailing_empty(spans(v@, kept@)) == spans(v@, kept@));
    let mut rest = String::new();
    let mut j: usize = 0;
    assert(spans(v@, kept@).subrange(0, 0) =~= Seq::<Seq<char>>::empty());
    while j < kept.len()
        invariant
            j <= kept@.len(),
            forall|q: int| 0 <= q < kept@.len() ==> kept@[q].0 <= #[trigger] kept@[q].1 <= v@.len(),
            rest@ == join_lines(spans(v@, kept@).subrange(0, j as int)),
        decreases kept@.len() - j,
    {
        let (a, b) = kept[j];
        let piece = string_of_range(&v, a, b);
        let ghost sp = spans(v@, kept@);
        assert(sp.subrange(0, j + 1).drop_last() == sp.subrange(0, j as int));
        if j > 0 {
            rest.append("\n");
        } else {
            assert(sp.subrange(0, 1).len() == 1);
        }
        rest.append(piece.as_str());
        j = j + 1;
    }
    assert(spans(v@, kept@).subrange(0, j as int) == spans(v@, kept@));
    let rv = chars_of(rest.as_str());
    let (ta, tb) = trim_bounds(&rv, 0, rv.len());
    assert(rv@.subrange(0, rv@.len() as int) == rv@);
    let trimmed = string_of_range(&rv, ta, tb);
    if ta == tb || trimmed == String::from_str("#!/bin/sh") {
        return None;
    }
    rest.append("\n");
    Some(rest)
}

} // verus!
