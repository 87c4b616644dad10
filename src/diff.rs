//! Structured change hunks, folded from the line stream of a patch.
use vstd::prelude::*;
use crate::text::{push_char, starts_with, ends_with, chars_of};

verus! {

/// Offsets and lengths from a hunk header.
#[derive(Debug, Clone, Copy, PartialEq, Eq)]
pub struct HunkHeader {
    pub old_start: u32,
    pub old_lines: u32,
    pub new_start: u32,
    pub new_lines: u32,
}

/// One contiguous block of changed lines in one file.
#[derive(Debug, Clone)]
pub struct DiffHunk {
    pub file_path: String,
    pub old_start: u32,
    pub old_lines: u32,
    pub new_start: u32,
    pub new_lines: u32,
    /// Every line of the hunk, each prefixed by its origin marker.
    pub content: String,
}

/// The hunks of a change set, in document order, and the files they touch.
#[derive(Debug)]
pub struct StagedDiff {
    pub hunks: Vec<DiffHunk>,
    /// Distinct paths, in the order first seen.
    pub files_changed: Vec<String>,
}

/// Failure to extract a change set.
#[derive(Debug)]
pub enum GitError {
    /// The repository could not be read; the message says why.
    Git(String),
    /// No repository was found upward from the working directory.
    NotARepo,
    /// The change set holds no hunk.
    NoStagedChanges,
}

/// One line callback of a patch walk, as plain values.
#[derive(Debug, Clone)]
pub struct PatchLine {
    /// Path of the new side of the file delta the line belongs to.
    pub file: Option<String>,
    /// Header of the hunk the line belongs to.
    pub hunk: Option<HunkHeader>,
    /// Origin marker: `' '`, `'+'`, `'-'`, `'H'` for a hunk header, `'F'` for a file header, ...
    pub origin: char,
    /// The line's text, when it is valid UTF-8.
    pub text: Option<String>,
}

pub struct HunkView {
    pub file_path: Seq<char>,
    pub header: HunkHeader,
    pub content: Seq<char>,
}

impl View for DiffHunk {
    type V = HunkView;

    open spec fn view(&self) -> HunkView {
        HunkView {
            file_path: self.file_path@,
            header: HunkHeader {
                old_start: self.old_start,
                old_lines: self.old_lines,
                new_start: self.new_start,
                new_lines: self.new_lines,
            },
            content: self.content@,
        }
    }
}

pub struct LineView {
    pub file: Option<Seq<char>>,
    pub hunk: Option<HunkHeader>,
    pub origin: char,
    pub text: Option<Seq<char>>,
}

impl View for PatchLine {
    type V = LineView;

    open spec fn view(&self) -> LineView {
        LineView {
            file: match self.file {
                Some(f) => Some(f@),
                None => None,
            },
            hunk: self.hunk,
            origin: self.origin,
            text: match self.text {
                Some(t) => Some(t@),
                None => None,
            },
        }
    }
}

/// Hunks and changed files gathered so far, and the file now being walked.
pub struct DiffState {
    pub hunks: Seq<HunkView>,
    pub files: Seq<Seq<char>>,
    pub current: Seq<char>,
}

pub open spec fn is_content_origin(c: char) -> bool {
    c == '+' || c == '-' || c == ' '
}

/// The effect of one patch line on the gathered state.
pub open spec fn step(st: DiffState, l: LineView) -> DiffState {
    let current = match l.file {
        Some(f) => f,
        None => st.current,
    };
    let files = match l.file {
        Some(f) => if f.len() == 0 || st.files.contains(f) {
            st.files
        } else {
            st.files.push(f)
        },
        None => st.files,
    };
    let hunks = if l.origin == 'H' && l.hunk is Some && current.len() > 0 {
        st.hunks.push(HunkView { file_path: current, header: l.hunk->0, content: Seq::empty() })
    } else if is_content_origin(l.origin) && l.text is Some && st.hunks.len() > 0
        && st.hunks.last().file_path == current {
        st.hunks.update(
            st.hunks.len() - 1,
            HunkView {
                content: st.hunks.last().content.push(l.origin) + l.text->0,
                ..st.hunks.last()
            },
        )
    } else {
        st.hunks
    };
    DiffState { hunks, files, current }
}

/// What every gathered state satisfies: each hunk names a non-empty path
/// among the changed files, which are distinct and non-empty, and the
/// current file, when named, is among them.
pub open spec fn well_formed(st: DiffState) -> bool {
    &&& forall|i: int| 0 <= i < st.hunks.len() ==> (#[trigger] st.hunks[i]).file_path.len() > 0
        && st.files.contains(st.hunks[i].file_path)
    &&& st.current.len() > 0 ==> st.files.contains(st.current)
    &&& st.files.no_duplicates()
    &&& forall|i: int| 0 <= i < st.files.len() ==> (#[trigger] st.files[i]).len() > 0
}

proof fn lemma_step_well_formed(st: DiffState, l: LineView)
    requires
        well_formed(st),
    ensures
        well_formed(step(st, l)),
{
    let n = step(st, l);
    assert forall|f: Seq<char>| st.files.contains(f) implies n.files.contains(f) by {
        if n.files != st.files {
            let k = choose|k: int| 0 <= k < st.files.len() && st.files[k] == f;
            assert(n.files[k] == f);
        }
    }
    if n.files != st.files {
        assert(n.files[n.files.len() - 1] == l.file->0);
    }
    assert forall|i: int| 0 <= i < n.hunks.len() implies (#[trigger] n.hunks[i]).file_path.len() > 0
        && n.files.contains(n.hunks[i].file_path) by {
        if i < st.hunks.len() {
            assert(n.hunks[i].file_path == st.hunks[i].file_path);
        }
    }
}

proof fn lemma_walk_well_formed(lines: Seq<LineView>)
    ensures
        well_formed(walk(lines)),
    decreases lines.len(),
{
    if lines.len() > 0 {
        lemma_walk_well_formed(lines.drop_last());
        lemma_step_well_formed(walk(lines.drop_last()), lines.last());
    }
}

pub open spec fn empty_state() -> DiffState {
    DiffState { hunks: Seq::empty(), files: Seq::empty(), current: Seq::empty() }
}

/// The state after walking `lines` from the start.
pub open spec fn walk(lines: Seq<LineView>) -> DiffState
    decreases lines.len(),
{
    if lines.len() == 0 {
        empty_state()
    } else {
        step(walk(lines.drop_last()), lines.last())
    }
}

pub open spec fn hunk_views(hs: Seq<DiffHunk>) -> Seq<HunkView> {
    hs.map_values(|h: DiffHunk| h@)
}

pub open spec fn string_views(ss: Seq<String>) -> Seq<Seq<char>> {
    ss.map_values(|s: String| s@)
}

pub open spec fn line_views(ls: Seq<PatchLine>) -> Seq<LineView> {
    ls.map_values(|l: PatchLine| l@)
}

/// Accumulates a change set from patch lines fed in order.
pub struct DiffBuilder {
    pub hunks: Vec<DiffHunk>,
    pub files_changed: Vec<String>,
    pub current_file: String,
}

impl View for DiffBuilder {
    type V = DiffState;

    open spec fn view(&self) -> DiffState {
        DiffState {
            hunks: hunk_views(self.hunks@),
            files: string_views(self.files_changed@),
            current: self.current_file@,
        }
    }
}

/// Whether `ss` holds a string equal to `s`.
pub fn contains_string(ss: &Vec<String>, s: &String) -> (r: bool)
    ensures
        r == string_views(ss@).contains(s@),
{
    let mut i: usize = 0;
    while i < ss.len()
        invariant
            i <= ss@.len(),
            forall|k: int| 0 <= k < i ==> ss@[k]@ != s@,
        decreases ss@.len() - i,
    {
        if ss[i] == *s {
            assert(string_views(ss@)[i as int] == s@);
            return true;
        }
        i = i + 1;
    }
    assert forall|k: int| 0 <= k < ss@.len() implies string_views(ss@)[k] != s@ by {
        assert(string_views(ss@)[k] == ss@[k]@);
    }
    false
}

impl DiffBuilder {
    pub fn new() -> (r: DiffBuilder)
        ensures
            r@ == empty_state(),
    {
        let r = DiffBuilder { hunks: Vec::new(), files_changed: Vec::new(), current_file: String::new() };
        assert(hunk_views(r.hunks@) =~= Seq::empty());
        assert(string_views(r.files_changed@) =~= Seq::empty());
        r
    }

    /// Takes in the next line of the patch.
    pub fn feed(&mut self, line: &PatchLine)
        ensures
            final(self)@ == step(old(self)@, line@),
    {
        let ghost st = self@;
        let ghost l = line@;
        match &line.file {
            Some(f) => {
                if !f.as_str().is_empty() && !contains_string(&self.files_changed, f) {
                    self.files_changed.push(f.clone());
                    assert(string_views(self.files_changed@) =~= st.files.push(f@));
                }
                self.current_file = f.clone();
            },
            None => {},
        }
        assert(self@.files == step(st, l).files);
        assert(self@.current == step(st, l).current);
        assert(self@.hunks == st.hunks);
        if line.origin == 'H' && !self.current_file.as_str().is_empty() {
            match line.hunk {
                Some(h) => {
                    self.hunks.push(
                        DiffHunk {
                            file_path: self.current_file.clone(),
                            old_start: h.old_start,
                            old_lines: h.old_lines,
                            new_start: h.new_start,
                            new_lines: h.new_lines,
                            content: String::new(),
                        },
                    );
                    assert(hunk_views(self.hunks@) =~= step(st, l).hunks);
                },
                None => {},
            }
        } else if line.origin == '+' || line.origin == '-' || line.origin == ' ' {
            match &line.text {
                Some(t) => {
                    let n = self.hunks.len();
                    if n > 0 && self.hunks[n - 1].file_path == self.current_file {
                        let ghost before = self.hunks@;
                        let mut h = self.hunks.pop().unwrap();
                        assert(h == before[n - 1]);
                        push_char(&mut h.content, line.origin);
                        h.content.append(t.as_str());
                        self.hunks.push(h);
                        assert(hunk_views(self.hunks@) =~= step(st, l).hunks);
                    }
                },
                None => {},
            }
        }
    }

    /// The gathered change set; an empty hunk list is `NoStagedChanges`.
    pub fn finish(self) -> (r: Result<StagedDiff, GitError>)
        ensures
            self@.hunks.len() == 0 ==> r matches Err(GitError::NoStagedChanges),
            self@.hunks.len() > 0 ==> (r matches Ok(d) && hunk_views(d.hunks@) == self@.hunks
                && string_views(d.files_changed@) == self@.files),
    {
        if self.hunks.len() == 0 {
            return Err(GitError::NoStagedChanges);
        }
        Ok(StagedDiff { hunks: self.hunks, files_changed: self.files_changed })
    }
}

/// Folds the lines of a patch walk into a change set.
///
/// A hunk header line starts a new hunk for the current file; a context,
/// added or removed line is appended, with its origin marker, to the last
/// hunk when that hunk belongs to the current file. A walk that yields no
/// hunk is `NoStagedChanges`.
pub fn parse_diff(lines: &Vec<PatchLine>) -> (r: Result<StagedDiff, GitError>)
    ensures
        walk(line_views(lines@)).hunks.len() == 0 ==> r matches Err(GitError::NoStagedChanges),
        walk(line_views(lines@)).hunks.len() > 0 ==> (r matches Ok(d) && hunk_views(d.hunks@)
            == walk(line_views(lines@)).hunks && string_views(d.files_changed@) == walk(
            line_views(lines@),
        ).files),
        r matches Ok(d) ==> {
            &&& forall|i: int| 0 <= i < d.hunks@.len() ==> (#[trigger] d.hunks@[i]).file_path@.len() > 0
                && string_views(d.files_changed@).contains(d.hunks@[i].file_path@)
            &&& string_views(d.files_changed@).no_duplicates()
        },
{
    let ghost lv = line_views(lines@);
    let mut b = DiffBuilder::new();
    let mut i: usize = 0;
    assert(lv.subrange(0, 0) =~= Seq::<LineView>::empty());
    while i < lines.len()
        invariant
            i <= lines@.len(),
            lv == line_views(lines@),
            b@ == walk(lv.subrange(0, i as int)),
        decreases lines@.len() - i,
    {
        b.feed(&lines[i]);
        assert(lv.subrange(0, i + 1).drop_last() == lv.subrange(0, i as int));
        assert(lv[i as int] == lines@[i as int]@);
        i = i + 1;
    }
    assert(lv.subrange(0, i as int) == lv);
    proof {
        lemma_walk_well_formed(lv);
    }
    let r = b.finish();
    proof {
        if r is Ok {
            let d = r->Ok_0;
            assert forall|k: int| 0 <= k < d.hunks@.len() implies (#[trigger] d.hunks@[k]).file_path@.len() > 0
                && string_views(d.files_changed@).contains(d.hunks@[k].file_path@) by {
                assert(hunk_views(d.hunks@)[k] == d.hunks@[k]@);
            }
        }
    }
    r
}

pub open spec fn dot_slash() -> Seq<char> {
    seq!['.', '/']
}

/// `s` with every leading `./` removed.
pub open spec fn strip_dot_slash(s: Seq<char>) -> Seq<char>
    decreases s.len(),
{
    if s.len() >= 2 && starts_with(s, dot_slash()) {
        strip_dot_slash(s.subrange(2, s.len() as int))
    } else {
        s
    }
}

/// Whether `path` names the file `filter`: equal, or ending with it, once
/// leading `./` are removed from both.
pub open spec fn path_matches(path: Seq<char>, filter: Seq<char>) -> bool {
    let p = strip_dot_slash(path);
    let f = strip_dot_slash(filter);
    p == f || ends_with(p, f)
}

/// Index where `v[from..]` starts once leading `./` are removed.
fn strip_dot_slash_from(v: &Vec<char>, from: usize) -> (r: usize)
    requires
        from <= v@.len(),
    ensures
        from <= r <= v@.len(),
        v@.subrange(r as int, v@.len() as int) == strip_dot_slash(v@.subrange(from as int, v@.len() as int)),
    decreases v@.len() - from,
{
    let ghost s = v@.subrange(from as int, v@.len() as int);
    if v.len() >= 2 && from <= v.len() - 2 && v[from] == '.' && v[from + 1] == '/' {
        assert(s.subrange(0, 2) =~= dot_slash());
        assert(s.subrange(2, s.len() as int) == v@.subrange(from + 2, v@.len() as int));
        strip_dot_slash_from(v, from + 2)
    } else {
        assert(s.len() >= 2 ==> s[0] == v@[from as int] && s[1] == v@[from + 1]);
        assert(s.len() >= 2 ==> s.subrange(0, 2)[0] == s[0] && s.subrange(0, 2)[1] == s[1]);
        from
    }
}

/// Whether `path` names the file `filter`, in the sense of `path_matches`.
pub fn file_matches(path: &str, filter: &str) -> (r: bool)
    ensures
        r == path_matches(path@, filter@),
{
    let p = chars_of(path);
    let f = chars_of(filter);
    let pa = strip_dot_slash_from(&p, 0);
    let fa = strip_dot_slash_from(&f, 0);
    assert(p@.subrange(0, p@.len() as int) == p@);
    assert(f@.subrange(0, f@.len() as int) == f@);
    let ghost ps = p@.subrange(pa as int, p@.len() as int);
    let ghost fs = f@.subrange(fa as int, f@.len() as int);
    let plen = p.len() - pa;
    let flen = f.len() - fa;
    if flen > plen {
        assert(ps.len() < fs.len());
        return false;
    }
    let off = p.len() - flen;
    let mut i: usize = 0;
    while i < flen
        invariant
            flen == fs.len(),
            plen == ps.len(),
            flen <= plen,
            off == p@.len() - flen,
            off + flen == p@.len(),
            p@.len() <= usize::MAX,
            f@.len() <= usize::MAX,
            pa <= off,
            fa + flen == f@.len(),
            ps == p@.subrange(pa as int, p@.len() as int),
            fs == f@.subrange(fa as int, f@.len() as int),
            ps == strip_dot_slash(path@),
            fs == strip_dot_slash(filter@),
            i <= flen,
            forall|k: int| 0 <= k < i ==> p@[off + k] == #[trigger] f@[fa + k],
        decreases flen - i,
    {
        if p[off + i] != f[fa + i] {
            proof {
                assert(ps.subrange(ps.len() - fs.len(), ps.len() as int)[i as int] == p@[off + i]);
                assert(fs[i as int] == f@[fa + i]);
                if ps == fs {
                    assert(ps.subrange(ps.len() - fs.len(), ps.len() as int) == ps);
                }
                assert(ps.subrange(ps.len() - fs.len(), ps.len() as int) != fs);
                assert(!ends_with(ps, fs));
                assert(ps != fs);
            }
            return false;
        }
        i = i + 1;
    }
    assert forall|k: int| 0 <= k < fs.len() implies #[trigger] ps.subrange(ps.len() - fs.len(), ps.len() as int)[k] == fs[k] by {
        assert(ps.subrange(ps.len() - fs.len(), ps.len() as int)[k] == p@[off + k]);
        assert(fs[k] == f@[fa + k]);
    }
    assert(ps.subrange(ps.len() - fs.len(), ps.len() as int) =~= fs);
    true
}

fn copy_hunk(h: &DiffHunk) -> (r: DiffHunk)
    ensures
        r@ == h@,
{
    DiffHunk {
        file_path: h.file_path.clone(),
        old_start: h.old_start,
        old_lines: h.old_lines,
        new_start: h.new_start,
        new_lines: h.new_lines,
        content: h.content.clone(),
    }
}

/// Keeps only the hunks and changed files that name the file `filter`.
pub fn filter_to_file(diff: &StagedDiff, filter: &str) -> (r: StagedDiff)
    ensures
        hunk_views(r.hunks@) == hunk_views(diff.hunks@).filter(
            |h: HunkView| path_matches(h.file_path, filter@),
        ),
        string_views(r.files_changed@) == string_views(diff.files_changed@).filter(
            |p: Seq<char>| path_matches(p, filter@),
        ),
{
    let ghost hv = hunk_views(diff.hunks@);
    let ghost hp = |h: HunkView| path_matches(h.file_path, filter@);
    let mut hunks: Vec<DiffHunk> = Vec::new();
    let mut i: usize = 0;
    proof {
        reveal(Seq::filter);
        assert(hv.subrange(0, 0).filter(hp) =~= Seq::empty());
        assert(hunk_views(hunks@) =~= Seq::empty());
    }
    while i < diff.hunks.len()
        invariant
            i <= diff.hunks@.len(),
            hv == hunk_views(diff.hunks@),
            hp == (|h: HunkView| path_matches(h.file_path, filter@)),
            hunk_views(hunks@) == hv.subrange(0, i as int).filter(hp),
        decreases diff.hunks@.len() - i,
    {
        proof {
            reveal(Seq::filter);
            assert(hv.subrange(0, i + 1).drop_last() == hv.subrange(0, i as int));
            assert(hv[i as int] == diff.hunks@[i as int]@);
        }
        if file_matches(diff.hunks[i].file_path.as_str(), filter) {
            hunks.push(copy_hunk(&diff.hunks[i]));
            assert(hunk_views(hunks@) =~= hv.subrange(0, i as int).filter(hp).push(hv[i as int]));
        }
        i = i + 1;
    }
    assert(hv.subrange(0, i as int) == hv);
    let ghost sv = string_views(diff.files_changed@);
    let ghost sp = |p: Seq<char>| path_matches(p, filter@);
    let mut files: Vec<String> = Vec::new();
    let mut j: usize = 0;
    proof {
        reveal(Seq::filter);
        assert(sv.subrange(0, 0).filter(sp) =~= Seq::empty());
        assert(string_views(files@) =~= Seq::empty());
    }
    while j < diff.files_changed.len()
        invariant
            j <= diff.files_changed@.len(),
            sv == string_views(diff.files_changed@),
            sp == (|p: Seq<char>| path_matches(p, filter@)),
            string_views(files@) == sv.subrange(0, j as int).filter(sp),
        decreases diff.files_changed@.len() - j,
    {
        proof {
            reveal(Seq::filter);
            assert(sv.subrange(0, j + 1).drop_last() == sv.subrange(0, j as int));
            assert(sv[j as int] == diff.files_changed@[j as int]@);
        }
        if file_matches(diff.files_changed[j].as_str(), filter) {
            files.push(diff.files_changed[j].clone());
            assert(string_views(files@) =~= sv.subrange(0, j as int).filter(sp).push(sv[j as int]));
        }
        j = j + 1;
    }
    assert(sv.subrange(0, j as int) == sv);
    StagedDiff { hunks, files_changed: files }
}

/// The lines of a patch for the one file `f` with the one hunk `h`: its
/// header, then each `(origin, text)` of `body`.
pub open spec fn one_hunk_patch(f: Seq<char>, h: HunkHeader, body: Seq<(char, Seq<char>)>) -> Seq<LineView>
    decreases body.len(),
{
    if body.len() == 0 {
        seq![LineView { file: Some(f), hunk: Some(h), origin: 'H', text: None }]
    } else {
        one_hunk_patch(f, h, body.drop_last()).push(
            LineView { file: Some(f), hunk: Some(h), origin: body.last().0, text: Some(body.last().1) },
        )
    }
}

/// Each `(origin, text)` of `body`, the text behind its origin marker.
pub open spec fn marked_lines(body: Seq<(char, Seq<char>)>) -> Seq<char>
    decreases body.len(),
{
    if body.len() == 0 {
        Seq::empty()
    } else {
        marked_lines(body.drop_last()).push(body.last().0) + body.last().1
    }
}

/// A patch of one named file with one hunk of context, added and removed
/// lines gives exactly one hunk, for that file, holding every line behind
/// its marker in order; the file is listed once.
pub proof fn lemma_one_hunk_patch(f: Seq<char>, h: HunkHeader, body: Seq<(char, Seq<char>)>)
    requires
        f.len() > 0,
        forall|i: int| 0 <= i < body.len() ==> is_content_origin(#[trigger] body[i].0),
    ensures
        walk(one_hunk_patch(f, h, body)).hunks == seq![HunkView { file_path: f, header: h, content: marked_lines(body) }],
        walk(one_hunk_patch(f, h, body)).files == seq![f],
        walk(one_hunk_patch(f, h, body)).current == f,
    decreases body.len(),
{
    let lines = one_hunk_patch(f, h, body);
    if body.len() == 0 {
        assert(lines.drop_last() =~= Seq::<LineView>::empty());
        assert(walk(lines.drop_last()) == empty_state());
        let l = lines.last();
        assert(l == LineView { file: Some(f), hunk: Some(h), origin: 'H', text: None });
        assert(!Seq::<Seq<char>>::empty().contains(f));
        assert(walk(lines) == step(empty_state(), l));
        assert(marked_lines(body) =~= Seq::<char>::empty());
        assert(step(empty_state(), l).files =~= seq![f]);
        assert(step(empty_state(), l).hunks =~= seq![HunkView { file_path: f, header: h, content: marked_lines(body) }]);
        assert(Seq::<Seq<char>>::empty().push(f) =~= seq![f]);
        assert(Seq::<HunkView>::empty().push(HunkView { file_path: f, header: h, content: Seq::empty() })
            =~= seq![HunkView { file_path: f, header: h, content: marked_lines(body) }]);
    } else {
        let d = body.drop_last();
        assert forall|i: int| 0 <= i < d.len() implies is_content_origin(#[trigger] d[i].0) by {
            assert(d[i] == body[i]);
        }
        lemma_one_hunk_patch(f, h, d);
        assert(lines.drop_last() =~= one_hunk_patch(f, h, d));
        let prev = walk(one_hunk_patch(f, h, d));
        let l = lines.last();
        assert(walk(lines) == step(prev, l));
        assert(body.last().0 == body[body.len() - 1].0);
        assert(prev.files.contains(f)) by {
            assert(prev.files[0] == f);
        }
        assert(step(prev, l).hunks =~= seq![HunkView { file_path: f, header: h, content: marked_lines(body) }]);
    }
}

} // verus!
