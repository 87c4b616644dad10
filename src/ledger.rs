//! The ledger of applied suggestions: recording writes, choosing what to
//! revert, and what reverting each record does to the files.
use vstd::prelude::*;
use crate::text::opt_view;

verus! {

/// A proposed file content to write.
#[derive(Debug, Clone)]
pub struct Suggestion {
    pub id: String,
    pub file_path: String,
    pub code: String,
}

/// Record of an applied suggestion, kept so that it can be reverted.
#[derive(Debug, Clone)]
pub struct AppliedRecord {
    pub suggestion_id: String,
    pub file_path: String,
    /// The write created the file.
    pub created_file: bool,
    /// The file's content before the write, when it existed.
    pub original_content: Option<String>,
    /// Unix seconds of the apply invocation; shared by a whole batch.
    pub applied_at: i64,
}

/// The append-ordered ledger of applied suggestions.
#[derive(Debug, Default)]
pub struct ApplyHistory {
    pub records: Vec<AppliedRecord>,
}

pub struct SuggestionView {
    pub id: Seq<char>,
    pub path: Seq<char>,
    pub code: Seq<char>,
}

impl View for Suggestion {
    type V = SuggestionView;

    open spec fn view(&self) -> SuggestionView {
        SuggestionView { id: self.id@, path: self.file_path@, code: self.code@ }
    }
}

pub struct RecordView {
    pub id: Seq<char>,
    pub path: Seq<char>,
    pub created: bool,
    pub original: Option<Seq<char>>,
    pub at: i64,
}

impl View for AppliedRecord {
    type V = RecordView;

    open spec fn view(&self) -> RecordView {
        RecordView {
            id: self.suggestion_id@,
            path: self.file_path@,
            created: self.created_file,
            original: opt_view(self.original_content),
            at: self.applied_at,
        }
    }
}

pub open spec fn record_views(rs: Seq<AppliedRecord>) -> Seq<RecordView> {
    rs.map_values(|r: AppliedRecord| r@)
}

impl View for ApplyHistory {
    type V = Seq<RecordView>;

    open spec fn view(&self) -> Seq<RecordView> {
        record_views(self.records@)
    }
}

/// Files as path to content; a path that is absent has no file.
pub type FileMap = Map<Seq<char>, Seq<char>>;

/// The record that applying `s` at time `at` writes, given what the target
/// held before (`None`: no file).
pub open spec fn record_for(s: SuggestionView, existing: Option<Seq<char>>, at: i64) -> RecordView {
    RecordView { id: s.id, path: s.path, created: existing is None, original: existing, at }
}

/// Applying one suggestion to `fs`: the file after, and the record.
pub open spec fn apply_one(fs: FileMap, s: SuggestionView, at: i64) -> (FileMap, RecordView) {
    let existing = if fs.contains_key(s.path) {
        Some(fs[s.path])
    } else {
        None
    };
    (fs.insert(s.path, s.code), record_for(s, existing, at))
}

/// Applying suggestions in order, all at time `at`.
pub open spec fn apply_batch(fs: FileMap, ss: Seq<SuggestionView>, at: i64) -> (FileMap, Seq<RecordView>)
    decreases ss.len(),
{
    if ss.len() == 0 {
        (fs, Seq::empty())
    } else {
        let prev = apply_batch(fs, ss.drop_last(), at);
        let one = apply_one(prev.0, ss.last(), at);
        (one.0, prev.1.push(one.1))
    }
}

/// What reverting one record does to `fs`.
pub open spec fn revert_one(fs: FileMap, r: RecordView) -> FileMap {
    if r.created {
        fs.remove(r.path)
    } else {
        match r.original {
            Some(c) => fs.insert(r.path, c),
            None => fs,
        }
    }
}

/// Reverting records in ledger order.
pub open spec fn revert_records(fs: FileMap, rs: Seq<RecordView>) -> FileMap
    decreases rs.len(),
{
    if rs.len() == 0 {
        fs
    } else {
        revert_one(revert_records(fs, rs.drop_last()), rs.last())
    }
}

/// The record for applying `s` at `at`, given the target's content before
/// the write (`None` when there was no file).
pub fn applied_record(s: &Suggestion, existing: Option<String>, applied_at: i64) -> (r: AppliedRecord)
    ensures
        r@ == record_for(s@, opt_view(existing), applied_at),
{
    AppliedRecord {
        suggestion_id: s.id.clone(),
        file_path: s.file_path.clone(),
        created_file: existing.is_none(),
        original_content: existing,
        applied_at,
    }
}

/// Which records a revert takes.
#[derive(Debug, Clone, Copy, PartialEq, Eq)]
pub enum RevertScope {
    /// Every record.
    All,
    /// The last `n` records, or all when there are fewer.
    Count(usize),
    /// The trailing records that share the last record's time.
    LastBatch,
}

/// How many trailing records were applied at time `t`.
pub open spec fn trailing_at(rs: Seq<RecordView>, t: i64) -> nat
    decreases rs.len(),
{
    if rs.len() > 0 && rs.last().at == t {
        1 + trailing_at(rs.drop_last(), t)
    } else {
        0
    }
}

/// Where the records that `scope` takes begin.
pub open spec fn revert_start(rs: Seq<RecordView>, scope: RevertScope) -> int {
    match scope {
        RevertScope::All => 0,
        RevertScope::Count(n) => if n >= rs.len() {
            0
        } else {
            rs.len() - n
        },
        RevertScope::LastBatch => if rs.len() == 0 {
            0
        } else {
            rs.len() - trailing_at(rs, rs.last().at)
        },
    }
}

proof fn lemma_trailing_bound(rs: Seq<RecordView>, t: i64)
    ensures
        trailing_at(rs, t) <= rs.len(),
        forall|k: int| rs.len() - trailing_at(rs, t) <= k < rs.len() ==> (#[trigger] rs[k]).at == t,
        trailing_at(rs, t) < rs.len() ==> rs[rs.len() - trailing_at(rs, t) - 1].at != t,
    decreases rs.len(),
{
    if rs.len() > 0 && rs.last().at == t {
        let d = rs.drop_last();
        lemma_trailing_bound(d, t);
        assert forall|k: int| rs.len() - trailing_at(rs, t) <= k < rs.len() implies (#[trigger] rs[k]).at == t by {
            if k < rs.len() - 1 {
                assert(rs[k] == d[k]);
            }
        }
        if trailing_at(rs, t) < rs.len() {
            assert(rs[rs.len() - trailing_at(rs, t) - 1] == d[d.len() - trailing_at(d, t) - 1]);
        }
    }
}

proof fn lemma_trailing_at_index(rs: Seq<RecordView>, t: i64, k: int)
    requires
        0 <= k <= rs.len(),
        forall|j: int| k <= j < rs.len() ==> (#[trigger] rs[j]).at == t,
        k == 0 || rs[k - 1].at != t,
    ensures
        trailing_at(rs, t) == rs.len() - k,
    decreases rs.len(),
{
    if rs.len() > k {
        let d = rs.drop_last();
        assert forall|j: int| k <= j < d.len() implies (#[trigger] d[j]).at == t by {
            assert(d[j] == rs[j]);
        }
        if k > 0 {
            assert(d[k - 1] == rs[k - 1]);
        }
        lemma_trailing_at_index(d, t, k);
    }
}

impl ApplyHistory {
    /// Appends `record` to the ledger.
    pub fn push_record(&mut self, record: AppliedRecord)
        ensures
            final(self)@ == old(self)@.push(record@),
    {
        self.records.push(record);
        assert(record_views(self.records@) =~= record_views(old(self).records@).push(record@));
    }

    /// Appends records taken earlier, in order (a cancelled revert puts them back).
    pub fn restore_records(&mut self, records: Vec<AppliedRecord>)
        ensures
            final(self)@ == old(self)@ + record_views(records@),
    {
        let ghost orig = records@;
        let mut records = records;
        self.records.append(&mut records);
        assert(record_views(self.records@) =~= record_views(old(self).records@) + record_views(orig));
    }

    /// Where the records of the last batch begin.
    pub fn last_batch_start(&self) -> (r: usize)
        ensures
            r == revert_start(self@, RevertScope::LastBatch),
    {
        let n = self.records.len();
        if n == 0 {
            return 0;
        }
        let t = self.records[n - 1].applied_at;
        let mut k = n - 1;
        while k > 0 && self.records[k - 1].applied_at == t
            invariant
                0 <= k < n,
                n == self.records@.len(),
                t == self.records@[n - 1].applied_at,
                forall|j: int| k <= j < n ==> (#[trigger] self.records@[j]).applied_at == t,
            decreases k,
        {
            k = k - 1;
        }
        proof {
            let rs = self@;
            assert forall|j: int| k <= j < rs.len() implies (#[trigger] rs[j]).at == t by {
                assert(rs[j] == self.records@[j]@);
            }
            if k > 0 {
                assert(rs[k - 1] == self.records@[k - 1]@);
            }
            assert(rs.last() == self.records@[n - 1]@);
            lemma_trailing_at_index(rs, t, k as int);
        }
        k
    }

    /// Takes the records that `scope` selects off the end of the ledger and
    /// returns them in ledger order; the ledger keeps the rest.
    pub fn take_for_revert(&mut self, scope: RevertScope) -> (r: Vec<AppliedRecord>)
        ensures
            final(self)@ == old(self)@.subrange(0, revert_start(old(self)@, scope)),
            record_views(r@) == old(self)@.subrange(
                revert_start(old(self)@, scope),
                old(self)@.len() as int,
            ),
    {
        let n = self.records.len();
        let start = match scope {
            RevertScope::All => 0,
            RevertScope::Count(c) => if c >= n {
                0
            } else {
                n - c
            },
            RevertScope::LastBatch => self.last_batch_start(),
        };
        proof {
            if scope is LastBatch && n > 0 {
                lemma_trailing_bound(old(self)@, old(self)@.last().at);
            }
        }
        let ghost before = self.records@;
        let r = self.records.split_off(start);
        assert(record_views(self.records@) =~= record_views(before).subrange(0, start as int));
        assert(record_views(r@) =~= record_views(before).subrange(start as int, n as int));
        r
    }
}

/// What to do to the files to undo one record.
#[derive(Debug, Clone, PartialEq, Eq)]
pub enum RevertAction {
    /// Remove the file the apply created; a file already gone is fine.
    Delete { path: String },
    /// Write back the content the file had.
    Restore { path: String, content: String },
    /// Nothing can be restored; report `message`.
    Unrestorable { path: String, message: String },
}

pub open spec fn action_effect(fs: FileMap, a: RevertAction) -> FileMap {
    match a {
        RevertAction::Delete { path } => fs.remove(path@),
        RevertAction::Restore { path, content } => fs.insert(path@, content@),
        RevertAction::Unrestorable { .. } => fs,
    }
}

pub open spec fn missing_original_message(path: Seq<char>) -> Seq<char> {
    path + ": no original content recorded"@
}

/// The file operation that undoes `record`.
pub fn revert_action(record: &AppliedRecord) -> (a: RevertAction)
    ensures
        forall|fs: FileMap| #[trigger] action_effect(fs, a) == revert_one(fs, record@),
        a matches RevertAction::Unrestorable { path, message } ==> (!record.created_file
            && record.original_content is None && path@ == record.file_path@ && message@
            == missing_original_message(record.file_path@)),
        a matches RevertAction::Delete { path } ==> record.created_file && path@ == record.file_path@,
        a matches RevertAction::Restore { path, content } ==> !record.created_file
            && record.original_content == Some(content) && path@ == record.file_path@,
{
    if record.created_file {
        RevertAction::Delete { path: record.file_path.clone() }
    } else {
        match &record.original_content {
            Some(c) => RevertAction::Restore { path: record.file_path.clone(), content: c.clone() },
            None => {
                let mut m = record.file_path.clone();
                m.append(": no original content recorded");
                RevertAction::Unrestorable { path: record.file_path.clone(), message: m }
            },
        }
    }
}

/// Outcome of a revert: how many records were undone, and every failure.
#[derive(Debug, Default)]
pub struct RevertReport {
    pub reverted_count: usize,
    pub errors: Vec<String>,
}

impl RevertReport {
    pub fn new() -> (r: RevertReport)
        ensures
            r.reverted_count == 0,
            r.errors@.len() == 0,
    {
        RevertReport { reverted_count: 0, errors: Vec::new() }
    }

    /// Counts one record as undone.
    pub fn record_success(&mut self)
        requires
            old(self).reverted_count < usize::MAX,
        ensures
            final(self).reverted_count == old(self).reverted_count + 1,
            final(self).errors@ == old(self).errors@,
    {
        self.reverted_count = self.reverted_count + 1;
    }

    /// Keeps a failure and goes on.
    pub fn record_failure(&mut self, message: String)
        ensures
            final(self).reverted_count == old(self).reverted_count,
            final(self).errors@ == old(self).errors@.push(message),
    {
        self.errors.push(message);
    }
}

pub open spec fn paths_of(ss: Seq<SuggestionView>) -> Seq<Seq<char>> {
    ss.map_values(|s: SuggestionView| s.path)
}

proof fn lemma_apply_batch_shape(fs: FileMap, ss: Seq<SuggestionView>, at: i64)
    ensures
        apply_batch(fs, ss, at).1.len() == ss.len(),
        forall|k: int| 0 <= k < ss.len() ==> (#[trigger] apply_batch(fs, ss, at).1[k]).path == ss[k].path
            && apply_batch(fs, ss, at).1[k].at == at,
        forall|p: Seq<char>| !paths_of(ss).contains(p) ==> (#[trigger] apply_batch(fs, ss, at).0.contains_key(p)
            == fs.contains_key(p) && (fs.contains_key(p) ==> apply_batch(fs, ss, at).0[p] == fs[p])),
    decreases ss.len(),
{
    if ss.len() > 0 {
        let d = ss.drop_last();
        lemma_apply_batch_shape(fs, d, at);
        assert forall|p: Seq<char>| !paths_of(ss).contains(p) implies !paths_of(d).contains(p) by {
            if paths_of(d).contains(p) {
                let k = choose|k: int| 0 <= k < paths_of(d).len() && paths_of(d)[k] == p;
                assert(paths_of(ss)[k] == p);
            }
        }
        assert(paths_of(ss)[ss.len() - 1] == ss.last().path);
    }
}

proof fn lemma_revert_commutes(fs: FileMap, rs: Seq<RecordView>, p: Seq<char>, c: Seq<char>)
    requires
        forall|k: int| 0 <= k < rs.len() ==> (#[trigger] rs[k]).path != p,
    ensures
        revert_records(fs.insert(p, c), rs) == revert_records(fs, rs).insert(p, c),
    decreases rs.len(),
{
    if rs.len() > 0 {
        let d = rs.drop_last();
        assert forall|k: int| 0 <= k < d.len() implies (#[trigger] d[k]).path != p by {
            assert(d[k] == rs[k]);
        }
        lemma_revert_commutes(fs, d, p, c);
        let g = revert_records(fs, d);
        let r = rs.last();
        assert(r.path != p);
        assert(revert_one(g.insert(p, c), r) =~= revert_one(g, r).insert(p, c));
    }
}

/// Applying a batch of suggestions to distinct paths and then reverting its
/// records in ledger order gives back exactly the files there were: a file
/// the batch created is gone again, and an overwritten file holds its
/// original content.
pub proof fn lemma_apply_then_revert(fs: FileMap, ss: Seq<SuggestionView>, at: i64)
    requires
        forall|i: int, j: int| 0 <= i < j < ss.len() ==> (#[trigger] ss[i]).path != (#[trigger] ss[j]).path,
    ensures
        revert_records(apply_batch(fs, ss, at).0, apply_batch(fs, ss, at).1) == fs,
    decreases ss.len(),
{
    if ss.len() > 0 {
        let d = ss.drop_last();
        let s = ss.last();
        assert forall|i: int, j: int| 0 <= i < j < d.len() implies (#[trigger] d[i]).path != (#[trigger] d[j]).path by {
            assert(d[i] == ss[i] && d[j] == ss[j]);
        }
        lemma_apply_then_revert(fs, d, at);
        lemma_apply_batch_shape(fs, d, at);
        let prev = apply_batch(fs, d, at);
        assert(!paths_of(d).contains(s.path)) by {
            if paths_of(d).contains(s.path) {
                let k = choose|k: int| 0 <= k < paths_of(d).len() && paths_of(d)[k] == s.path;
                assert(d[k] == ss[k]);
                assert(ss[k].path == ss[ss.len() - 1].path);
            }
        }
        assert forall|k: int| 0 <= k < prev.1.len() implies (#[trigger] prev.1[k]).path != s.path by {
            assert(prev.1[k].path == d[k].path);
            assert(paths_of(d)[k] == d[k].path);
        }
        lemma_revert_commutes(prev.0, prev.1, s.path, s.code);
        let one = apply_one(prev.0, s, at);
        assert(apply_batch(fs, ss, at).1.drop_last() == prev.1);
        if fs.contains_key(s.path) {
            assert(revert_one(fs.insert(s.path, s.code), one.1) =~= fs);
        } else {
            assert(revert_one(fs.insert(s.path, s.code), one.1) =~= fs);
        }
    }
}

/// Batch isolation: after a batch applied at `t1` and then a batch applied
/// at another time `t2`, reverting the last batch takes exactly the second
/// batch's records and keeps everything before them.
pub proof fn lemma_last_batch_isolation(
    prior: Seq<RecordView>,
    first: Seq<RecordView>,
    second: Seq<RecordView>,
    t1: i64,
    t2: i64,
)
    requires
        first.len() > 0,
        second.len() > 0,
        forall|k: int| 0 <= k < first.len() ==> (#[trigger] first[k]).at == t1,
        forall|k: int| 0 <= k < second.len() ==> (#[trigger] second[k]).at == t2,
        t1 != t2,
    ensures
        revert_start(prior + first + second, RevertScope::LastBatch) == (prior + first).len(),
        (prior + first + second).subrange(0, (prior + first).len() as int) == prior + first,
        (prior + first + second).subrange((prior + first).len() as int, (prior + first + second).len() as int) == second,
{
    let all = prior + first + second;
    let k = (prior + first).len() as int;
    assert(all.last() == second[second.len() - 1]);
    assert forall|j: int| k <= j < all.len() implies (#[trigger] all[j]).at == t2 by {
        assert(all[j] == second[j - k]);
    }
    assert(all[k - 1] == first[first.len() - 1]);
    lemma_trailing_at_index(all, t2, k);
    assert(all.subrange(0, k) =~= prior + first);
    assert(all.subrange(k, all.len() as int) =~= second);
}

} // verus!
