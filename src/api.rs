//! Requests to, and responses from, the suggestion service, as plain data,
//! with the rules that build the one and read the other.
use vstd::prelude::*;
use crate::diff::{StagedDiff, HunkView, hunk_views};
use crate::language::{detect_language, detect_source_language, language_name, source_language_name, extension, eq_lit};
use crate::text::opt_view;
use crate::text::chars_of;
use crate::selection::{all_digits, digits_value, is_digit, unsigned_body};

verus! {

/// A request for suggestions.
#[derive(Debug)]
pub struct GenerateRequest {
    pub diff: DiffPayload,
    pub context: Vec<FileContext>,
    pub options: GenerateOptions,
    pub policy_pack_id: Option<String>,
    pub repo_identifier: Option<String>,
}

#[derive(Debug)]
pub struct DiffPayload {
    pub hunks: Vec<DiffHunk>,
    pub base_branch: Option<String>,
    pub head_commit: Option<String>,
}

/// A hunk as sent to the service.
#[derive(Debug)]
pub struct DiffHunk {
    pub file_path: String,
    pub old_start: u32,
    pub old_lines: u32,
    pub new_start: u32,
    pub new_lines: u32,
    pub content: String,
}

/// A changed file's content, sent as context.
#[derive(Debug)]
pub struct FileContext {
    pub path: String,
    pub content: String,
    pub language: Option<String>,
}

#[derive(Debug)]
pub struct GenerateOptions {
    pub test_runner: String,
    pub max_suggestions: u32,
    pub include_security: bool,
    pub include_negative_paths: bool,
    pub model_tier: String,
}

/// The envelope of every service response.
#[derive(Debug)]
pub struct ApiResponse<T> {
    pub success: bool,
    pub data: Option<T>,
    pub error: Option<ApiErrorResponse>,
    pub meta: ResponseMeta,
}

#[derive(Debug)]
pub struct ApiErrorResponse {
    pub code: String,
    pub message: String,
    pub retry_after: Option<u64>,
}

#[derive(Debug)]
pub struct ResponseMeta {
    pub request_id: String,
    pub tokens_used: Option<u32>,
    pub timestamp: String,
}

#[derive(Debug)]
pub struct UsageResponse {
    pub period: UsagePeriod,
    pub usage: UsageDetails,
    pub limits: UsageLimits,
}

#[derive(Debug)]
pub struct UsagePeriod {
    pub start: String,
    pub end: String,
}

#[derive(Debug)]
pub struct UsageDetails {
    pub total_requests: u32,
    pub total_tokens: u32,
}

#[derive(Debug)]
pub struct UsageLimits {
    pub requests_per_minute: u32,
    pub requests_per_hour: u32,
    pub tokens_per_day: u32,
    pub tokens_remaining: u32,
}

#[derive(Debug)]
pub struct ByokInfo {
    pub enabled: bool,
    pub total_requests: u32,
}

#[derive(Debug)]
pub struct AllTimeStats {
    pub total_generations: u32,
    pub total_security_issues: u32,
    pub total_tests_applied: u32,
    pub top_framework: Option<String>,
}

#[derive(Debug)]
pub struct PlanInfo {
    pub name: String,
    pub generations_per_month: u32,
    pub credits_balance: u32,
}

/// Failure of a service call.
#[derive(Debug)]
pub enum ApiError {
    /// The request did not complete; the message says why.
    Request(String),
    Api { code: String, message: String },
    Unauthorized,
    RateLimited { retry_after: u64 },
    QuotaExceeded,
}

/// Most changed files sent as context.
pub const MAX_CONTEXT_FILES: usize = 10;

/// Most characters of one context file.
pub const MAX_CONTEXT_CHARS: usize = 50000;

/// Context entries taken from files in order: the readable ones.
pub open spec fn readable(paths: Seq<Seq<char>>, contents: Seq<Option<Seq<char>>>) -> Seq<(Seq<char>, Seq<char>)>
    decreases paths.len(),
{
    if paths.len() == 0 || contents.len() != paths.len() {
        Seq::empty()
    } else {
        let rest = readable(paths.drop_last(), contents.drop_last());
        match contents.last() {
            Some(c) => rest.push((paths.last(), c)),
            None => rest,
        }
    }
}

pub open spec fn take_at_most(s: Seq<(Seq<char>, Seq<char>)>, n: nat) -> Seq<(Seq<char>, Seq<char>)> {
    if s.len() <= n {
        s
    } else {
        s.subrange(0, n as int)
    }
}

pub open spec fn truncated(c: Seq<char>) -> Seq<char> {
    if c.len() <= MAX_CONTEXT_CHARS {
        c
    } else {
        c.subrange(0, MAX_CONTEXT_CHARS as int)
    }
}

/// The language sent for a context file.
pub open spec fn context_language(path: Seq<char>, every_language: bool) -> Option<Seq<char>> {
    if every_language {
        Some(language_name(extension(path)))
    } else {
        source_language_name(extension(path))
    }
}

/// The test runner asked for: the one given, else the project's, else `vitest`.
pub open spec fn chosen_runner(given: Option<Seq<char>>, project: Option<Seq<char>>) -> Seq<char> {
    match given {
        Some(r) => r,
        None => match project {
            Some(p) => p,
            None => "vitest"@,
        },
    }
}

pub open spec fn request_hunk_matches(h: DiffHunk, v: HunkView) -> bool {
    h.file_path@ == v.file_path && h.old_start == v.header.old_start && h.old_lines
        == v.header.old_lines && h.new_start == v.header.new_start && h.new_lines
        == v.header.new_lines && h.content@ == v.content
}

pub open spec fn context_matches(c: FileContext, e: (Seq<char>, Seq<char>), every_language: bool) -> bool {
    c.path@ == e.0 && c.content@ == truncated(e.1) && opt_view(c.language) == context_language(
        e.0,
        every_language,
    )
}

fn truncate_chars(s: &String) -> (r: String)
    ensures
        r@ == truncated(s@),
{
    let n = s.as_str().unicode_len();
    if n <= MAX_CONTEXT_CHARS {
        s.clone()
    } else {
        s.as_str().substring_char(0, MAX_CONTEXT_CHARS).to_owned()
    }
}

/// Builds the request for a change set.
///
/// `paths` and `contents` are the changed files and what could be read of
/// them (`None`: unreadable). The context holds the first ten readable
/// files, each cut to fifty thousand characters. `every_language` names a
/// language for every file (`text` when unknown) rather than only for
/// programming languages.
pub fn build_request(
    diff: &StagedDiff,
    paths: &Vec<String>,
    contents: &Vec<Option<String>>,
    test_runner: &Option<String>,
    project_runner: &Option<String>,
    max_suggestions: u32,
    include_security: bool,
    every_language: bool,
) -> (r: GenerateRequest)
    requires
        paths@.len() == contents@.len(),
    ensures
        r.diff.hunks@.len() == diff.hunks@.len(),
        forall|i: int| 0 <= i < diff.hunks@.len() ==> request_hunk_matches(
            #[trigger] r.diff.hunks@[i],
            hunk_views(diff.hunks@)[i],
        ),
        r.diff.base_branch is None && r.diff.head_commit is None,
        ({
            let e = take_at_most(
                readable(paths@.map_values(|p: String| p@), contents@.map_values(|c: Option<String>| opt_view(c))),
                MAX_CONTEXT_FILES as nat,
            );
            r.context@.len() == e.len() && forall|i: int| 0 <= i < e.len() ==> context_matches(
                #[trigger] r.context@[i],
                e[i],
                every_language,
            )
        }),
        r.options.test_runner@ == chosen_runner(opt_view(*test_runner), opt_view(*project_runner)),
        r.options.max_suggestions == max_suggestions,
        r.options.include_security == include_security,
        r.options.include_negative_paths,
        r.options.model_tier@ == "default"@,
        r.policy_pack_id is None && r.repo_identifier is None,
{
    let mut hunks: Vec<DiffHunk> = Vec::new();
    let mut i: usize = 0;
    while i < diff.hunks.len()
        invariant
            i <= diff.hunks@.len(),
            hunks@.len() == i,
            forall|k: int| 0 <= k < i ==> request_hunk_matches(#[trigger] hunks@[k], hunk_views(diff.hunks@)[k]),
        decreases diff.hunks@.len() - i,
    {
        let h = &diff.hunks[i];
        hunks.push(
            DiffHunk {
                file_path: h.file_path.clone(),
                old_start: h.old_start,
                old_lines: h.old_lines,
                new_start: h.new_start,
                new_lines: h.new_lines,
                content: h.content.clone(),
            },
        );
        i = i + 1;
    }
    let ghost ps = paths@.map_values(|p: String| p@);
    let ghost cs = contents@.map_values(|c: Option<String>| opt_view(c));
    let mut context: Vec<FileContext> = Vec::new();
    let mut j: usize = 0;
    assert(ps.subrange(0, 0) =~= Seq::<Seq<char>>::empty());
    while j < paths.len()
        invariant
            j <= paths@.len(),
            paths@.len() == contents@.len(),
            ps == paths@.map_values(|p: String| p@),
            cs == contents@.map_values(|c: Option<String>| opt_view(c)),
            context@.len() == take_at_most(readable(ps.subrange(0, j as int), cs.subrange(0, j as int)), MAX_CONTEXT_FILES as nat).len(),
            forall|k: int| 0 <= k < context@.len() ==> context_matches(
                #[trigger] context@[k],
                take_at_most(readable(ps.subrange(0, j as int), cs.subrange(0, j as int)), MAX_CONTEXT_FILES as nat)[k],
                every_language,
            ),
        decreases paths@.len() - j,
    {
        let ghost before = readable(ps.subrange(0, j as int), cs.subrange(0, j as int));
        proof {
            assert(ps.subrange(0, j + 1).drop_last() == ps.subrange(0, j as int));
            assert(cs.subrange(0, j + 1).drop_last() == cs.subrange(0, j as int));
            assert(ps.subrange(0, j + 1).last() == paths@[j as int]@);
            assert(cs.subrange(0, j + 1).last() == opt_view(contents@[j as int]));
        }
        match &contents[j] {
            Some(c) => {
                let ghost after = before.push((paths@[j as int]@, c@));
                assert(readable(ps.subrange(0, j + 1), cs.subrange(0, j + 1)) == after);
                if context.len() < MAX_CONTEXT_FILES {
                    let language = if every_language {
                        Some(detect_language(paths[j].as_str()))
                    } else {
                        detect_source_language(paths[j].as_str())
                    };
                    let ghost old_ctx = context@;
                    context.push(FileContext { path: paths[j].clone(), content: truncate_chars(c), language });
                    assert(take_at_most(after, MAX_CONTEXT_FILES as nat) =~= take_at_most(before, MAX_CONTEXT_FILES as nat).push((paths@[j as int]@, c@)));
                    assert forall|k: int| 0 <= k < context@.len() implies context_matches(
                        #[trigger] context@[k],
                        take_at_most(after, MAX_CONTEXT_FILES as nat)[k],
                        every_language,
                    ) by {
                        if k < old_ctx.len() {
                            assert(context@[k] == old_ctx[k]);
                        }
                    }
                } else {
                    assert(take_at_most(after, MAX_CONTEXT_FILES as nat) =~= take_at_most(before, MAX_CONTEXT_FILES as nat));
                }
            },
            None => {
                assert(readable(ps.subrange(0, j + 1), cs.subrange(0, j + 1)) == before);
            },
        }
        j = j + 1;
    }
    assert(ps.subrange(0, j as int) == ps);
    assert(cs.subrange(0, j as int) == cs);
    let runner = match test_runner {
        Some(r) => r.clone(),
        None => match project_runner {
            Some(p) => p.clone(),
            None => String::from_str("vitest"),
        },
    };
    GenerateRequest {
        diff: DiffPayload { hunks, base_branch: None, head_commit: None },
        context,
        options: GenerateOptions {
            test_runner: runner,
            max_suggestions,
            include_security,
            include_negative_paths: true,
            model_tier: String::from_str("default"),
        },
        policy_pack_id: None,
        repo_identifier: None,
    }
}

/// Seconds to wait when a rate limit names none.
pub const DEFAULT_RETRY_AFTER: u64 = 60;

/// `s` read as `u64` text: an optional `+`, then one or more digits.
pub open spec fn parse_u64(s: Seq<char>) -> Option<nat> {
    let d = unsigned_body(s);
    if d.len() > 0 && all_digits(d) && digits_value(d) <= u64::MAX {
        Some(digits_value(d))
    } else {
        None
    }
}

proof fn lemma_digits_prefix_le(s: Seq<char>, i: int)
    requires
        0 <= i <= s.len(),
    ensures
        digits_value(s.subrange(0, i)) <= digits_value(s),
    decreases s.len(),
{
    if i < s.len() {
        let t = s.drop_last();
        assert(t.subrange(0, i) == s.subrange(0, i));
        lemma_digits_prefix_le(t, i);
    } else {
        assert(s.subrange(0, i) == s);
    }
}

/// Reads `s` as `u64` text.
pub fn parse_u64_text(s: &str) -> (r: Option<u64>)
    ensures
        match parse_u64(s@) {
            Some(n) => r == Some(n as u64),
            None => r is None,
        },
{
    let v = chars_of(s);
    let mut i: usize = 0;
    if v.len() > 0 && v[0] == '+' {
        i = 1;
    }
    let ghost d = unsigned_body(s@);
    assert(d == v@.subrange(i as int, v@.len() as int));
    if i == v.len() {
        return None;
    }
    let mut val: u64 = 0;
    let mut k = i;
    assert(d.subrange(0, 0) =~= Seq::<char>::empty());
    while k < v.len()
        invariant
            i < v@.len(),
            i <= k <= v@.len(),
            v@ == s@,
            d == v@.subrange(i as int, v@.len() as int),
            d == unsigned_body(s@),
            forall|j: int| 0 <= j < k - i ==> is_digit(#[trigger] d[j]),
            val as nat == digits_value(d.subrange(0, k - i)),
        decreases v@.len() - k,
    {
        let c = v[k];
        assert(d[k - i] == c);
        if !('0' <= c && c <= '9') {
            assert(!is_digit(d[k - i]));
            assert(!all_digits(d));
            return None;
        }
        let dgt = (c as u32 - 48) as u64;
        let ghost pre = d.subrange(0, k - i + 1);
        assert(pre.drop_last() == d.subrange(0, k - i));
        if val > (u64::MAX - dgt) / 10 {
            proof {
                assert(val as int * 10 + dgt as int > u64::MAX as int) by (nonlinear_arith)
                    requires
                        val as int > (u64::MAX - dgt) as int / 10,
                        dgt <= 9,
                ;
                if all_digits(d) {
                    lemma_digits_prefix_le(d, k - i + 1);
                }
            }
            return None;
        }
        assert(val as int * 10 + dgt as int <= u64::MAX as int) by (nonlinear_arith)
            requires
                val as int <= (u64::MAX - dgt) as int / 10,
                dgt <= 9,
        ;
        val = val * 10 + dgt;
        k = k + 1;
    }
    assert(d.subrange(0, d.len() as int) == d);
    Some(val)
}

/// HTTP status of an unauthorized request.
pub const STATUS_UNAUTHORIZED: u16 = 401;

/// HTTP status of a rate-limited request.
pub const STATUS_TOO_MANY_REQUESTS: u16 = 429;

/// The error that an HTTP status stands for before the body is read:
/// unauthorized, or rate limited for the seconds in the `Retry-After`
/// header (sixty when it is missing or not a number).
pub fn status_error(status: u16, retry_after: &Option<String>) -> (r: Option<ApiError>)
    ensures
        status == STATUS_UNAUTHORIZED ==> r matches Some(ApiError::Unauthorized),
        status == STATUS_TOO_MANY_REQUESTS ==> (r matches Some(ApiError::RateLimited { retry_after: n })
            && n == match retry_after {
                Some(h) => match parse_u64(h@) {
                    Some(v) => v as u64,
                    None => DEFAULT_RETRY_AFTER,
                },
                None => DEFAULT_RETRY_AFTER,
            }),
        status != STATUS_UNAUTHORIZED && status != STATUS_TOO_MANY_REQUESTS ==> r is None,
{
    if status == STATUS_UNAUTHORIZED {
        return Some(ApiError::Unauthorized);
    }
    if status == STATUS_TOO_MANY_REQUESTS {
        let n = match retry_after {
            Some(h) => match parse_u64_text(h.as_str()) {
                Some(v) => v,
                None => DEFAULT_RETRY_AFTER,
            },
            None => DEFAULT_RETRY_AFTER,
        };
        return Some(ApiError::RateLimited { retry_after: n });
    }
    None
}

impl<T> ApiResponse<T> {
    /// The payload of a response: a reported failure becomes `QuotaExceeded`
    /// for the code `QUOTA_EXCEEDED` and `Api` otherwise; a response without
    /// payload is `Api` with the code `NO_DATA`.
    pub fn into_data(self) -> (r: Result<T, ApiError>)
        ensures
            !self.success && self.error is Some && self.error->0.code@ == "QUOTA_EXCEEDED"@
                ==> r matches Err(ApiError::QuotaExceeded),
            !self.success && self.error is Some && self.error->0.code@ != "QUOTA_EXCEEDED"@
                ==> (r matches Err(ApiError::Api { code, message }) && code == self.error->0.code
                && message == self.error->0.message),
            (self.success || self.error is None) && self.data is Some ==> r == Ok::<T, ApiError>(self.data->0),
            (self.success || self.error is None) && self.data is None ==> (r matches Err(
                ApiError::Api { code, .. },
            ) && code@ == "NO_DATA"@),
    {
        if !self.success {
            match self.error {
                Some(e) => {
                    if eq_lit(&e.code, "QUOTA_EXCEEDED") {
                        return Err(ApiError::QuotaExceeded);
                    }
                    return Err(ApiError::Api { code: e.code, message: e.message });
                },
                None => {},
            }
        }
        match self.data {
            Some(d) => Ok(d),
            None => Err(
                ApiError::Api {
                    code: String::from_str("NO_DATA"),
                    message: String::from_str("Response contained no data"),
                },
            ),
        }
    }
}

} // verus!
