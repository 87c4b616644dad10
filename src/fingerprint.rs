//! Content fingerprints, and drift between saved fingerprints and files now.
use vstd::prelude::*;
use crate::text::{hex_fixed, opt_view, push_hex_fixed};

verus! {

/// The 64-bit hash that std's default hasher gives the text `s`.
pub uninterp spec fn content_hash(s: Seq<char>) -> u64;

/// Relies on std's `DefaultHasher`, built through `BuildHasherDefault`
/// (fixed keys, no per-process seed): hashing a `str` depends on its
/// characters alone.
#[verifier::external_body]
fn default_hash(content: &str) -> (r: u64)
    ensures
        r == content_hash(content@),
{
    std::hash::BuildHasher::hash_one(
        &std::hash::BuildHasherDefault::<std::collections::hash_map::DefaultHasher>::default(),
        content,
    )
}

/// A digest as stored: sixteen lower-case hexadecimal digits.
pub open spec fn digest_text(h: u64) -> Seq<char> {
    hex_fixed(h as nat, 16)
}

/// The digest of `content`.
pub open spec fn fingerprint(content: Seq<char>) -> Seq<char> {
    digest_text(content_hash(content))
}

/// The stored form of the hash `h`.
pub fn format_digest(h: u64) -> (r: String)
    ensures
        r@ == digest_text(h),
{
    let mut s = String::new();
    push_hex_fixed(&mut s, h, 16);
    assert(s@ =~= digest_text(h));
    s
}

/// Deterministic fingerprint of file content, for drift detection.
pub fn compute_hash(content: &str) -> (r: String)
    ensures
        r@ == fingerprint(content@),
{
    format_digest(default_hash(content))
}

/// Computing the fingerprint of the same content twice gives the same digest.
pub proof fn lemma_fingerprint_deterministic(a: Seq<char>, b: Seq<char>)
    requires
        a == b,
    ensures
        fingerprint(a) == fingerprint(b),
{
}

/// A tracked file and the digest saved for it.
#[derive(Debug, Clone)]
pub struct Fingerprint {
    pub path: String,
    pub digest: String,
}

pub open spec fn unreadable_note() -> Seq<char> {
    " (deleted or unreadable)"@
}

/// What drift detection reports for one tracked file, given the digest of
/// its content now (`None` when it cannot be read).
pub open spec fn drift_of(path: Seq<char>, saved: Seq<char>, now: Option<Seq<char>>) -> Option<Seq<char>> {
    match now {
        None => Some(path + unreadable_note()),
        Some(d) => if d == saved {
            None
        } else {
            Some(path)
        },
    }
}

/// The report for tracked files, in order, from the digests of their contents now.
pub open spec fn drift_report(paths: Seq<Seq<char>>, saved: Seq<Seq<char>>, now: Seq<Option<Seq<char>>>) -> Seq<Seq<char>>
    decreases paths.len(),
{
    if paths.len() == 0 || saved.len() != paths.len() || now.len() != paths.len() {
        Seq::empty()
    } else {
        let rest = drift_report(paths.drop_last(), saved.drop_last(), now.drop_last());
        match drift_of(paths.last(), saved.last(), now.last()) {
            Some(p) => rest.push(p),
            None => rest,
        }
    }
}

/// The drift entry for `path`, given the digest of its content now.
pub fn check_fingerprint(path: &String, saved: &String, now: &Option<String>) -> (r: Option<String>)
    ensures
        opt_view(r) == drift_of(path@, saved@, opt_view(*now)),
{
    match now {
        None => {
            let mut s = path.clone();
            s.append(" (deleted or unreadable)");
            Some(s)
        },
        Some(d) => if *d == *saved {
            None
        } else {
            Some(path.clone())
        },
    }
}

/// Drift detection misses nothing: a tracked file whose content now has
/// another digest than the one saved, or that cannot be read, has its entry
/// in the report.
pub proof fn lemma_drift_reports_changes(
    paths: Seq<Seq<char>>,
    saved: Seq<Seq<char>>,
    now: Seq<Option<Seq<char>>>,
    k: int,
)
    requires
        saved.len() == paths.len(),
        now.len() == paths.len(),
        0 <= k < paths.len(),
        now[k] is None || now[k]->0 != saved[k],
    ensures
        drift_report(paths, saved, now).contains(drift_of(paths[k], saved[k], now[k])->0),
    decreases paths.len(),
{
    let rest = drift_report(paths.drop_last(), saved.drop_last(), now.drop_last());
    let last = drift_of(paths.last(), saved.last(), now.last());
    if k == paths.len() - 1 {
        let r = drift_report(paths, saved, now);
        assert(r[r.len() - 1] == last->0);
    } else {
        lemma_drift_reports_changes(paths.drop_last(), saved.drop_last(), now.drop_last(), k);
        let i = choose|i: int| 0 <= i < rest.len() && rest[i] == drift_of(paths[k], saved[k], now[k])->0;
        assert(paths.drop_last()[k] == paths[k] && saved.drop_last()[k] == saved[k] && now.drop_last()[k] == now[k]);
        if last is Some {
            assert(drift_report(paths, saved, now)[i] == rest[i]);
        }
    }
}

pub open spec fn paths_of(fs: Seq<Fingerprint>) -> Seq<Seq<char>> {
    fs.map_values(|f: Fingerprint| f.path@)
}

pub open spec fn digests_of(fs: Seq<Fingerprint>) -> Seq<Seq<char>> {
    fs.map_values(|f: Fingerprint| f.digest@)
}

/// Digests of what was read now: the fingerprint of each readable content.
pub open spec fn current_digests(contents: Seq<Option<String>>) -> Seq<Option<Seq<char>>> {
    contents.map_values(|c: Option<String>| match c {
        Some(s) => Some(fingerprint(s@)),
        None => None,
    })
}

/// The tracked files that changed since their fingerprints were saved, in
/// the order given: a file whose content now has another digest is named;
/// one that could not be read (`None`) is named with a note.
pub fn detect_drift(saved: &Vec<Fingerprint>, contents: &Vec<Option<String>>) -> (r: Vec<String>)
    requires
        saved@.len() == contents@.len(),
    ensures
        r@.map_values(|s: String| s@) == drift_report(
            paths_of(saved@),
            digests_of(saved@),
            current_digests(contents@),
        ),
{
    let ghost ps = paths_of(saved@);
    let ghost ds = digests_of(saved@);
    let ghost ns = current_digests(contents@);
    let mut out: Vec<String> = Vec::new();
    let mut i: usize = 0;
    assert(out@.map_values(|s: String| s@) =~= drift_report(ps.subrange(0, 0), ds.subrange(0, 0), ns.subrange(0, 0)));
    while i < saved.len()
        invariant
            i <= saved@.len(),
            saved@.len() == contents@.len(),
            ps == paths_of(saved@),
            ds == digests_of(saved@),
            ns == current_digests(contents@),
            out@.map_values(|s: String| s@) == drift_report(
                ps.subrange(0, i as int),
                ds.subrange(0, i as int),
                ns.subrange(0, i as int),
            ),
        decreases saved@.len() - i,
    {
        let now = match &contents[i] {
            Some(c) => Some(compute_hash(c.as_str())),
            None => None,
        };
        let entry = check_fingerprint(&saved[i].path, &saved[i].digest, &now);
        proof {
            assert(ps.subrange(0, i + 1).drop_last() == ps.subrange(0, i as int));
            assert(ds.subrange(0, i + 1).drop_last() == ds.subrange(0, i as int));
            assert(ns.subrange(0, i + 1).drop_last() == ns.subrange(0, i as int));
            assert(opt_view(now) == ns[i as int]);
        }
        match entry {
            Some(e) => {
                out.push(e);
                assert(out@.map_values(|s: String| s@) =~= drift_report(
                    ps.subrange(0, i as int),
                    ds.subrange(0, i as int),
                    ns.subrange(0, i as int),
                ).push(opt_view(entry)->0));
            },
            None => {},
        }
        i = i + 1;
    }
    assert(ps.subrange(0, i as int) == ps);
    assert(ds.subrange(0, i as int) == ds);
    assert(ns.subrange(0, i as int) == ns);
    out
}

/// Fingerprints of the readable files among `paths`, in order; a file that
/// could not be read (`None`) is left out.
pub open spec fn snapshot_of(paths: Seq<String>, contents: Seq<Option<String>>) -> Seq<(Seq<char>, Seq<char>)>
    decreases paths.len(),
{
    if paths.len() == 0 || contents.len() != paths.len() {
        Seq::empty()
    } else {
        let rest = snapshot_of(paths.drop_last(), contents.drop_last());
        match contents.last() {
            Some(c) => rest.push((paths.last()@, fingerprint(c@))),
            None => rest,
        }
    }
}

proof fn lemma_snapshot_paths(paths: Seq<String>, contents: Seq<Option<String>>)
    requires
        paths.len() == contents.len(),
    ensures
        forall|j: int| 0 <= j < snapshot_of(paths, contents).len() ==> exists|k: int|
            0 <= k < paths.len() && (#[trigger] snapshot_of(paths, contents)[j]).0 == paths[k]@,
        (forall|a: int, b: int| 0 <= a < b < paths.len() ==> (#[trigger] paths[a])@ != (#[trigger] paths[b])@)
            ==> forall|i: int, j: int| 0 <= i < j < snapshot_of(paths, contents).len() ==> (
            #[trigger] snapshot_of(paths, contents)[i]).0 != (#[trigger] snapshot_of(paths, contents)[j]).0,
    decreases paths.len(),
{
    if paths.len() > 0 {
        let dp = paths.drop_last();
        let dc = contents.drop_last();
        lemma_snapshot_paths(dp, dc);
        let rest = snapshot_of(dp, dc);
        let all = snapshot_of(paths, contents);
        assert forall|j: int| 0 <= j < rest.len() implies exists|k: int|
            0 <= k < paths.len() - 1 && (#[trigger] rest[j]).0 == paths[k]@ by {
            let k = choose|k: int| 0 <= k < dp.len() && rest[j].0 == dp[k]@;
            assert(dp[k] == paths[k]);
        }
        assert forall|j: int| 0 <= j < all.len() implies exists|k: int|
            0 <= k < paths.len() && (#[trigger] all[j]).0 == paths[k]@ by {
            if j < rest.len() {
                assert(all[j] == rest[j]);
                let k = choose|k: int| 0 <= k < paths.len() - 1 && rest[j].0 == paths[k]@;
            } else {
                assert(all[j].0 == paths[paths.len() - 1]@);
            }
        }
        if forall|a: int, b: int| 0 <= a < b < paths.len() ==> (#[trigger] paths[a])@ != (#[trigger] paths[b])@ {
            assert forall|a: int, b: int| 0 <= a < b < dp.len() implies (#[trigger] dp[a])@ != (#[trigger] dp[b])@ by {
                assert(dp[a] == paths[a] && dp[b] == paths[b]);
            }
            assert forall|i: int, j: int| 0 <= i < j < all.len() implies (#[trigger] all[i]).0 != (#[trigger] all[j]).0 by {
                assert(all[i] == rest[i]);
                if j < rest.len() {
                    assert(all[j] == rest[j]);
                } else {
                    let k = choose|k: int| 0 <= k < paths.len() - 1 && rest[i].0 == paths[k]@;
                    assert(all[j].0 == paths[paths.len() - 1]@);
                }
            }
        }
    }
}

pub open spec fn fingerprint_views(fs: Seq<Fingerprint>) -> Seq<(Seq<char>, Seq<char>)> {
    fs.map_values(|f: Fingerprint| (f.path@, f.digest@))
}

/// The fingerprints saved with a set of suggestions.
pub fn snapshot(paths: &Vec<String>, contents: &Vec<Option<String>>) -> (r: Vec<Fingerprint>)
    requires
        paths@.len() == contents@.len(),
    ensures
        fingerprint_views(r@) == snapshot_of(paths@, contents@),
        (forall|a: int, b: int| 0 <= a < b < paths@.len() ==> (#[trigger] paths@[a])@ != (#[trigger] paths@[b])@)
            ==> forall|i: int, j: int| 0 <= i < j < r@.len() ==> (#[trigger] r@[i]).path@ != (#[trigger] r@[j]).path@,
{
    let mut out: Vec<Fingerprint> = Vec::new();
    let mut i: usize = 0;
    assert(fingerprint_views(out@) =~= snapshot_of(paths@.subrange(0, 0), contents@.subrange(0, 0)));
    while i < paths.len()
        invariant
            i <= paths@.len(),
            paths@.len() == contents@.len(),
            fingerprint_views(out@) == snapshot_of(paths@.subrange(0, i as int), contents@.subrange(0, i as int)),
        decreases paths@.len() - i,
    {
        assert(paths@.subrange(0, i + 1).drop_last() == paths@.subrange(0, i as int));
        assert(contents@.subrange(0, i + 1).drop_last() == contents@.subrange(0, i as int));
        match &contents[i] {
            Some(c) => {
                let ghost before = out@;
                out.push(Fingerprint { path: paths[i].clone(), digest: compute_hash(c.as_str()) });
                assert(fingerprint_views(out@) =~= fingerprint_views(before).push((paths@[i as int]@, fingerprint(c@))));
            },
            None => {},
        }
        i = i + 1;
    }
    assert(paths@.subrange(0, i as int) == paths@);
    assert(contents@.subrange(0, i as int) == contents@);
    proof {
        lemma_snapshot_paths(paths@, contents@);
        assert forall|a: int| 0 <= a < out@.len() implies (#[trigger] out@[a]).path@ == snapshot_of(paths@, contents@)[a].0 by {
            assert(fingerprint_views(out@)[a] == (out@[a].path@, out@[a].digest@));
        }
    }
    out
}

} // verus!
