//! Watch-mode decisions: which changed paths matter, and a cheap digest of a
//! change set to tell whether it moved.
use vstd::prelude::*;
use vstd::wrapping::u64_specs::{wrapping_add, wrapping_mul};
use crate::text::{contains, ends_with, hex, push_hex, str_contains, str_ends_with};
use crate::diff::{StagedDiff, GitError};
use vstd::utf8::encode_utf8;

verus! {

pub open spec fn ignored_dirs() -> Seq<Seq<char>> {
    seq![
        ".git/"@, ".vibetap/"@, "node_modules/"@, "target/"@, "__pycache__/"@, ".pytest_cache/"@,
        "dist/"@, "build/"@, ".next/"@, ".turbo/"@,
    ]
}

/// Paths under tool, dependency and build directories, and lock and log files.
pub open spec fn is_ignored(path: Seq<char>) -> bool {
    (exists|i: int| 0 <= i < ignored_dirs().len() && contains(path, #[trigger] ignored_dirs()[i]))
        || ends_with(path, ".lock"@) || ends_with(path, ".log"@)
}

/// Whether a change at `path` should be ignored by the watcher.
pub fn is_ignored_path(path: &str) -> (r: bool)
    ensures
        r == is_ignored(path@),
{
    let dirs = [".git/", ".vibetap/", "node_modules/", "target/", "__pycache__/", ".pytest_cache/", "dist/", "build/", ".next/", ".turbo/"];
    let mut i: usize = 0;
    while i < 10
        invariant
            i <= 10,
            dirs@.len() == 10,
            forall|k: int| 0 <= k < 10 ==> (#[trigger] dirs@[k])@ == ignored_dirs()[k],
            forall|k: int| 0 <= k < i ==> !contains(path@, #[trigger] ignored_dirs()[k]),
        decreases 10 - i,
    {
        if str_contains(path, dirs[i]) {
            return true;
        }
        i = i + 1;
    }
    str_ends_with(path, ".lock") || str_ends_with(path, ".log")
}

/// One step of the rolling digest: times 31, plus the byte, modulo 2^64.
pub open spec fn roll_byte(h: u64, b: u8) -> u64 {
    wrapping_add(wrapping_mul(h, 31), b as u64)
}

pub open spec fn roll(h: u64, bytes: Seq<u8>) -> u64
    decreases bytes.len(),
{
    if bytes.len() == 0 {
        h
    } else {
        roll_byte(roll(h, bytes.drop_last()), bytes.last())
    }
}

/// The digest of hunk contents, the bytes of every hunk in order.
pub open spec fn roll_all(h: u64, contents: Seq<Seq<u8>>) -> u64
    decreases contents.len(),
{
    if contents.len() == 0 {
        h
    } else {
        roll(roll_all(h, contents.drop_last()), contents.last())
    }
}

pub open spec fn content_bytes(d: StagedDiff) -> Seq<Seq<u8>> {
    d.hunks@.map_values(|h: crate::diff::DiffHunk| encode_utf8(h.content@))
}

/// The digest of a change set as hexadecimal text; empty when there is none.
pub open spec fn diff_digest(d: Result<StagedDiff, GitError>) -> Seq<char> {
    match d {
        Ok(s) => hex(roll_all(0, content_bytes(s)) as nat),
        Err(_) => Seq::empty(),
    }
}

fn roll_bytes(h: u64, bytes: &[u8]) -> (r: u64)
    ensures
        r == roll(h, bytes@),
{
    let mut acc = h;
    let mut i: usize = 0;
    while i < bytes.len()
        invariant
            i <= bytes@.len(),
            acc == roll(h, bytes@.subrange(0, i as int)),
        decreases bytes@.len() - i,
    {
        assert(bytes@.subrange(0, i + 1).drop_last() == bytes@.subrange(0, i as int));
        acc = acc.wrapping_mul(31).wrapping_add(bytes[i] as u64);
        i = i + 1;
    }
    assert(bytes@.subrange(0, i as int) == bytes@);
    acc
}

/// A digest of the change set, to notice when it moved between events.
pub fn get_diff_hash(diff: &Result<StagedDiff, GitError>) -> (r: String)
    ensures
        r@ == diff_digest(*diff),
{
    match diff {
        Ok(d) => {
            let ghost cb = content_bytes(*d);
            let mut h: u64 = 0;
            let mut i: usize = 0;
            assert(cb.subrange(0, 0) =~= Seq::<Seq<u8>>::empty());
            while i < d.hunks.len()
                invariant
                    i <= d.hunks@.len(),
                    cb == content_bytes(*d),
                    h == roll_all(0, cb.subrange(0, i as int)),
                decreases d.hunks@.len() - i,
            {
                assert(cb.subrange(0, i + 1).drop_last() == cb.subrange(0, i as int));
                h = roll_bytes(h, d.hunks[i].content.as_str().as_bytes());
                i = i + 1;
            }
            assert(cb.subrange(0, i as int) == cb);
            let mut s = String::new();
            push_hex(&mut s, h);
            assert(s@ =~= hex(h as nat));
            s
        },
        Err(_) => String::new(),
    }
}

} // verus!
