//! Options of each command, as plain values.
use vstd::prelude::*;
use crate::ledger::RevertScope;

verus! {

/// Options of `apply`.
#[derive(Debug, Clone, Default)]
pub struct ApplyArgs {
    /// Numbers, ranges or `all`; empty means ask.
    pub selections: Vec<String>,
    /// Skip confirmation prompts.
    pub yes: bool,
    /// Apply even when source files changed since generation.
    pub force: bool,
}

impl ApplyArgs {
    /// Whether drift must be checked before applying: not when forced, and
    /// not when nothing was fingerprinted.
    pub fn checks_drift(&self, tracked_files: usize) -> (r: bool)
        ensures
            r == (!self.force && tracked_files > 0),
    {
        !self.force && tracked_files > 0
    }
}

/// Options of `auth`.
#[derive(Debug, Clone)]
pub struct AuthArgs {
    pub command: AuthCommand,
}

#[derive(Debug, Clone)]
pub enum AuthCommand {
    Login(LoginArgs),
    Logout,
    Status,
}

#[derive(Debug, Clone, Default)]
pub struct LoginArgs {
    pub api_url: Option<String>,
    /// An API key instead of the browser flow.
    pub key: Option<String>,
}

/// Options of `generate`.
#[derive(Debug, Clone)]
pub struct GenerateArgs {
    /// Only hunks of this file.
    pub file: Option<String>,
    pub staged: bool,
    pub uncommitted: bool,
    pub security: bool,
    pub max_suggestions: u32,
    pub test_runner: Option<String>,
    pub quiet: bool,
}

/// Options of `hook`.
#[derive(Debug, Clone)]
pub struct HookArgs {
    pub command: HookCommand,
}

#[derive(Debug, Clone)]
pub enum HookCommand {
    Install(InstallArgs),
    Uninstall,
    Status,
}

#[derive(Debug, Clone, Copy, Default)]
pub struct InstallArgs {
    /// Block commits when suggestions are available.
    pub block: bool,
    /// Only security suggestions warn.
    pub security_only: bool,
}

/// Options of `hush`.
#[derive(Debug, Clone)]
pub struct HushArgs {
    pub duration: String,
    pub status: bool,
    pub clear: bool,
}

/// Options of `init`.
#[derive(Debug, Clone, Copy, Default)]
pub struct InitArgs {
    pub force: bool,
}

/// Options of `now`.
#[derive(Debug, Clone)]
pub struct NowArgs {
    pub staged: bool,
    pub uncommitted: bool,
    pub security: bool,
    pub max_suggestions: u32,
    pub test_runner: Option<String>,
}

/// Options of `revert`.
#[derive(Debug, Clone, Copy, Default)]
pub struct RevertArgs {
    pub yes: bool,
    /// Every applied change, not only the last batch.
    pub all: bool,
    /// This many applied files.
    pub count: Option<usize>,
}

impl RevertArgs {
    /// The records to revert: `--all` wins over `--count`, and neither means
    /// the last batch.
    pub fn scope(&self) -> (r: RevertScope)
        ensures
            self.all ==> r == RevertScope::All,
            !self.all && self.count is Some ==> r == RevertScope::Count(self.count->0),
            !self.all && self.count is None ==> r == RevertScope::LastBatch,
    {
        if self.all {
            RevertScope::All
        } else {
            match self.count {
                Some(n) => RevertScope::Count(n),
                None => RevertScope::LastBatch,
            }
        }
    }
}

/// Options of `run`.
#[derive(Debug, Clone, Default)]
pub struct RunArgs {
    pub all: bool,
    pub runner: Option<String>,
    pub args: Vec<String>,
}

/// Options of `scan`.
#[derive(Debug, Clone)]
pub struct ScanArgs {
    pub path: String,
    pub all: bool,
    pub limit: usize,
    pub json: bool,
}

/// Options of `stats`.
#[derive(Debug, Clone, Copy, Default)]
pub struct StatsArgs {
    pub json: bool,
}

/// Options of `watch`.
#[derive(Debug, Clone, Copy)]
pub struct WatchArgs {
    pub debounce: u64,
    pub uncommitted: bool,
    pub max_suggestions: u32,
    pub security: bool,
}

} // verus!
