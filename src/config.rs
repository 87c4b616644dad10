//! Configuration: stored credentials, project settings, and where they live.
use vstd::prelude::*;
use crate::text::{contains, ends_with, opt_view, str_contains};
use crate::clock::unix_now;

verus! {

/// Credentials: an OAuth session or an API key.
#[derive(Debug, Clone)]
pub struct AuthTokens {
    pub access_token: String,
    pub refresh_token: Option<String>,
    pub expires_at: Option<i64>,
    /// `"oauth"` or `"api_key"`.
    pub auth_type: String,
}

/// Settings kept in the user's configuration directory.
#[derive(Debug, Default)]
pub struct GlobalConfig {
    pub api_url: Option<String>,
    pub tokens: Option<AuthTokens>,
}

/// Settings kept in the project.
#[derive(Debug)]
pub struct ProjectConfig {
    pub version: String,
    pub project_type: String,
    pub test_runner: String,
    pub watch_mode: WatchModeConfig,
    pub generation: GenerationConfig,
}

#[derive(Debug)]
pub struct WatchModeConfig {
    pub enabled: bool,
    pub debounce_ms: u64,
}

#[derive(Debug)]
pub struct GenerationConfig {
    pub max_suggestions: u32,
    pub include_security: bool,
    pub include_negative_paths: bool,
}

/// Global and project settings together.
#[derive(Debug)]
pub struct Config {
    pub global: GlobalConfig,
    pub project: Option<ProjectConfig>,
    pub tokens: Option<AuthTokens>,
}

/// Failure to read, parse or refresh configuration.
#[derive(Debug)]
pub enum ConfigError {
    Read(String),
    Parse(String),
    NotAuthenticated,
    RefreshFailed(String),
    Http(String),
}

pub open spec fn default_api_url() -> Seq<char> {
    "https://vibetap.dev"@
}

pub open spec fn api_key_kind() -> Seq<char> {
    "api_key"@
}

/// Seconds before expiry at which a session already counts as expired.
pub const EXPIRY_MARGIN_SECS: i64 = 300;

/// Whether the credentials need a refresh at Unix second `now`.
pub open spec fn expired_at(tokens: Option<AuthTokens>, now: int) -> bool {
    match tokens {
        None => true,
        Some(t) => if t.auth_type@ == api_key_kind() {
            false
        } else {
            match t.expires_at {
                None => false,
                Some(e) => e - EXPIRY_MARGIN_SECS < now,
            }
        },
    }
}

/// `base` joined with the relative `name`, with one `/` between them.
pub open spec fn join_path(base: Seq<char>, name: Seq<char>) -> Seq<char> {
    if base.len() == 0 {
        name
    } else if ends_with(base, "/"@) {
        base + name
    } else {
        base + "/"@ + name
    }
}

pub open spec fn config_dir_under(base: Option<Seq<char>>) -> Seq<char> {
    join_path(
        match base {
            Some(b) => b,
            None => "."@,
        },
        "vibetap"@,
    )
}

pub open spec fn config_path_under(base: Option<Seq<char>>) -> Seq<char> {
    join_path(config_dir_under(base), "config.toml"@)
}

/// Relies on `dirs::config_dir`: the platform's configuration directory,
/// if one is known. What it holds depends on the environment.
#[verifier::external_body]
fn platform_config_dir() -> (r: Option<String>) {
    dirs::config_dir().map(|p| p.to_string_lossy().into_owned())
}

/// `base` joined with `name` as `join_path` says.
pub fn join(base: &str, name: &str) -> (r: String)
    ensures
        r@ == join_path(base@, name@),
{
    let n = base.unicode_len();
    if n == 0 {
        return name.to_owned();
    }
    let mut r = base.to_owned();
    let last = base.get_char(n - 1);
    proof {
        reveal_strlit("/");
        if ends_with(base@, "/"@) {
            assert(base@.subrange(n - 1, n as int)[0] == base@[n - 1]);
        } else if last == '/' {
            assert(base@.subrange(n - 1, n as int) =~= "/"@);
        }
    }
    if last != '/' {
        r.append("/");
    }
    r.append(name);
    r
}

/// Copies credentials field by field.
pub fn copy_tokens(t: &AuthTokens) -> (r: AuthTokens)
    ensures
        r == *t,
{
    AuthTokens {
        access_token: t.access_token.clone(),
        refresh_token: match &t.refresh_token {
            Some(s) => Some(s.clone()),
            None => None,
        },
        expires_at: t.expires_at,
        auth_type: t.auth_type.clone(),
    }
}

impl Config {
    /// Combines loaded settings; the credentials are those of the global settings.
    pub fn from_parts(global: GlobalConfig, project: Option<ProjectConfig>) -> (r: Config)
        ensures
            r.global == global,
            r.project == project,
            r.tokens == global.tokens,
    {
        let tokens = match &global.tokens {
            Some(t) => Some(copy_tokens(t)),
            None => None,
        };
        Config { global, project, tokens }
    }

    /// The service URL, `https://vibetap.dev` unless configured.
    pub fn api_url(&self) -> (r: &str)
        ensures
            r@ == match self.global.api_url {
                Some(u) => u@,
                None => default_api_url(),
            },
    {
        match &self.global.api_url {
            Some(u) => u.as_str(),
            None => "https://vibetap.dev",
        }
    }

    /// The access token, or `NotAuthenticated`.
    pub fn access_token(&self) -> (r: Result<&str, ConfigError>)
        ensures
            self.tokens is None ==> r matches Err(ConfigError::NotAuthenticated),
            self.tokens is Some ==> (r matches Ok(s) && s@ == self.tokens->0.access_token@),
    {
        match &self.tokens {
            Some(t) => Ok(t.access_token.as_str()),
            None => Err(ConfigError::NotAuthenticated),
        }
    }

    pub fn is_authenticated(&self) -> (r: bool)
        ensures
            r == self.tokens is Some,
    {
        self.tokens.is_some()
    }

    /// The configuration directory under `base`, or under `.` when none is known.
    pub fn config_dir_in(base: Option<String>) -> (r: String)
        ensures
            r@ == config_dir_under(opt_view(base)),
    {
        match base {
            Some(b) => join(b.as_str(), "vibetap"),
            None => join(".", "vibetap"),
        }
    }

    /// The global configuration directory.
    pub fn global_config_dir() -> (r: String)
        ensures
            exists|b: Option<Seq<char>>| r@ == config_dir_under(b),
    {
        let base = platform_config_dir();
        let ghost b = opt_view(base);
        let r = Self::config_dir_in(base);
        assert(r@ == config_dir_under(b));
        r
    }

    /// The global configuration file.
    pub fn global_config_path() -> (r: String)
        ensures
            exists|b: Option<Seq<char>>| r@ == config_path_under(b),
    {
        let base = platform_config_dir();
        let ghost b = opt_view(base);
        let dir = Self::config_dir_in(base);
        let r = join(dir.as_str(), "config.toml");
        assert(r@ == config_path_under(b));
        r
    }

    /// Whether the credentials need a refresh at Unix second `now`: no
    /// credentials count as expired, an API key never expires, and a session
    /// counts as expired five minutes early.
    pub fn is_token_expired_at(&self, now: i64) -> (r: bool)
        ensures
            r == expired_at(self.tokens, now as int),
    {
        match &self.tokens {
            None => true,
            Some(t) => {
                if t.auth_type.as_str().unicode_len() == 7 && t.auth_type == String::from_str("api_key") {
                    return false;
                }
                proof {
                    reveal_strlit("api_key");
                    if t.auth_type@ == api_key_kind() {
                        assert(t.auth_type@.len() == 7);
                    }
                }
                match t.expires_at {
                    None => false,
                    Some(e) => (e as i128) - (EXPIRY_MARGIN_SECS as i128) < now as i128,
                }
            },
        }
    }

    /// Whether the credentials need a refresh now.
    pub fn is_token_expired(&self) -> (r: bool)
        ensures
            self.tokens is None ==> r,
            exists|now: int| now >= 0 && r == expired_at(self.tokens, now),
    {
        let now = unix_now();
        let r = self.is_token_expired_at(now);
        assert(now >= 0 && r == expired_at(self.tokens, now as int));
        r
    }
}


/// Whether a refused refresh means the session is over (so the stored
/// credentials are cleared): an unauthorized status, or a body that says
/// the refresh token was used, is invalid, or expired.
pub fn refresh_refused_for_good(unauthorized: bool, body: &str) -> (r: bool)
    ensures
        r == (unauthorized || contains(body@, "Already Used"@) || contains(body@, "Invalid Refresh Token"@)
            || contains(body@, "expired"@)),
{
    unauthorized || str_contains(body, "Already Used") || str_contains(body, "Invalid Refresh Token")
        || str_contains(body, "expired")
}

/// Whether a refresh failure reported by the service ends the session.
pub fn refresh_failure_is_final(message: &str) -> (r: bool)
    ensures
        r == (contains(message@, "Already Used"@) || contains(message@, "Invalid"@) || contains(message@, "expired"@)),
{
    str_contains(message, "Already Used") || str_contains(message, "Invalid") || str_contains(message, "expired")
}

/// Credentials from a successful refresh.
pub fn refreshed_tokens(access_token: String, refresh_token: String, expires_at: i64) -> (r: AuthTokens)
    ensures
        r.access_token == access_token,
        r.refresh_token == Some(refresh_token),
        r.expires_at == Some(expires_at),
        r.auth_type@ == "oauth"@,
{
    AuthTokens {
        access_token,
        refresh_token: Some(refresh_token),
        expires_at: Some(expires_at),
        auth_type: String::from_str("oauth"),
    }
}

impl Default for ProjectConfig {
    fn default() -> (r: ProjectConfig)
        ensures
            r.version@ == "1.0"@,
            r.project_type@ == "node"@,
            r.test_runner@ == "vitest"@,
            r.watch_mode.enabled && r.watch_mode.debounce_ms == 2000,
            r.generation.max_suggestions == 3 && r.generation.include_security
                && r.generation.include_negative_paths,
    {
        ProjectConfig {
            version: String::from_str("1.0"),
            project_type: String::from_str("node"),
            test_runner: String::from_str("vitest"),
            watch_mode: WatchModeConfig { enabled: true, debounce_ms: 2000 },
            generation: GenerationConfig {
                max_suggestions: 3,
                include_security: true,
                include_negative_paths: true,
            },
        }
    }
}

} // verus!
