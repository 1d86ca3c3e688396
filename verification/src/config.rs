//! Settings: the API key and its resolution (the environment first, then the settings
//! file), and where the tool keeps its files.

use vstd::prelude::*;
use crate::text::{chars_of, string_from_chars};
use crate::catalog::opt_string_view;

verus! {

/// The environment variable that holds the API key.
pub const ENV_API_KEY: &'static str = "DATA_GO_KR_API_KEY";

/// Persistent settings.
#[derive(Debug, Clone)]
pub struct AppConfig {
    pub api_key: Option<String>,
    pub catalog_updated_at: Option<String>,
}

impl Default for AppConfig {
    fn default() -> (r: Self)
        ensures
            r.api_key is None,
            r.catalog_updated_at is None,
    {
        AppConfig { api_key: None, catalog_updated_at: None }
    }
}

/// Why a setting could not be read or written.
#[derive(Debug, Clone)]
pub enum ConfigError {
    /// The setting does not exist.
    UnknownKey(String),
    /// The API key is set neither in the environment nor in the settings.
    ApiKeyNotSet,
}

/// The API key in effect: the environment's value when there is one, else the settings'.
pub open spec fn resolved_key(env_value: Option<Seq<char>>, configured: Option<Seq<char>>) -> Option<Seq<char>> {
    match env_value {
        Some(v) => Some(v),
        None => configured,
    }
}

impl AppConfig {
    /// Resolve the API key: the environment variable's value (`env_value`, read by the
    /// caller) takes priority over the settings.
    pub fn resolve_api_key(&self, env_value: Option<String>) -> (r: Option<String>)
        ensures
            opt_string_view(r) == resolved_key(opt_string_view(env_value), opt_string_view(self.api_key)),
    {
        match env_value {
            Some(v) => Some(v),
            None => match &self.api_key {
                Some(k) => Some(k.clone()),
                None => None,
            },
        }
    }

    /// Set a setting in memory; the caller saves the settings afterwards. Only `api-key`
    /// exists.
    pub fn set(&mut self, key: &str, value: &str) -> (r: Result<(), ConfigError>)
        ensures
            key@ == "api-key"@ ==> r is Ok && opt_string_view(final(self).api_key) == Some(value@)
                && final(self).catalog_updated_at == old(self).catalog_updated_at,
            key@ != "api-key"@ ==> (r matches Err(ConfigError::UnknownKey(k)) && k@ == key@),
            key@ != "api-key"@ ==> *final(self) == *old(self),
    {
        if key.to_owned() == "api-key".to_owned() {
            self.api_key = Some(value.to_owned());
            Ok(())
        } else {
            Err(ConfigError::UnknownKey(key.to_owned()))
        }
    }

    /// Read a setting. Only `api-key` exists; it resolves as `resolve_api_key` does.
    pub fn get(&self, key: &str, env_value: Option<String>) -> (r: Result<String, ConfigError>)
        ensures
            key@ == "api-key"@ ==> match resolved_key(opt_string_view(env_value), opt_string_view(self.api_key)) {
                Some(v) => (r matches Ok(s) && s@ == v),
                None => (r matches Err(ConfigError::ApiKeyNotSet)),
            },
            key@ != "api-key"@ ==> (r matches Err(ConfigError::UnknownKey(k)) && k@ == key@),
    {
        if key.to_owned() == "api-key".to_owned() {
            match self.resolve_api_key(env_value) {
                Some(v) => Ok(v),
                None => Err(ConfigError::ApiKeyNotSet),
            }
        } else {
            Err(ConfigError::UnknownKey(key.to_owned()))
        }
    }
}

// ---------------------------------------------------------------------------
// Paths
// ---------------------------------------------------------------------------

/// `dir` joined with `name` as a path: an absolute `name` replaces `dir`; otherwise a `/`
/// separates them unless `dir` is empty or already ends with one.
pub open spec fn join_path(dir: Seq<char>, name: Seq<char>) -> Seq<char> {
    if name.len() > 0 && name[0] == '/' {
        name
    } else if dir.len() == 0 {
        name
    } else if dir.last() == '/' {
        dir + name
    } else {
        dir + "/"@ + name
    }
}

/// Path join on strings.
pub fn join_path_str(dir: &str, name: &str) -> (r: String)
    ensures
        r@ == join_path(dir@, name@),
{
    let d = chars_of(dir);
    let n = chars_of(name);
    if n.len() > 0 && n[0] == '/' {
        return string_from_chars(n.as_slice());
    }
    if d.len() == 0 {
        return string_from_chars(n.as_slice());
    }
    let mut out = d.clone();
    if d[d.len() - 1] != '/' {
        out.push('/');
    }
    let mut m = n.clone();
    out.append(&mut m);
    proof {
        reveal_strlit("/");
    }
    assert(out@ =~= join_path(dir@, name@));
    string_from_chars(out.as_slice())
}

/// The settings file in the configuration directory `config_dir`.
pub fn config_file(config_dir: &str) -> (r: String)
    ensures
        r@ == join_path(config_dir@, "config.toml"@),
{
    join_path_str(config_dir, "config.toml")
}

/// The catalog file in the configuration directory `config_dir`.
pub fn catalog_file(config_dir: &str) -> (r: String)
    ensures
        r@ == join_path(config_dir@, "catalog.json"@),
{
    join_path_str(config_dir, "catalog.json")
}

/// The spec cache directory (`cache/specs`) in the configuration directory `config_dir`.
pub fn spec_cache_dir(config_dir: &str) -> (r: String)
    ensures
        r@ == join_path(join_path(config_dir@, "cache"@), "specs"@),
{
    let cache = join_path_str(config_dir, "cache");
    join_path_str(cache.as_str(), "specs")
}

/// The cached spec of `list_id` (`<list_id>.json`) in the spec cache directory.
pub fn spec_cache_file(spec_cache_dir: &str, list_id: &str) -> (r: String)
    ensures
        r@ == join_path(spec_cache_dir@, list_id@ + ".json"@),
{
    let mut name = chars_of(list_id);
    let mut ext = chars_of(".json");
    name.append(&mut ext);
    let n = string_from_chars(name.as_slice());
    join_path_str(spec_cache_dir, n.as_str())
}

/// The downloaded bundle that takes the place of the embedded one.
pub fn bundle_override_file(config_dir: &str) -> (r: String)
    ensures
        r@ == join_path(config_dir@, "bundle.zstd"@),
{
    join_path_str(config_dir, "bundle.zstd")
}

// ---------------------------------------------------------------------------
// Laws of the settings
// ---------------------------------------------------------------------------

/// The environment's key wins over the configured one.
pub proof fn law_env_key_takes_priority(env_value: Seq<char>, configured: Option<Seq<char>>)
    ensures
        resolved_key(Some(env_value), configured) == Some(env_value),
{
}

/// After `set("api-key", value)`, `get("api-key")` without an environment key gives `value`:
/// `after` is a configuration in the state that `set` leaves.
pub proof fn law_set_then_get(after: AppConfig, value: Seq<char>)
    requires
        opt_string_view(after.api_key) == Some(value),
    ensures
        resolved_key(None, opt_string_view(after.api_key)) == Some(value),
{
}

} // verus!
