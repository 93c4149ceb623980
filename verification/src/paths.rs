//! Where the config, the registry and the downloads live.
//!
//! Resolution order (highest priority first): an environment override, then
//! portable mode (a `config.toml` next to the executable puts the config
//! there and the data in its `models` subdirectory), then the platform
//! defaults. Reading the environment and the file system is the caller's
//! part; the rules are here.

use crate::text::{has_prefix, has_suffix};
use vstd::prelude::*;

verus! {

/// Environment variable that overrides the config directory.
pub const ENV_CONFIG_DIR: &'static str = "RUST_HF_DOWNLOADER_CONFIG_DIR";

/// Environment variable that overrides the data directory (registry and
/// default download location).
pub const ENV_DATA_DIR: &'static str = "RUST_HF_DOWNLOADER_DATA_DIR";

/// File name of the config; also the portable-mode marker.
pub const CONFIG_FILE: &'static str = "config.toml";

/// File name of the download registry.
pub const REGISTRY_FILE: &'static str = "hf-downloads.toml";

/// Subdirectory used under the platform config root.
pub const APP_DIR: &'static str = "jreb";

/// Subdirectory of the data root holding the downloads and the registry.
pub const MODELS_DIR: &'static str = "models";

/// `dir` starts with the Windows verbatim prefix `\\?\`.
pub open spec fn verbatim(dir: Seq<char>) -> bool {
    has_prefix(dir, seq!['\\', '\\', '?', '\\'])
}

/// `r` is `part` inside `dir` as `Path::join` (`PathBuf::push`) builds it
/// for a plain relative name: nothing is put between them when `dir` is
/// empty or ends with `/`; a separator (`/`, or `\` where that is the
/// platform's) when `dir` ends with anything but a separator or a drive
/// colon; after a trailing `\` or `:`, which only some platforms read as
/// a separator or drive, either.  A `dir` with the verbatim prefix is
/// normalized on Windows, so of that only the name at the end is stated.
pub open spec fn joined(dir: Seq<char>, part: Seq<char>, r: Seq<char>) -> bool {
    if verbatim(dir) {
        has_suffix(r, part)
    } else if dir.len() == 0 || dir.last() == '/' {
        r == dir + part
    } else if dir.last() == '\\' || dir.last() == ':' {
        r == dir + part || r == dir + seq!['/'] + part || r == dir + seq!['\\'] + part
    } else {
        r == dir + seq!['/'] + part || r == dir + seq!['\\'] + part
    }
}

/// A plain relative name: nonempty, not `.` or `..`, no separator, no
/// drive prefix.
pub open spec fn plain_name(part: Seq<char>) -> bool {
    &&& part.len() > 0
    &&& !(part.len() == 1 && part[0] == '.')
    &&& !(part.len() == 2 && part[0] == '.' && part[1] == '.')
    &&& !part.contains('/')
    &&& !part.contains('\\')
    &&& !part.contains(':')
}

/// `part` is the last component of the path `r`: `r` ends with it, and
/// before it comes nothing, a separator or a drive colon.
pub open spec fn last_component_is(r: Seq<char>, part: Seq<char>) -> bool {
    &&& has_suffix(r, part)
    &&& (r.len() == part.len() || r[r.len() - part.len() - 1] == '/' || r[r.len() - part.len() - 1] == '\\'
        || r[r.len() - part.len() - 1] == ':')
}

/// A plain name joined to a directory is the path's last component (ends
/// the path, at least, when the directory has the verbatim prefix).
pub proof fn law_joined_name_is_last(dir: Seq<char>, part: Seq<char>, r: Seq<char>)
    requires
        plain_name(part),
        joined(dir, part, r),
    ensures
        has_suffix(r, part),
        !verbatim(dir) ==> last_component_is(r, part),
{
    if !verbatim(dir) {
        let n = r.len() - part.len();
        if r == dir + part {
            assert(r.subrange(n, r.len() as int) =~= part);
            if n > 0 {
                assert(r[n - 1] == dir[dir.len() - 1]);
            }
        } else if r == dir + seq!['/'] + part {
            assert(r.subrange(n, r.len() as int) =~= part);
            assert(r[n - 1] == '/');
        } else {
            assert(r == dir + seq!['\\'] + part);
            assert(r.subrange(n, r.len() as int) =~= part);
            assert(r[n - 1] == '\\');
        }
    }
}

/// `Path::join` of a plain relative name, as text (`to_string_lossy` of
/// text that was valid UTF-8 keeps it as it is).
///
/// Claims what `PathBuf::push` documents: the name is appended to `dir`,
/// with a separator unless `dir` is empty or already ends with one.  The
/// separator is the platform's (`/` on Unix, `\\` on Windows); which of
/// the two is not stated.
#[verifier::external_body]
fn join_path(dir: &str, part: &str) -> (r: String)
    requires
        plain_name(part@),
    ensures
        joined(dir@, part@, r@),
{
    std::path::Path::new(dir).join(part).to_string_lossy().into_owned()
}

pub open spec fn opt_seq(o: Option<String>) -> Option<Seq<char>> {
    match o {
        Some(s) => Some(s@),
        None => None,
    }
}

/// The config directory: the override, else the portable directory, else
/// the platform default.
pub open spec fn config_dir_of(env_cfg: Option<Seq<char>>, portable: Option<Seq<char>>, platform_cfg: Seq<char>) -> Seq<char> {
    match env_cfg {
        Some(c) => c,
        None => match portable {
            Some(p) => p,
            None => platform_cfg,
        },
    }
}

/// Resolves the config and data directories from the overrides, the
/// portable directory (the executable's, when it holds the marker) and the
/// platform defaults: each override wins on its own; otherwise portable
/// mode uses the executable's directory for the config and its `models`
/// subdirectory for the data.
pub fn resolve(
    env_cfg: Option<String>,
    env_data: Option<String>,
    portable: Option<String>,
    platform_cfg: String,
    platform_data: String,
) -> (r: (String, String))
    ensures
        r.0@ == config_dir_of(opt_seq(env_cfg), opt_seq(portable), platform_cfg@),
        env_data is Some ==> r.1@ == env_data->0@,
        env_data is None && portable is Some ==> joined(portable->0@, MODELS_DIR@, r.1@),
        env_data is None && portable is None ==> r.1@ == platform_data@,
{
    let data = match env_data {
        Some(d) => d,
        None => match &portable {
            Some(p) => {
                proof {
                    reveal_strlit("models");
                }
                join_path(p.as_str(), MODELS_DIR)
            },
            None => platform_data,
        },
    };
    let cfg = match env_cfg {
        Some(c) => c,
        None => match portable {
            Some(p) => p,
            None => platform_cfg,
        },
    };
    (cfg, data)
}

/// The directory `root/jreb` (or under `fallback` when there is no root):
/// the platform-default config directory.
pub fn app_dir_in(root: Option<String>, fallback: &str) -> (r: String)
    ensures
        root is Some ==> joined(root->0@, APP_DIR@, r@),
        root is None ==> joined(fallback@, APP_DIR@, r@),
{
    proof {
        reveal_strlit("jreb");
    }
    match root {
        Some(d) => join_path(d.as_str(), APP_DIR),
        None => join_path(fallback, APP_DIR),
    }
}

/// The directory `root/models` (or under `fallback` when there is no
/// home): the platform-default data directory.
pub fn models_dir_in(root: Option<String>, fallback: &str) -> (r: String)
    ensures
        root is Some ==> joined(root->0@, MODELS_DIR@, r@),
        root is None ==> joined(fallback@, MODELS_DIR@, r@),
{
    proof {
        reveal_strlit("models");
    }
    match root {
        Some(d) => join_path(d.as_str(), MODELS_DIR),
        None => join_path(fallback, MODELS_DIR),
    }
}

/// Path of the config file in a config directory.
pub fn config_path_in(dir: &str) -> (r: String)
    ensures
        joined(dir@, CONFIG_FILE@, r@),
{
    proof {
        reveal_strlit("config.toml");
    }
    join_path(dir, CONFIG_FILE)
}

/// Path of the registry file in a data directory.
pub fn registry_path_in(dir: &str) -> (r: String)
    ensures
        joined(dir@, REGISTRY_FILE@, r@),
{
    proof {
        reveal_strlit("hf-downloads.toml");
    }
    join_path(dir, REGISTRY_FILE)
}

/// The pre-v2.6 config location `home/.config/jreb/config.toml`.
pub fn legacy_config_path_in(home: &str) -> (r: String)
    ensures
        exists|a: Seq<char>, b: Seq<char>|
            joined(home@, ".config"@, a) && joined(a, APP_DIR@, b) && joined(b, CONFIG_FILE@, r@),
{
    proof {
        reveal_strlit(".config");
        reveal_strlit("jreb");
        reveal_strlit("config.toml");
    }
    let a = join_path(home, ".config");
    let b = join_path(a.as_str(), APP_DIR);
    join_path(b.as_str(), CONFIG_FILE)
}

/// What path resolution reads from the process: the two overrides (each
/// only when set and nonempty), the executable's directory when it holds
/// the portable-mode marker, and the platform defaults (see
/// [`app_dir_in`] and [`models_dir_in`]).
#[derive(Debug, Clone)]
pub struct PathEnv {
    pub config_override: Option<String>,
    pub data_override: Option<String>,
    pub portable: Option<String>,
    pub platform_config: String,
    pub platform_data: String,
}

/// The config directory that `env` resolves to.
pub open spec fn env_config_dir(env: PathEnv) -> Seq<char> {
    config_dir_of(opt_seq(env.config_override), opt_seq(env.portable), env.platform_config@)
}

/// `r` is the data directory that `env` resolves to: the override, else
/// the portable directory's `models`, else the platform default.
pub open spec fn is_data_dir(env: PathEnv, r: Seq<char>) -> bool {
    match env.data_override {
        Some(d) => r == d@,
        None => match env.portable {
            Some(p) => joined(p@, MODELS_DIR@, r),
            None => r == env.platform_data@,
        },
    }
}

/// The data directory that `env` resolves to is one directory: any two
/// that [`data_dir`] and [`default_download_dir`] may give are equal, but
/// for the platform's separator before `models` in portable mode (and the
/// normalization of a verbatim portable directory).
pub proof fn law_data_dir_determined(env: PathEnv, a: Seq<char>, b: Seq<char>)
    requires
        is_data_dir(env, a),
        is_data_dir(env, b),
    ensures
        env.data_override is Some || env.portable is None ==> a == b,
        env.data_override is None && env.portable is Some ==> {
            let p = env.portable->0@;
            &&& !verbatim(p) && (p.len() == 0 || p.last() == '/') ==> a == b
            &&& !verbatim(p) && p.len() > 0 && p.last() != '/' && p.last() != '\\' && p.last() != ':' ==> {
                &&& a.len() == b.len()
                &&& forall|i: int| 0 <= i < a.len() && i != p.len() ==> a[i] == b[i]
            }
        },
{
    if env.data_override is None && env.portable is Some {
        let p = env.portable->0@;
        if !verbatim(p) && p.len() > 0 && p.last() != '/' && p.last() != '\\' && p.last() != ':' {
            assert forall|i: int| 0 <= i < a.len() && i != p.len() implies a[i] == b[i] by {
                if i < p.len() {
                    assert(a[i] == p[i] && b[i] == p[i]);
                } else {
                    assert(a[i] == MODELS_DIR@[i - p.len() - 1] && b[i] == MODELS_DIR@[i - p.len() - 1]);
                }
            }
        }
    }
}

fn own_opt(o: &Option<String>) -> (r: Option<String>)
    ensures
        opt_seq(r) == opt_seq(*o),
{
    match o {
        Some(v) => Some(v.clone()),
        None => None,
    }
}

/// The config directory (resolution order in the module docs).
pub fn config_dir(env: &PathEnv) -> (r: String)
    ensures
        r@ == env_config_dir(*env),
{
    resolve(
        own_opt(&env.config_override),
        own_opt(&env.data_override),
        own_opt(&env.portable),
        env.platform_config.clone(),
        env.platform_data.clone(),
    ).0
}

/// The directory holding the download registry and, by default, the
/// downloaded model files.
pub fn data_dir(env: &PathEnv) -> (r: String)
    ensures
        is_data_dir(*env, r@),
{
    resolve(
        own_opt(&env.config_override),
        own_opt(&env.data_override),
        own_opt(&env.portable),
        env.platform_config.clone(),
        env.platform_data.clone(),
    ).1
}

/// The download directory used when the options name none: the data
/// directory.
pub fn default_download_dir(env: &PathEnv) -> (r: String)
    ensures
        is_data_dir(*env, r@),
{
    data_dir(env)
}

/// The canonical path of `config.toml`; writes always go here.
pub fn config_path(env: &PathEnv) -> (r: String)
    ensures
        joined(env_config_dir(*env), CONFIG_FILE@, r@),
        has_suffix(r@, CONFIG_FILE@),
        !verbatim(env_config_dir(*env)) ==> last_component_is(r@, CONFIG_FILE@),
{
    let d = config_dir(env);
    let r = config_path_in(d.as_str());
    proof {
        reveal_strlit("config.toml");
        law_joined_name_is_last(d@, CONFIG_FILE@, r@);
    }
    r
}

/// The path of the download registry, inside the data directory.
pub fn registry_path(env: &PathEnv) -> (r: String)
    ensures
        exists|d: Seq<char>|
            is_data_dir(*env, d) && joined(d, REGISTRY_FILE@, r@) && (!verbatim(d) ==> last_component_is(
                r@,
                REGISTRY_FILE@,
            )),
        has_suffix(r@, REGISTRY_FILE@),
{
    let d = data_dir(env);
    let r = registry_path_in(d.as_str());
    proof {
        reveal_strlit("hf-downloads.toml");
        law_joined_name_is_last(d@, REGISTRY_FILE@, r@);
    }
    r
}

/// The config file to read.  An explicit config-dir override owns the
/// location; otherwise the canonical file when it exists, else the legacy
/// `home/.config/jreb/config.toml` when that exists (the next save
/// migrates it), else the canonical path.  Without a home directory the
/// legacy path is the canonical one.  The two flags say whether the
/// canonical and the legacy file exist.
pub fn read_config_path(env: &PathEnv, home: Option<String>, canonical_is_file: bool, legacy_is_file: bool) -> (r: String)
    ensures
        env.config_override is Some || canonical_is_file || !legacy_is_file || home is None ==> joined(
            env_config_dir(*env),
            CONFIG_FILE@,
            r@,
        ),
        env.config_override is None && !canonical_is_file && legacy_is_file && home is Some ==> exists|
            a: Seq<char>,
            b: Seq<char>,
        | joined(home->0@, ".config"@, a) && joined(a, APP_DIR@, b) && joined(b, CONFIG_FILE@, r@),
{
    let canonical = config_path(env);
    match home {
        Some(h) => {
            let legacy = legacy_config_path_in(h.as_str());
            read_config_path_from(
                env.config_override.is_some(),
                canonical.as_str(),
                legacy.as_str(),
                canonical_is_file,
                legacy_is_file,
            )
        },
        None => canonical,
    }
}

/// Which config file to read: the canonical one when it exists, else the
/// legacy one when that exists (the next save migrates it), else the
/// canonical path.
pub fn select_read_path(canonical: &str, legacy: &str, canonical_is_file: bool, legacy_is_file: bool) -> (r: String)
    ensures
        r@ == (if canonical_is_file || !legacy_is_file { canonical@ } else { legacy@ }),
{
    if canonical_is_file {
        String::from_str(canonical)
    } else if legacy_is_file {
        String::from_str(legacy)
    } else {
        String::from_str(canonical)
    }
}

/// The config file to read: an explicit config-dir override owns the
/// location (no legacy fallback); otherwise as [`select_read_path`].
pub fn read_config_path_from(
    override_set: bool,
    canonical: &str,
    legacy: &str,
    canonical_is_file: bool,
    legacy_is_file: bool,
) -> (r: String)
    ensures
        r@ == (if override_set || canonical_is_file || !legacy_is_file { canonical@ } else { legacy@ }),
{
    if override_set {
        String::from_str(canonical)
    } else {
        select_read_path(canonical, legacy, canonical_is_file, legacy_is_file)
    }
}

} // verus!
