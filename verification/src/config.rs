//! Configuration: where the database lives and which embedding provider to
//! use, and how the home directories behind those paths are resolved.
//! Reading the environment and the file system is the program's part; the
//! values it reads are passed in here.

use vstd::prelude::*;

use crate::domain::kb::opt_view;
use crate::text::{chars_of, has_prefix, owned, push_str, starts_with, str_eq, string_from_chars};

verus! {

/// The parent directory of a path as `std::path::Path::parent` gives it.
pub uninterp spec fn path_parent(p: Seq<char>) -> Option<Seq<char>>;

/// The parent directory of `p` (`std::path::Path::parent`), as a string;
/// `None` for a root or an empty path. The contract names the result;
/// Rust's component rules are not restated.
#[verifier::external_body]
fn parent_dir(p: &str) -> (res: Option<String>)
    ensures
        opt_view(res) == path_parent(p@),
{
    std::path::Path::new(p).parent().map(|d| d.to_string_lossy().into_owned())
}

/// `name` appended to the directory `dir` as `PathBuf::push` does for a
/// relative name: no separator after an empty directory or one that already
/// ends with `/`.
pub open spec fn path_join(dir: Seq<char>, name: Seq<char>) -> Seq<char> {
    if dir.len() == 0 {
        name
    } else if dir.last() == '/' {
        dir + name
    } else {
        dir + seq!['/'] + name
    }
}

fn join_path(dir: &str, name: &str) -> (res: String)
    ensures
        res@ == path_join(dir@, name@),
{
    let cs = chars_of(dir);
    if cs.len() == 0 {
        return owned(name);
    }
    let mut s = owned(dir);
    if cs[cs.len() - 1] != '/' {
        push_str(&mut s, "/");
        proof {
            reveal_strlit("/");
        }
    }
    push_str(&mut s, name);
    s
}

/// The model cache directory beside a database whose directory is
/// `db_dir`: `fastembed_cache` in it, or alone when there is none.
pub open spec fn cache_dir_path(db_dir: Option<Seq<char>>) -> Seq<char> {
    match db_dir {
        Some(d) => path_join(d, "fastembed_cache"@),
        None => "fastembed_cache"@,
    }
}

/// The model cache directory beside a database whose directory is `db_dir`.
pub fn cache_dir_in(db_dir: Option<String>) -> (res: String)
    ensures
        res@ == cache_dir_path(opt_view(db_dir)),
{
    match db_dir {
        Some(d) => join_path(d.as_str(), "fastembed_cache"),
        None => owned("fastembed_cache"),
    }
}

/// `path` with a leading `~` (alone or before `/`) replaced by `home`.
pub open spec fn expanded(path: Seq<char>, home: Seq<char>) -> Seq<char> {
    if has_prefix(path, "~/"@) || path == "~"@ {
        home + path.skip(1)
    } else {
        path
    }
}

/// Resolves `~` to the home directory `home`.
pub fn expand_tilde(path: &str, home: &str) -> (res: String)
    ensures
        res@ == expanded(path@, home@),
{
    if starts_with(path, "~/") || str_eq(path, "~") {
        proof {
            reveal_strlit("~/");
            reveal_strlit("~");
        }
        let cs = chars_of(path);
        let mut s = owned(home);
        let rest = string_from_chars(&cs.as_slice()[1..cs.len()]);
        push_str(&mut s, rest.as_str());
        assert(rest@ =~= path@.skip(1));
        s
    } else {
        owned(path)
    }
}

/// The base directory for the configuration or the database: the
/// `KBZONA_HOME` override as it is when set, else `home/default_suffix`.
pub open spec fn base_dir_of(kbzona_home: Option<Seq<char>>, default_suffix: Seq<char>, home: Seq<char>) -> Seq<char> {
    match kbzona_home {
        Some(dir) => dir,
        None => home + "/"@ + default_suffix,
    }
}

pub open spec fn opt_str(o: Option<&str>) -> Option<Seq<char>> {
    match o {
        Some(s) => Some(s@),
        None => None,
    }
}

/// Resolves the base directory (see `base_dir_of`).
pub fn resolve_base_dir(kbzona_home: Option<&str>, default_suffix: &str, home: &str) -> (res: String)
    ensures
        res@ == base_dir_of(opt_str(kbzona_home), default_suffix@, home@),
{
    match kbzona_home {
        Some(dir) => owned(dir),
        None => {
            let mut s = owned(home);
            push_str(&mut s, "/");
            push_str(&mut s, default_suffix);
            s
        },
    }
}

/// The embedding provider to use.
#[derive(Debug, Clone)]
pub struct EmbeddingConfig {
    /// Which provider; `"fastembed"` by default.
    pub provider: String,
}

/// The provider used when none is configured.
pub fn default_provider() -> (res: String)
    ensures
        res@ == "fastembed"@,
{
    owned("fastembed")
}

impl Default for EmbeddingConfig {
    fn default() -> (res: Self)
        ensures
            res.provider@ == "fastembed"@,
    {
        EmbeddingConfig { provider: default_provider() }
    }
}

/// The configuration file's contents.
#[derive(Debug, Clone)]
pub struct Config {
    /// Path to the database file; `~` is expanded.
    pub db_path: String,
    /// Embedding provider configuration.
    pub embedding: EmbeddingConfig,
}

impl Config {
    /// Where the configuration file is: `config.yaml` in the base directory
    /// (`KBZONA_HOME`, else `home/.kbzona`), beside the database.
    pub fn config_file_path(kbzona_home: Option<&str>, home: &str) -> (res: String)
        ensures
            res@ == path_join(base_dir_of(opt_str(kbzona_home), ".kbzona"@, home@), "config.yaml"@),
    {
        let base = resolve_base_dir(kbzona_home, ".kbzona", home);
        join_path(base.as_str(), "config.yaml")
    }

    /// The configuration written when there is none: the database at
    /// `kbzona.db` in the base directory (`KBZONA_HOME`, else
    /// `home/.kbzona`), the default provider.
    pub fn default_config(kbzona_home: Option<&str>, home: &str) -> (res: Config)
        ensures
            res.db_path@ == base_dir_of(opt_str(kbzona_home), ".kbzona"@, home@) + "/kbzona.db"@,
            res.embedding.provider@ == "fastembed"@,
    {
        let mut db_path = resolve_base_dir(kbzona_home, ".kbzona", home);
        push_str(&mut db_path, "/kbzona.db");
        Config { db_path, embedding: EmbeddingConfig::default() }
    }

    /// The database path with `~` expanded.
    pub fn resolved_db_path(&self, home: &str) -> (res: String)
        ensures
            res@ == expanded(self.db_path@, home@),
    {
        expand_tilde(self.db_path.as_str(), home)
    }

    /// Where embedding model files are cached: `fastembed_cache` beside the
    /// database file.
    pub fn model_cache_dir(&self, home: &str) -> (res: String)
        ensures
            res@ == cache_dir_path(path_parent(expanded(self.db_path@, home@))),
    {
        let db = expand_tilde(self.db_path.as_str(), home);
        cache_dir_in(parent_dir(db.as_str()))
    }
}

} // verus!
