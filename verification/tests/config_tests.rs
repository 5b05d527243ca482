use kbzone::config::{Config, EmbeddingConfig, cache_dir_in, expand_tilde, resolve_base_dir};

#[test]
fn resolve_base_dir_uses_kbzona_home_as_is_when_set() {
    let base = resolve_base_dir(Some("/scratch/kbzona"), ".kbzona", "/home/me");
    assert_eq!(base, "/scratch/kbzona");
}

#[test]
fn resolve_base_dir_ignores_default_suffix_when_kbzona_home_set() {
    let for_config = resolve_base_dir(Some("/scratch/kbzona"), "kbzona", "/home/me");
    let for_db = resolve_base_dir(Some("/scratch/kbzona"), ".kbzona", "/home/me");
    assert_eq!(for_config, for_db);
}

#[test]
fn resolve_base_dir_falls_back_to_home_plus_suffix_when_unset() {
    let base = resolve_base_dir(None, ".kbzona", "/home/me");
    assert_eq!(base, format!("{}/.kbzona", "/home/me"));
}

#[test]
fn default_config_db_path_is_rooted_under_kbzona_home_when_set() {
    let base = resolve_base_dir(Some("/scratch/kbzona"), ".kbzona", "/home/me");
    let db_path = format!("{base}/kbzona.db");
    assert_eq!(db_path, "/scratch/kbzona/kbzona.db");
    let cfg = Config::default_config(Some("/scratch/kbzona"), "/home/me");
    assert_eq!(cfg.db_path, "/scratch/kbzona/kbzona.db");
    assert_eq!(cfg.embedding.provider, "fastembed");
}

#[test]
fn expand_tilde_replaces_only_a_leading_home_marker() {
    assert_eq!(expand_tilde("~/kb/db", "/home/me"), "/home/me/kb/db");
    assert_eq!(expand_tilde("~", "/home/me"), "/home/me");
    assert_eq!(expand_tilde("~other/db", "/home/me"), "~other/db");
    assert_eq!(expand_tilde("/abs/~/db", "/home/me"), "/abs/~/db");
}

#[test]
fn config_paths_resolve_under_home() {
    assert_eq!(Config::config_file_path(None, "/home/me"), "/home/me/.kbzona/config.yaml");
    let cfg = Config {
        db_path: "~/.kbzona/kbzona.db".to_string(),
        embedding: EmbeddingConfig::default(),
    };
    assert_eq!(cfg.resolved_db_path("/home/me"), "/home/me/.kbzona/kbzona.db");
    assert_eq!(cfg.model_cache_dir("/home/me"), "/home/me/.kbzona/fastembed_cache");
    let bare = Config {
        db_path: "kbzona.db".to_string(),
        embedding: EmbeddingConfig::default(),
    };
    assert_eq!(bare.model_cache_dir("/home/me"), "fastembed_cache");
}

#[test]
fn cache_dir_in_joins_without_doubling_the_separator() {
    assert_eq!(cache_dir_in(Some("/data".to_string())), "/data/fastembed_cache");
    assert_eq!(cache_dir_in(Some("/".to_string())), "/fastembed_cache");
    assert_eq!(cache_dir_in(Some(String::new())), "fastembed_cache");
    assert_eq!(cache_dir_in(None), "fastembed_cache");
}
