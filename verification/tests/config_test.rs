use korea_cli::config::{
    bundle_override_file, catalog_file, config_file, join_path_str, spec_cache_dir, spec_cache_file, AppConfig,
    ConfigError, ENV_API_KEY,
};

#[test]
fn test_env_var_takes_priority() {
    let cfg = AppConfig { api_key: Some("config-key".to_string()), ..Default::default() };
    assert_eq!(cfg.resolve_api_key(Some("env-key".to_string())), Some("env-key".to_string()));
    assert_eq!(cfg.resolve_api_key(None), Some("config-key".to_string()));
}

#[test]
fn test_no_key_returns_none() {
    let cfg = AppConfig::default();
    assert_eq!(cfg.resolve_api_key(None), None);
}

#[test]
fn config_set_then_get_gives_the_value() {
    let mut cfg = AppConfig::default();
    assert!(cfg.set("api-key", "test-key-123").is_ok());
    assert_eq!(cfg.api_key.as_deref(), Some("test-key-123"));
    assert_eq!(cfg.get("api-key", None).unwrap(), "test-key-123");
    assert_eq!(cfg.get("api-key", Some("env".into())).unwrap(), "env");
}

#[test]
fn config_unknown_keys_and_missing_key() {
    let mut cfg = AppConfig::default();
    match cfg.set("color", "red") {
        Err(ConfigError::UnknownKey(k)) => assert_eq!(k, "color"),
        other => panic!("unexpected {:?}", other),
    }
    assert!(cfg.api_key.is_none());
    assert!(matches!(cfg.get("api-key", None), Err(ConfigError::ApiKeyNotSet)));
    assert!(matches!(cfg.get("other", None), Err(ConfigError::UnknownKey(_))));
    assert_eq!(ENV_API_KEY, "DATA_GO_KR_API_KEY");
}

#[test]
fn config_paths() {
    assert_eq!(config_file("/home/u/.config/korea-cli"), "/home/u/.config/korea-cli/config.toml");
    assert_eq!(catalog_file("/c/"), "/c/catalog.json");
    assert_eq!(spec_cache_dir("/c"), "/c/cache/specs");
    assert_eq!(spec_cache_file("/c/cache/specs", "15081808"), "/c/cache/specs/15081808.json");
    assert_eq!(bundle_override_file("/c"), "/c/bundle.zstd");
    assert_eq!(join_path_str("/a", "/b"), "/b");
    assert_eq!(join_path_str("", "b"), "b");
}
