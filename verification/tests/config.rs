use serve_cli::config::{
    config_error_message, config_path_for_write, config_source, effective_allow_no_ext,
    load_config, read_attempts_answer, read_bool_answer, read_optional_answer, resolve_host,
    resolve_retries, resolve_token, resolve_upload_path, strategy_for, AppConfig, ConfigError,
    NumberAnswer, DEFAULT_HOST, DEFAULT_MAX_RETRIES,
};
use serve_cli::download::ExistingFileStrategy;

fn configured() -> AppConfig {
    AppConfig {
        host: Some("https://files.example.com".to_string()),
        token: Some("secret".to_string()),
        upload_parent_id: Some("01ABC".to_string()),
        allow_no_ext: Some(true),
        max_retries: Some(5),
    }
}

#[test]
fn the_given_path_wins_over_the_default_one() {
    assert_eq!(config_source(Some("mine.toml"), Some("default.toml")), Some("mine.toml".to_string()));
    assert_eq!(config_source(None, Some("default.toml")), Some("default.toml".to_string()));
    assert_eq!(config_source(None, None), None);
    assert_eq!(config_path_for_write(Some("mine.toml"), None), Ok("mine.toml".to_string()));
    assert_eq!(config_path_for_write(None, Some("default.toml")), Ok("default.toml".to_string()));
    let error = config_path_for_write(None, None).unwrap_err();
    assert_eq!(error, ConfigError::NoConfigDirectory);
    assert_eq!(config_error_message(error), "unable to determine configuration directory");
}

#[test]
fn a_file_that_is_there_is_loaded() {
    let loaded = load_config(Some("mine.toml".to_string()), Some(configured()));
    assert_eq!(loaded.source, Some("mine.toml".to_string()));
    assert!(loaded.existed);
    assert_eq!(loaded.data, configured());
}

#[test]
fn a_file_that_is_missing_gives_the_defaults() {
    let loaded = load_config(Some("mine.toml".to_string()), None);
    assert_eq!(loaded.source, Some("mine.toml".to_string()));
    assert!(!loaded.existed);
    assert_eq!(loaded.data, AppConfig::empty());
    let loaded = load_config(None, None);
    assert_eq!(loaded.source, None);
    assert!(!loaded.existed);
    assert_eq!(loaded.data, AppConfig::empty());
}

#[test]
fn host() {
    assert_eq!(resolve_host(Some("h".to_string()), &configured()), "h");
    assert_eq!(resolve_host(None, &configured()), "https://files.example.com");
    assert_eq!(resolve_host(None, &AppConfig::empty()), DEFAULT_HOST);
}

#[test]
fn token() {
    assert_eq!(resolve_token(Some("t".to_string()), &configured()), Ok("t".to_string()));
    assert_eq!(resolve_token(None, &configured()), Ok("secret".to_string()));
    assert_eq!(resolve_token(None, &AppConfig::empty()), Err(ConfigError::MissingToken));
    assert_eq!(resolve_token(Some("  ".to_string()), &configured()), Err(ConfigError::MissingToken));
    assert_eq!(resolve_token(Some(String::new()), &AppConfig::empty()), Err(ConfigError::MissingToken));
    assert_eq!(resolve_token(Some(" t ".to_string()), &AppConfig::empty()), Ok(" t ".to_string()));
    assert_eq!(
        config_error_message(ConfigError::MissingToken),
        "upload token is required; pass --token or set it in config"
    );
}

#[test]
fn upload_path() {
    assert_eq!(resolve_upload_path(Some("x".to_string()), &configured()), Some("x".to_string()));
    assert_eq!(resolve_upload_path(None, &configured()), Some("01ABC".to_string()));
    assert_eq!(resolve_upload_path(None, &AppConfig::empty()), None);
}

#[test]
fn retries() {
    assert_eq!(resolve_retries(Some(3), &configured()), 3);
    assert_eq!(resolve_retries(Some(0), &configured()), 5);
    assert_eq!(resolve_retries(None, &configured()), 5);
    assert_eq!(resolve_retries(None, &AppConfig::empty()), DEFAULT_MAX_RETRIES);
    assert_eq!(DEFAULT_MAX_RETRIES, 10);
    let mut zero = configured();
    zero.max_retries = Some(0);
    assert_eq!(resolve_retries(Some(0), &zero), 10);
}

#[test]
fn allow_no_ext() {
    assert!(effective_allow_no_ext(true, &AppConfig::empty()));
    assert!(effective_allow_no_ext(false, &configured()));
    assert!(!effective_allow_no_ext(false, &AppConfig::empty()));
    let mut denied = configured();
    denied.allow_no_ext = Some(false);
    assert!(!effective_allow_no_ext(false, &denied));
    assert!(effective_allow_no_ext(true, &denied));
}

#[test]
fn strategy() {
    assert_eq!(strategy_for(false, false), ExistingFileStrategy::Overwrite);
    assert_eq!(strategy_for(true, false), ExistingFileStrategy::Skip);
    assert_eq!(strategy_for(false, true), ExistingFileStrategy::Duplicate);
    assert_eq!(strategy_for(true, true), ExistingFileStrategy::Skip);
}

#[test]
fn answers_to_a_yes_or_no_question() {
    assert_eq!(read_bool_answer("", true), Some(true));
    assert_eq!(read_bool_answer("", false), Some(false));
    for answer in ["y", "yes", "true"] {
        assert_eq!(read_bool_answer(answer, false), Some(true));
    }
    for answer in ["n", "no", "false"] {
        assert_eq!(read_bool_answer(answer, true), Some(false));
    }
    for answer in ["maybe", "Y", "1", " y"] {
        assert_eq!(read_bool_answer(answer, true), None);
    }
}

#[test]
fn answers_to_a_question_for_an_optional_value() {
    assert_eq!(read_optional_answer("", Some("old")), Some("old".to_string()));
    assert_eq!(read_optional_answer("", None), None);
    assert_eq!(read_optional_answer("-", Some("old")), None);
    assert_eq!(read_optional_answer("new", Some("old")), Some("new".to_string()));
    assert_eq!(read_optional_answer("--", None), Some("--".to_string()));
}

#[test]
fn answers_to_the_question_for_the_attempts() {
    assert_eq!(read_attempts_answer(""), NumberAnswer::Keep);
    assert_eq!(read_attempts_answer("-"), NumberAnswer::Clear);
    assert_eq!(read_attempts_answer("5"), NumberAnswer::Number(5));
    assert_eq!(read_attempts_answer("4294967295"), NumberAnswer::Number(u32::MAX));
    assert_eq!(read_attempts_answer("4294967296"), NumberAnswer::Invalid);
    assert_eq!(read_attempts_answer("0"), NumberAnswer::Invalid);
    assert_eq!(read_attempts_answer("five"), NumberAnswer::Invalid);
    assert_eq!(read_attempts_answer("-1"), NumberAnswer::Invalid);
}
