use note_core::config::{ConfigError, DaemonConfig, LogLevel, Logger};

fn args(list: &[&str]) -> Vec<String> {
    list.iter().map(|s| s.to_string()).collect()
}

#[test]
fn config_config_prefers_cli_values() {
    let args = vec![
        "note-daemon".to_string(),
        "--vault".to_string(),
        "/cli/vault".to_string(),
        "--log-level".to_string(),
        "warn".to_string(),
    ];

    let config = DaemonConfig::from_iterator(Some("/env/vault".into()), Some("debug".into()), args)
        .expect("config should parse");

    assert_eq!(config.vault_path, "/cli/vault");
    assert_eq!(config.log_level, LogLevel::Warn);
}

#[test]
fn config_config_defaults_when_cli_missing() {
    let args = vec!["note-daemon".to_string()];
    let config = DaemonConfig::from_iterator(None, None, args).expect("defaults should parse");

    assert_eq!(config.vault_path, ".");
    assert_eq!(config.log_level, LogLevel::Info);
}

#[test]
fn main_config_prefers_cli_values() {
    let args = vec![
        "note-daemon".to_string(),
        "--vault".to_string(),
        "/cli/vault".to_string(),
        "--log-level".to_string(),
        "warn".to_string(),
    ];

    let config = DaemonConfig::from_iterator(Some("/env/vault".into()), Some("debug".into()), args)
        .expect("config should parse");

    assert_eq!(config.vault_path, "/cli/vault");
    assert_eq!(config.log_level, LogLevel::Warn);
}

#[test]
fn main_config_defaults_when_cli_missing() {
    let args = vec!["note-daemon".to_string()];
    let config = DaemonConfig::from_iterator(None, None, args).expect("defaults should parse");

    assert_eq!(config.vault_path, ".");
    assert_eq!(config.log_level, LogLevel::Info);
}

#[test]
fn environment_sets_vault_and_level() {
    let config = DaemonConfig::from_iterator(
        Some("/env/vault".into()),
        Some("DEBUG".into()),
        args(&["note-daemon"]),
    )
    .unwrap();
    assert_eq!(config.vault_path, "/env/vault");
    assert_eq!(config.log_level, LogLevel::Debug);
}

#[test]
fn unknown_level_of_environment_falls_back_to_info() {
    let config =
        DaemonConfig::from_iterator(None, Some("loud".into()), args(&["note-daemon"])).unwrap();
    assert_eq!(config.log_level, LogLevel::Info);
}

#[test]
fn short_flags_and_later_flag_wins() {
    let config = DaemonConfig::from_iterator(
        None,
        None,
        args(&["note-daemon", "-v", "/a", "-l", "error", "--vault", "/b"]),
    )
    .unwrap();
    assert_eq!(config.vault_path, "/b");
    assert_eq!(config.log_level, LogLevel::Error);
}

#[test]
fn vault_flag_without_value_fails() {
    let err = DaemonConfig::from_iterator(None, None, args(&["note-daemon", "--vault"]))
        .unwrap_err();
    assert!(matches!(err, ConfigError::MissingVaultPath));
    assert_eq!(err.message(), "--vault expects a following path");
}

#[test]
fn level_flag_without_value_fails() {
    let err = DaemonConfig::from_iterator(None, None, args(&["note-daemon", "-l"])).unwrap_err();
    assert!(matches!(err, ConfigError::MissingLogLevel));
    assert_eq!(err.message(), "--log-level expects a value");
}

#[test]
fn invalid_level_fails() {
    let err = DaemonConfig::from_iterator(None, None, args(&["note-daemon", "-l", "loud"]))
        .unwrap_err();
    assert!(matches!(&err, ConfigError::InvalidLogLevel(v) if v == "loud"));
    assert_eq!(err.message(), "invalid log level 'loud'");
}

#[test]
fn unrecognized_argument_fails() {
    let err = DaemonConfig::from_iterator(None, None, args(&["note-daemon", "--what"]))
        .unwrap_err();
    assert!(matches!(&err, ConfigError::UnrecognizedArgument(a) if a == "--what"));
    assert_eq!(
        err.message(),
        "unrecognized argument '--what'. Usage: note-daemon [--vault PATH] [--log-level error|warn|info|debug]"
    );
}

#[test]
fn program_name_is_passed_over() {
    let config = DaemonConfig::from_iterator(None, None, args(&["--vault"])).unwrap();
    assert_eq!(config.vault_path, ".");
    let config = DaemonConfig::from_iterator(None, None, args(&[])).unwrap();
    assert_eq!(config.vault_path, ".");
}

#[test]
fn log_level_names() {
    assert_eq!(LogLevel::parse("error"), Some(LogLevel::Error));
    assert_eq!(LogLevel::parse("WARN"), Some(LogLevel::Warn));
    assert_eq!(LogLevel::parse("Warning"), Some(LogLevel::Warn));
    assert_eq!(LogLevel::parse("info"), Some(LogLevel::Info));
    assert_eq!(LogLevel::parse("debug"), Some(LogLevel::Debug));
    assert_eq!(LogLevel::parse("trace"), None);
    assert_eq!(LogLevel::parse(""), None);
    assert_eq!(LogLevel::Error.as_str(), "ERROR");
    assert_eq!(LogLevel::Warn.as_str(), "WARN");
    assert_eq!(LogLevel::Info.as_str(), "INFO");
    assert_eq!(LogLevel::Debug.as_str(), "DEBUG");
}

#[test]
fn logger_lets_graver_messages_through() {
    let logger = Logger::new(LogLevel::Warn);
    assert!(logger.enabled(LogLevel::Error));
    assert!(logger.enabled(LogLevel::Warn));
    assert!(!logger.enabled(LogLevel::Info));
    assert!(!logger.enabled(LogLevel::Debug));
    assert!(Logger::new(LogLevel::Debug).enabled(LogLevel::Debug));
}
