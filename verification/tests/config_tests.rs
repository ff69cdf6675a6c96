use minigrep::Config;
use minigrep::ConfigError;
use minigrep::Flag;

fn args_of(tokens: &[&str]) -> Vec<String> {
    tokens.iter().map(|t| t.to_string()).collect()
}

#[test]
fn build_with_query_and_path() {
    let config = Config::build(args_of(&["prog", "needle", "hay.txt"])).unwrap();
    assert_eq!(config.query, "needle");
    assert_eq!(config.file_path, "hay.txt");
    assert!(config.flag.is_none());
}

#[test]
fn build_with_case_insensitive_flag() {
    let config = Config::build(args_of(&["prog", "needle", "hay.txt", "-i"])).unwrap();
    assert_eq!(config.query, "needle");
    assert_eq!(config.file_path, "hay.txt");
    assert_eq!(config.flag, Some(Flag::CaseInsensitive));
}

#[test]
fn build_with_only_program_name_fails() {
    let err = Config::build(args_of(&["prog"])).unwrap_err();
    assert_eq!(err, ConfigError::MissingQuery);
}

#[test]
fn build_with_no_tokens_fails() {
    let err = Config::build(Vec::new()).unwrap_err();
    assert_eq!(err, ConfigError::MissingQuery);
}

#[test]
fn build_without_file_path_fails() {
    let err = Config::build(args_of(&["prog", "needle"])).unwrap_err();
    assert_eq!(err, ConfigError::MissingFilePath);
}

#[test]
fn build_with_unknown_flag_fails() {
    let err = Config::build(args_of(&["prog", "q", "file", "-x"])).unwrap_err();
    assert_eq!(err, ConfigError::UnsupportedFlag);
}

#[test]
fn build_with_extra_token_fails() {
    let err = Config::build(args_of(&["prog", "q", "file", "-i", "extra"])).unwrap_err();
    assert_eq!(err, ConfigError::TooManyArguments);
}

#[test]
fn build_checks_flag_before_token_count() {
    let err = Config::build(args_of(&["prog", "q", "file", "-x", "extra"])).unwrap_err();
    assert_eq!(err, ConfigError::UnsupportedFlag);
}
