use code_grep::{glob_match, Config};

#[test]
fn test_default_config() {
    let config = Config::default();
    assert!(!config.default.ignore_patterns.is_empty());
    assert!(!config.default.file_types.is_empty());
    assert!(config.default.output.colors);
}

#[test]
fn test_glob_match() {
    assert!(glob_match("*.log", "test.log"));
    assert!(glob_match("node_modules*", "node_modules/something"));
    assert!(!glob_match("*.js", "test.rs"));
}

#[test]
fn glob_without_star_is_equality() {
    assert!(glob_match("target", "target"));
    assert!(!glob_match("target", "target/debug"));
    assert!(glob_match("*", "*"));
    assert!(!glob_match("*", "anything"));
}

#[test]
fn file_extensions_by_type() {
    let config = Config::default();
    let exts = config.get_file_extensions("cpp").unwrap();
    assert_eq!(exts, &vec!["cpp".to_string(), "cxx".to_string(), "cc".to_string(), "hpp".to_string()]);
    assert!(config.get_file_extensions("cobol").is_none());
}

#[test]
fn ignore_patterns_apply() {
    let config = Config::default();
    assert!(config.should_ignore("debug.log"));
    assert!(config.should_ignore("target"));
    assert!(!config.should_ignore("src/main.rs"));
    assert_eq!(config.default.output.context, 2);
}

#[test]
fn python_extensions() {
    let config = Config::default();
    assert_eq!(config.get_file_extensions("python").unwrap(), &vec!["py".to_string(), "pyw".to_string()]);
    assert_eq!(config.get_file_extensions("rust").unwrap(), &vec!["rs".to_string()]);
}
