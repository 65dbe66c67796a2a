use bridge::env_loader::{is_valid_env_key, load_env_files, parse_env_content, EnvFileInput};

#[test]
fn test_basic_parsing() {
    let vars = load_env_files(Some("\nKEY1=value1\nKEY2=value2\n"), &Vec::new()).unwrap();
    assert_eq!(vars.get("KEY1"), Some(&"value1".to_string()));
    assert_eq!(vars.get("KEY2"), Some(&"value2".to_string()));
}

#[test]
fn test_quoted_values() {
    let vars = load_env_files(
        Some("\nDOUBLE=\"hello world\"\nSINGLE='single quoted'\nUNQUOTED=no_quotes\n"),
        &Vec::new(),
    )
    .unwrap();
    assert_eq!(vars.get("DOUBLE"), Some(&"hello world".to_string()));
    assert_eq!(vars.get("SINGLE"), Some(&"single quoted".to_string()));
    assert_eq!(vars.get("UNQUOTED"), Some(&"no_quotes".to_string()));
}

#[test]
fn test_export_prefix() {
    let vars = load_env_files(Some("\nexport EXPORTED=value\nNORMAL=other\n"), &Vec::new())
        .unwrap();
    assert_eq!(vars.get("EXPORTED"), Some(&"value".to_string()));
    assert_eq!(vars.get("NORMAL"), Some(&"other".to_string()));
}

#[test]
fn test_comments_and_empty_lines() {
    let vars = load_env_files(
        Some("\n# This is a comment\nKEY1=value1\n\n# Another comment\nKEY2=value2\n"),
        &Vec::new(),
    )
    .unwrap();
    assert_eq!(vars.len(), 2);
    assert_eq!(vars.get("KEY1"), Some(&"value1".to_string()));
    assert_eq!(vars.get("KEY2"), Some(&"value2".to_string()));
}

#[test]
fn test_missing_default_env_silent() {
    // no default file exists - that is no error
    let vars = load_env_files(None, &Vec::new()).unwrap();
    assert!(vars.is_empty());
}

#[test]
fn test_missing_additional_file_errors() {
    let additional = vec![EnvFileInput {
        name: ".env.prod".to_string(),
        content: None,
    }];
    let result = load_env_files(None, &additional);
    assert!(result.is_err());
    assert!(result.unwrap_err().message().contains(".env.prod"));
}

#[test]
fn test_additional_files_override() {
    let additional = vec![EnvFileInput {
        name: ".env.prod".to_string(),
        content: Some("KEY=prod\nONLY_PROD=yes".to_string()),
    }];
    let vars = load_env_files(Some("KEY=base\nONLY_BASE=yes"), &additional).unwrap();
    assert_eq!(vars.get("KEY"), Some(&"prod".to_string())); // Overridden
    assert_eq!(vars.get("ONLY_BASE"), Some(&"yes".to_string()));
    assert_eq!(vars.get("ONLY_PROD"), Some(&"yes".to_string()));
}

#[test]
fn test_is_valid_env_key() {
    assert!(is_valid_env_key("KEY"));
    assert!(is_valid_env_key("_KEY"));
    assert!(is_valid_env_key("KEY_123"));
    assert!(is_valid_env_key("MY_VAR_NAME"));
    assert!(!is_valid_env_key(""));
    assert!(!is_valid_env_key("123KEY"));
    assert!(!is_valid_env_key("KEY-NAME"));
    assert!(!is_valid_env_key("key.name"));
}

#[test]
fn test_invalid_key_reports_file_and_line() {
    let err = parse_env_content(".env", "GOOD=1\n123KEY=x\n").unwrap_err();
    assert_eq!(
        err.message(),
        "Invalid environment variable name '123KEY' at .env:2"
    );
}

#[test]
fn test_crlf_line_endings() {
    let vars = parse_env_content(".env", "KEY1=value1\r\nKEY2=value2\r\n").unwrap();
    assert_eq!(vars.get("KEY1"), Some(&"value1".to_string()));
    assert_eq!(vars.get("KEY2"), Some(&"value2".to_string()));
}

#[test]
fn test_lines_without_equals_are_skipped() {
    let vars = parse_env_content(".env", "no equals here\nKEY=ok\n").unwrap();
    assert_eq!(vars.len(), 1);
    assert_eq!(vars.get("KEY"), Some(&"ok".to_string()));
}
