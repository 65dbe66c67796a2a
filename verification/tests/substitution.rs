use bridge::env_subst::substitute_env_vars;
use bridge::varmap::VarMap;

fn empty_vars() -> VarMap {
    VarMap::new()
}

#[test]
fn test_basic_substitution() {
    let mut process_env = VarMap::new();
    process_env.insert("BRIDGE_TEST_VAR".to_string(), "hello".to_string());
    assert_eq!(
        substitute_env_vars("${BRIDGE_TEST_VAR}", true, &empty_vars(), &process_env).unwrap(),
        "hello"
    );
}

#[test]
fn test_default_value() {
    assert_eq!(
        substitute_env_vars(
            "${BRIDGE_NONEXISTENT:-fallback}",
            true,
            &empty_vars(),
            &empty_vars()
        )
        .unwrap(),
        "fallback"
    );
}

#[test]
fn test_escaped() {
    assert_eq!(
        substitute_env_vars("$${LITERAL}", true, &empty_vars(), &empty_vars()).unwrap(),
        "${LITERAL}"
    );
}

#[test]
fn test_strict_missing() {
    let result = substitute_env_vars(
        "${BRIDGE_MISSING_VAR_12345}",
        true,
        &empty_vars(),
        &empty_vars(),
    );
    assert!(result.is_err());
}

#[test]
fn test_non_strict_missing() {
    assert_eq!(
        substitute_env_vars(
            "${BRIDGE_MISSING_VAR_12345}",
            false,
            &empty_vars(),
            &empty_vars()
        )
        .unwrap(),
        ""
    );
}

#[test]
fn test_multiple_vars() {
    let mut process_env = VarMap::new();
    process_env.insert("BRIDGE_A".to_string(), "one".to_string());
    process_env.insert("BRIDGE_B".to_string(), "two".to_string());
    assert_eq!(
        substitute_env_vars("${BRIDGE_A} and ${BRIDGE_B}", true, &empty_vars(), &process_env)
            .unwrap(),
        "one and two"
    );
}

#[test]
fn test_wrapper_example() {
    let mut process_env = VarMap::new();
    process_env.insert("BRIDGE_USER".to_string(), "admin".to_string());
    assert_eq!(
        substitute_env_vars("echo ${BRIDGE_USER} && {}", true, &empty_vars(), &process_env)
            .unwrap(),
        "echo admin && {}"
    );
}

#[test]
fn test_env_vars_hashmap() {
    let mut vars = VarMap::new();
    vars.insert("FILE_VAR".to_string(), "from_file".to_string());

    assert_eq!(
        substitute_env_vars("${FILE_VAR}", true, &vars, &empty_vars()).unwrap(),
        "from_file"
    );
}

#[test]
fn test_process_env_takes_priority() {
    let mut process_env = VarMap::new();
    process_env.insert("BRIDGE_PRIORITY_TEST".to_string(), "from_process".to_string());
    let mut vars = VarMap::new();
    vars.insert("BRIDGE_PRIORITY_TEST".to_string(), "from_file".to_string());

    assert_eq!(
        substitute_env_vars("${BRIDGE_PRIORITY_TEST}", true, &vars, &process_env).unwrap(),
        "from_process"
    );
}

#[test]
fn test_fallback_to_hashmap() {
    // BRIDGE_UNIQUE_VAR_XYZ is defined only in the file-loaded mapping
    let mut vars = VarMap::new();
    vars.insert("BRIDGE_UNIQUE_VAR_XYZ".to_string(), "from_hashmap".to_string());

    assert_eq!(
        substitute_env_vars("${BRIDGE_UNIQUE_VAR_XYZ}", true, &vars, &empty_vars()).unwrap(),
        "from_hashmap"
    );
}

#[test]
fn test_strict_missing_aggregates_all_names() {
    let err = substitute_env_vars("${A}${B}", true, &empty_vars(), &empty_vars()).unwrap_err();
    let message = err.message();
    assert!(message.contains("A"));
    assert!(message.contains("B"));
    assert_eq!(
        message,
        "Missing required environment variables: A, B. Use ${VAR:-default} syntax for optional \
         variables, or set strict_env = false in bridge.toml"
    );
}

#[test]
fn test_no_placeholders_identity() {
    let input = "plain text, a bare $HOME, braces {x} and nothing else";
    assert_eq!(
        substitute_env_vars(input, true, &empty_vars(), &empty_vars()).unwrap(),
        input
    );
}

#[test]
fn test_double_dollar_before_escape() {
    // only the trailing `$${` is an escape; the first `$` is literal text
    assert_eq!(
        substitute_env_vars("$$${X}", true, &empty_vars(), &empty_vars()).unwrap(),
        "$${X}"
    );
}

#[test]
fn test_default_wins_over_nothing_but_not_over_file() {
    let mut vars = VarMap::new();
    vars.insert("V".to_string(), "from_file".to_string());
    assert_eq!(
        substitute_env_vars("${V:-fallback}", true, &vars, &empty_vars()).unwrap(),
        "from_file"
    );
}

#[test]
fn test_invalid_name_left_alone() {
    // `${1BAD}` does not match the placeholder grammar and stays literal text
    assert_eq!(
        substitute_env_vars("${1BAD}", true, &empty_vars(), &empty_vars()).unwrap(),
        "${1BAD}"
    );
}
