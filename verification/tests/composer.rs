use bridge::compose::{
    apply_wrapper, compose_remote_command, probe_args, ssh_run_args, to_cygwin_path, ComposeError,
};
use bridge::config::Shell;
use bridge::varmap::VarMap;

fn empty_vars() -> VarMap {
    VarMap::new()
}

#[test]
fn test_posix_compose_end_to_end() {
    // shell kind posix, remote path /srv/app, command `echo hi`, no wrapper
    let composed = compose_remote_command(
        "/srv/app",
        "echo hi",
        &Shell::Bash,
        None,
        true,
        &empty_vars(),
        &empty_vars(),
    )
    .unwrap();
    assert_eq!(composed, "cd \"/srv/app\" && echo hi");
}

#[test]
fn test_powershell_compose_escapes_quotes() {
    let composed = compose_remote_command(
        "C:/work",
        "echo \"hi\"",
        &Shell::Powershell,
        None,
        true,
        &empty_vars(),
        &empty_vars(),
    )
    .unwrap();
    assert_eq!(
        composed,
        "powershell -Command \"cd 'C:/work'; echo \\\"hi\\\"\""
    );
}

#[test]
fn test_cmd_compose_normalizes_separators() {
    let composed = compose_remote_command(
        "C:/work/proj",
        "echo hi",
        &Shell::Cmd,
        None,
        true,
        &empty_vars(),
        &empty_vars(),
    )
    .unwrap();
    assert_eq!(composed, "cd /d \"C:\\work\\proj\" && echo hi");
}

#[test]
fn test_wrapper_wraps_command() {
    let composed = compose_remote_command(
        "/srv/app",
        "make test",
        &Shell::Bash,
        Some("source ~/.profile && {}"),
        true,
        &empty_vars(),
        &empty_vars(),
    )
    .unwrap();
    assert_eq!(
        composed,
        "cd \"/srv/app\" && source ~/.profile && make test"
    );
}

#[test]
fn test_wrapper_substitutes_variables() {
    let mut process_env = VarMap::new();
    process_env.insert("BRIDGE_USER".to_string(), "admin".to_string());
    let wrapped = apply_wrapper(
        "run",
        Some("echo ${BRIDGE_USER} && {}"),
        true,
        &empty_vars(),
        &process_env,
    )
    .unwrap();
    assert_eq!(wrapped, "echo admin && run");
}

#[test]
fn test_wrapper_without_placeholder_fails() {
    // the template is rejected before any substitution is attempted:
    // the unresolvable ${UNSET_VAR} does not get a chance to fail
    let result = apply_wrapper(
        "run",
        Some("source ${UNSET_VAR}"),
        true,
        &empty_vars(),
        &empty_vars(),
    );
    match result {
        Err(ComposeError::WrapperMissingPlaceholder(got)) => {
            assert_eq!(got, "source ${UNSET_VAR}");
        }
        other => panic!("expected the wrapper to be rejected, got {:?}", other.is_ok()),
    }
}

#[test]
fn test_wrapper_error_message_names_template() {
    let err = compose_remote_command(
        "/srv/app",
        "echo hi",
        &Shell::Bash,
        Some("no placeholder here"),
        true,
        &empty_vars(),
        &empty_vars(),
    )
    .unwrap_err();
    assert_eq!(
        err.message(),
        "Wrapper template must contain '{}' placeholder for command. Got: no placeholder here"
    );
}

#[test]
fn test_command_substitution_error_is_reported() {
    let err = compose_remote_command(
        "/srv/app",
        "echo ${NOT_THERE}",
        &Shell::Bash,
        None,
        true,
        &empty_vars(),
        &empty_vars(),
    )
    .unwrap_err();
    assert!(err.message().contains("NOT_THERE"));
    assert!(err
        .message()
        .starts_with("Failed to substitute environment variables in command: "));
}

#[test]
fn test_to_cygwin_path() {
    assert_eq!(to_cygwin_path("C:/foo"), "/cygdrive/c/foo");
    assert_eq!(to_cygwin_path("C:\\foo\\bar"), "/cygdrive/c/foo/bar");
    assert_eq!(to_cygwin_path("/already/unix"), "/already/unix");
    assert_eq!(to_cygwin_path("relative"), "relative");
}

#[test]
fn test_ssh_run_args_keepalive() {
    let args = ssh_run_args("devbox", "cd \"/srv\" && true", false);
    assert_eq!(
        args,
        vec![
            "-o".to_string(),
            "ServerAliveInterval=5".to_string(),
            "-o".to_string(),
            "ServerAliveCountMax=3".to_string(),
            "devbox".to_string(),
            "cd \"/srv\" && true".to_string(),
        ]
    );
}

#[test]
fn test_ssh_run_args_interactive() {
    let args = ssh_run_args("devbox", "bash", true);
    assert_eq!(args[0], "-t");
    assert_eq!(args.len(), 7);
}

#[test]
fn test_probe_args_are_minimal() {
    let args = probe_args("devbox");
    assert_eq!(
        args,
        vec![
            "-o".to_string(),
            "ConnectTimeout=5".to_string(),
            "-o".to_string(),
            "BatchMode=yes".to_string(),
            "devbox".to_string(),
            "exit 0".to_string(),
        ]
    );
}
