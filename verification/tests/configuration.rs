use bridge::config::{
    auto_excludes, default_excludes, default_lock_timeout, default_reconnect_timeout, default_true,
    effective_command, effective_lock_name, effective_timeout, generate_template, Config,
    ConfigError, Host, LockSetting, Shell, SyncConfig, SyncMethod,
};

fn host(hostname: &str) -> Host {
    Host {
        hostname: hostname.to_string(),
        path: "/srv/app".to_string(),
        shell: Shell::default(),
        sync_method: SyncMethod::default(),
        wrapper: None,
        strict_env: default_true(),
        env_files: Vec::new(),
        reconnect_command: None,
        reconnect_timeout: default_reconnect_timeout(),
        lock: LockSetting::default(),
        lock_timeout: default_lock_timeout(),
    }
}

fn sample_config() -> Config {
    Config {
        default_host: Some("dev".to_string()),
        hosts: vec![
            ("dev".to_string(), host("dev.example.net")),
            ("ml".to_string(), host("ml.example.net")),
        ],
        sync: SyncConfig::default(),
    }
}

#[test]
fn test_defaults() {
    assert!(default_true());
    assert_eq!(default_reconnect_timeout(), 90);
    assert_eq!(default_lock_timeout(), 600);
    assert_eq!(Shell::default(), Shell::Bash);
    assert_eq!(SyncMethod::default(), SyncMethod::Tar);
    assert!(matches!(LockSetting::default(), LockSetting::Off));
}

#[test]
fn test_shell_names() {
    assert_eq!(Shell::Bash.name(), "bash");
    assert_eq!(Shell::Powershell.name(), "powershell");
    assert_eq!(Shell::Cmd.name(), "cmd");
}

#[test]
fn test_excludes() {
    let excludes: Vec<String> = default_excludes();
    assert_eq!(excludes, vec![".git", "target", "node_modules", "__pycache__"]);
    assert_eq!(auto_excludes(), vec![".DS_Store", "._*"]);
}

#[test]
fn test_get_host_by_name() {
    let config = sample_config();
    let (name, h) = config.get_host(Some("ml")).unwrap();
    assert_eq!(name, "ml");
    assert_eq!(h.hostname, "ml.example.net");
}

#[test]
fn test_get_host_falls_back_to_default() {
    let config = sample_config();
    let (name, h) = config.get_host(None).unwrap();
    assert_eq!(name, "dev");
    assert_eq!(h.hostname, "dev.example.net");
}

#[test]
fn test_get_host_unknown_name() {
    let config = sample_config();
    let err = config.get_host(Some("absent")).unwrap_err();
    assert_eq!(err.message(), "Host 'absent' not found in configuration");
}

#[test]
fn test_get_host_without_default() {
    let mut config = sample_config();
    config.default_host = None;
    let err = config.get_host(None).unwrap_err();
    assert!(matches!(err, ConfigError::NoDefaultHost));
    assert_eq!(
        err.message(),
        "No default host configured. Use --host or set default_host in bridge.toml"
    );
}

#[test]
fn test_project_root() {
    assert_eq!(Config::project_root("/home/u/proj/bridge.toml"), "/home/u/proj");
    assert_eq!(Config::project_root("/bridge.toml"), "/");
    assert_eq!(Config::project_root("bridge.toml"), "");
}

#[test]
fn test_generate_template_is_valid_skeleton() {
    let template = generate_template();
    assert!(template.starts_with("default_host = \"dev-server\""));
    assert!(template.contains("[hosts.dev-server]"));
    assert!(template.contains("[sync]"));
}

#[test]
fn test_lock_setting_names() {
    assert_eq!(LockSetting::Off.lock_name(), None);
    assert_eq!(LockSetting::Default.lock_name(), Some("default".to_string()));
    assert_eq!(
        LockSetting::Named("kernel".to_string()).lock_name(),
        Some("kernel".to_string())
    );
}

#[test]
fn test_cli_overrides_win() {
    assert_eq!(
        effective_command(Some("x".to_string()), Some("y".to_string())),
        Some("x".to_string())
    );
    assert_eq!(effective_command(None, Some("y".to_string())), Some("y".to_string()));
    assert_eq!(effective_timeout(Some(30), 90), 30);
    assert_eq!(effective_timeout(None, 90), 90);
    assert_eq!(
        effective_lock_name(Some("cli".to_string()), &LockSetting::Named("cfg".to_string())),
        Some("cli".to_string())
    );
    assert_eq!(
        effective_lock_name(None, &LockSetting::Default),
        Some("default".to_string())
    );
    assert_eq!(effective_lock_name(None, &LockSetting::Off), None);
}
