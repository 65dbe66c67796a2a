//! Host profiles and the settings the core consumes.
//!
//! The surrounding I/O layer discovers and parses the configuration file
//! and hands the library plain values; everything here is verified logic
//! over those values.

use vstd::prelude::*;

use crate::strutil::{chars_eq_str, copy_range, from_chars, to_chars};
use vstd::string::StringExecFns;

verus! {

/// Default for the strict-substitution flag.
pub fn default_true() -> (r: bool)
    ensures
        r == true,
{
    true
}

/// Default number of seconds to wait for reconnection.
pub fn default_reconnect_timeout() -> (r: u64)
    ensures
        r == 90,
{
    90
}

/// Default number of seconds to wait for lock acquisition.
pub fn default_lock_timeout() -> (r: u64)
    ensures
        r == 600,
{
    600
}

/// Shell on the remote host; decides quoting and the directory-change prefix.
#[derive(Debug, Clone, Copy, PartialEq, Eq, Structural)]
pub enum Shell {
    Bash,
    Powershell,
    Cmd,
}

impl Default for Shell {
    fn default() -> (r: Self)
        ensures
            r == Shell::Bash,
    {
        Shell::Bash
    }
}

impl Shell {
    /// The shell's name as it is written in the configuration.
    pub open spec fn spec_name(self) -> Seq<char> {
        match self {
            Shell::Bash => "bash"@,
            Shell::Powershell => "powershell"@,
            Shell::Cmd => "cmd"@,
        }
    }

    /// The shell's name as it is written in the configuration.
    pub fn name(&self) -> (r: String)
        ensures
            r@ == self.spec_name(),
    {
        match self {
            Shell::Bash => String::from_str("bash"),
            Shell::Powershell => String::from_str("powershell"),
            Shell::Cmd => String::from_str("cmd"),
        }
    }
}

/// How the project tree is mirrored to the remote host.
#[derive(Debug, Clone, Copy, PartialEq, Eq, Structural)]
pub enum SyncMethod {
    Tar,
    Rsync,
}

impl Default for SyncMethod {
    fn default() -> (r: Self)
        ensures
            r == SyncMethod::Tar,
    {
        SyncMethod::Tar
    }
}

/// Lock configuration: off, on with the default name, or a named lock.
#[derive(Debug)]
pub enum LockSetting {
    /// Lock not configured.
    Off,
    /// Lock requested without a name; the name "default" is used.
    Default,
    /// Lock under an explicit name.
    Named(String),
}

impl Default for LockSetting {
    fn default() -> (r: Self)
        ensures
            r is Off,
    {
        LockSetting::Off
    }
}

impl LockSetting {
    /// The lock name this setting asks for, if any.
    pub open spec fn spec_lock_name(self) -> Option<Seq<char>> {
        match self {
            LockSetting::Off => None,
            LockSetting::Default => Some("default"@),
            LockSetting::Named(n) => Some(n@),
        }
    }

    /// The lock name this setting asks for, if any.
    pub fn lock_name(&self) -> (r: Option<String>)
        ensures
            match r {
                Some(n) => self.spec_lock_name() == Some(n@),
                None => self.spec_lock_name() is None,
            },
    {
        match self {
            LockSetting::Off => None,
            LockSetting::Default => Some(String::from_str("default")),
            LockSetting::Named(n) => Some(n.clone()),
        }
    }
}

/// One host as the configuration describes it.
#[derive(Debug)]
pub struct Host {
    /// Network address, or an alias the transport resolves.
    pub hostname: String,
    /// Remote working directory.
    pub path: String,
    /// Shell on the remote host.
    pub shell: Shell,
    /// How the project tree is mirrored over.
    pub sync_method: SyncMethod,
    /// Optional wrapper template; `{}` stands for the command.
    pub wrapper: Option<String>,
    /// Whether a variable that resolves nowhere fails the run.
    pub strict_env: bool,
    /// Additional variable-definition files, loaded after the default one.
    pub env_files: Vec<String>,
    /// Command to run after the connection comes back; without one a lost
    /// connection is final.
    pub reconnect_command: Option<String>,
    /// Seconds to wait for the peer to come back.
    pub reconnect_timeout: u64,
    /// Lock configuration.
    pub lock: LockSetting,
    /// Seconds to wait for the lock.
    pub lock_timeout: u64,
}

/// Exclusion patterns for mirroring the project tree.
#[derive(Debug)]
pub struct SyncConfig {
    /// Directories and patterns that stay local.
    pub exclude: Vec<String>,
}

impl Default for SyncConfig {
    fn default() -> (r: Self)
        ensures
            r.exclude.deep_view() == seq![".git"@, "target"@, "node_modules"@, "__pycache__"@],
    {
        SyncConfig { exclude: default_excludes() }
    }
}

/// The exclusion patterns used when the configuration names none.
pub fn default_excludes() -> (r: Vec<String>)
    ensures
        r.deep_view() == seq![".git"@, "target"@, "node_modules"@, "__pycache__"@],
{
    let mut v: Vec<String> = Vec::new();
    v.push(String::from_str(".git"));
    v.push(String::from_str("target"));
    v.push(String::from_str("node_modules"));
    v.push(String::from_str("__pycache__"));
    proof {
        assert(v.deep_view() =~= seq![".git"@, "target"@, "node_modules"@, "__pycache__"@]);
    }
    v
}

/// Patterns always excluded from mirroring: per-directory metadata files
/// that only cause trouble on the remote side.
pub fn auto_excludes() -> (r: Vec<String>)
    ensures
        r.deep_view() == seq![".DS_Store"@, "._*"@],
{
    let mut v: Vec<String> = Vec::new();
    v.push(String::from_str(".DS_Store"));
    v.push(String::from_str("._*"));
    proof {
        assert(v.deep_view() =~= seq![".DS_Store"@, "._*"@]);
    }
    v
}

/// The whole configuration.
#[derive(Debug)]
pub struct Config {
    /// The host taken when none is named.
    pub default_host: Option<String>,
    /// The hosts by name, in the order the configuration gives them.
    pub hosts: Vec<(String, Host)>,
    /// Mirroring settings.
    pub sync: SyncConfig,
}

impl Default for Config {
    fn default() -> (r: Self)
        ensures
            r.default_host is None,
            r.hosts@.len() == 0,
            r.sync.exclude.deep_view() == seq![".git"@, "target"@, "node_modules"@, "__pycache__"@],
    {
        Config { default_host: None, hosts: Vec::new(), sync: SyncConfig::default() }
    }
}

/// Why a host could not be picked.
#[derive(Debug)]
pub enum ConfigError {
    /// No host was named and no default is configured.
    NoDefaultHost,
    /// The named host is not in the configuration; the name is carried.
    HostNotFound(String),
}

impl ConfigError {
    /// The message the caller reports.
    pub fn message(&self) -> (r: String)
        ensures
            match self {
                ConfigError::NoDefaultHost => r@
                    == "No default host configured. Use --host or set default_host in bridge.toml"@,
                ConfigError::HostNotFound(n) => r@ == "Host '"@ + n@
                    + "' not found in configuration"@,
            },
    {
        match self {
            ConfigError::NoDefaultHost => String::from_str(
                "No default host configured. Use --host or set default_host in bridge.toml",
            ),
            ConfigError::HostNotFound(n) => {
                let mut s = String::from_str("Host '");
                s.append(n.as_str());
                s.append("' not found in configuration");
                proof {
                    assert(s@ =~= "Host '"@ + n@ + "' not found in configuration"@);
                }
                s
            },
        }
    }
}

/// The first entry under the given name, if any.
pub open spec fn spec_find_host(hosts: Seq<(String, Host)>, name: Seq<char>) -> Option<int>
    decreases hosts.len(),
{
    if hosts.len() == 0 {
        None
    } else if hosts[0].0@ == name {
        Some(0)
    } else {
        match spec_find_host(hosts.skip(1), name) {
            Some(i) => Some(i + 1),
            None => None,
        }
    }
}

proof fn lemma_find_host_bounds(hosts: Seq<(String, Host)>, name: Seq<char>)
    ensures
        match spec_find_host(hosts, name) {
            Some(i) => 0 <= i < hosts.len() && hosts[i].0@ == name,
            None => forall|i: int| 0 <= i < hosts.len() ==> (#[trigger] hosts[i]).0@ != name,
        },
    decreases hosts.len(),
{
    if hosts.len() > 0 && hosts[0].0@ != name {
        lemma_find_host_bounds(hosts.skip(1), name);
        match spec_find_host(hosts.skip(1), name) {
            Some(i) => {
                assert(hosts.skip(1)[i] == hosts[i + 1]);
            },
            None => {
                assert forall|i: int|
                    0 <= i < hosts.len() implies (#[trigger] hosts[i]).0@ != name by {
                    if i > 0 {
                        assert(hosts.skip(1)[i - 1] == hosts[i]);
                    }
                }
            },
        }
    }
}

proof fn lemma_find_host_at(hosts: Seq<(String, Host)>, name: Seq<char>, i: int)
    requires
        0 <= i < hosts.len(),
        hosts[i].0@ == name,
        forall|j: int| 0 <= j < i ==> (#[trigger] hosts[j]).0@ != name,
    ensures
        spec_find_host(hosts, name) == Some(i),
    decreases i,
{
    if i == 0 {
    } else {
        assert(hosts[0].0@ != name);
        assert(hosts.skip(1)[i - 1] == hosts[i]);
        assert forall|j: int| 0 <= j < i - 1 implies (#[trigger] hosts.skip(1)[j]).0@ != name by {
            assert(hosts.skip(1)[j] == hosts[j + 1]);
        }
        lemma_find_host_at(hosts.skip(1), name, i - 1);
    }
}

impl Config {
    /// The name a lookup goes by: the named host, or the configured
    /// default.
    pub open spec fn spec_target_host(&self, name: Option<&str>) -> Option<Seq<char>> {
        match name {
            Some(n) => Some(n@),
            None => match self.default_host {
                Some(d) => Some(d@),
                None => None,
            },
        }
    }

    /// The named host, or the default host when none is named: its name as
    /// the configuration spells it, and its settings.
    pub fn get_host<'a>(&'a self, name: Option<&str>) -> (r: Result<
        (&'a String, &'a Host),
        ConfigError,
    >)
        ensures
            match r {
                Ok(kh) => {
                    let target = self.spec_target_host(name);
                    &&& target is Some
                    &&& spec_find_host(self.hosts@, target->Some_0) matches Some(i) && kh.0
                        == self.hosts@[i].0 && kh.1 == self.hosts@[i].1
                },
                Err(ConfigError::NoDefaultHost) => name is None && self.default_host is None,
                Err(ConfigError::HostNotFound(t)) => {
                    let target = self.spec_target_host(name);
                    &&& target == Some(t@)
                    &&& spec_find_host(self.hosts@, t@) is None
                },
            },
    {
        let target: &str = match name {
            Some(n) => n,
            None => match &self.default_host {
                Some(d) => d.as_str(),
                None => {
                    return Err(ConfigError::NoDefaultHost);
                },
            },
        };
        let target_chars = to_chars(target);
        let n = self.hosts.len();
        let mut i: usize = 0;
        while i < n
            invariant
                i <= n,
                n == self.hosts@.len(),
                target_chars@ == target@,
                self.spec_target_host(name) == Some(target@),
                forall|j: int| 0 <= j < i ==> (#[trigger] self.hosts@[j]).0@ != target@,
            decreases n - i,
        {
            let entry = &self.hosts[i];
            if chars_eq_str(&target_chars, entry.0.as_str()) {
                proof {
                    lemma_find_host_at(self.hosts@, target@, i as int);
                }
                return Ok((&entry.0, &entry.1));
            }
            i = i + 1;
        }
        proof {
            lemma_find_host_bounds(self.hosts@, target@);
        }
        Err(ConfigError::HostNotFound(String::from_str(target)))
    }
}

/// Where the last path separator stands, if anywhere.
pub open spec fn last_slash(p: Seq<char>) -> Option<int>
    decreases p.len(),
{
    if p.len() == 0 {
        None
    } else if p[p.len() - 1] == '/' {
        Some(p.len() - 1)
    } else {
        last_slash(p.drop_last())
    }
}

/// The directory holding the configuration file: its path up to the last
/// separator, the root for a file right under it, and the empty path for a
/// bare file name.
pub open spec fn spec_project_root(p: Seq<char>) -> Seq<char> {
    match last_slash(p) {
        None => Seq::empty(),
        Some(k) => if k == 0 {
            "/"@
        } else {
            p.take(k)
        },
    }
}

impl Config {
    /// The project root: the directory the configuration file stands in.
    pub fn project_root(config_path: &str) -> (r: String)
        ensures
            r@ == spec_project_root(config_path@),
    {
        let chars = to_chars(config_path);
        let n = chars.len();
        let mut j = n;
        proof {
            assert(chars@.take(n as int) =~= chars@);
        }
        while j > 0 && chars[j - 1] != '/'
            invariant
                j <= n,
                n == chars@.len(),
                chars@ == config_path@,
                last_slash(config_path@) == last_slash(config_path@.take(j as int)),
            decreases j,
        {
            proof {
                let u = config_path@.take(j as int);
                assert(u[u.len() - 1] == config_path@[j as int - 1]);
                assert(u.drop_last() =~= config_path@.take(j as int - 1));
            }
            j = j - 1;
        }
        proof {
            let u = config_path@.take(j as int);
            if j > 0 {
                assert(u[u.len() - 1] == config_path@[j as int - 1]);
            }
        }
        if j == 0 {
            String::new()
        } else if j == 1 {
            String::from_str("/")
        } else {
            let root = copy_range(&chars, 0, j - 1);
            proof {
                assert(root@ =~= config_path@.take(j as int - 1));
            }
            from_chars(&root)
        }
    }
}

/// A ready-to-edit configuration file.
pub fn generate_template() -> (r: String)
    ensures
        r@ == spec_template(),
{
    String::from_str(
        r#"default_host = "dev-server"

[hosts.dev-server]
hostname = "dev-server"        # SSH alias (from ~/.ssh/config) or IP
path = "/home/user/projects/myproject"
# shell = "bash"               # bash (default), powershell, or cmd
# sync_method = "rsync"        # tar (default) or rsync (incremental, deletes removed files)
# wrapper = "source ~/.profile && {}"  # Optional: wrap all commands
# strict_env = true            # Fail on missing ${VAR} references (default: true)
# env_files = [".env.prod"]    # Additional env files to load after .env
# reconnect_command = "get-crash-dump.sh"  # Run after SSH reconnects from unexpected disconnect
# reconnect_timeout = 90       # Seconds to wait for reconnection (default: 90)
# lock = true                  # Acquire exclusive lock before running commands
# lock = "kernel"              # Named lock (only blocks commands with same lock name)
# lock_timeout = 600           # Seconds to wait for lock (default: 600)

# Windows example with environment loading:
# [hosts.windows-pc]
# hostname = "192.168.1.100"
# path = "C:/Users/name/dev/myproject"
# shell = "powershell"
# wrapper = "net use \\\\server\\share /user:${DOMAIN_USER} ${DOMAIN_PASS:-}; {}"

# Conda environment example:
# [hosts.ml-server]
# hostname = "ml-box"
# path = "/home/user/ml-project"
# wrapper = "source ~/miniconda3/bin/activate ml && {}"

[sync]
exclude = [".git", "target", "node_modules", "__pycache__"]
"#,
    )
}

/// The text `generate_template` hands out.
pub open spec fn spec_template() -> Seq<char> {
    r#"default_host = "dev-server"

[hosts.dev-server]
hostname = "dev-server"        # SSH alias (from ~/.ssh/config) or IP
path = "/home/user/projects/myproject"
# shell = "bash"               # bash (default), powershell, or cmd
# sync_method = "rsync"        # tar (default) or rsync (incremental, deletes removed files)
# wrapper = "source ~/.profile && {}"  # Optional: wrap all commands
# strict_env = true            # Fail on missing ${VAR} references (default: true)
# env_files = [".env.prod"]    # Additional env files to load after .env
# reconnect_command = "get-crash-dump.sh"  # Run after SSH reconnects from unexpected disconnect
# reconnect_timeout = 90       # Seconds to wait for reconnection (default: 90)
# lock = true                  # Acquire exclusive lock before running commands
# lock = "kernel"              # Named lock (only blocks commands with same lock name)
# lock_timeout = 600           # Seconds to wait for lock (default: 600)

# Windows example with environment loading:
# [hosts.windows-pc]
# hostname = "192.168.1.100"
# path = "C:/Users/name/dev/myproject"
# shell = "powershell"
# wrapper = "net use \\\\server\\share /user:${DOMAIN_USER} ${DOMAIN_PASS:-}; {}"

# Conda environment example:
# [hosts.ml-server]
# hostname = "ml-box"
# path = "/home/user/ml-project"
# wrapper = "source ~/miniconda3/bin/activate ml && {}"

[sync]
exclude = [".git", "target", "node_modules", "__pycache__"]
"#@
}

/// The recovery command for one run: the explicit override where given,
/// else what the configuration holds.
pub fn effective_command(override_command: Option<String>, configured: Option<String>) -> (r:
    Option<String>)
    ensures
        override_command is Some ==> r == override_command,
        override_command is None ==> r == configured,
{
    match override_command {
        Some(c) => Some(c),
        None => configured,
    }
}

/// A timeout for one run: the explicit override where given, else what the
/// configuration holds.
pub fn effective_timeout(override_secs: Option<u64>, configured: u64) -> (r: u64)
    ensures
        override_secs is Some ==> r == override_secs->Some_0,
        override_secs is None ==> r == configured,
{
    match override_secs {
        Some(t) => t,
        None => configured,
    }
}

/// The lock name for one run: the explicit override where given, else the
/// name the configured lock setting asks for.
pub fn effective_lock_name(override_name: Option<String>, setting: &LockSetting) -> (r: Option<
    String,
>)
    ensures
        override_name is Some ==> r == override_name,
        override_name is None ==> (match r {
            Some(n) => setting.spec_lock_name() == Some(n@),
            None => setting.spec_lock_name() is None,
        }),
{
    match override_name {
        Some(n) => Some(n),
        None => setting.lock_name(),
    }
}

} // verus!
