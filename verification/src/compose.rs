//! Shell-specific command composition.
//!
//! A run is composed in order: placeholders in the base command are
//! substituted; an optional wrapper template, validated to hold the `{}`
//! token, is substituted and wraps the command; and a shell-specific
//! "change directory, then run" prefix is put in front, with the quoting
//! each shell needs. The transport arguments for running and for probing
//! reachability are built here as well; spawning is the caller's concern.

use vstd::prelude::*;

use crate::config::Shell;
use crate::env_subst::{subst_missing, subst_output, substitute_env_vars, SubstError};
use crate::strutil::{from_chars, to_chars};
use crate::varmap::VarMap;
use vstd::string::StringExecFns;

verus! {

/// `s` with every occurrence of `c` replaced by `rep`, left to right.
pub open spec fn replace_char(s: Seq<char>, c: char, rep: Seq<char>) -> Seq<char>
    decreases s.len(),
{
    if s.len() == 0 {
        s
    } else if s[0] == c {
        rep + replace_char(s.skip(1), c, rep)
    } else {
        seq![s[0]] + replace_char(s.skip(1), c, rep)
    }
}

/// `s` with every occurrence of the two-character token `{}` replaced by
/// `rep`, left to right, without rescanning `rep`.
pub open spec fn replace_token(s: Seq<char>, rep: Seq<char>) -> Seq<char>
    decreases s.len(),
{
    if s.len() < 2 {
        s
    } else if s[0] == '{' && s[1] == '}' {
        rep + replace_token(s.skip(2), rep)
    } else {
        seq![s[0]] + replace_token(s.skip(1), rep)
    }
}

/// Whether the token `{}` occurs anywhere in `s`.
pub open spec fn contains_token(s: Seq<char>) -> bool {
    exists|i: int| 0 <= i && i + 2 <= s.len() && #[trigger] s[i] == '{' && s[i + 1] == '}'
}

fn replace_char_in(s: &Vec<char>, c: char, rep: &Vec<char>) -> (r: Vec<char>)
    ensures
        r@ == replace_char(s@, c, rep@),
{
    let n = s.len();
    let mut out: Vec<char> = Vec::new();
    let mut i: usize = 0;
    proof {
        assert(s@.skip(0) =~= s@);
        assert(out@ + replace_char(s@, c, rep@) =~= replace_char(s@, c, rep@));
    }
    while i < n
        invariant
            n == s@.len(),
            i <= n,
            replace_char(s@, c, rep@) == out@ + replace_char(s@.skip(i as int), c, rep@),
        decreases n - i,
    {
        proof {
            assert(s@.skip(i as int)[0] == s@[i as int]);
            assert(s@.skip(i as int).skip(1) =~= s@.skip(i as int + 1));
        }
        let ghost out0 = out@;
        if s[i] == c {
            crate::strutil::push_all(&mut out, rep);
            proof {
                assert(out@ + replace_char(s@.skip(i as int + 1), c, rep@) =~= out0 + replace_char(
                    s@.skip(i as int),
                    c,
                    rep@,
                ));
            }
        } else {
            out.push(s[i]);
            proof {
                assert(out@ + replace_char(s@.skip(i as int + 1), c, rep@) =~= out0 + replace_char(
                    s@.skip(i as int),
                    c,
                    rep@,
                ));
            }
        }
        i = i + 1;
    }
    proof {
        assert(s@.skip(n as int) =~= Seq::<char>::empty());
        assert(out@ + replace_char(s@.skip(n as int), c, rep@) =~= out@);
    }
    out
}

fn replace_token_in(s: &Vec<char>, rep: &Vec<char>) -> (r: Vec<char>)
    ensures
        r@ == replace_token(s@, rep@),
{
    let n = s.len();
    let mut out: Vec<char> = Vec::new();
    let mut i: usize = 0;
    proof {
        assert(s@.skip(0) =~= s@);
        assert(out@ + replace_token(s@, rep@) =~= replace_token(s@, rep@));
    }
    while i < n
        invariant
            n == s@.len(),
            i <= n,
            replace_token(s@, rep@) == out@ + replace_token(s@.skip(i as int), rep@),
        decreases n - i,
    {
        let ghost t = s@.skip(i as int);
        let ghost out0 = out@;
        if n - i > 1 && s[i] == '{' && s[i + 1] == '}' {
            proof {
                assert(t[0] == s@[i as int] && t[1] == s@[i as int + 1]);
                assert(t.skip(2) =~= s@.skip(i as int + 2));
            }
            crate::strutil::push_all(&mut out, rep);
            i = i + 2;
            proof {
                assert(out@ + replace_token(s@.skip(i as int), rep@) =~= out0 + replace_token(
                    t,
                    rep@,
                ));
            }
        } else {
            proof {
                assert(t[0] == s@[i as int]);
                if t.len() >= 2 {
                    assert(t[1] == s@[i as int + 1]);
                }
                assert(t.skip(1) =~= s@.skip(i as int + 1));
            }
            out.push(s[i]);
            i = i + 1;
            proof {
                assert(out@ + replace_token(s@.skip(i as int), rep@) =~= out0 + replace_token(
                    t,
                    rep@,
                ));
            }
        }
    }
    proof {
        assert(s@.skip(n as int) =~= Seq::<char>::empty());
        assert(out@ + replace_token(s@.skip(n as int), rep@) =~= out@);
    }
    out
}

fn contains_token_in(s: &Vec<char>) -> (r: bool)
    ensures
        r == contains_token(s@),
{
    let n = s.len();
    let mut i: usize = 0;
    while i < n
        invariant
            n == s@.len(),
            i <= n,
            forall|j: int| 0 <= j < i && j + 2 <= n ==> !(#[trigger] s@[j] == '{' && s@[j + 1]
                == '}'),
        decreases n - i,
    {
        if n - i > 1 && s[i] == '{' && s[i + 1] == '}' {
            return true;
        }
        i = i + 1;
    }
    false
}

/// Why composition failed.
#[derive(Debug)]
pub enum ComposeError {
    /// Strict substitution failed inside the base command.
    CommandSubst(SubstError),
    /// Strict substitution failed inside the wrapper template.
    WrapperSubst(SubstError),
    /// The wrapper template holds no `{}` token; the template is carried.
    WrapperMissingPlaceholder(String),
}

impl ComposeError {
    /// The message the caller reports.
    pub fn message(&self) -> (r: String)
        ensures
            match self {
                ComposeError::CommandSubst(e) => r@
                    == "Failed to substitute environment variables in command: "@
                    + e.spec_message(),
                ComposeError::WrapperSubst(e) => r@
                    == "Failed to substitute environment variables in wrapper: "@
                    + e.spec_message(),
                ComposeError::WrapperMissingPlaceholder(w) => r@
                    == "Wrapper template must contain '{}' placeholder for command. Got: "@ + w@,
            },
    {
        match self {
            ComposeError::CommandSubst(e) => {
                let mut s = String::from_str(
                    "Failed to substitute environment variables in command: ",
                );
                let m = e.message();
                s.append(m.as_str());
                s
            },
            ComposeError::WrapperSubst(e) => {
                let mut s = String::from_str(
                    "Failed to substitute environment variables in wrapper: ",
                );
                let m = e.message();
                s.append(m.as_str());
                s
            },
            ComposeError::WrapperMissingPlaceholder(w) => {
                let mut s = String::from_str(
                    "Wrapper template must contain '{}' placeholder for command. Got: ",
                );
                s.append(w.as_str());
                s
            },
        }
    }
}

/// What applying the wrapper is owed to produce when it succeeds: the
/// substituted wrapper, its `{}` tokens replaced by the command.
pub open spec fn spec_wrapped(
    command: Seq<char>,
    wrapper: Seq<char>,
    penv: Map<Seq<char>, Seq<char>>,
    fvars: Map<Seq<char>, Seq<char>>,
) -> Seq<char> {
    replace_token(subst_output(wrapper, penv, fvars), command)
}

/// Apply the wrapper template to an already-substituted command.
///
/// A template without the `{}` token is refused before any substitution is
/// attempted; with no template configured the command passes through
/// unchanged.
pub fn apply_wrapper(
    command: &str,
    wrapper: Option<&str>,
    strict_env: bool,
    env_vars: &VarMap,
    process_env: &VarMap,
) -> (r: Result<String, ComposeError>)
    ensures
        match wrapper {
            None => r matches Ok(o) && o@ == command@,
            Some(w) => {
                if !contains_token(w@) {
                    r matches Err(ComposeError::WrapperMissingPlaceholder(got)) && got@ == w@
                } else if strict_env && subst_missing(w@, process_env@, env_vars@).len() > 0 {
                    r matches Err(ComposeError::WrapperSubst(e)) && e.missing.deep_view()
                        == subst_missing(w@, process_env@, env_vars@)
                } else {
                    r matches Ok(o) && o@ == spec_wrapped(command@, w@, process_env@, env_vars@)
                }
            },
        },
{
    match wrapper {
        None => Ok(String::from_str(command)),
        Some(w) => {
            let wchars = to_chars(w);
            if !contains_token_in(&wchars) {
                return Err(ComposeError::WrapperMissingPlaceholder(String::from_str(w)));
            }
            match substitute_env_vars(w, strict_env, env_vars, process_env) {
                Err(e) => Err(ComposeError::WrapperSubst(e)),
                Ok(substituted) => {
                    let schars = to_chars(substituted.as_str());
                    let cchars = to_chars(command);
                    let wrapped = replace_token_in(&schars, &cchars);
                    Ok(from_chars(&wrapped))
                },
            }
        },
    }
}

/// The lower-case form of an ASCII drive letter; other characters stay.
pub open spec fn spec_lower_ascii(c: char) -> char {
    if 'A' as u32 <= c as u32 && c as u32 <= 'Z' as u32 {
        ((c as u32) + 32) as char
    } else {
        c
    }
}

fn lower_ascii(c: char) -> (r: char)
    ensures
        r == spec_lower_ascii(c),
{
    match c {
        'A' => 'a',
        'B' => 'b',
        'C' => 'c',
        'D' => 'd',
        'E' => 'e',
        'F' => 'f',
        'G' => 'g',
        'H' => 'h',
        'I' => 'i',
        'J' => 'j',
        'K' => 'k',
        'L' => 'l',
        'M' => 'm',
        'N' => 'n',
        'O' => 'o',
        'P' => 'p',
        'Q' => 'q',
        'R' => 'r',
        'S' => 's',
        'T' => 't',
        'U' => 'u',
        'V' => 'v',
        'W' => 'w',
        'X' => 'x',
        'Y' => 'y',
        'Z' => 'z',
        other => other,
    }
}

/// A Windows path such as `C:/work` or `C:\work` in the form the
/// cygwin-style tooling expects: `/cygdrive/c/work`. Other paths stay as
/// they are.
pub open spec fn spec_to_cygwin_path(p: Seq<char>) -> Seq<char> {
    if p.len() >= 2 && p[1] == ':' {
        "/cygdrive/"@ + seq![spec_lower_ascii(p[0])] + replace_char(p.skip(2), '\\', "/"@)
    } else {
        p
    }
}

/// A Windows drive path in the form cygwin-style tooling expects.
pub fn to_cygwin_path(path: &str) -> (r: String)
    ensures
        r@ == spec_to_cygwin_path(path@),
{
    let chars = to_chars(path);
    if chars.len() >= 2 && chars[1] == ':' {
        let mut s = String::from_str("/cygdrive/");
        s.push(lower_ascii(chars[0]));
        let rest = crate::strutil::copy_range(&chars, 2, chars.len());
        proof {
            assert(rest@ =~= path@.skip(2));
        }
        let slash = to_chars("/");
        let converted = replace_char_in(&rest, '\\', &slash);
        s.append(from_chars(&converted).as_str());
        proof {
            assert(s@ =~= spec_to_cygwin_path(path@));
        }
        s
    } else {
        String::from_str(path)
    }
}

/// The composed command for one shell: change to the remote directory,
/// then run, quoted as that shell needs.
pub open spec fn shell_prefixed(shell: Shell, remote_path: Seq<char>, cmd: Seq<char>) -> Seq<char> {
    match shell {
        Shell::Bash => "cd \""@ + remote_path + "\" && "@ + cmd,
        Shell::Powershell => "powershell -Command \"cd '"@ + remote_path + "'; "@ + replace_char(
            cmd,
            '"',
            "\\\""@,
        ) + "\""@,
        Shell::Cmd => "cd /d \""@ + replace_char(remote_path, '/', "\\"@) + "\" && "@ + cmd,
    }
}

/// Compose the full remote command: substitute the base command, apply the
/// wrapper, and put the shell's directory-change prefix in front.
pub fn compose_remote_command(
    remote_path: &str,
    command: &str,
    shell: &Shell,
    wrapper: Option<&str>,
    strict_env: bool,
    env_vars: &VarMap,
    process_env: &VarMap,
) -> (r: Result<String, ComposeError>)
    ensures
        ({
            let cmd = subst_output(command@, process_env@, env_vars@);
            let cmd_miss = subst_missing(command@, process_env@, env_vars@);
            if strict_env && cmd_miss.len() > 0 {
                r matches Err(ComposeError::CommandSubst(e)) && e.missing.deep_view() == cmd_miss
            } else {
                match wrapper {
                    None => r matches Ok(o) && o@ == shell_prefixed(*shell, remote_path@, cmd),
                    Some(w) => {
                        if !contains_token(w@) {
                            r matches Err(ComposeError::WrapperMissingPlaceholder(got)) && got@
                                == w@
                        } else if strict_env && subst_missing(w@, process_env@, env_vars@).len()
                            > 0 {
                            r matches Err(ComposeError::WrapperSubst(e)) && e.missing.deep_view()
                                == subst_missing(w@, process_env@, env_vars@)
                        } else {
                            r matches Ok(o) && o@ == shell_prefixed(
                                *shell,
                                remote_path@,
                                spec_wrapped(cmd, w@, process_env@, env_vars@),
                            )
                        }
                    },
                }
            }
        }),
{
    let substituted = match substitute_env_vars(command, strict_env, env_vars, process_env) {
        Ok(s) => s,
        Err(e) => {
            return Err(ComposeError::CommandSubst(e));
        },
    };
    let wrapped = match apply_wrapper(
        substituted.as_str(),
        wrapper,
        strict_env,
        env_vars,
        process_env,
    ) {
        Ok(s) => s,
        Err(e) => {
            return Err(e);
        },
    };
    let mut s: String;
    match shell {
        Shell::Bash => {
            s = String::from_str("cd \"");
            s.append(remote_path);
            s.append("\" && ");
            s.append(wrapped.as_str());
            proof {
                assert(s@ =~= shell_prefixed(*shell, remote_path@, wrapped@));
            }
        },
        Shell::Powershell => {
            s = String::from_str("powershell -Command \"cd '");
            s.append(remote_path);
            s.append("'; ");
            let cchars = to_chars(wrapped.as_str());
            let rep = to_chars("\\\"");
            let escaped = replace_char_in(&cchars, '"', &rep);
            s.append(from_chars(&escaped).as_str());
            s.append("\"");
            proof {
                assert(s@ =~= shell_prefixed(*shell, remote_path@, wrapped@));
            }
        },
        Shell::Cmd => {
            s = String::from_str("cd /d \"");
            let pchars = to_chars(remote_path);
            let rep = to_chars("\\");
            let converted = replace_char_in(&pchars, '/', &rep);
            s.append(from_chars(&converted).as_str());
            s.append("\" && ");
            s.append(wrapped.as_str());
            proof {
                assert(s@ =~= shell_prefixed(*shell, remote_path@, wrapped@));
            }
        },
    }
    Ok(s)
}

/// The transport arguments for one remote run: keep-alive probing is always
/// on, so a dead peer is noticed in seconds, and an interactive run asks
/// for a terminal.
pub open spec fn spec_ssh_run_args(
    hostname: Seq<char>,
    full_cmd: Seq<char>,
    interactive: bool,
) -> Seq<Seq<char>> {
    (if interactive {
        seq!["-t"@]
    } else {
        Seq::empty()
    }) + seq![
        "-o"@,
        "ServerAliveInterval=5"@,
        "-o"@,
        "ServerAliveCountMax=3"@,
        hostname,
        full_cmd,
    ]
}

/// The argument list handed to the transport client for one remote run.
pub fn ssh_run_args(hostname: &str, full_cmd: &str, interactive: bool) -> (r: Vec<String>)
    ensures
        r.deep_view() == spec_ssh_run_args(hostname@, full_cmd@, interactive),
{
    let mut v: Vec<String> = Vec::new();
    if interactive {
        v.push(String::from_str("-t"));
    }
    v.push(String::from_str("-o"));
    v.push(String::from_str("ServerAliveInterval=5"));
    v.push(String::from_str("-o"));
    v.push(String::from_str("ServerAliveCountMax=3"));
    v.push(String::from_str(hostname));
    v.push(String::from_str(full_cmd));
    proof {
        assert(v.deep_view() =~= spec_ssh_run_args(hostname@, full_cmd@, interactive));
    }
    v
}

/// The transport arguments for the reachability probe: a trivial no-op
/// command, a short connect timeout, and no interactive allocation.
pub open spec fn spec_probe_args(hostname: Seq<char>) -> Seq<Seq<char>> {
    seq!["-o"@, "ConnectTimeout=5"@, "-o"@, "BatchMode=yes"@, hostname, "exit 0"@]
}

/// The argument list handed to the transport client to probe reachability.
pub fn probe_args(hostname: &str) -> (r: Vec<String>)
    ensures
        r.deep_view() == spec_probe_args(hostname@),
{
    let mut v: Vec<String> = Vec::new();
    v.push(String::from_str("-o"));
    v.push(String::from_str("ConnectTimeout=5"));
    v.push(String::from_str("-o"));
    v.push(String::from_str("BatchMode=yes"));
    v.push(String::from_str(hostname));
    v.push(String::from_str("exit 0"));
    proof {
        assert(v.deep_view() =~= spec_probe_args(hostname@));
    }
    v
}

} // verus!
