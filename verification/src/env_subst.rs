//! Layered environment-variable substitution.
//!
//! The engine resolves three forms inside an input string:
//! `${NAME}` (required), `${NAME:-default}` (optional with fallback) and
//! `$${...}` (escaped: the extra `$` suppresses expansion and is stripped).
//! NAME must match `[A-Za-z_][A-Za-z0-9_]*`; text that does not match the
//! grammar is left as it is.
//!
//! Resolution order per placeholder: process environment, then the mapping
//! loaded from variable-definition files, then the inline default; a name
//! found nowhere resolves to the empty string, and under strict mode the
//! whole call fails, naming every such variable at once.
//!
//! The engine works in three passes, each specified and verified: escaped
//! sequences are first protected behind a marker character, placeholders are
//! then expanded in one left-to-right pass, and the markers are finally
//! restored to the literal `${`.

use vstd::prelude::*;

use crate::strutil::{copy_range, from_chars, push_all, push_str_chars, to_chars};
use crate::varmap::VarMap;
use vstd::string::StringExecFns;

verus! {

/// Marker that stands in for an escaped `$${` while placeholders expand.
/// It never appears in command or configuration text.
pub const ESCAPE_MARKER: char = '\u{0}';

/// First character of a variable name: a letter or an underscore.
pub open spec fn is_name_start_char(c: char) -> bool {
    ('A' as u32 <= c as u32 && c as u32 <= 'Z' as u32) || ('a' as u32 <= c as u32 && c as u32
        <= 'z' as u32) || c == '_'
}

/// Later character of a variable name: a letter, a digit or an underscore.
pub open spec fn is_name_char(c: char) -> bool {
    is_name_start_char(c) || ('0' as u32 <= c as u32 && c as u32 <= '9' as u32)
}

/// A well-formed variable name: `[A-Za-z_][A-Za-z0-9_]*`.
pub open spec fn valid_name(s: Seq<char>) -> bool {
    &&& s.len() > 0
    &&& is_name_start_char(s[0])
    &&& forall|i: int| 1 <= i < s.len() ==> is_name_char(#[trigger] s[i])
}

fn name_start_char(c: char) -> (b: bool)
    ensures
        b == is_name_start_char(c),
{
    let u = c as u32;
    ('A' as u32 <= u && u <= 'Z' as u32) || ('a' as u32 <= u && u <= 'z' as u32) || c == '_'
}

fn name_char(c: char) -> (b: bool)
    ensures
        b == is_name_char(c),
{
    let u = c as u32;
    name_start_char(c) || ('0' as u32 <= u && u <= '9' as u32)
}

/// An escaped sequence `$${` begins at position `i` of `s`.
pub open spec fn escape_at(s: Seq<char>, i: int) -> bool {
    &&& 0 <= i
    &&& i + 3 <= s.len()
    &&& s[i] == '$'
    &&& s[i + 1] == '$'
    &&& s[i + 2] == '{'
}

/// The protection pass: each `$${` becomes the marker character, all other
/// text is copied.
pub open spec fn protect(s: Seq<char>) -> Seq<char>
    decreases s.len(),
{
    if s.len() == 0 {
        s
    } else if escape_at(s, 0) {
        seq![ESCAPE_MARKER] + protect(s.skip(3))
    } else {
        seq![s[0]] + protect(s.skip(1))
    }
}

/// The restoration pass: each marker becomes the literal `${`, all other
/// text is copied.
pub open spec fn restore(s: Seq<char>) -> Seq<char>
    decreases s.len(),
{
    if s.len() == 0 {
        s
    } else if s[0] == ESCAPE_MARKER {
        seq!['$', '{'] + restore(s.skip(1))
    } else {
        seq![s[0]] + restore(s.skip(1))
    }
}

/// Length of the longest prefix of `s` made of name characters.
pub open spec fn name_len(s: Seq<char>) -> nat
    decreases s.len(),
{
    if s.len() > 0 && is_name_char(s[0]) {
        1 + name_len(s.skip(1))
    } else {
        0
    }
}

/// Length of the longest prefix of `s` that stays clear of `}`.
pub open spec fn default_len(s: Seq<char>) -> nat
    decreases s.len(),
{
    if s.len() > 0 && s[0] != '}' {
        1 + default_len(s.skip(1))
    } else {
        0
    }
}

pub proof fn lemma_name_len_le(s: Seq<char>)
    ensures
        name_len(s) <= s.len(),
    decreases s.len(),
{
    if s.len() > 0 && is_name_char(s[0]) {
        lemma_name_len_le(s.skip(1));
    }
}

pub proof fn lemma_default_len_le(s: Seq<char>)
    ensures
        default_len(s) <= s.len(),
    decreases s.len(),
{
    if s.len() > 0 && s[0] != '}' {
        lemma_default_len_le(s.skip(1));
    }
}

/// The placeholder, if any, that begins at the head of `s`: its name, its
/// inline default, and the number of characters the whole form occupies.
pub open spec fn placeholder_at(s: Seq<char>) -> Option<(Seq<char>, Option<Seq<char>>, nat)> {
    if s.len() >= 2 && s[0] == '$' && s[1] == '{' {
        let rest = s.skip(2);
        let nl = name_len(rest);
        if nl > 0 && is_name_start_char(rest[0]) {
            let name = rest.take(nl as int);
            let after = rest.skip(nl as int);
            if after.len() > 0 && after[0] == '}' {
                Some((name, None, (nl + 3) as nat))
            } else if after.len() >= 2 && after[0] == ':' && after[1] == '-' {
                let drest = after.skip(2);
                let dl = default_len(drest);
                if dl < drest.len() {
                    Some((name, Some(drest.take(dl as int)), (nl + dl + 5) as nat))
                } else {
                    None
                }
            } else {
                None
            }
        } else {
            None
        }
    } else {
        None
    }
}

/// A placeholder occupies at least four characters and no more than the
/// string it starts.
pub proof fn lemma_placeholder_len(s: Seq<char>)
    requires
        placeholder_at(s) is Some,
    ensures
        4 <= placeholder_at(s)->Some_0.2 <= s.len(),
{
    let rest = s.skip(2);
    let nl = name_len(rest);
    lemma_name_len_le(rest);
    let after = rest.skip(nl as int);
    assert(after.len() == s.len() - 2 - nl);
    if !(after.len() > 0 && after[0] == '}') {
        let drest = after.skip(2);
        lemma_default_len_le(drest);
        assert(drest.len() == s.len() - 4 - nl);
    }
}

/// What one placeholder resolves to, and whether it was found nowhere:
/// process environment first, then file-loaded variables, then the default.
pub open spec fn resolve(
    name: Seq<char>,
    default: Option<Seq<char>>,
    penv: Map<Seq<char>, Seq<char>>,
    fvars: Map<Seq<char>, Seq<char>>,
) -> (Seq<char>, bool) {
    if penv.contains_key(name) {
        (penv[name], false)
    } else if fvars.contains_key(name) {
        (fvars[name], false)
    } else {
        match default {
            Some(d) => (d, false),
            None => (Seq::empty(), true),
        }
    }
}

/// The expansion pass over a protected string: the expanded text, and the
/// names that resolved nowhere, in order of first occurrence.
pub open spec fn expand(
    s: Seq<char>,
    penv: Map<Seq<char>, Seq<char>>,
    fvars: Map<Seq<char>, Seq<char>>,
) -> (Seq<char>, Seq<Seq<char>>)
    decreases s.len(),
    via expand_decreases
{
    if s.len() == 0 {
        (s, Seq::empty())
    } else {
        match placeholder_at(s) {
            Some(ph) => {
                let rm = resolve(ph.0, ph.1, penv, fvars);
                let rest = expand(s.skip(ph.2 as int), penv, fvars);
                (rm.0 + rest.0, if rm.1 {
                    seq![ph.0] + rest.1
                } else {
                    rest.1
                })
            },
            None => {
                let rest = expand(s.skip(1), penv, fvars);
                (seq![s[0]] + rest.0, rest.1)
            },
        }
    }
}

#[via_fn]
proof fn expand_decreases(
    s: Seq<char>,
    penv: Map<Seq<char>, Seq<char>>,
    fvars: Map<Seq<char>, Seq<char>>,
) {
    if s.len() > 0 && placeholder_at(s) is Some {
        lemma_placeholder_len(s);
    }
}

/// The substituted text: protect, expand, restore.
pub open spec fn subst_output(
    s: Seq<char>,
    penv: Map<Seq<char>, Seq<char>>,
    fvars: Map<Seq<char>, Seq<char>>,
) -> Seq<char> {
    restore(expand(protect(s), penv, fvars).0)
}

/// The names that resolve nowhere, in order of first occurrence.
pub open spec fn subst_missing(
    s: Seq<char>,
    penv: Map<Seq<char>, Seq<char>>,
    fvars: Map<Seq<char>, Seq<char>>,
) -> Seq<Seq<char>> {
    expand(protect(s), penv, fvars).1
}

fn protect_chars(s: &Vec<char>) -> (r: Vec<char>)
    ensures
        r@ == protect(s@),
{
    let n = s.len();
    let mut out: Vec<char> = Vec::new();
    let mut i: usize = 0;
    proof {
        assert(s@.skip(0) =~= s@);
        assert(out@ + protect(s@) =~= protect(s@));
    }
    while i < n
        invariant
            n == s@.len(),
            i <= n,
            protect(s@) == out@ + protect(s@.skip(i as int)),
        decreases n - i,
    {
        if n - i > 2 && s[i] == '$' && s[i + 1] == '$' && s[i + 2] == '{' {
            proof {
                assert(escape_at(s@.skip(i as int), 0));
                assert(s@.skip(i as int).skip(3) =~= s@.skip(i as int + 3));
                assert(out@.push(ESCAPE_MARKER) + protect(s@.skip(i as int + 3)) =~= out@ + protect(
                    s@.skip(i as int),
                ));
            }
            out.push(ESCAPE_MARKER);
            i = i + 3;
        } else {
            proof {
                assert(!escape_at(s@.skip(i as int), 0));
                assert(s@.skip(i as int)[0] == s@[i as int]);
                assert(s@.skip(i as int).skip(1) =~= s@.skip(i as int + 1));
                assert(out@.push(s@[i as int]) + protect(s@.skip(i as int + 1)) =~= out@ + protect(
                    s@.skip(i as int),
                ));
            }
            out.push(s[i]);
            i = i + 1;
        }
    }
    proof {
        assert(s@.skip(n as int) =~= Seq::<char>::empty());
        assert(out@ + protect(s@.skip(n as int)) =~= out@);
    }
    out
}

fn restore_chars(s: &Vec<char>) -> (r: Vec<char>)
    ensures
        r@ == restore(s@),
{
    let n = s.len();
    let mut out: Vec<char> = Vec::new();
    let mut i: usize = 0;
    proof {
        assert(s@.skip(0) =~= s@);
        assert(out@ + restore(s@) =~= restore(s@));
    }
    while i < n
        invariant
            n == s@.len(),
            i <= n,
            restore(s@) == out@ + restore(s@.skip(i as int)),
        decreases n - i,
    {
        proof {
            assert(s@.skip(i as int)[0] == s@[i as int]);
            assert(s@.skip(i as int).skip(1) =~= s@.skip(i as int + 1));
        }
        if s[i] == ESCAPE_MARKER {
            proof {
                assert(out@.push('$').push('{') + restore(s@.skip(i as int + 1)) =~= out@ + restore(
                    s@.skip(i as int),
                ));
            }
            out.push('$');
            out.push('{');
        } else {
            proof {
                assert(out@.push(s@[i as int]) + restore(s@.skip(i as int + 1)) =~= out@ + restore(
                    s@.skip(i as int),
                ));
            }
            out.push(s[i]);
        }
        i = i + 1;
    }
    proof {
        assert(s@.skip(n as int) =~= Seq::<char>::empty());
        assert(out@ + restore(s@.skip(n as int)) =~= out@);
    }
    out
}

fn scan_placeholder(s: &Vec<char>, i: usize) -> (r: Option<(Vec<char>, Option<Vec<char>>, usize)>)
    requires
        i < s@.len(),
    ensures
        match r {
            Some(ph) => {
                &&& placeholder_at(s@.skip(i as int)) == Some((ph.0@, ph.1.deep_view(), ph.2 as nat))
                &&& ph.2 <= s@.len() - i
            },
            None => placeholder_at(s@.skip(i as int)) is None,
        },
{
    let ghost t = s@.skip(i as int);
    let n = s.len();
    if !(i + 1 < n && s[i] == '$' && s[i + 1] == '{') {
        proof {
            if t.len() >= 2 {
                assert(t[0] == s@[i as int] && t[1] == s@[i as int + 1]);
            }
        }
        return None;
    }
    let start = i + 2;
    let ghost rest = s@.skip(start as int);
    proof {
        assert(rest =~= t.skip(2));
    }
    // scan the longest run of name characters
    let mut j = start;
    while j < n && name_char(s[j])
        invariant
            start <= j <= n,
            n == s@.len(),
            start <= n,
            rest == s@.skip(start as int),
            name_len(rest) == (j - start) + name_len(s@.skip(j as int)),
        decreases n - j,
    {
        proof {
            let u = s@.skip(j as int);
            assert(u[0] == s@[j as int]);
            assert(u.skip(1) =~= s@.skip(j as int + 1));
        }
        j = j + 1;
    }
    proof {
        let u = s@.skip(j as int);
        if j < n {
            assert(u[0] == s@[j as int]);
        }
        assert(name_len(s@.skip(j as int)) == 0);
        assert(name_len(rest) == j - start);
    }
    if j == start || !name_start_char(s[start]) {
        proof {
            if name_len(rest) > 0 {
                assert(rest[0] == s@[start as int]);
            }
        }
        return None;
    }
    let name = copy_range(s, start, j);
    proof {
        assert(rest[0] == s@[start as int]);
        assert(name@ =~= rest.take((j - start) as int));
        assert(rest.skip((j - start) as int) =~= s@.skip(j as int));
    }
    if j < n && s[j] == '}' {
        proof {
            assert(s@.skip(j as int)[0] == s@[j as int]);
        }
        return Some((name, None, j + 1 - i));
    }
    if j < n && n - j > 1 && s[j] == ':' && s[j + 1] == '-' {
        let dstart = j + 2;
        let ghost drest = s@.skip(dstart as int);
        proof {
            let after = s@.skip(j as int);
            assert(after[0] == s@[j as int] && after[1] == s@[j as int + 1]);
            assert(drest =~= after.skip(2));
        }
        // scan the default text up to the closing brace
        let mut k = dstart;
        while k < n && s[k] != '}'
            invariant
                dstart <= k <= n,
                n == s@.len(),
                dstart <= n,
                drest == s@.skip(dstart as int),
                default_len(drest) == (k - dstart) + default_len(s@.skip(k as int)),
            decreases n - k,
        {
            proof {
                let u = s@.skip(k as int);
                assert(u[0] == s@[k as int]);
                assert(u.skip(1) =~= s@.skip(k as int + 1));
            }
            k = k + 1;
        }
        proof {
            let u = s@.skip(k as int);
            if k < n {
                assert(u[0] == s@[k as int]);
            }
            assert(default_len(s@.skip(k as int)) == 0);
            assert(default_len(drest) == k - dstart);
        }
        if k < n {
            let d = copy_range(s, dstart, k);
            proof {
                assert(d@ =~= drest.take((k - dstart) as int));
            }
            return Some((name, Some(d), k + 1 - i));
        }
        return None;
    }
    proof {
        let after = s@.skip(j as int);
        if after.len() >= 1 {
            assert(after[0] == s@[j as int]);
        }
        if after.len() >= 2 {
            assert(after[1] == s@[j as int + 1]);
        }
    }
    None
}

fn expand_chars(s: &Vec<char>, penv: &VarMap, fvars: &VarMap) -> (r: (Vec<char>, Vec<String>))
    ensures
        r.0@ == expand(s@, penv@, fvars@).0,
        r.1.deep_view() == expand(s@, penv@, fvars@).1,
{
    let ghost gp = penv@;
    let ghost gf = fvars@;
    let n = s.len();
    let mut out: Vec<char> = Vec::new();
    let mut missing: Vec<String> = Vec::new();
    let mut i: usize = 0;
    proof {
        assert(s@.skip(0) =~= s@);
        assert(out@ + expand(s@, gp, gf).0 =~= expand(s@, gp, gf).0);
        assert(missing.deep_view() + expand(s@, gp, gf).1 =~= expand(s@, gp, gf).1);
    }
    while i < n
        invariant
            n == s@.len(),
            i <= n,
            gp == penv@,
            gf == fvars@,
            expand(s@, gp, gf).0 == out@ + expand(s@.skip(i as int), gp, gf).0,
            expand(s@, gp, gf).1 == missing.deep_view() + expand(s@.skip(i as int), gp, gf).1,
        decreases n - i,
    {
        let ghost t = s@.skip(i as int);
        match scan_placeholder(s, i) {
            Some((name, dflt, l)) => {
                let ghost miss0 = missing.deep_view();
                let ghost out0 = out@;
                let ghost rm = resolve(name@, dflt.deep_view(), gp, gf);
                match penv.get_chars(&name) {
                    Some(v) => {
                        push_str_chars(&mut out, v.as_str());
                    },
                    None => {
                        match fvars.get_chars(&name) {
                            Some(v) => {
                                push_str_chars(&mut out, v.as_str());
                            },
                            None => {
                                match &dflt {
                                    Some(d) => {
                                        push_all(&mut out, d);
                                    },
                                    None => {
                                        missing.push(from_chars(&name));
                                    },
                                }
                            },
                        }
                    },
                }
                proof {
                    assert(out@ == out0 + rm.0);
                    if rm.1 {
                        assert(missing.deep_view() =~= miss0.push(name@));
                        assert(miss0.push(name@) =~= miss0 + seq![name@]);
                    } else {
                        assert(missing.deep_view() == miss0);
                    }
                }
                i = i + l;
                proof {
                    assert(t.skip(l as int) =~= s@.skip(i as int));
                    assert(expand(t, gp, gf).0 == rm.0 + expand(s@.skip(i as int), gp, gf).0);
                    assert(expand(t, gp, gf).1 == if rm.1 {
                        seq![name@] + expand(s@.skip(i as int), gp, gf).1
                    } else {
                        expand(s@.skip(i as int), gp, gf).1
                    });
                    assert(out@ + expand(s@.skip(i as int), gp, gf).0 =~= out0 + expand(
                        t,
                        gp,
                        gf,
                    ).0);
                    assert(missing.deep_view() + expand(s@.skip(i as int), gp, gf).1 =~= miss0
                        + expand(t, gp, gf).1);
                }
            },
            None => {
                let ghost out0 = out@;
                out.push(s[i]);
                i = i + 1;
                proof {
                    assert(t[0] == s@[i as int - 1]);
                    assert(t.skip(1) =~= s@.skip(i as int));
                    assert(expand(t, gp, gf).0 == seq![t[0]] + expand(s@.skip(i as int), gp, gf).0);
                    assert(out@ + expand(s@.skip(i as int), gp, gf).0 =~= out0 + expand(
                        t,
                        gp,
                        gf,
                    ).0);
                }
            },
        }
    }
    proof {
        assert(s@.skip(n as int) =~= Seq::<char>::empty());
        assert(out@ + expand(s@.skip(n as int), gp, gf).0 =~= out@);
        assert(missing.deep_view() + expand(s@.skip(n as int), gp, gf).1 =~= missing.deep_view());
    }
    (out, missing)
}

/// The error of a strict substitution: the variables that resolved nowhere,
/// in order of first occurrence.
#[derive(Debug)]
pub struct SubstError {
    pub missing: Vec<String>,
}

/// `items` joined with `sep` between consecutive items.
pub open spec fn spec_join(items: Seq<Seq<char>>, sep: Seq<char>) -> Seq<char>
    decreases items.len(),
{
    if items.len() == 0 {
        Seq::empty()
    } else if items.len() == 1 {
        items[0]
    } else {
        items[0] + sep + spec_join(items.skip(1), sep)
    }
}

fn push_joined(s: &mut String, items: &Vec<String>, idx: usize)
    requires
        idx <= items@.len(),
    ensures
        final(s)@ == old(s)@ + spec_join(items.deep_view().skip(idx as int), ", "@),
    decreases items@.len() - idx,
{
    let ghost suffix = items.deep_view().skip(idx as int);
    if idx < items.len() {
        proof {
            assert(suffix[0] == items.deep_view()[idx as int]);
        }
        s.append(items[idx].as_str());
        if idx + 1 < items.len() {
            s.append(", ");
        }
        push_joined(s, items, idx + 1);
        proof {
            assert(suffix.skip(1) =~= items.deep_view().skip(idx as int + 1));
            if idx + 1 < items@.len() {
                assert(s@ =~= old(s)@ + spec_join(suffix, ", "@));
            } else {
                assert(items.deep_view().skip(idx as int + 1).len() == 0);
                assert(suffix.len() == 1);
                assert(s@ =~= old(s)@ + spec_join(suffix, ", "@));
            }
        }
    } else {
        proof {
            assert(suffix.len() == 0);
            assert(s@ =~= old(s)@ + spec_join(suffix, ", "@));
        }
    }
}

impl SubstError {
    /// The message the caller reports: it names every missing variable.
    pub open spec fn spec_message(&self) -> Seq<char> {
        "Missing required environment variables: "@ + spec_join(self.missing.deep_view(), ", "@)
            + ". Use ${VAR:-default} syntax for optional variables, or set strict_env = false in bridge.toml"@
    }

    /// The message the caller reports: it names every missing variable.
    pub fn message(&self) -> (r: String)
        ensures
            r@ == self.spec_message(),
    {
        let mut s = String::from_str("Missing required environment variables: ");
        push_joined(&mut s, &self.missing, 0);
        proof {
            assert(self.missing.deep_view().skip(0) =~= self.missing.deep_view());
        }
        s.append(
            ". Use ${VAR:-default} syntax for optional variables, or set strict_env = false in bridge.toml",
        );
        s
    }
}

/// Resolve every `${NAME}` and `${NAME:-default}` in `input` against the
/// process environment first, then the file-loaded variables, then the
/// inline default; `$${...}` comes out as the literal `${...}`. Under
/// strict mode the call fails if any variable resolves nowhere, naming all
/// of them at once; otherwise such variables become the empty string.
pub fn substitute_env_vars(
    input: &str,
    strict: bool,
    env_vars: &VarMap,
    process_env: &VarMap,
) -> (r: Result<String, SubstError>)
    ensures
        ({
            let out = subst_output(input@, process_env@, env_vars@);
            let miss = subst_missing(input@, process_env@, env_vars@);
            match r {
                Ok(o) => (!strict || miss.len() == 0) && o@ == out,
                Err(e) => strict && miss.len() > 0 && e.missing.deep_view() == miss,
            }
        }),
{
    let chars = to_chars(input);
    let protected = protect_chars(&chars);
    let (expanded, missing) = expand_chars(&protected, process_env, env_vars);
    if strict && missing.len() > 0 {
        proof {
            assert(missing.deep_view().len() == missing@.len());
        }
        return Err(SubstError { missing });
    }
    let restored = restore_chars(&expanded);
    proof {
        if missing@.len() == 0 {
            assert(missing.deep_view() =~= Seq::<Seq<char>>::empty());
        }
    }
    Ok(from_chars(&restored))
}

/// Text in which no escape begins at any position.
pub open spec fn no_escapes(s: Seq<char>) -> bool {
    forall|i: int| !escape_at(s, i)
}

/// Text in which no placeholder begins at any position.
pub open spec fn no_placeholders(s: Seq<char>) -> bool {
    forall|i: int| 0 <= i < s.len() ==> placeholder_at(#[trigger] s.skip(i)) is None
}

/// Text free of the internal marker character.
pub open spec fn no_marker(s: Seq<char>) -> bool {
    forall|i: int| 0 <= i < s.len() ==> s[i] != ESCAPE_MARKER
}

proof fn lemma_protect_id(s: Seq<char>)
    requires
        no_escapes(s),
    ensures
        protect(s) == s,
    decreases s.len(),
{
    if s.len() > 0 {
        assert(!escape_at(s, 0));
        assert(no_escapes(s.skip(1))) by {
            assert forall|i: int| !escape_at(s.skip(1), i) by {
                if 0 <= i && i + 3 <= s.skip(1).len() {
                    assert(s.skip(1)[i] == s[i + 1]);
                    assert(s.skip(1)[i + 1] == s[i + 2]);
                    assert(s.skip(1)[i + 2] == s[i + 3]);
                    assert(!escape_at(s, i + 1));
                }
            }
        }
        lemma_protect_id(s.skip(1));
        assert(protect(s) =~= s);
    }
}

proof fn lemma_restore_id(s: Seq<char>)
    requires
        no_marker(s),
    ensures
        restore(s) == s,
    decreases s.len(),
{
    if s.len() > 0 {
        assert(no_marker(s.skip(1))) by {
            assert forall|i: int| 0 <= i < s.skip(1).len() implies s.skip(1)[i] != ESCAPE_MARKER by {
                assert(s.skip(1)[i] == s[i + 1]);
            }
        }
        lemma_restore_id(s.skip(1));
        assert(restore(s) =~= s);
    }
}

proof fn lemma_expand_literal(
    s: Seq<char>,
    penv: Map<Seq<char>, Seq<char>>,
    fvars: Map<Seq<char>, Seq<char>>,
)
    requires
        no_placeholders(s),
    ensures
        expand(s, penv, fvars).0 == s,
        expand(s, penv, fvars).1 == Seq::<Seq<char>>::empty(),
    decreases s.len(),
{
    if s.len() > 0 {
        assert(s.skip(0) =~= s);
        assert(placeholder_at(s) is None);
        assert(no_placeholders(s.skip(1))) by {
            assert forall|i: int|
                0 <= i < s.skip(1).len() implies placeholder_at(#[trigger] s.skip(1).skip(i))
                is None by {
                assert(s.skip(1).skip(i) =~= s.skip(i + 1));
            }
        }
        lemma_expand_literal(s.skip(1), penv, fvars);
        assert(expand(s, penv, fvars).0 =~= s);
    }
}

proof fn lemma_expand_empty(penv: Map<Seq<char>, Seq<char>>, fvars: Map<Seq<char>, Seq<char>>)
    ensures
        expand(Seq::<char>::empty(), penv, fvars).0 == Seq::<char>::empty(),
        expand(Seq::<char>::empty(), penv, fvars).1 == Seq::<Seq<char>>::empty(),
{
}

/// A string without a dollar sign holds no placeholder.
proof fn lemma_no_dollar_no_placeholders(s: Seq<char>)
    requires
        forall|i: int| 0 <= i < s.len() ==> s[i] != '$',
    ensures
        no_placeholders(s),
{
    assert forall|i: int|
        0 <= i < s.len() implies placeholder_at(#[trigger] s.skip(i)) is None by {
        if s.skip(i).len() >= 2 {
            assert(s.skip(i)[0] == s[i]);
        }
    }
}

/// Every character of a name is a name character, so never `$`, `{`, `}`,
/// `:` or the marker.
proof fn lemma_name_chars(name: Seq<char>)
    requires
        valid_name(name),
    ensures
        forall|i: int| 0 <= i < name.len() ==> is_name_char(#[trigger] name[i]),
        forall|i: int| 0 <= i < name.len() ==> name[i] != '$',
        forall|i: int| 0 <= i < name.len() ==> name[i] != '}',
        forall|i: int| 0 <= i < name.len() ==> name[i] != ESCAPE_MARKER,
{
    assert forall|i: int| 0 <= i < name.len() implies is_name_char(#[trigger] name[i]) by {
        if i == 0 {
            assert(is_name_start_char(name[0]));
        }
    }
}

/// The longest name-character prefix of `u + rest` is exactly `u`, when `u`
/// is all name characters and `rest` starts otherwise.
proof fn lemma_name_len_concat(u: Seq<char>, rest: Seq<char>)
    requires
        forall|i: int| 0 <= i < u.len() ==> is_name_char(#[trigger] u[i]),
        rest.len() > 0,
        !is_name_char(rest[0]),
    ensures
        name_len(u + rest) == u.len(),
    decreases u.len(),
{
    if u.len() == 0 {
        assert(u + rest =~= rest);
    } else {
        assert((u + rest)[0] == u[0]);
        assert((u + rest).skip(1) =~= u.skip(1) + rest);
        assert forall|i: int| 0 <= i < u.skip(1).len() implies is_name_char(
            #[trigger] u.skip(1)[i],
        ) by {
            assert(u.skip(1)[i] == u[i + 1]);
        }
        lemma_name_len_concat(u.skip(1), rest);
    }
}

/// The longest brace-free prefix of `d + rest` is exactly `d`, when `d` is
/// brace-free and `rest` starts with the closing brace.
proof fn lemma_default_len_concat(d: Seq<char>, rest: Seq<char>)
    requires
        forall|i: int| 0 <= i < d.len() ==> d[i] != '}',
        rest.len() > 0,
        rest[0] == '}',
    ensures
        default_len(d + rest) == d.len(),
    decreases d.len(),
{
    if d.len() == 0 {
        assert(d + rest =~= rest);
    } else {
        assert((d + rest)[0] == d[0]);
        assert((d + rest).skip(1) =~= d.skip(1) + rest);
        assert forall|i: int| 0 <= i < d.skip(1).len() implies d.skip(1)[i] != '}' by {
            assert(d.skip(1)[i] == d[i + 1]);
        }
        lemma_default_len_concat(d.skip(1), rest);
    }
}

/// The form `${name}` parses as a required placeholder spanning the whole
/// string.
proof fn lemma_placeholder_required(name: Seq<char>)
    requires
        valid_name(name),
    ensures
        placeholder_at("${"@ + name + "}"@) == Some(
            (name, None::<Seq<char>>, (name.len() + 3) as nat),
        ),
{
    reveal_strlit("${");
    reveal_strlit("}");
    let s = "${"@ + name + "}"@;
    lemma_name_chars(name);
    assert(s[0] == '$' && s[1] == '{');
    let rest = s.skip(2);
    assert(rest =~= name + "}"@);
    assert(!is_name_char('}'));
    lemma_name_len_concat(name, "}"@);
    assert(name_len(rest) == name.len());
    assert(rest[0] == name[0]);
    assert(rest.take(name.len() as int) =~= name);
    let after = rest.skip(name.len() as int);
    assert(after =~= "}"@);
    assert(after[0] == '}');
}

/// The form `${name:-d}` parses as an optional placeholder spanning the
/// whole string.
proof fn lemma_placeholder_with_default(name: Seq<char>, d: Seq<char>)
    requires
        valid_name(name),
        forall|i: int| 0 <= i < d.len() ==> d[i] != '}',
    ensures
        placeholder_at("${"@ + name + ":-"@ + d + "}"@) == Some(
            (name, Some(d), (name.len() + d.len() + 5) as nat),
        ),
{
    reveal_strlit("${");
    reveal_strlit(":-");
    reveal_strlit("}");
    let s = "${"@ + name + ":-"@ + d + "}"@;
    lemma_name_chars(name);
    assert(s[0] == '$' && s[1] == '{');
    let rest = s.skip(2);
    let tail = ":-"@ + d + "}"@;
    assert(rest =~= name + tail);
    assert(tail[0] == ':');
    assert(!is_name_char(':'));
    lemma_name_len_concat(name, tail);
    assert(name_len(rest) == name.len());
    assert(rest[0] == name[0]);
    assert(rest.take(name.len() as int) =~= name);
    let after = rest.skip(name.len() as int);
    assert(after =~= tail);
    assert(after[0] == ':' && after[1] == '-');
    let drest = after.skip(2);
    assert(drest =~= d + "}"@);
    lemma_default_len_concat(d, "}"@);
    assert(default_len(drest) == d.len());
    assert(drest.take(d.len() as int) =~= d);
}

/// A well-formed `${NAME:-default}` whose name is defined nowhere becomes
/// exactly the default, with nothing missing and hence no error even under
/// strict substitution. (A default that itself holds an escape, or the
/// internal marker character, is excluded: the escape inside it is
/// unescaped on the way through.)
pub proof fn lemma_default_used(
    name: Seq<char>,
    d: Seq<char>,
    penv: Map<Seq<char>, Seq<char>>,
    fvars: Map<Seq<char>, Seq<char>>,
)
    requires
        valid_name(name),
        !penv.contains_key(name),
        !fvars.contains_key(name),
        forall|i: int| 0 <= i < d.len() ==> d[i] != '}',
        no_escapes(d),
        no_marker(d),
    ensures
        subst_output("${"@ + name + ":-"@ + d + "}"@, penv, fvars) == d,
        subst_missing("${"@ + name + ":-"@ + d + "}"@, penv, fvars).len() == 0,
{
    reveal_strlit("${");
    reveal_strlit(":-");
    reveal_strlit("}");
    let s = "${"@ + name + ":-"@ + d + "}"@;
    let ln = name.len() as int;
    let ld = d.len() as int;
    lemma_name_chars(name);
    assert(s.len() == ln + ld + 5);
    assert forall|i: int| 2 <= i < 2 + ln implies s[i] == name[i - 2] && is_name_char(s[i]) by {
        assert(name[i - 2] == ("${"@ + name)[i]);
    }
    assert forall|i: int| 4 + ln <= i < 4 + ln + ld implies s[i] == d[i - 4 - ln] by {
        assert(("${"@ + name + ":-"@ + d)[i] == d[i - 4 - ln]);
    }
    assert(s[0] == '$' && s[1] == '{' && s[2 + ln] == ':' && s[3 + ln] == '-' && s[4 + ln + ld]
        == '}');
    assert(no_escapes(s)) by {
        assert forall|i: int| !escape_at(s, i) by {
            if 0 <= i && i + 3 <= s.len() {
                if i == 0 || i == 1 {
                } else if i < 2 + ln {
                    assert(!is_name_start_char('$') && !is_name_char('$'));
                } else if i <= 3 + ln {
                } else if i + 2 < 4 + ln + ld {
                    assert(!escape_at(d, i - 4 - ln));
                    assert(d[i - 4 - ln] == s[i] && d[i - 4 - ln + 1] == s[i + 1] && d[i - 4 - ln
                        + 2] == s[i + 2]);
                } else {
                    assert(s[4 + ln + ld] == '}');
                }
            }
        }
    }
    lemma_protect_id(s);
    lemma_placeholder_with_default(name, d);
    assert(s.skip(s.len() as int) =~= Seq::<char>::empty());
    lemma_expand_empty(penv, fvars);
    assert(expand(s, penv, fvars).0 =~= d);
    assert(expand(s, penv, fvars).1 =~= Seq::<Seq<char>>::empty());
    lemma_restore_id(d);
}

/// An escaped `$${NAME}` is never expanded, whatever the maps and the
/// mode: it comes out as the literal `${NAME}` and nothing is missing.
pub proof fn lemma_escaped_left_literal(
    name: Seq<char>,
    penv: Map<Seq<char>, Seq<char>>,
    fvars: Map<Seq<char>, Seq<char>>,
)
    requires
        valid_name(name),
    ensures
        subst_output("$${"@ + name + "}"@, penv, fvars) == "${"@ + name + "}"@,
        subst_missing("$${"@ + name + "}"@, penv, fvars).len() == 0,
{
    reveal_strlit("$${");
    reveal_strlit("${");
    reveal_strlit("}");
    let s = "$${"@ + name + "}"@;
    let ln = name.len() as int;
    lemma_name_chars(name);
    assert(s.len() == ln + 4);
    assert(s[0] == '$' && s[1] == '$' && s[2] == '{' && s[3 + ln] == '}');
    assert forall|i: int| 3 <= i < 3 + ln implies s[i] == name[i - 3] && is_name_char(s[i]) by {
        assert(name[i - 3] == ("$${"@ + name)[i]);
    }
    assert(escape_at(s, 0));
    let body = name + "}"@;
    assert(s.skip(3) =~= body);
    assert(protect(s) == seq![ESCAPE_MARKER] + protect(body));
    assert(no_escapes(body)) by {
        assert forall|i: int| !escape_at(body, i) by {
            if 0 <= i && i + 3 <= body.len() {
                assert(body[i] == s[i + 3]);
                assert(!is_name_char('$'));
                if i < ln {
                    assert(body[i] == name[i]);
                } else {
                    assert(body[i] == '}');
                }
            }
        }
    }
    lemma_protect_id(body);
    let p = seq![ESCAPE_MARKER] + body;
    assert(protect(s) == p);
    assert(no_placeholders(p)) by {
        lemma_no_dollar_no_placeholders(p);
    }
    lemma_expand_literal(p, penv, fvars);
    assert(restore(p) == seq!['$', '{'] + restore(body)) by {
        assert(p[0] == ESCAPE_MARKER);
        assert(p.skip(1) =~= body);
    }
    assert(no_marker(body)) by {
        assert forall|i: int| 0 <= i < body.len() implies body[i] != ESCAPE_MARKER by {
            if i < ln {
                assert(body[i] == name[i]);
            } else {
                assert(body[i] == '}');
            }
        }
    }
    lemma_restore_id(body);
    assert(subst_output(s, penv, fvars) =~= "${"@ + name + "}"@);
}

/// A required `${NAME}` resolves to the process environment's value even
/// when the file-loaded mapping also defines the name: the process
/// environment has precedence. (A value holding the internal marker
/// character is excluded.)
pub proof fn lemma_process_env_precedence(
    name: Seq<char>,
    penv: Map<Seq<char>, Seq<char>>,
    fvars: Map<Seq<char>, Seq<char>>,
)
    requires
        valid_name(name),
        penv.contains_key(name),
        no_marker(penv[name]),
    ensures
        subst_output("${"@ + name + "}"@, penv, fvars) == penv[name],
        subst_missing("${"@ + name + "}"@, penv, fvars).len() == 0,
{
    reveal_strlit("${");
    reveal_strlit("}");
    let s = "${"@ + name + "}"@;
    let ln = name.len() as int;
    lemma_name_chars(name);
    assert(s.len() == ln + 3);
    assert(s[0] == '$' && s[1] == '{' && s[2 + ln] == '}');
    assert forall|i: int| 2 <= i < 2 + ln implies s[i] == name[i - 2] && is_name_char(s[i]) by {
        assert(name[i - 2] == ("${"@ + name)[i]);
    }
    assert(no_escapes(s)) by {
        assert forall|i: int| !escape_at(s, i) by {
            if 0 <= i && i + 3 <= s.len() {
                assert(!is_name_char('$'));
                if i == 0 || i == 1 {
                } else if i < 2 + ln {
                    assert(s[i] == name[i - 2]);
                }
            }
        }
    }
    lemma_protect_id(s);
    lemma_placeholder_required(name);
    assert(s.skip(s.len() as int) =~= Seq::<char>::empty());
    lemma_expand_empty(penv, fvars);
    assert(expand(s, penv, fvars).0 =~= penv[name]);
    assert(expand(s, penv, fvars).1 =~= Seq::<Seq<char>>::empty());
    lemma_restore_id(penv[name]);
}

/// Two required placeholders whose names are defined nowhere are both
/// reported missing, in order: strict substitution of `${A}${B}` fails
/// naming A and B, not only the first.
pub proof fn lemma_missing_aggregated(
    a: Seq<char>,
    b: Seq<char>,
    penv: Map<Seq<char>, Seq<char>>,
    fvars: Map<Seq<char>, Seq<char>>,
)
    requires
        valid_name(a),
        valid_name(b),
        !penv.contains_key(a),
        !fvars.contains_key(a),
        !penv.contains_key(b),
        !fvars.contains_key(b),
    ensures
        subst_missing(("${"@ + a + "}"@) + ("${"@ + b + "}"@), penv, fvars) == seq![a, b],
        subst_output(("${"@ + a + "}"@) + ("${"@ + b + "}"@), penv, fvars) == Seq::<char>::empty(),
{
    reveal_strlit("${");
    reveal_strlit("}");
    let sa = "${"@ + a + "}"@;
    let sb = "${"@ + b + "}"@;
    let s = sa + sb;
    let la = a.len() as int;
    let lb = b.len() as int;
    lemma_name_chars(a);
    lemma_name_chars(b);
    assert(sa.len() == la + 3 && sb.len() == lb + 3);
    assert(sa[0] == '$' && sa[1] == '{' && sa[2 + la] == '}');
    assert(sb[0] == '$' && sb[1] == '{' && sb[2 + lb] == '}');
    assert forall|i: int| 2 <= i < 2 + la implies sa[i] == a[i - 2] && is_name_char(sa[i]) by {
        assert(a[i - 2] == ("${"@ + a)[i]);
    }
    assert forall|i: int| 2 <= i < 2 + lb implies sb[i] == b[i - 2] && is_name_char(sb[i]) by {
        assert(b[i - 2] == ("${"@ + b)[i]);
    }
    assert(no_escapes(s)) by {
        assert forall|i: int| !escape_at(s, i) by {
            if 0 <= i && i + 3 <= s.len() {
                assert(!is_name_char('$'));
                if i < sa.len() {
                    assert(s[i] == sa[i]);
                } else {
                    assert(s[i] == sb[i - sa.len()]);
                }
                if i + 1 < sa.len() {
                    assert(s[i + 1] == sa[i + 1]);
                } else {
                    assert(s[i + 1] == sb[i + 1 - sa.len()]);
                }
            }
        }
    }
    lemma_protect_id(s);
    // the first placeholder
    lemma_placeholder_required(a);
    assert(placeholder_at(sa) == Some((a, None::<Seq<char>>, (a.len() + 3) as nat)));
    assert(placeholder_at(s) == Some((a, None::<Seq<char>>, (a.len() + 3) as nat))) by {
        lemma_placeholder_prefix_extend(sa, sb, a);
    }
    assert(s.skip(sa.len() as int) =~= sb);
    // the second placeholder
    lemma_placeholder_required(b);
    assert(sb.skip(sb.len() as int) =~= Seq::<char>::empty());
    lemma_expand_empty(penv, fvars);
    assert(expand(sb, penv, fvars).1 =~= seq![b]);
    assert(expand(sb, penv, fvars).0 =~= Seq::<char>::empty());
    assert(expand(s, penv, fvars).1 =~= seq![a, b]);
    assert(expand(s, penv, fvars).0 =~= Seq::<char>::empty());
    assert(restore(Seq::<char>::empty()) == Seq::<char>::empty());
}

/// A required placeholder at the head of a longer string parses the same
/// as it does alone, when it spans exactly the first part.
proof fn lemma_placeholder_prefix_extend(sa: Seq<char>, sb: Seq<char>, a: Seq<char>)
    requires
        valid_name(a),
        sa == "${"@ + a + "}"@,
        placeholder_at(sa) == Some((a, None::<Seq<char>>, (a.len() + 3) as nat)),
    ensures
        placeholder_at(sa + sb) == Some((a, None::<Seq<char>>, (a.len() + 3) as nat)),
{
    reveal_strlit("${");
    reveal_strlit("}");
    let s = sa + sb;
    let la = a.len() as int;
    lemma_name_chars(a);
    assert(s[0] == '$' && s[1] == '{');
    let rest = s.skip(2);
    let tail = "}"@ + sb;
    assert(rest =~= a + tail);
    assert(tail[0] == '}');
    assert(!is_name_char('}'));
    lemma_name_len_concat(a, tail);
    assert(name_len(rest) == a.len());
    assert(rest[0] == a[0]);
    assert(rest.take(la) =~= a);
    let after = rest.skip(la);
    assert(after =~= tail);
    assert(after[0] == '}');
}

/// Substitution leaves a string without placeholders, escapes or markers
/// exactly as it is, and reports nothing missing.
pub proof fn lemma_substitute_identity(
    s: Seq<char>,
    penv: Map<Seq<char>, Seq<char>>,
    fvars: Map<Seq<char>, Seq<char>>,
)
    requires
        no_escapes(s),
        no_placeholders(s),
        no_marker(s),
    ensures
        subst_output(s, penv, fvars) == s,
        subst_missing(s, penv, fvars).len() == 0,
{
    lemma_protect_id(s);
    lemma_expand_literal(s, penv, fvars);
    lemma_restore_id(s);
}

} // verus!
