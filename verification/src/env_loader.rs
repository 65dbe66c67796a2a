//! Parsing and merging of variable-definition files.
//!
//! A definition file holds `KEY=value` lines, with optional single or
//! double quotes around the value, an optional `export ` prefix, `#`
//! comments and blank lines. The default file is taken when its content is
//! at hand and silently skipped otherwise; additionally named files must
//! exist. Later files override earlier ones. The surrounding I/O layer
//! reads the files and hands their contents in; everything here is
//! verified logic over those contents.

use vstd::prelude::*;

use crate::env_subst::{is_name_char, is_name_start_char, valid_name};
use crate::strutil::{copy_range, from_chars, push_decimal, spec_decimal, to_chars};
use crate::varmap::VarMap;
use vstd::string::StringExecFns;

verus! {

/// Whether `c` carries the White_Space property, as the trimming of keys
/// and values understands it.
pub open spec fn is_space(c: char) -> bool {
    ||| c as u32 == 0x20
    ||| c as u32 == 0x9
    ||| c as u32 == 0xA
    ||| c as u32 == 0xB
    ||| c as u32 == 0xC
    ||| c as u32 == 0xD
    ||| c as u32 == 0x85
    ||| c as u32 == 0xA0
    ||| c as u32 == 0x1680
    ||| (0x2000 <= c as u32 && c as u32 <= 0x200A)
    ||| c as u32 == 0x2028
    ||| c as u32 == 0x2029
    ||| c as u32 == 0x202F
    ||| c as u32 == 0x205F
    ||| c as u32 == 0x3000
}

fn space_char(c: char) -> (r: bool)
    ensures
        r == is_space(c),
{
    let u = c as u32;
    u == 0x20 || u == 0x9 || u == 0xA || u == 0xB || u == 0xC || u == 0xD || u == 0x85 || u == 0xA0
        || u == 0x1680 || (0x2000 <= u && u <= 0x200A) || u == 0x2028 || u == 0x2029 || u == 0x202F
        || u == 0x205F || u == 0x3000
}

/// How many spaces the text starts with.
pub open spec fn leading_spaces(s: Seq<char>) -> nat
    decreases s.len(),
{
    if s.len() > 0 && is_space(s[0]) {
        1 + leading_spaces(s.skip(1))
    } else {
        0
    }
}

/// Where the text, read backwards from the end but not past `floor`,
/// stops being spaces.
pub open spec fn trim_upper(s: Seq<char>, floor: int) -> int
    decreases s.len(),
{
    if s.len() == 0 || s.len() <= floor {
        floor
    } else if is_space(s[s.len() - 1]) {
        trim_upper(s.drop_last(), floor)
    } else {
        s.len() as int
    }
}

/// The text without its leading and trailing spaces.
pub open spec fn spec_trim(s: Seq<char>) -> Seq<char> {
    s.subrange(leading_spaces(s) as int, trim_upper(s, leading_spaces(s) as int))
}



/// The text without its leading and trailing spaces.
pub fn trim_chars(s: &Vec<char>) -> (r: Vec<char>)
    ensures
        r@ == spec_trim(s@),
{
    let n = s.len();
    let mut i: usize = 0;
    proof {
        assert(s@.skip(0) =~= s@);
    }
    while i < n && space_char(s[i])
        invariant
            i <= n,
            n == s@.len(),
            leading_spaces(s@) == i + leading_spaces(s@.skip(i as int)),
        decreases n - i,
    {
        proof {
            let u = s@.skip(i as int);
            assert(u[0] == s@[i as int]);
            assert(u.skip(1) =~= s@.skip(i as int + 1));
        }
        i = i + 1;
    }
    proof {
        let u = s@.skip(i as int);
        if i < n {
            assert(u[0] == s@[i as int]);
        }
        assert(leading_spaces(s@.skip(i as int)) == 0);
        assert(leading_spaces(s@) == i);
    }
    let mut j = n;
    proof {
        assert(s@.take(n as int) =~= s@);
    }
    while j > i && space_char(s[j - 1])
        invariant
            i <= j <= n,
            n == s@.len(),
            leading_spaces(s@) == i,
            trim_upper(s@, i as int) == trim_upper(s@.take(j as int), i as int),
        decreases j,
    {
        proof {
            let u = s@.take(j as int);
            assert(u[u.len() - 1] == s@[j as int - 1]);
            assert(u.drop_last() =~= s@.take(j as int - 1));
        }
        j = j - 1;
    }
    proof {
        let u = s@.take(j as int);
        assert(u.len() == j);
        if j > i {
            assert(u[u.len() - 1] == s@[j as int - 1]);
            assert(trim_upper(u, i as int) == j);
        } else {
            assert(trim_upper(u, i as int) == i);
        }
        assert(trim_upper(s@, i as int) == j);
    }
    copy_range(s, i, j)
}

/// Whether a string is a valid variable name: a letter or underscore,
/// then letters, digits and underscores.
pub fn is_valid_env_key(key: &str) -> (r: bool)
    ensures
        r == valid_name(key@),
{
    let chars = to_chars(key);
    let n = chars.len();
    if n == 0 {
        return false;
    }
    let c0 = chars[0];
    let u0 = c0 as u32;
    if !(('A' as u32 <= u0 && u0 <= 'Z' as u32) || ('a' as u32 <= u0 && u0 <= 'z' as u32) || c0
        == '_') {
        assert(!is_name_start_char(key@[0]));
        return false;
    }
    let mut i: usize = 1;
    while i < n
        invariant
            1 <= i <= n,
            n == key@.len(),
            chars@ == key@,
            forall|j: int| 1 <= j < i ==> is_name_char(#[trigger] key@[j]),
        decreases n - i,
    {
        let c = chars[i];
        let u = c as u32;
        if !(('A' as u32 <= u && u <= 'Z' as u32) || ('a' as u32 <= u && u <= 'z' as u32) || ('0'
            as u32 <= u && u <= '9' as u32) || c == '_') {
            assert(!is_name_char(key@[i as int]));
            return false;
        }
        i = i + 1;
    }
    true
}

/// A value as it is defined: trimmed, with one pair of matching single or
/// double quotes stripped.
pub open spec fn spec_parse_value(v: Seq<char>) -> Seq<char> {
    let t = spec_trim(v);
    if t.len() >= 2 && t[0] == '"' && t[t.len() - 1] == '"' {
        t.subrange(1, t.len() - 1)
    } else if t.len() >= 2 && t[0] == '\'' && t[t.len() - 1] == '\'' {
        t.subrange(1, t.len() - 1)
    } else {
        t
    }
}

/// The value of one definition: trimmed, quotes stripped.
pub fn parse_value(value: &str) -> (r: String)
    ensures
        r@ == spec_parse_value(value@),
{
    let chars = to_chars(value);
    let t = trim_chars(&chars);
    let n = t.len();
    if n >= 2 && ((t[0] == '"' && t[n - 1] == '"') || (t[0] == '\'' && t[n - 1] == '\'')) {
        let inner = copy_range(&t, 1, n - 1);
        from_chars(&inner)
    } else {
        from_chars(&t)
    }
}

/// Characters before the first line break.
pub open spec fn line_break_at(s: Seq<char>) -> nat
    decreases s.len(),
{
    if s.len() > 0 && s[0] != '\n' {
        1 + line_break_at(s.skip(1))
    } else {
        0
    }
}

proof fn lemma_line_break_at_le(s: Seq<char>)
    ensures
        line_break_at(s) <= s.len(),
    decreases s.len(),
{
    if s.len() > 0 && s[0] != '\n' {
        lemma_line_break_at_le(s.skip(1));
    }
}

/// One line of text, its trailing carriage return stripped.
pub open spec fn strip_cr(line: Seq<char>) -> Seq<char> {
    if line.len() > 0 && line[line.len() - 1] == '\r' {
        line.drop_last()
    } else {
        line
    }
}

/// The lines of the text: split at line breaks, carriage returns before
/// them stripped, a final line break ending the last line.
pub open spec fn spec_lines(s: Seq<char>) -> Seq<Seq<char>>
    decreases s.len(),
    via spec_lines_decreases
{
    if s.len() == 0 {
        Seq::empty()
    } else {
        let k = line_break_at(s) as int;
        let line = strip_cr(s.take(k));
        if k == s.len() {
            seq![line]
        } else {
            seq![line] + spec_lines(s.skip(k + 1))
        }
    }
}

#[via_fn]
proof fn spec_lines_decreases(s: Seq<char>) {
    lemma_line_break_at_le(s);
}

/// What one line means.
pub enum LineOutcome {
    /// A blank line, a comment, or a line without `=`.
    Skip,
    /// One definition.
    Entry { key: Seq<char>, value: Seq<char> },
    /// A definition under a name that is no valid variable name.
    Bad { key: Seq<char> },
}

/// The line with a leading `export ` taken off.
pub open spec fn strip_export(t: Seq<char>) -> Seq<char> {
    if t.len() >= 7 && t.take(7) == "export "@ {
        t.skip(7)
    } else {
        t
    }
}

/// Characters before the first `=`.
pub open spec fn eq_at(s: Seq<char>) -> nat
    decreases s.len(),
{
    if s.len() > 0 && s[0] != '=' {
        1 + eq_at(s.skip(1))
    } else {
        0
    }
}


/// What one line of a definition file means: nothing, one definition, or
/// an invalid name.
pub open spec fn spec_parse_line(line: Seq<char>) -> LineOutcome {
    let t = spec_trim(line);
    if t.len() == 0 || t[0] == '#' {
        LineOutcome::Skip
    } else {
        let u = strip_export(t);
        let k = eq_at(u) as int;
        if k == u.len() {
            LineOutcome::Skip
        } else {
            let key = spec_trim(u.take(k));
            let value = spec_parse_value(u.skip(k + 1));
            if valid_name(key) {
                LineOutcome::Entry { key, value }
            } else {
                LineOutcome::Bad { key }
            }
        }
    }
}

/// The first line, if any, whose definition carries an invalid name.
pub open spec fn first_bad_line(lines: Seq<Seq<char>>) -> Option<int>
    decreases lines.len(),
{
    if lines.len() == 0 {
        None
    } else if spec_parse_line(lines[0]) is Bad {
        Some(0)
    } else {
        match first_bad_line(lines.skip(1)) {
            Some(i) => Some(i + 1),
            None => None,
        }
    }
}

/// The mapping the lines define, later definitions overriding earlier
/// ones; lines with invalid names define nothing.
pub open spec fn spec_env_map(lines: Seq<Seq<char>>) -> Map<Seq<char>, Seq<char>>
    decreases lines.len(),
{
    if lines.len() == 0 {
        Map::empty()
    } else {
        let m = spec_env_map(lines.drop_last());
        match spec_parse_line(lines.last()) {
            LineOutcome::Entry { key, value } => m.insert(key, value),
            _ => m,
        }
    }
}

/// Why loading the variable-definition files failed.
#[derive(Debug)]
pub enum EnvError {
    /// A definition under an invalid name, with the file it stands in and
    /// its one-based line number.
    InvalidKey { key: String, source: String, line: u64 },
    /// An explicitly named file whose content was nowhere to be found.
    FileNotFound { name: String },
}

impl EnvError {
    /// The message the caller reports.
    pub open spec fn spec_message(&self) -> Seq<char> {
        match self {
            EnvError::InvalidKey { key, source, line } => "Invalid environment variable name '"@
                + key@ + "' at "@ + source@ + ":"@ + spec_decimal(*line as nat),
            EnvError::FileNotFound { name } => "Environment file not found: "@ + name@
                + ". Remove it from env_files or create the file."@,
        }
    }

    /// The message the caller reports.
    pub fn message(&self) -> (r: String)
        ensures
            r@ == self.spec_message(),
    {
        match self {
            EnvError::InvalidKey { key, source, line } => {
                let mut s = String::from_str("Invalid environment variable name '");
                s.append(key.as_str());
                s.append("' at ");
                s.append(source.as_str());
                s.append(":");
                push_decimal(&mut s, *line);
                proof {
                    assert(s@ =~= self.spec_message());
                }
                s
            },
            EnvError::FileNotFound { name } => {
                let mut s = String::from_str("Environment file not found: ");
                s.append(name.as_str());
                s.append(". Remove it from env_files or create the file.");
                proof {
                    assert(s@ =~= self.spec_message());
                }
                s
            },
        }
    }
}

fn split_lines(s: &Vec<char>) -> (r: Vec<Vec<char>>)
    ensures
        r.deep_view() == spec_lines(s@),
{
    let n = s.len();
    let mut out: Vec<Vec<char>> = Vec::new();
    let mut i: usize = 0;
    proof {
        assert(s@.skip(0) =~= s@);
        assert(out.deep_view() + spec_lines(s@) =~~= spec_lines(s@));
    }
    while i < n
        invariant
            i <= n,
            n == s@.len(),
            spec_lines(s@) == out.deep_view() + spec_lines(s@.skip(i as int)),
        decreases n - i,
    {
        let ghost t = s@.skip(i as int);
        // find the end of the current line
        let mut j = i;
        while j < n && s[j] != '\n'
            invariant
                i <= j <= n,
                n == s@.len(),
                t == s@.skip(i as int),
                line_break_at(t) == (j - i) + line_break_at(s@.skip(j as int)),
            decreases n - j,
        {
            proof {
                let u = s@.skip(j as int);
                assert(u[0] == s@[j as int]);
                assert(u.skip(1) =~= s@.skip(j as int + 1));
            }
            j = j + 1;
        }
        proof {
            let u = s@.skip(j as int);
            if j < n {
                assert(u[0] == s@[j as int]);
            }
            assert(line_break_at(s@.skip(j as int)) == 0);
            assert(line_break_at(t) == j - i);
        }
        // strip a carriage return right before the break
        let line_end = if j > i && s[j - 1] == '\r' {
            j - 1
        } else {
            j
        };
        let line = copy_range(s, i, line_end);
        proof {
            assert(t.take((j - i) as int) =~= s@.subrange(i as int, j as int));
            if j > i && s@[j as int - 1] == '\r' {
                assert(t.take((j - i) as int).drop_last() =~= s@.subrange(
                    i as int,
                    j as int - 1,
                ));
                assert(line@ == strip_cr(t.take((j - i) as int)));
            } else {
                assert(line@ == strip_cr(t.take((j - i) as int)));
            }
        }
        let ghost out0 = out.deep_view();
        out.push(line);
        proof {
            assert(out.deep_view() =~~= out0.push(line@));
        }
        if j == n {
            proof {
                assert(spec_lines(t) == seq![line@]);
                assert(out.deep_view() =~~= out0 + spec_lines(t));
                assert(s@.skip(n as int) =~= Seq::<char>::empty());
                assert(out.deep_view() + spec_lines(s@.skip(n as int)) =~~= out.deep_view());
            }
            i = n;
        } else {
            proof {
                assert(t.skip((j - i) as int + 1) =~= s@.skip(j as int + 1));
                assert(spec_lines(t) == seq![line@] + spec_lines(s@.skip(j as int + 1)));
                assert(out.deep_view() + spec_lines(s@.skip(j as int + 1)) =~~= out0 + spec_lines(
                    t,
                ));
            }
            i = j + 1;
        }
    }
    proof {
        assert(s@.skip(n as int) =~= Seq::<char>::empty());
        assert(out.deep_view() + spec_lines(s@.skip(n as int)) =~~= out.deep_view());
    }
    out
}

enum ParsedLine {
    Skip,
    Entry { key: String, value: String },
    Bad { key: String },
}

fn has_export_prefix(t: &Vec<char>) -> (r: bool)
    ensures
        r == (t@.len() >= 7 && t@.take(7) == "export "@),
{
    if t.len() < 7 {
        return false;
    }
    let marker = to_chars("export ");
    proof {
        reveal_strlit("export ");
    }
    let mut m: usize = 0;
    while m < 7
        invariant
            m <= 7,
            t@.len() >= 7,
            marker@ == "export "@,
            marker@.len() == 7,
            forall|x: int| 0 <= x < m ==> t@[x] == "export "@[x],
        decreases 7 - m,
    {
        if t[m] != marker[m] {
            proof {
                assert(t@.take(7)[m as int] == t@[m as int]);
            }
            return false;
        }
        m = m + 1;
    }
    proof {
        assert(t@.take(7) =~= "export "@);
    }
    true
}

fn parse_line(line: &Vec<char>) -> (r: ParsedLine)
    ensures
        match r {
            ParsedLine::Skip => spec_parse_line(line@) is Skip,
            ParsedLine::Entry { key, value } => spec_parse_line(line@) == (LineOutcome::Entry {
                key: key@,
                value: value@,
            }),
            ParsedLine::Bad { key } => spec_parse_line(line@) == (LineOutcome::Bad { key: key@ }),
        },
{
    let t = trim_chars(line);
    if t.len() == 0 || t[0] == '#' {
        return ParsedLine::Skip;
    }
    // strip a leading `export `
    let u: Vec<char>;
    if has_export_prefix(&t) {
        u = copy_range(&t, 7, t.len());
        proof {
            assert(u@ =~= t@.skip(7));
        }
    } else {
        proof {
            assert(strip_export(t@) == t@);
        }
        u = t;
    }
    // find the first `=`
    let n = u.len();
    let mut k: usize = 0;
    proof {
        assert(u@.skip(0) =~= u@);
    }
    while k < n && u[k] != '='
        invariant
            k <= n,
            n == u@.len(),
            eq_at(u@) == k + eq_at(u@.skip(k as int)),
        decreases n - k,
    {
        proof {
            let w = u@.skip(k as int);
            assert(w[0] == u@[k as int]);
            assert(w.skip(1) =~= u@.skip(k as int + 1));
        }
        k = k + 1;
    }
    proof {
        let w = u@.skip(k as int);
        if k < n {
            assert(w[0] == u@[k as int]);
        }
        assert(eq_at(u@.skip(k as int)) == 0);
        assert(eq_at(u@) == k);
    }
    if k == n {
        return ParsedLine::Skip;
    }
    let key_part = copy_range(&u, 0, k);
    proof {
        assert(key_part@ =~= u@.take(k as int));
    }
    let key_chars = trim_chars(&key_part);
    let key = from_chars(&key_chars);
    let value_part = copy_range(&u, k + 1, n);
    proof {
        assert(value_part@ =~= u@.skip(k as int + 1));
    }
    let value = parse_value(from_chars(&value_part).as_str());
    if is_valid_env_key(key.as_str()) {
        ParsedLine::Entry { key, value }
    } else {
        ParsedLine::Bad { key }
    }
}

/// Parse the content of one definition file, read from `source`, into a
/// mapping; a definition under an invalid name fails, naming the file and
/// the line.
pub fn parse_env_content(source: &str, content: &str) -> (r: Result<VarMap, EnvError>)
    ensures
        match r {
            Ok(m) => first_bad_line(spec_lines(content@)) is None && m@ == spec_env_map(
                spec_lines(content@),
            ),
            Err(e) => e matches EnvError::InvalidKey { key, source: src, line } && {
                let lines = spec_lines(content@);
                &&& first_bad_line(lines) == Some(line as int - 1)
                &&& 1 <= line <= lines.len()
                &&& spec_parse_line(lines[line as int - 1]) == (LineOutcome::Bad { key: key@ })
                &&& src@ == source@
            },
        },
{
    let chars = to_chars(content);
    let lines = split_lines(&chars);
    let ghost glines = spec_lines(content@);
    let mut m = VarMap::new();
    let n = lines.len();
    let mut i: usize = 0;
    proof {
        assert(lines.deep_view() == glines);
        assert(n == glines.len()) by {
            assert(lines.deep_view().len() == lines@.len());
        }
        assert(glines.take(0) =~= Seq::<Seq<char>>::empty());
        assert(m@ =~= spec_env_map(glines.take(0)));
    }
    while i < n
        invariant
            i <= n,
            n == lines@.len(),
            lines.deep_view() == glines,
            glines == spec_lines(content@),
            n == glines.len(),
            m@ == spec_env_map(glines.take(i as int)),
            forall|j: int| 0 <= j < i ==> !(spec_parse_line(#[trigger] glines[j]) is Bad),
        decreases n - i,
    {
        proof {
            assert(lines@[i as int].deep_view() =~= lines@[i as int]@);
            assert(glines[i as int] == lines@[i as int]@);
        }
        match parse_line(&lines[i]) {
            ParsedLine::Skip => {
                proof {
                    assert(glines.take(i as int + 1).drop_last() =~= glines.take(i as int));
                    assert(m@ =~= spec_env_map(glines.take(i as int + 1)));
                }
            },
            ParsedLine::Entry { key, value } => {
                m.insert(key, value);
                proof {
                    assert(glines.take(i as int + 1).drop_last() =~= glines.take(i as int));
                    assert(m@ =~= spec_env_map(glines.take(i as int + 1)));
                }
            },
            ParsedLine::Bad { key } => {
                proof {
                    lemma_first_bad_at(glines, i as int);
                }
                let line_no = i as u64 + 1;
                return Err(
                    EnvError::InvalidKey {
                        key,
                        source: String::from_str(source),
                        line: line_no,
                    },
                );
            },
        }
        i = i + 1;
    }
    proof {
        assert(glines.take(n as int) =~= glines);
        lemma_first_bad_none(glines);
    }
    Ok(m)
}

/// The name of the default definition file.
pub open spec fn default_env_file_name() -> Seq<char> {
    ".env"@
}

/// One additionally named definition file, as the I/O layer found it: its
/// name, and its content where the file exists.
pub struct EnvFileInput {
    pub name: String,
    pub content: Option<String>,
}

/// The plain view of the named files: name and content of each.
pub open spec fn file_inputs_view(files: Seq<EnvFileInput>) -> Seq<(Seq<char>, Option<Seq<char>>)> {
    Seq::new(
        files.len(),
        |i: int|
            (
                files[i].name@,
                match files[i].content {
                    Some(c) => Some(c@),
                    None => None,
                },
            ),
    )
}

/// The key of a line that parsed badly.
pub open spec fn bad_key(o: LineOutcome) -> Seq<char> {
    match o {
        LineOutcome::Bad { key } => key,
        _ => Seq::empty(),
    }
}

/// What loading a list of definition files comes to.
pub enum LoadOutcome {
    /// Every file parsed; this is the merged mapping.
    Loaded { vars: Map<Seq<char>, Seq<char>> },
    /// A file held a definition under an invalid name.
    BadKey { key: Seq<char>, source: Seq<char>, line: int },
    /// A named file was nowhere to be found.
    Missing { name: Seq<char> },
}

/// Load the named files in order onto `acc`, later files overriding
/// earlier ones, stopping at the first missing file or bad definition.
pub open spec fn spec_load_files(
    acc: Map<Seq<char>, Seq<char>>,
    files: Seq<(Seq<char>, Option<Seq<char>>)>,
) -> LoadOutcome
    decreases files.len(),
{
    if files.len() == 0 {
        LoadOutcome::Loaded { vars: acc }
    } else {
        match files[0].1 {
            None => LoadOutcome::Missing { name: files[0].0 },
            Some(c) => {
                let lines = spec_lines(c);
                match first_bad_line(lines) {
                    Some(b) => LoadOutcome::BadKey {
                        key: bad_key(spec_parse_line(lines[b])),
                        source: files[0].0,
                        line: b + 1,
                    },
                    None => spec_load_files(
                        acc.union_prefer_right(spec_env_map(lines)),
                        files.skip(1),
                    ),
                }
            },
        }
    }
}

/// Load the default file, where its content is at hand, then the named
/// files in order.
pub open spec fn spec_load_env(
    default_content: Option<Seq<char>>,
    files: Seq<(Seq<char>, Option<Seq<char>>)>,
) -> LoadOutcome {
    match default_content {
        None => spec_load_files(Map::empty(), files),
        Some(c) => {
            let lines = spec_lines(c);
            match first_bad_line(lines) {
                Some(b) => LoadOutcome::BadKey {
                    key: bad_key(spec_parse_line(lines[b])),
                    source: default_env_file_name(),
                    line: b + 1,
                },
                None => spec_load_files(spec_env_map(lines), files),
            }
        },
    }
}

/// Load the variable-definition files: the default file's content where it
/// exists, silently skipped otherwise, then each additionally named file,
/// which must exist; later files override earlier ones.
pub fn load_env_files(default_content: Option<&str>, additional: &Vec<EnvFileInput>) -> (r: Result<
    VarMap,
    EnvError,
>)
    ensures
        ({
            let outcome = spec_load_env(
                match default_content {
                    Some(c) => Some(c@),
                    None => None,
                },
                file_inputs_view(additional@),
            );
            match r {
                Ok(m) => outcome matches LoadOutcome::Loaded { vars } && m@ == vars,
                Err(EnvError::InvalidKey { key, source, line }) => outcome
                    matches LoadOutcome::BadKey { key: k, source: s, line: l } && key@ == k && source@
                    == s && line as int == l,
                Err(EnvError::FileNotFound { name }) => outcome matches LoadOutcome::Missing {
                    name: n,
                } && name@ == n,
            }
        }),
{
    let ghost files_view = file_inputs_view(additional@);
    let ghost dc = match default_content {
        Some(c) => Some(c@),
        None => None,
    };
    let ghost outcome = spec_load_env(dc, files_view);
    let mut m: VarMap;
    match default_content {
        None => {
            m = VarMap::new();
        },
        Some(c) => {
            match parse_env_content(".env", c) {
                Ok(vars) => {
                    m = vars;
                },
                Err(e) => {
                    return Err(e);
                },
            }
        },
    }
    let n = additional.len();
    let mut i: usize = 0;
    proof {
        assert(files_view.skip(0) =~= files_view);
    }
    while i < n
        invariant
            i <= n,
            n == additional@.len(),
            files_view == file_inputs_view(additional@),
            dc == (match default_content {
                Some(c) => Some(c@),
                None => None::<Seq<char>>,
            }),
            outcome == spec_load_env(dc, files_view),
            outcome == spec_load_files(m@, files_view.skip(i as int)),
        decreases n - i,
    {
        let ghost rest = files_view.skip(i as int);
        proof {
            assert(rest[0] == files_view[i as int]);
            assert(rest.skip(1) =~= files_view.skip(i as int + 1));
        }
        match &additional[i].content {
            None => {
                proof {
                    assert(files_view[i as int].1 is None);
                    assert(files_view[i as int].0 == additional@[i as int].name@);
                    assert(outcome == (LoadOutcome::Missing { name: files_view[i as int].0 }));
                }
                return Err(EnvError::FileNotFound { name: additional[i].name.clone() });
            },
            Some(c) => {
                proof {
                    assert(files_view[i as int].1 == Some(c@));
                    assert(files_view[i as int].0 == additional@[i as int].name@);
                }
                match parse_env_content(additional[i].name.as_str(), c.as_str()) {
                    Ok(vars) => {
                        m.extend_from(&vars);
                    },
                    Err(e) => {
                        proof {
                            let lines = spec_lines(c@);
                            let b = first_bad_line(lines)->Some_0;
                            assert(outcome == (LoadOutcome::BadKey {
                                key: bad_key(spec_parse_line(lines[b])),
                                source: files_view[i as int].0,
                                line: b + 1,
                            }));
                        }
                        return Err(e);
                    },
                }
            },
        }
        i = i + 1;
    }
    proof {
        assert(files_view.skip(n as int).len() == 0);
    }
    Ok(m)
}

proof fn lemma_first_bad_at(lines: Seq<Seq<char>>, i: int)
    requires
        0 <= i < lines.len(),
        spec_parse_line(lines[i]) is Bad,
        forall|j: int| 0 <= j < i ==> !(spec_parse_line(#[trigger] lines[j]) is Bad),
    ensures
        first_bad_line(lines) == Some(i),
    decreases i,
{
    if i == 0 {
    } else {
        assert(!(spec_parse_line(lines[0]) is Bad));
        assert(lines.skip(1)[i - 1] == lines[i]);
        assert forall|j: int| 0 <= j < i - 1 implies !(spec_parse_line(
            #[trigger] lines.skip(1)[j],
        ) is Bad) by {
            assert(lines.skip(1)[j] == lines[j + 1]);
        }
        lemma_first_bad_at(lines.skip(1), i - 1);
    }
}

proof fn lemma_first_bad_none(lines: Seq<Seq<char>>)
    requires
        forall|j: int| 0 <= j < lines.len() ==> !(spec_parse_line(#[trigger] lines[j]) is Bad),
    ensures
        first_bad_line(lines) is None,
    decreases lines.len(),
{
    if lines.len() > 0 {
        assert forall|j: int| 0 <= j < lines.skip(1).len() implies !(spec_parse_line(
            #[trigger] lines.skip(1)[j],
        ) is Bad) by {
            assert(lines.skip(1)[j] == lines[j + 1]);
        }
        lemma_first_bad_none(lines.skip(1));
    }
}

} // verus!
