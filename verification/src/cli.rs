//! The decisions of the command-line tool: which mode runs, which inputs
//! are accepted, how command-line flags override the configuration, which
//! files a directory walk keeps, and what becomes of each input.
use vstd::prelude::*;

use crate::config::{DialectKind, FormatterConfig, KeywordCase, SelectListStyle, TemplatingMode};
use crate::format::{error_message, format_sql, format_sql_post, FormatError};
use crate::patterns::{compile_pattern, pattern_error, pattern_is_match, pattern_matches, CompiledPattern};
use crate::text::{chars_of, replace_all, replaced, string_of};

verus! {

/// What the tool does with each input.
#[derive(Debug, Clone, Copy, PartialEq, Eq, Structural)]
pub enum Mode {
    /// Print the input unchanged.
    PassThrough,
    /// Print the formatted input.
    FormatStdout,
    /// Report inputs that formatting would change.
    Check,
    /// Rewrite changed files in place.
    Write,
}

pub open spec fn flag_count(format: bool, check: bool, write: bool) -> int {
    (if format { 1int } else { 0int }) + (if check { 1int } else { 0int }) + (if write { 1int } else { 0int })
}

/// Picks the mode from the `--format`, `--check` and `--write` flags: at
/// most one may be given, and `--write` needs file inputs.
pub fn choose_mode(format: bool, check: bool, write: bool, stdin: bool) -> (r: Result<Mode, String>)
    ensures
        flag_count(format, check, write) > 1 ==> (r matches Err(e)
            && e@ == "use only one of --format, --check, or --write"@),
        flag_count(format, check, write) <= 1 && write && stdin ==> (r matches Err(e)
            && e@ == "--write requires file inputs (not --stdin)"@),
        flag_count(format, check, write) <= 1 && !(write && stdin) ==> r == Ok::<Mode, String>(
            if format {
                Mode::FormatStdout
            } else if check {
                Mode::Check
            } else if write {
                Mode::Write
            } else {
                Mode::PassThrough
            },
        ),
{
    let mut selected = Mode::PassThrough;
    let mut count: usize = 0;
    if format {
        selected = Mode::FormatStdout;
        count = count + 1;
    }
    if check {
        selected = Mode::Check;
        count = count + 1;
    }
    if write {
        selected = Mode::Write;
        count = count + 1;
    }
    if count > 1 {
        return Err("use only one of --format, --check, or --write".to_string());
    }
    if write && stdin {
        return Err("--write requires file inputs (not --stdin)".to_string());
    }
    Ok(selected)
}

/// Checks the input sources: file paths and `--stdin` exclude each other,
/// and one of them is needed.
pub fn check_input_sources(stdin: bool, file_count: usize) -> (r: Result<(), String>)
    ensures
        stdin && file_count > 0 ==> (r matches Err(e) && e@ == "use either FILES or --stdin, not both"@),
        !stdin && file_count == 0 ==> (r matches Err(e) && e@ == "no input provided; pass FILES or --stdin"@),
        (stdin && file_count == 0) || (!stdin && file_count > 0) ==> r is Ok,
{
    if stdin && file_count > 0 {
        return Err("use either FILES or --stdin, not both".to_string());
    }
    if !stdin && file_count == 0 {
        return Err("no input provided; pass FILES or --stdin".to_string());
    }
    Ok(())
}

/// The configuration values given on the command line.
#[derive(Debug, Clone, Copy)]
pub struct ConfigOverrides {
    pub line_length: Option<usize>,
    pub indent_width: Option<usize>,
    pub keyword_case: Option<KeywordCase>,
    pub dialect: Option<DialectKind>,
    pub templating: Option<TemplatingMode>,
    pub select_list_style: Option<SelectListStyle>,
    pub strict: bool,
}

/// The configuration with the command-line values in place of the file's.
pub open spec fn overridden(c: FormatterConfig, o: ConfigOverrides) -> FormatterConfig {
    FormatterConfig {
        line_length: match o.line_length {
            Some(v) => v,
            None => c.line_length,
        },
        indent_width: match o.indent_width {
            Some(v) => v,
            None => c.indent_width,
        },
        keyword_case: match o.keyword_case {
            Some(v) => v,
            None => c.keyword_case,
        },
        dialect: match o.dialect {
            Some(v) => v,
            None => c.dialect,
        },
        templating: match o.templating {
            Some(v) => v,
            None => c.templating,
        },
        select_list_style: match o.select_list_style {
            Some(v) => v,
            None => c.select_list_style,
        },
        strict: c.strict || o.strict,
    }
}

/// Applies the command-line values over the configuration; `--strict` only
/// turns strict mode on.
pub fn apply_cli_overrides(config: &mut FormatterConfig, o: &ConfigOverrides)
    ensures
        *final(config) == overridden(*old(config), *o),
{
    if let Some(v) = o.line_length {
        config.line_length = v;
    }
    if let Some(v) = o.indent_width {
        config.indent_width = v;
    }
    if let Some(v) = o.keyword_case {
        config.keyword_case = v;
    }
    if let Some(v) = o.dialect {
        config.dialect = v;
    }
    if let Some(v) = o.templating {
        config.templating = v;
    }
    if let Some(v) = o.select_list_style {
        config.select_list_style = v;
    }
    if o.strict {
        config.strict = true;
    }
}

/// Directories that a walk never enters.
pub open spec fn ignored_dir(name: Seq<char>) -> bool {
    name == ".git"@ || name == "target"@ || name == ".cargo"@
}

pub fn is_ignored_dir(name: &str) -> (r: bool)
    ensures
        r == ignored_dir(name@),
{
    let c = chars_of(name);
    crate::text::eq_str(c.as_slice(), ".git") || crate::text::eq_str(c.as_slice(), "target")
        || crate::text::eq_str(c.as_slice(), ".cargo")
}

/// A path with its backslashes turned into slashes.
pub fn normalize_path(path: &str) -> (r: String)
    ensures
        r@ == replaced(path@, seq!['\\'], seq!['/']),
{
    let c = chars_of(path);
    let mut from: Vec<char> = Vec::new();
    from.push('\\');
    let mut to: Vec<char> = Vec::new();
    to.push('/');
    assert(from@ =~= seq!['\\']);
    assert(to@ =~= seq!['/']);
    string_of(replace_all(c.as_slice(), from.as_slice(), to.as_slice()).as_slice())
}

/// Characters that stand for themselves in a glob but not in a regular
/// expression.
pub open spec fn regex_special(c: char) -> bool {
    c == '.' || c == '+' || c == '(' || c == ')' || c == '|' || c == '^' || c == '$' || c == '{'
        || c == '}' || c == '[' || c == ']' || c == '\\'
}

/// The regular expression text of a glob's characters: `**/` matches zero
/// or more directories, `**` anything, `*` anything but `/`, `?` one
/// character but `/`; characters special to regular expressions are escaped.
pub open spec fn glob_body(p: Seq<char>) -> Seq<char>
    decreases p.len(),
{
    if p.len() == 0 {
        Seq::empty()
    } else if p[0] == '*' && p.len() > 2 && p[1] == '*' && p[2] == '/' {
        "(?:.*/)?"@ + glob_body(p.skip(3))
    } else if p[0] == '*' && p.len() > 1 && p[1] == '*' {
        seq!['.', '*'] + glob_body(p.skip(2))
    } else if p[0] == '*' {
        seq!['[', '^', '/', ']', '*'] + glob_body(p.skip(1))
    } else if p[0] == '?' {
        seq!['[', '^', '/', ']'] + glob_body(p.skip(1))
    } else if regex_special(p[0]) {
        seq!['\\', p[0]] + glob_body(p.skip(1))
    } else {
        seq![p[0]] + glob_body(p.skip(1))
    }
}

/// The anchored regular expression of a glob.
pub open spec fn glob_regex(p: Seq<char>) -> Seq<char> {
    seq!['^'] + glob_body(p) + seq!['$']
}

fn push_seq(v: &mut Vec<char>, s: &[char])
    ensures
        final(v)@ == old(v)@ + s@,
{
    crate::text::push_all(v, s);
}

/// The anchored regular expression text of a glob pattern.
pub fn glob_to_regex_pattern(pattern: &str) -> (r: String)
    ensures
        r@ == glob_regex(pattern@),
{
    let p = chars_of(pattern);
    let mut out: Vec<char> = Vec::new();
    out.push('^');
    let mut i: usize = 0;
    assert(p@.skip(0) =~= p@);
    assert(out@ =~= seq!['^']);
    while i < p.len()
        invariant
            i <= p@.len(),
            seq!['^'] + glob_body(p@) == out@ + glob_body(p@.skip(i as int)),
        decreases p.len() - i,
    {
        let ghost rest = p@.skip(i as int);
        let c = p[i];
        assert(rest[0] == c);
        if c == '*' && p.len() - i > 2 && p[i + 1] == '*' && p[i + 2] == '/' {
            assert(rest.skip(3) =~= p@.skip(i + 3));
            let any_dirs = chars_of("(?:.*/)?");
            push_seq(&mut out, any_dirs.as_slice());
            i = i + 3;
        } else if c == '*' && i + 1 < p.len() && p[i + 1] == '*' {
            assert(rest.skip(2) =~= p@.skip(i + 2));
            out.push('.');
            out.push('*');
            i = i + 2;
        } else {
            assert(rest.skip(1) =~= p@.skip(i + 1));
            if c == '*' {
                out.push('[');
                out.push('^');
                out.push('/');
                out.push(']');
                out.push('*');
            } else if c == '?' {
                out.push('[');
                out.push('^');
                out.push('/');
                out.push(']');
            } else if c == '.' || c == '+' || c == '(' || c == ')' || c == '|' || c == '^' || c == '$'
                || c == '{' || c == '}' || c == '[' || c == ']' || c == '\\' {
                out.push('\\');
                out.push(c);
            } else {
                out.push(c);
            }
            i = i + 1;
        }
        proof {
            assert(out@ + glob_body(p@.skip(i as int)) =~= seq!['^'] + glob_body(p@));
        }
    }
    assert(p@.skip(i as int) =~= Seq::<char>::empty());
    out.push('$');
    assert(out@ =~= glob_regex(pattern@));
    string_of(out.as_slice())
}

/// The patterns that select and that rule out files in a directory walk.
pub struct GlobMatchers {
    pub keep: Vec<CompiledPattern>,
    pub skip: Vec<CompiledPattern>,
}

pub open spec fn any_matches(ps: Seq<CompiledPattern>, text: Seq<char>) -> bool {
    exists|i: int| 0 <= i < ps.len() && pattern_matches(#[trigger] ps[i].pattern_view(), text)
}

fn matches_any(ps: &Vec<CompiledPattern>, text: &str) -> (r: bool)
    ensures
        r == any_matches(ps@, text@),
{
    let mut i: usize = 0;
    while i < ps.len()
        invariant
            i <= ps@.len(),
            forall|j: int| 0 <= j < i ==> !pattern_matches(#[trigger] ps@[j].pattern_view(), text@),
        decreases ps.len() - i,
    {
        if pattern_is_match(&ps[i], text) {
            return true;
        }
        i = i + 1;
    }
    false
}

/// The compiled regular expressions of the globs, in order; the first glob
/// that does not compile gives the error.
fn compile_globs(globs: &Vec<String>) -> (r: Result<Vec<CompiledPattern>, String>)
    ensures
        r matches Ok(v) ==> v@.len() == globs@.len() && forall|i: int| 0 <= i < globs@.len()
            ==> (#[trigger] v@[i]).pattern_view() == glob_regex(globs@[i]@),
        r is Ok <==> forall|i: int| 0 <= i < globs@.len() ==> pattern_error(glob_regex(#[trigger] globs@[i]@)) is None,
{
    let mut out: Vec<CompiledPattern> = Vec::new();
    let mut i: usize = 0;
    while i < globs.len()
        invariant
            i <= globs@.len(),
            out@.len() == i,
            forall|j: int| 0 <= j < i ==> (#[trigger] out@[j]).pattern_view() == glob_regex(globs@[j]@),
            forall|j: int| 0 <= j < i ==> pattern_error(glob_regex(#[trigger] globs@[j]@)) is None,
        decreases globs.len() - i,
    {
        let re = glob_to_regex_pattern(globs[i].as_str());
        match compile_pattern(re.as_str()) {
            Ok(c) => out.push(c),
            Err(e) => return Err(e),
        }
        i = i + 1;
    }
    Ok(out)
}

/// The matchers of a walk: the globs that select files (by default
/// `**/*.sql`) and those that rule them out, as anchored regular
/// expressions.
pub fn build_matchers(keep_globs: &Vec<String>, skip_globs: &Vec<String>) -> (r: Result<GlobMatchers, String>)
    ensures
        r matches Ok(m) ==> {
            &&& m.skip@.len() == skip_globs@.len()
            &&& forall|i: int| 0 <= i < skip_globs@.len() ==> (#[trigger] m.skip@[i]).pattern_view() == glob_regex(skip_globs@[i]@)
            &&& keep_globs@.len() > 0 ==> m.keep@.len() == keep_globs@.len() && forall|i: int| 0 <= i < keep_globs@.len()
                ==> (#[trigger] m.keep@[i]).pattern_view() == glob_regex(keep_globs@[i]@)
            &&& keep_globs@.len() == 0 ==> m.keep@.len() == 1 && m.keep@[0].pattern_view() == glob_regex("**/*.sql"@)
        },
{
    let keep = if keep_globs.len() == 0 {
        let defaults: Vec<String> = vec!["**/*.sql".to_string()];
        compile_globs(&defaults)?
    } else {
        compile_globs(keep_globs)?
    };
    let skip = compile_globs(skip_globs)?;
    Ok(GlobMatchers { keep, skip })
}

impl GlobMatchers {
    /// Whether a ruling-out pattern matches the path (slashes normalised).
    pub fn is_excluded(&self, path: &str) -> (r: bool)
        ensures
            r == any_matches(self.skip@, replaced(path@, seq!['\\'], seq!['/'])),
    {
        let p = normalize_path(path);
        matches_any(&self.skip, p.as_str())
    }

    /// Whether a file is kept: no ruling-out pattern and some selecting
    /// pattern matches its path (slashes normalised).
    pub fn matches(&self, path: &str) -> (r: bool)
        ensures
            r == (!any_matches(self.skip@, replaced(path@, seq!['\\'], seq!['/']))
                && any_matches(self.keep@, replaced(path@, seq!['\\'], seq!['/']))),
    {
        if self.is_excluded(path) {
            return false;
        }
        let p = normalize_path(path);
        matches_any(&self.keep, p.as_str())
    }
}

/// What becomes of one input.
#[derive(Debug)]
pub enum InputOutcome {
    /// Print the input as it is.
    Echo,
    /// Print the formatted text.
    Print(String),
    /// Formatting leaves the input as it is.
    Unchanged,
    /// Formatting would change the input (check mode).
    WouldReformat,
    /// Write the formatted text over the file.
    Rewrite(String),
}

/// What becomes of an input from its formatted text: in format mode it is
/// printed; in check mode it is reported when it differs; in write mode it
/// is written back when it differs.
pub open spec fn outcome_of(mode: Mode, sql: Seq<char>, formatted: Seq<char>, o: InputOutcome) -> bool {
    match mode {
        Mode::PassThrough => o is Echo,
        Mode::FormatStdout => o matches InputOutcome::Print(t) && t@ == formatted,
        Mode::Check => if formatted == sql {
            o is Unchanged
        } else {
            o is WouldReformat
        },
        Mode::Write => if formatted == sql {
            o is Unchanged
        } else {
            o matches InputOutcome::Rewrite(t) && t@ == formatted
        },
    }
}

/// What is reported for a formatting result: the outcome decided from the
/// formatted text, or the error's message.
pub open spec fn reported(mode: Mode, sql: Seq<char>, f: Result<String, FormatError>, r: Result<InputOutcome, String>) -> bool {
    match f {
        Ok(s) => r matches Ok(o) && outcome_of(mode, sql, s@, o),
        Err(e) => r matches Err(m) && m@ == error_message(e),
    }
}

/// Decides what becomes of an input from its formatted text.
pub fn decide_outcome(mode: Mode, sql: &str, formatted: String) -> (r: InputOutcome)
    ensures
        outcome_of(mode, sql@, formatted@, r),
{
    match mode {
        Mode::PassThrough => InputOutcome::Echo,
        Mode::FormatStdout => InputOutcome::Print(formatted),
        Mode::Check => {
            let same = crate::text::eq_str(chars_of(formatted.as_str()).as_slice(), sql);
            if same {
                InputOutcome::Unchanged
            } else {
                InputOutcome::WouldReformat
            }
        },
        Mode::Write => {
            let same = crate::text::eq_str(chars_of(formatted.as_str()).as_slice(), sql);
            if same {
                InputOutcome::Unchanged
            } else {
                InputOutcome::Rewrite(formatted)
            }
        },
    }
}

/// Formats an input (except in pass-through mode, which leaves it alone) and
/// decides what becomes of it from the formatted text; a formatting error
/// is returned as its message.
pub fn process_input(sql: &str, cfg: &FormatterConfig, mode: Mode) -> (r: Result<InputOutcome, String>)
    ensures
        mode == Mode::PassThrough ==> (r matches Ok(o) && o is Echo),
        mode != Mode::PassThrough ==> exists|f: Result<String, FormatError>|
            format_sql_post(sql@, *cfg, f) && #[trigger] reported(mode, sql@, f, r),
{
    if mode == Mode::PassThrough {
        return Ok(InputOutcome::Echo);
    }
    let f = format_sql(sql, cfg);
    let ghost fg = f;
    let r = match f {
        Ok(formatted) => Ok(decide_outcome(mode, sql, formatted)),
        Err(e) => Err(e.message()),
    };
    assert(reported(mode, sql@, fg, r));
    r
}

} // verus!
