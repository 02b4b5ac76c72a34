//! Pattern searches done by the `regex` crate. Each search is a trusted
//! wrapper; positions are handed back as character offsets.
use vstd::prelude::*;

verus! {

/// A version clause found in a statement: the character span of the whole
/// match, the selector keyword as written, its target and the timestamp of an
/// `AS OF TIMESTAMP` part when present.
pub struct VersionMatch {
    pub start: usize,
    pub end: usize,
    pub kind: String,
    pub target: String,
    pub as_of: Option<String>,
}

/// What the version-clause pattern (`AT BRANCH|TAG|REF|COMMIT <target>`
/// optionally followed by `AS OF TIMESTAMP <value>`, case-insensitive,
/// preceded by whitespace) finds first in a text.
pub uninterp spec fn version_clause_search(s: Seq<char>) -> Option<
    (nat, nat, Seq<char>, Seq<char>, Option<Seq<char>>),
>;

pub open spec fn opt_view(o: Option<String>) -> Option<Seq<char>> {
    match o {
        Some(s) => Some(s@),
        None => None,
    }
}

/// `Regex::captures` with the version-clause pattern. Claims: the result is
/// the named search result, and the span lies within the text.
#[verifier::external_body]
pub(crate) fn find_version_clause(stmt: &str) -> (r: Option<VersionMatch>)
    ensures
        r is Some <==> version_clause_search(stmt@) is Some,
        r matches Some(m) ==> {
            &&& version_clause_search(stmt@) == Some(
                (m.start as nat, m.end as nat, m.kind@, m.target@, opt_view(m.as_of)),
            )
            &&& m.start <= m.end <= stmt@.len()
        },
{
    let re = regex::Regex::new(
        r#"(?is)\s+AT\s+(BRANCH|TAG|REF|COMMIT)\s+([^\s;]+)(?:\s+AS\s+OF\s+TIMESTAMP\s+('[^']*'|"[^"]*"|[^\s;]+))?"#,
    ).unwrap();
    let caps = re.captures(stmt)?;
    let m = caps.get(0)?;
    Some(VersionMatch {
        start: stmt[..m.start()].chars().count(),
        end: stmt[..m.end()].chars().count(),
        kind: caps.get(1)?.as_str().to_string(),
        target: caps.get(2)?.as_str().to_string(),
        as_of: caps.get(3).map(|c| c.as_str().to_string()),
    })
}

/// Where the first clause keyword that ends a `FROM` relation (`WHERE`,
/// `GROUP BY`, `JOIN`, `UNION`, ...) starts in a text, if anywhere.
pub uninterp spec fn clause_boundary_search(s: Seq<char>) -> Option<nat>;

/// `Regex::find` with the clause-boundary pattern. Claims: the result is the
/// named search result and lies within the text.
#[verifier::external_body]
pub(crate) fn find_clause_boundary(s: &str) -> (r: Option<usize>)
    ensures
        r is Some <==> clause_boundary_search(s@) is Some,
        r matches Some(p) ==> clause_boundary_search(s@) == Some(p as nat) && p <= s@.len(),
{
    let re = regex::Regex::new(
        r"(?is)\b(WHERE|GROUP\s+BY|HAVING|QUALIFY|WINDOW|ORDER\s+BY|LIMIT|OFFSET|JOIN|INNER|LEFT|RIGHT|FULL|CROSS|UNION|EXCEPT|INTERSECT)\b",
    ).unwrap();
    re.find(s).map(|m| s[..m.start()].chars().count())
}

/// The captures of the `ALTER TABLE <table> CREATE [RAW|AGGREGATE]
/// REFLECTION <name> <rest>` pattern.
pub struct ReflectionCaptures {
    pub table: String,
    pub kind: Option<String>,
    pub name: String,
    pub rest: String,
}

/// What the alter-table-reflection pattern captures in a text: table, kind,
/// name and rest, untrimmed.
pub uninterp spec fn alter_reflection_search(s: Seq<char>) -> Option<
    (Seq<char>, Option<Seq<char>>, Seq<char>, Seq<char>),
>;

/// `Regex::captures` with the alter-table-reflection pattern. Claims: the
/// result is the named search result.
#[verifier::external_body]
pub(crate) fn capture_alter_reflection(s: &str) -> (r: Option<ReflectionCaptures>)
    ensures
        r is Some <==> alter_reflection_search(s@) is Some,
        r matches Some(c) ==> alter_reflection_search(s@) == Some(
            (c.table@, opt_view(c.kind), c.name@, c.rest@),
        ),
{
    let re = regex::Regex::new(
        r#"(?is)^alter\s+table\s+(?P<table>.+?)\s+create\s+(?:(?P<kind>raw|aggregate)\s+)?reflection\s+(?P<name>("([^"]|"")*"|[^\s(]+))\s*(?P<rest>.*)$"#,
    ).unwrap();
    let caps = re.captures(s)?;
    Some(ReflectionCaptures {
        table: caps.name("table")?.as_str().to_string(),
        kind: caps.name("kind").map(|m| m.as_str().to_string()),
        name: caps.name("name")?.as_str().to_string(),
        rest: caps.name("rest").map_or(String::new(), |m| m.as_str().to_string()),
    })
}

/// The character spans of the successive non-overlapping matches of the
/// reflection-clause keywords (`USING DISPLAY`, `PARTITION BY`, ...,
/// `USING`) in a text.
pub uninterp spec fn reflection_clause_search(s: Seq<char>) -> Seq<(nat, nat)>;

/// `Regex::find_iter` with the reflection-clause pattern. Claims: the spans
/// are the named result; they lie within the text, each is non-empty, and
/// they come in order without overlapping, as `find_iter` documents.
#[verifier::external_body]
pub(crate) fn find_reflection_clauses(s: &str) -> (r: Vec<(usize, usize)>)
    ensures
        r@.len() == reflection_clause_search(s@).len(),
        forall|i: int|
            0 <= i < r@.len() ==> #[trigger] reflection_clause_search(s@)[i] == (
                r@[i].0 as nat,
                r@[i].1 as nat,
            ),
        forall|i: int| 0 <= i < r@.len() ==> #[trigger] r@[i].0 < r@[i].1 <= s@.len(),
        forall|i: int| 0 <= i < r@.len() - 1 ==> #[trigger] r@[i].1 <= r@[i + 1].0,
{
    let re = regex::Regex::new(
        r"(?is)\b(USING DISPLAY|USING DIMENSIONS|USING MEASURES|LOCALSORT BY|PARTITION BY|DISTRIBUTE BY|SORT BY|USING)\b",
    ).unwrap();
    re.find_iter(s).map(|m| (s[..m.start()].chars().count(), s[..m.end()].chars().count())).collect()
}

/// The text with each line that holds only a `--` comment carrying the
/// token replaced by the content, as `Regex::replace_all` does it.
pub uninterp spec fn marker_lines_replaced(output: Seq<char>, token: Seq<char>, content: Seq<char>) -> Seq<char>;

/// `Regex::replace_all` with the pattern of a line that holds only
/// `-- <token>`. Claims: the result is the named result. The token is as
/// short as the placeholders are, so the pattern stays far below the size
/// limit of `Regex::new` and the `unwrap` cannot fail. `replace_all` reads
/// `$` in the content as a group reference, so content holding `$1` or
/// `$name` is put back with that part expanded.
#[verifier::external_body]
pub(crate) fn replace_marker_lines(output: &str, token: &str, content: &str) -> (r: String)
    requires
        token@.len() <= crate::jinja::TOKEN_LIMIT,
    ensures
        r@ == marker_lines_replaced(output@, token@, content@),
{
    let pattern = format!("(?m)^[ \\t]*--[ \\t]*{}[ \\t]*$", regex::escape(token));
    let re = regex::Regex::new(&pattern).unwrap();
    re.replace_all(output, content).into_owned()
}

/// The text with each `/* <token> */` comment replaced by the content, as
/// `Regex::replace_all` does it.
pub uninterp spec fn marker_comments_replaced(output: Seq<char>, token: Seq<char>, content: Seq<char>) -> Seq<char>;

/// `Regex::replace_all` with the pattern of a block comment that holds only
/// the token. Claims: the result is the named result. As for the marker
/// lines, the token is short, so `Regex::new` cannot fail, and `$` in the
/// content is expanded by `replace_all`.
#[verifier::external_body]
pub(crate) fn replace_marker_comments(output: &str, token: &str, content: &str) -> (r: String)
    requires
        token@.len() <= crate::jinja::TOKEN_LIMIT,
    ensures
        r@ == marker_comments_replaced(output@, token@, content@),
{
    let pattern = format!(r"/\*[ \t]*{}[ \t]*\*/", regex::escape(token));
    let re = regex::Regex::new(&pattern).unwrap();
    re.replace_all(output, content).into_owned()
}

/// `regex`'s compiled pattern type, opaque here.
#[verifier::external_type_specification]
#[verifier::external_body]
pub struct ExRegex(regex::Regex);

/// A compiled pattern together with the pattern text it was compiled from.
/// Its fields are private: `compile_pattern` is the only way to make one,
/// so the two always agree.
pub struct CompiledPattern {
    pattern: String,
    re: regex::Regex,
}

impl CompiledPattern {
    pub closed spec fn pattern_view(&self) -> Seq<char> {
        self.pattern@
    }
}

/// The message with which `Regex::new` refuses a pattern, `None` when it
/// compiles it.
pub uninterp spec fn pattern_error(pattern: Seq<char>) -> Option<Seq<char>>;

/// Whether the regular expression `pattern` matches somewhere in `text`
/// (`Regex::is_match`).
pub uninterp spec fn pattern_matches(pattern: Seq<char>, text: Seq<char>) -> bool;

/// `Regex::new`. Claims: it succeeds exactly when the named error is
/// `None`, and fails with that message otherwise; the compiled pattern
/// remembers its text.
#[verifier::external_body]
pub(crate) fn compile_pattern(pattern: &str) -> (r: Result<CompiledPattern, String>)
    ensures
        r is Ok <==> pattern_error(pattern@) is None,
        r matches Ok(c) ==> c.pattern_view() == pattern@,
        r matches Err(e) ==> pattern_error(pattern@) == Some(e@),
{
    match regex::Regex::new(pattern) {
        Ok(re) => Ok(CompiledPattern { pattern: pattern.to_string(), re }),
        Err(e) => Err(e.to_string()),
    }
}

/// `Regex::is_match`. Claims: the result is the named match result of the
/// pattern the regex was compiled from.
#[verifier::external_body]
pub(crate) fn pattern_is_match(c: &CompiledPattern, text: &str) -> (r: bool)
    ensures
        r == pattern_matches(c.pattern_view(), text@),
{
    c.re.is_match(text)
}

} // verus!
