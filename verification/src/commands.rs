//! Dremio-specific statements: version clauses and the catalog, reflection
//! and maintenance commands that are recognised by their leading words.
use vstd::prelude::*;

use crate::patterns::{
    alter_reflection_search, capture_alter_reflection, clause_boundary_search, find_clause_boundary,
    find_reflection_clauses, find_version_clause, opt_view, reflection_clause_search, version_clause_search,
};
use crate::text::{
    chars_of, has_prefix, join, join_chars, lower, lower_of, slice, split_words, starts_with,
    starts_with_str, string_of, trim, trimmed, upper, upper_of, words, push_all,
};

verus! {

#[derive(Debug, Clone, PartialEq, Eq)]
pub enum VersionSelector {
    Branch(String),
    Tag(String),
    Ref(String),
    Commit(String),
}

#[derive(Debug, Clone, PartialEq, Eq)]
pub struct DremioVersionClause {
    pub at: Option<VersionSelector>,
    pub as_of_timestamp: Option<String>,
}

#[derive(Debug, Clone, PartialEq, Eq)]
pub enum DremioCommand {
    Use { path: String },
    AlterTableReflection(AlterTableReflectionCommand),
    AlterPds { rest: String },
    BranchTag { verb: String, kind: String, rest: String },
    Show { kind: String, rest: String },
    VacuumCatalog { rest: String },
    Pipe { verb: String, rest: String },
    TableMaintenance { verb: String, rest: String },
    AnalyzeTable { rest: String },
    ShowTableProperties { rest: String },
    Acceleration { rest: String },
    AccelerationManage { verb: String, rest: String },
    Reflection { verb: String, rest: String },
    RolesUsers { kind: String, rest: String },
    RowColumnPolicies { rest: String },
    QueueTag { verb: String, kind: String, rest: String },
    CreateFolder { if_not_exists: bool, path: String },
    Generic { head: Vec<String>, rest: String },
}

#[derive(Debug, Clone, PartialEq, Eq)]
pub struct AlterTableReflectionCommand {
    pub table: String,
    pub kind: Option<String>,
    pub name: Option<String>,
    pub clauses: Vec<(String, String)>,
}

/// The text with runs of whitespace collapsed to single spaces and no
/// whitespace at either end.
pub open spec fn collapsed(s: Seq<char>) -> Seq<char> {
    join(words(s), seq![' '])
}

/// Collapses whitespace runs to single spaces and trims both ends.
pub fn collapse_spaces(input: &[char]) -> (r: Vec<char>)
    ensures
        r@ == collapsed(input@),
{
    let ws = split_words(input);
    let sep = vec![' '];
    let r = join_chars(&ws, sep.as_slice());
    assert(ws@.map_values(|w: Vec<char>| w@) =~= words(input@));
    assert(sep@ =~= seq![' ']);
    r
}

/// A command prefix: the whole text, or the start of it followed by a space.
pub open spec fn command_prefix(lower: Seq<char>, prefix: Seq<char>) -> bool {
    lower == prefix || has_prefix(lower, prefix.push(' '))
}

pub fn starts_with_command_prefix(input_lower: &[char], prefix: &str) -> (r: bool)
    ensures
        r == command_prefix(input_lower@, prefix@),
{
    let mut p = chars_of(prefix);
    if crate::text::seq_eq(input_lower, p.as_slice()) {
        return true;
    }
    p.push(' ');
    starts_with(input_lower, p.as_slice())
}

/// `s[k..]`, or the empty text when `k` is past the end.
pub open spec fn tail(s: Seq<char>, k: int) -> Seq<char> {
    if k <= s.len() {
        s.skip(k)
    } else {
        Seq::empty()
    }
}

/// The trimmed text after the first `k` characters.
pub open spec fn rest_of(s: Seq<char>, k: int) -> Seq<char> {
    trimmed(tail(s, k))
}

/// `s[k..]`, or the empty text when `k` is past the end.
pub fn tail_from(s: &[char], k: usize) -> (r: Vec<char>)
    ensures
        k <= s@.len() ==> r@ == s@.skip(k as int),
        k > s@.len() ==> r@ == Seq::<char>::empty(),
{
    if k <= s.len() {
        let r = slice(s, k, s.len());
        assert(r@ =~= s@.skip(k as int));
        r
    } else {
        Vec::new()
    }
}

/// The trimmed text after the first `k` characters.
pub fn rest_after(s: &[char], k: usize) -> (r: String)
    ensures
        r@ == rest_of(s@, k as int),
{
    let t = tail_from(s, k);
    let tr = trim(t.as_slice());
    string_of(tr.as_slice())
}

fn own(s: &str) -> (r: String)
    ensures
        r@ == s@,
{
    s.to_owned()
}

/// The `(keyword, value)` options of a reflection: each keyword that the
/// reflection-clause pattern finds, trimmed, with the trimmed text up to the
/// next keyword or the end.
pub open spec fn option_clauses(rest: Seq<char>) -> Seq<(Seq<char>, Seq<char>)> {
    let spans = reflection_clause_search(rest);
    Seq::new(
        spans.len(),
        |i: int|
            {
                let end: int = if i + 1 < spans.len() {
                    spans[i + 1].0 as int
                } else {
                    rest.len() as int
                };
                (
                    trimmed(rest.subrange(spans[i].0 as int, spans[i].1 as int)),
                    trimmed(rest.subrange(spans[i].1 as int, end)),
                )
            },
    )
}

pub open spec fn string_pairs(v: Seq<(String, String)>) -> Seq<(Seq<char>, Seq<char>)> {
    v.map_values(|p: (String, String)| (p.0@, p.1@))
}

/// Splits the options after a reflection name into `(keyword, value)` pairs
/// at the reflection-clause keywords; the text before the first keyword is
/// dropped.
pub fn split_reflection_option_clauses(rest: &str) -> (r: Vec<(String, String)>)
    ensures
        r@.len() == reflection_clause_search(rest@).len(),
        string_pairs(r@) == option_clauses(rest@),
{
    let spans = find_reflection_clauses(rest);
    let chars = chars_of(rest);
    let mut clauses: Vec<(String, String)> = Vec::new();
    let mut idx: usize = 0;
    while idx < spans.len()
        invariant
            idx <= spans@.len(),
            chars@ == rest@,
            clauses@.len() == idx,
            spans@.len() == reflection_clause_search(rest@).len(),
            forall|i: int| 0 <= i < spans@.len() ==> #[trigger] reflection_clause_search(rest@)[i] == (
                spans@[i].0 as nat,
                spans@[i].1 as nat,
            ),
            string_pairs(clauses@) == option_clauses(rest@).take(idx as int),
            forall|i: int| 0 <= i < spans@.len() ==> #[trigger] spans@[i].0 < spans@[i].1 <= rest@.len(),
            forall|i: int| 0 <= i < spans@.len() - 1 ==> #[trigger] spans@[i].1 <= spans@[i + 1].0,
        decreases spans.len() - idx,
    {
        let (start, end_of_label) = spans[idx];
        let end = if idx + 1 < spans.len() {
            spans[idx + 1].0
        } else {
            chars.len()
        };
        let label_chars = slice(chars.as_slice(), start, end_of_label);
        let label = trim(label_chars.as_slice());
        let value_chars = slice(chars.as_slice(), end_of_label, end);
        let value = trim(value_chars.as_slice());
        let ghost before = clauses@;
        clauses.push((string_of(label.as_slice()), string_of(value.as_slice())));
        proof {
            assert(string_pairs(clauses@) =~= string_pairs(before).push((label@, value@)));
            assert(option_clauses(rest@).take(idx + 1) =~= option_clauses(rest@).take(idx as int).push(
                option_clauses(rest@)[idx as int],
            ));
        }
        idx = idx + 1;
    }
    assert(option_clauses(rest@).take(idx as int) =~= option_clauses(rest@));
    clauses
}

/// A trimmed text, or nothing when it is empty.
pub open spec fn nonempty_trimmed(s: Seq<char>) -> Option<Seq<char>> {
    if trimmed(s).len() > 0 {
        Some(trimmed(s))
    } else {
        None
    }
}

/// The parts of an `ALTER TABLE ... CREATE REFLECTION` statement: the
/// table, the kind and the name (each trimmed, absent when empty) and the
/// options of the trimmed rest.
pub open spec fn reflection_parts(raw: Seq<char>) -> Option<
    (Seq<char>, Option<Seq<char>>, Option<Seq<char>>, Seq<(Seq<char>, Seq<char>)>),
> {
    match alter_reflection_search(raw) {
        None => None,
        Some((table, kind, name, rest)) => Some(
            (
                trimmed(table),
                match kind {
                    Some(k) => nonempty_trimmed(k),
                    None => None,
                },
                nonempty_trimmed(name),
                option_clauses(trimmed(rest)),
            ),
        ),
    }
}

pub open spec fn reflection_view(c: AlterTableReflectionCommand) -> (
    Seq<char>,
    Option<Seq<char>>,
    Option<Seq<char>>,
    Seq<(Seq<char>, Seq<char>)>,
) {
    (c.table@, opt_view(c.kind), opt_view(c.name), string_pairs(c.clauses@))
}

/// Recognises `ALTER TABLE <table> CREATE [RAW|AGGREGATE] REFLECTION <name>
/// ...` and splits it into its parts.
pub fn parse_alter_table_reflection(raw: &str) -> (r: Option<AlterTableReflectionCommand>)
    ensures
        r is Some <==> crate::patterns::alter_reflection_search(raw@) is Some,
        r matches Some(c) ==> reflection_parts(raw@) == Some(reflection_view(c)),
{
    let caps = capture_alter_reflection(raw)?;
    let table = trim(chars_of(caps.table.as_str()).as_slice());
    let kind = match &caps.kind {
        Some(k) => {
            let t = trim(chars_of(k.as_str()).as_slice());
            if t.len() > 0 {
                Some(string_of(t.as_slice()))
            } else {
                None
            }
        },
        None => None,
    };
    let name_t = trim(chars_of(caps.name.as_str()).as_slice());
    let name = if name_t.len() > 0 {
        Some(string_of(name_t.as_slice()))
    } else {
        None
    };
    let rest = trim(chars_of(caps.rest.as_str()).as_slice());
    let rest_s = string_of(rest.as_slice());
    let clauses = split_reflection_option_clauses(rest_s.as_str());
    Some(AlterTableReflectionCommand { table: string_of(table.as_slice()), kind, name, clauses })
}

/// A statement with its version clause taken out.
pub struct StrippedStatement {
    pub sql: String,
    pub version: Option<DremioVersionClause>,
}

/// A version selector as plain values.
pub enum SelectorV {
    Branch(Seq<char>),
    Tag(Seq<char>),
    Ref(Seq<char>),
    Commit(Seq<char>),
}

pub open spec fn selector_view(v: VersionSelector) -> SelectorV {
    match v {
        VersionSelector::Branch(t) => SelectorV::Branch(t@),
        VersionSelector::Tag(t) => SelectorV::Tag(t@),
        VersionSelector::Ref(t) => SelectorV::Ref(t@),
        VersionSelector::Commit(t) => SelectorV::Commit(t@),
    }
}

/// A version clause as plain values: its selector and its timestamp.
pub open spec fn version_view(v: DremioVersionClause) -> (Option<SelectorV>, Option<Seq<char>>) {
    (
        match v.at {
            Some(a) => Some(selector_view(a)),
            None => None,
        },
        opt_view(v.as_of_timestamp),
    )
}

pub open spec fn opt_version_view(v: Option<DremioVersionClause>) -> Option<(Option<SelectorV>, Option<Seq<char>>)> {
    match v {
        Some(c) => Some(version_view(c)),
        None => None,
    }
}

/// The selector that a version kind, upper-cased, names, with its target;
/// none for another kind.
pub open spec fn selector_of(kind: Seq<char>, target: Seq<char>) -> Option<SelectorV> {
    if kind == "BRANCH"@ {
        Some(SelectorV::Branch(target))
    } else if kind == "TAG"@ {
        Some(SelectorV::Tag(target))
    } else if kind == "REF"@ {
        Some(SelectorV::Ref(target))
    } else if kind == "COMMIT"@ {
        Some(SelectorV::Commit(target))
    } else {
        None
    }
}

/// The version clause that the version-clause pattern finds in a statement.
pub open spec fn version_of(stmt: Seq<char>) -> Option<(Option<SelectorV>, Option<Seq<char>>)> {
    match version_clause_search(stmt) {
        Some((_, _, kind, target, as_of)) => Some((selector_of(upper_of(kind), target), as_of)),
        None => None,
    }
}

/// A statement without the version clause at `start..end`: the text from
/// the clause to the next clause keyword after it (or to the end) becomes
/// one space, and the result is trimmed.
pub open spec fn stripped_text(s: Seq<char>, start: int, end: int) -> Seq<char> {
    let boundary: int = match clause_boundary_search(s.skip(end)) {
        Some(p) => end + p,
        None => s.len() as int,
    };
    trimmed(s.take(start).push(' ') + s.skip(boundary))
}

/// A statement without its version clause, when it has one.
pub open spec fn stripped_sql(stmt: Seq<char>) -> Seq<char> {
    match version_clause_search(stmt) {
        Some((start, end, _, _, _)) => stripped_text(stmt, start as int, end as int),
        None => stmt,
    }
}

/// Takes a Dremio version clause (`AT BRANCH x [AS OF TIMESTAMP t]`) out of a
/// statement: the text from the clause up to the next clause keyword (or the
/// end) is replaced by one space, and the clause is returned separately.
pub fn strip_dremio_version_clause(stmt: &str) -> (r: StrippedStatement)
    ensures
        r.sql@ == stripped_sql(stmt@),
        opt_version_view(r.version) == version_of(stmt@),
{
    match find_version_clause(stmt) {
        None => StrippedStatement { sql: own(stmt), version: None },
        Some(m) => {
            let kind = upper(chars_of(m.kind.as_str()).as_slice());
            let target = m.target.clone();
            let at = if crate::text::eq_str(kind.as_slice(), "BRANCH") {
                Some(VersionSelector::Branch(target))
            } else if crate::text::eq_str(kind.as_slice(), "TAG") {
                Some(VersionSelector::Tag(target))
            } else if crate::text::eq_str(kind.as_slice(), "REF") {
                Some(VersionSelector::Ref(target))
            } else if crate::text::eq_str(kind.as_slice(), "COMMIT") {
                Some(VersionSelector::Commit(target))
            } else {
                None
            };
            let version = DremioVersionClause { at, as_of_timestamp: m.as_of.clone() };
            let chars = chars_of(stmt);
            let after = slice(chars.as_slice(), m.end, chars.len());
            let after_s = string_of(after.as_slice());
            let boundary_pos = match find_clause_boundary(after_s.as_str()) {
                Some(p) => m.end + p,
                None => chars.len(),
            };
            let mut stripped = slice(chars.as_slice(), 0, m.start);
            stripped.push(' ');
            let tail = slice(chars.as_slice(), boundary_pos, chars.len());
            push_all(&mut stripped, tail.as_slice());
            assert(after@ =~= stmt@.skip(m.end as int));
            assert(stripped@ =~= stmt@.take(m.start as int).push(' ') + stmt@.skip(boundary_pos as int));
            let sql = trim(stripped.as_slice());
            StrippedStatement { sql: string_of(sql.as_slice()), version: Some(version) }
        },
    }
}

/// A table of `(value, prefix)` entries as plain texts.
pub open spec fn str_pairs<'a>(t: Seq<(&'a str, &'a str)>) -> Seq<(Seq<char>, Seq<char>)> {
    t.map_values(|p: (&'a str, &'a str)| (p.0@, p.1@))
}

/// The first entry, from `j` on, whose prefix starts `k`.
pub open spec fn first_with_prefix(k: Seq<char>, t: Seq<(Seq<char>, Seq<char>)>, j: int) -> Option<int>
    decreases t.len() - j,
{
    if j < 0 || j >= t.len() {
        None
    } else if has_prefix(k, t[j].1) {
        Some(j)
    } else {
        first_with_prefix(k, t, j + 1)
    }
}

/// The first entry, from `j` on, whose prefix is a command prefix of `k`.
pub open spec fn first_command_prefix(k: Seq<char>, t: Seq<(Seq<char>, Seq<char>)>, j: int) -> Option<int>
    decreases t.len() - j,
{
    if j < 0 || j >= t.len() {
        None
    } else if command_prefix(k, t[j].1) {
        Some(j)
    } else {
        first_command_prefix(k, t, j + 1)
    }
}

pub proof fn lemma_first_with_prefix(k: Seq<char>, t: Seq<(Seq<char>, Seq<char>)>, j: int)
    requires
        0 <= j,
    ensures
        first_with_prefix(k, t, j) matches Some(i) ==> j <= i < t.len() && has_prefix(k, t[i].1),
        first_with_prefix(k, t, j) is None ==> forall|i: int| j <= i < t.len() ==> !has_prefix(k, #[trigger] t[i].1),
    decreases t.len() - j,
{
    if j < t.len() {
        lemma_first_with_prefix(k, t, j + 1);
    }
}

pub proof fn lemma_first_command_prefix(k: Seq<char>, t: Seq<(Seq<char>, Seq<char>)>, j: int)
    requires
        0 <= j,
    ensures
        first_command_prefix(k, t, j) matches Some(i) ==> j <= i < t.len() && command_prefix(k, t[i].1),
        first_command_prefix(k, t, j) is None ==> forall|i: int| j <= i < t.len() ==> !command_prefix(k, #[trigger] t[i].1),
    decreases t.len() - j,
{
    if j < t.len() {
        lemma_first_command_prefix(k, t, j + 1);
    }
}

pub open spec fn branch_tag_table() -> Seq<(Seq<char>, Seq<char>)> {
    seq![
        ("create"@, "create branch "@),
        ("create"@, "create tag "@),
        ("alter"@, "alter branch "@),
        ("alter"@, "alter tag "@),
        ("drop"@, "drop branch "@),
        ("drop"@, "drop tag "@),
        ("merge"@, "merge branch "@),
        ("merge"@, "merge tag "@),
    ]
}

pub open spec fn show_table() -> Seq<(Seq<char>, Seq<char>)> {
    seq![
        ("branches"@, "show branches"@),
        ("tags"@, "show tags"@),
        ("logs"@, "show logs"@),
        ("reflections"@, "show reflections"@),
    ]
}

pub open spec fn pipe_table() -> Seq<(Seq<char>, Seq<char>)> {
    seq![
        ("create"@, "create pipe"@),
        ("alter"@, "alter pipe"@),
        ("describe"@, "describe pipe"@),
        ("drop"@, "drop pipe"@),
    ]
}

pub open spec fn maintenance_table() -> Seq<(Seq<char>, Seq<char>)> {
    seq![("optimize"@, "optimize table"@), ("vacuum"@, "vacuum table"@), ("rollback"@, "rollback table"@)]
}

pub open spec fn acceleration_table() -> Seq<(Seq<char>, Seq<char>)> {
    seq![
        ("create"@, "create acceleration"@),
        ("alter"@, "alter acceleration"@),
        ("drop"@, "drop acceleration"@),
        ("describe"@, "describe acceleration"@),
        ("refresh"@, "refresh acceleration"@),
    ]
}

pub open spec fn reflection_table() -> Seq<(Seq<char>, Seq<char>)> {
    seq![
        ("create"@, "create reflection"@),
        ("alter"@, "alter reflection"@),
        ("drop"@, "drop reflection"@),
        ("describe"@, "describe reflection"@),
        ("refresh"@, "refresh reflection"@),
    ]
}

pub open spec fn generic_table() -> Seq<(Seq<char>, Seq<char>)> {
    seq![
        ("ALTER FOLDER"@, "alter folder"@),
        ("ALTER SOURCE"@, "alter source"@),
        ("ALTER SPACE"@, "alter space"@),
        ("ALTER VIEW"@, "alter view"@),
        ("ALTER TABLE"@, "alter table"@),
        ("GRANT"@, "grant"@),
        ("REVOKE"@, "revoke"@),
        ("CREATE ROLE"@, "create role"@),
        ("DROP ROLE"@, "drop role"@),
        ("GRANT ROLE"@, "grant role"@),
        ("REVOKE ROLE"@, "revoke role"@),
        ("CREATE USER"@, "create user"@),
        ("ALTER USER"@, "alter user"@),
        ("DROP USER"@, "drop user"@),
        ("SHOW FUNCTIONS"@, "show functions"@),
        ("CREATE FUNCTION"@, "create function"@),
        ("DROP FUNCTION"@, "drop function"@),
        ("DESCRIBE FUNCTION"@, "describe function"@),
        ("ALTER ROLE"@, "alter role"@),
    ]
}

pub open spec fn queue_tag_table() -> Seq<(Seq<char>, Seq<char>)> {
    seq![("set"@, "set queue"@), ("set"@, "set tag"@), ("reset"@, "reset queue"@), ("reset"@, "reset tag"@)]
}

/// A Dremio command with its texts as plain values.
pub enum CommandV {
    Use(Seq<char>),
    AlterTableReflection((Seq<char>, Option<Seq<char>>, Option<Seq<char>>, Seq<(Seq<char>, Seq<char>)>)),
    AlterPds(Seq<char>),
    BranchTag(Seq<char>, Seq<char>, Seq<char>),
    Show(Seq<char>, Seq<char>),
    VacuumCatalog(Seq<char>),
    Pipe(Seq<char>, Seq<char>),
    TableMaintenance(Seq<char>, Seq<char>),
    AnalyzeTable(Seq<char>),
    ShowTableProperties(Seq<char>),
    Acceleration(Seq<char>),
    AccelerationManage(Seq<char>, Seq<char>),
    Reflection(Seq<char>, Seq<char>),
    RolesUsers(Seq<char>, Seq<char>),
    RowColumnPolicies(Seq<char>),
    QueueTag(Seq<char>, Seq<char>, Seq<char>),
    CreateFolder(bool, Seq<char>),
    Generic(Seq<Seq<char>>, Seq<char>),
}

pub open spec fn strings_view(v: Seq<String>) -> Seq<Seq<char>> {
    v.map_values(|s: String| s@)
}

pub open spec fn command_view(c: DremioCommand) -> CommandV {
    match c {
        DremioCommand::Use { path } => CommandV::Use(path@),
        DremioCommand::AlterTableReflection(r) => CommandV::AlterTableReflection(reflection_view(r)),
        DremioCommand::AlterPds { rest } => CommandV::AlterPds(rest@),
        DremioCommand::BranchTag { verb, kind, rest } => CommandV::BranchTag(verb@, kind@, rest@),
        DremioCommand::Show { kind, rest } => CommandV::Show(kind@, rest@),
        DremioCommand::VacuumCatalog { rest } => CommandV::VacuumCatalog(rest@),
        DremioCommand::Pipe { verb, rest } => CommandV::Pipe(verb@, rest@),
        DremioCommand::TableMaintenance { verb, rest } => CommandV::TableMaintenance(verb@, rest@),
        DremioCommand::AnalyzeTable { rest } => CommandV::AnalyzeTable(rest@),
        DremioCommand::ShowTableProperties { rest } => CommandV::ShowTableProperties(rest@),
        DremioCommand::Acceleration { rest } => CommandV::Acceleration(rest@),
        DremioCommand::AccelerationManage { verb, rest } => CommandV::AccelerationManage(verb@, rest@),
        DremioCommand::Reflection { verb, rest } => CommandV::Reflection(verb@, rest@),
        DremioCommand::RolesUsers { kind, rest } => CommandV::RolesUsers(kind@, rest@),
        DremioCommand::RowColumnPolicies { rest } => CommandV::RowColumnPolicies(rest@),
        DremioCommand::QueueTag { verb, kind, rest } => CommandV::QueueTag(verb@, kind@, rest@),
        DremioCommand::CreateFolder { if_not_exists, path } => CommandV::CreateFolder(if_not_exists, path@),
        DremioCommand::Generic { head, rest } => CommandV::Generic(strings_view(head@), rest@),
    }
}

/// The command that a statement is, read from its leading words: the
/// `ALTER TABLE ... CREATE REFLECTION` form, `USE <path>`, then the command
/// prefixes in order (case-insensitive, whitespace collapsed), each with
/// the trimmed rest of the collapsed text (of the trimmed text for roles
/// and users).
pub open spec fn command_of(raw: Seq<char>) -> Option<CommandV> {
    let t = trimmed(raw);
    let k = command_key(raw);
    let nm = collapsed(t);
    if alter_reflection_search(t) is Some {
        Some(CommandV::AlterTableReflection(reflection_parts(t).unwrap()))
    } else if has_prefix(t, "USE "@) || has_prefix(t, "use "@) {
        Some(CommandV::Use(rest_of(t, 4)))
    } else if has_prefix(k, "create folder"@) {
        let rest = rest_of(nm, 13);
        if has_prefix(lower_of(rest), "if not exists"@) {
            Some(CommandV::CreateFolder(true, rest_of(rest, 13)))
        } else {
            Some(CommandV::CreateFolder(false, rest))
        }
    } else if first_with_prefix(k, branch_tag_table(), 0) is Some {
        let i = first_with_prefix(k, branch_tag_table(), 0).unwrap();
        Some(
            CommandV::BranchTag(
                branch_tag_table()[i].0,
                if i % 2 == 0 { "branch"@ } else { "tag"@ },
                rest_of(nm, branch_tag_table()[i].1.len() as int),
            ),
        )
    } else if first_with_prefix(k, show_table(), 0) is Some {
        let i = first_with_prefix(k, show_table(), 0).unwrap();
        Some(CommandV::Show(show_table()[i].0, rest_of(nm, show_table()[i].1.len() as int)))
    } else if has_prefix(k, "vacuum catalog"@) {
        Some(CommandV::VacuumCatalog(rest_of(nm, 14)))
    } else if first_with_prefix(k, pipe_table(), 0) is Some {
        let i = first_with_prefix(k, pipe_table(), 0).unwrap();
        Some(CommandV::Pipe(pipe_table()[i].0, rest_of(nm, pipe_table()[i].1.len() as int)))
    } else if first_with_prefix(k, maintenance_table(), 0) is Some {
        let i = first_with_prefix(k, maintenance_table(), 0).unwrap();
        Some(CommandV::TableMaintenance(maintenance_table()[i].0, rest_of(nm, maintenance_table()[i].1.len() as int)))
    } else if has_prefix(k, "alter pds"@) {
        Some(CommandV::AlterPds(rest_of(nm, 9)))
    } else if command_prefix(k, "copy into table"@) {
        Some(CommandV::TableMaintenance("COPY INTO TABLE"@, rest_of(nm, 15)))
    } else if command_prefix(k, "copy into"@) {
        Some(CommandV::TableMaintenance("COPY INTO"@, rest_of(nm, 9)))
    } else if has_prefix(k, "analyze table"@) {
        Some(CommandV::AnalyzeTable(rest_of(nm, 13)))
    } else if command_prefix(k, "show tblproperties"@) {
        Some(CommandV::ShowTableProperties(rest_of(nm, 18)))
    } else if has_prefix(k, "show table properties"@) {
        Some(CommandV::ShowTableProperties(rest_of(nm, 21)))
    } else if first_with_prefix(k, acceleration_table(), 0) is Some {
        let i = first_with_prefix(k, acceleration_table(), 0).unwrap();
        Some(CommandV::AccelerationManage(acceleration_table()[i].0, rest_of(nm, acceleration_table()[i].1.len() as int)))
    } else if has_prefix(k, "acceleration"@) {
        Some(CommandV::Acceleration(rest_of(nm, 12)))
    } else if first_with_prefix(k, reflection_table(), 0) is Some {
        let i = first_with_prefix(k, reflection_table(), 0).unwrap();
        Some(CommandV::Reflection(reflection_table()[i].0, rest_of(nm, reflection_table()[i].1.len() as int)))
    } else if command_prefix(k, "roles"@) {
        Some(CommandV::RolesUsers("roles"@, rest_of(t, 5)))
    } else if command_prefix(k, "users"@) {
        Some(CommandV::RolesUsers("users"@, rest_of(t, 5)))
    } else if command_prefix(k, "row column policies"@) || command_prefix(k, "row-column policies"@) {
        Some(CommandV::RowColumnPolicies(rest_of(nm, 19)))
    } else if first_command_prefix(k, generic_table(), 0) is Some {
        let j = first_command_prefix(k, generic_table(), 0).unwrap();
        Some(CommandV::Generic(words(generic_table()[j].0), rest_of(nm, generic_table()[j].1.len() as int)))
    } else if first_with_prefix(k, queue_tag_table(), 0) is Some {
        let i = first_with_prefix(k, queue_tag_table(), 0).unwrap();
        Some(
            CommandV::QueueTag(
                queue_tag_table()[i].0,
                if i % 2 == 0 { "queue"@ } else { "tag"@ },
                rest_of(nm, queue_tag_table()[i].1.len() as int),
            ),
        )
    } else {
        None
    }
}

/// Looks up a lower-case command text in a table of `(value, prefix)`
/// entries; the first entry whose prefix starts the text wins.
fn first_prefix(lower: &[char], table: &[(&str, &str)]) -> (r: Option<usize>)
    ensures
        r matches Some(i) ==> first_with_prefix(lower@, str_pairs(table@), 0) == Some(i as int),
        r is None ==> first_with_prefix(lower@, str_pairs(table@), 0) is None,
        r matches Some(i) ==> i < table@.len() && has_prefix(lower@, table@[i as int].1@),
        r is None ==> forall|i: int| 0 <= i < table@.len() ==> !has_prefix(lower@, #[trigger] table@[i].1@),
{
    let mut i: usize = 0;
    while i < table.len()
        invariant
            i <= table@.len(),
            forall|j: int| 0 <= j < i ==> !has_prefix(lower@, #[trigger] table@[j].1@),
            first_with_prefix(lower@, str_pairs(table@), i as int) == first_with_prefix(lower@, str_pairs(table@), 0),
        decreases table.len() - i,
    {
        assert(str_pairs(table@)[i as int] == (table@[i as int].0@, table@[i as int].1@));
        if starts_with_str(lower, table[i].1) {
            return Some(i);
        }
        i = i + 1;
    }
    None
}

/// The lower-case, whitespace-collapsed, trimmed text that commands are
/// recognised by.
pub open spec fn command_key(raw: Seq<char>) -> Seq<char> {
    lower_of(collapsed(trimmed(raw)))
}

/// Leading words that make a Dremio command (after the `ALTER TABLE ...
/// CREATE REFLECTION` form and `USE`).
pub open spec fn starts_command(k: Seq<char>) -> bool {
    ||| has_prefix(k, "create folder"@)
    ||| has_prefix(k, "create branch "@) || has_prefix(k, "create tag "@)
    ||| has_prefix(k, "alter branch "@) || has_prefix(k, "alter tag "@)
    ||| has_prefix(k, "drop branch "@) || has_prefix(k, "drop tag "@)
    ||| has_prefix(k, "merge branch "@) || has_prefix(k, "merge tag "@)
    ||| has_prefix(k, "show branches"@) || has_prefix(k, "show tags"@)
    ||| has_prefix(k, "show logs"@) || has_prefix(k, "show reflections"@)
    ||| has_prefix(k, "vacuum catalog"@)
    ||| has_prefix(k, "create pipe"@) || has_prefix(k, "alter pipe"@)
    ||| has_prefix(k, "describe pipe"@) || has_prefix(k, "drop pipe"@)
    ||| has_prefix(k, "optimize table"@) || has_prefix(k, "vacuum table"@) || has_prefix(k, "rollback table"@)
    ||| has_prefix(k, "alter pds"@)
    ||| command_prefix(k, "copy into table"@) || command_prefix(k, "copy into"@)
    ||| has_prefix(k, "analyze table"@)
    ||| command_prefix(k, "show tblproperties"@) || has_prefix(k, "show table properties"@)
    ||| has_prefix(k, "create acceleration"@) || has_prefix(k, "alter acceleration"@)
    ||| has_prefix(k, "drop acceleration"@) || has_prefix(k, "describe acceleration"@)
    ||| has_prefix(k, "refresh acceleration"@) || has_prefix(k, "acceleration"@)
    ||| has_prefix(k, "create reflection"@) || has_prefix(k, "alter reflection"@)
    ||| has_prefix(k, "drop reflection"@) || has_prefix(k, "describe reflection"@)
    ||| has_prefix(k, "refresh reflection"@)
    ||| command_prefix(k, "roles"@) || command_prefix(k, "users"@)
    ||| command_prefix(k, "row column policies"@) || command_prefix(k, "row-column policies"@)
    ||| command_prefix(k, "alter folder"@) || command_prefix(k, "alter source"@)
    ||| command_prefix(k, "alter space"@) || command_prefix(k, "alter view"@)
    ||| command_prefix(k, "alter table"@) || command_prefix(k, "grant"@) || command_prefix(k, "revoke"@)
    ||| command_prefix(k, "create role"@) || command_prefix(k, "drop role"@)
    ||| command_prefix(k, "grant role"@) || command_prefix(k, "revoke role"@)
    ||| command_prefix(k, "create user"@) || command_prefix(k, "alter user"@) || command_prefix(k, "drop user"@)
    ||| command_prefix(k, "show functions"@) || command_prefix(k, "create function"@)
    ||| command_prefix(k, "drop function"@) || command_prefix(k, "describe function"@)
    ||| command_prefix(k, "alter role"@)
    ||| has_prefix(k, "set queue"@) || has_prefix(k, "set tag"@)
    ||| has_prefix(k, "reset queue"@) || has_prefix(k, "reset tag"@)
}

/// Whether a statement is a Dremio command: the `ALTER TABLE ... CREATE
/// REFLECTION` form, `USE <path>`, or one of the command prefixes.
pub open spec fn is_dremio_command(raw: Seq<char>) -> bool {
    ||| crate::patterns::alter_reflection_search(trimmed(raw)) is Some
    ||| has_prefix(trimmed(raw), "USE "@) || has_prefix(trimmed(raw), "use "@)
    ||| starts_command(command_key(raw))
}

/// Recognises a Dremio command by its leading words (case-insensitive,
/// whitespace collapsed) and splits off the rest of its text.
#[verifier::loop_isolation(false)]
pub fn parse_dremio_command(raw: &str) -> (r: Option<DremioCommand>)
    ensures
        r is Some <==> is_dremio_command(raw@),
        match r {
            Some(c) => command_of(raw@) == Some(command_view(c)),
            None => command_of(raw@) is None,
        },
        crate::patterns::alter_reflection_search(trimmed(raw@)) is Some ==> r matches Some(
            DremioCommand::AlterTableReflection(_),
        ),
        crate::patterns::alter_reflection_search(trimmed(raw@)) is None && (has_prefix(trimmed(raw@), "USE "@)
            || has_prefix(trimmed(raw@), "use "@)) ==> (r matches Some(DremioCommand::Use { path })
            && path@ == trimmed(trimmed(raw@).skip(4))),
{
    let trimmed_c = trim(chars_of(raw).as_slice());
    let trimmed_s = string_of(trimmed_c.as_slice());
    let normalized = collapse_spaces(trimmed_c.as_slice());
    let lower_c = lower(normalized.as_slice());
    let lw = lower_c.as_slice();
    let nm = normalized.as_slice();

    assert(normalized@ == collapsed(trimmed(raw@)));
    if let Some(cmd) = parse_alter_table_reflection(trimmed_s.as_str()) {
        return Some(DremioCommand::AlterTableReflection(cmd));
    }

    proof {
        reveal_strlit("USE ");
        reveal_strlit("use ");
    }
    if starts_with_str(trimmed_c.as_slice(), "USE ") || starts_with_str(trimmed_c.as_slice(), "use ") {
        return Some(DremioCommand::Use { path: rest_after(trimmed_c.as_slice(), 4) });
    }
    assert(lw@ == command_key(raw@));

    if starts_with_str(lw, "create folder") {
        let rest = trim(tail_from(nm, 13).as_slice());
        let rest_lower = lower(rest.as_slice());
        if starts_with_str(rest_lower.as_slice(), "if not exists") {
            return Some(
                DremioCommand::CreateFolder { if_not_exists: true, path: rest_after(rest.as_slice(), 13) },
            );
        }
        return Some(DremioCommand::CreateFolder { if_not_exists: false, path: string_of(rest.as_slice()) });
    }

    let branch_tag: [(&str, &str); 8] = [
        ("create", "create branch "),
        ("create", "create tag "),
        ("alter", "alter branch "),
        ("alter", "alter tag "),
        ("drop", "drop branch "),
        ("drop", "drop tag "),
        ("merge", "merge branch "),
        ("merge", "merge tag "),
    ];
    assert(str_pairs(branch_tag@) =~= branch_tag_table());
    if let Some(i) = first_prefix(lw, &branch_tag) {
        let (verb, prefix) = branch_tag[i];
        let prefix_c = chars_of(prefix);
        let kind = if i % 2 == 0 {
            "branch"
        } else {
            "tag"
        };
        return Some(DremioCommand::BranchTag {
            verb: own(verb),
            kind: own(kind),
            rest: rest_after(nm, prefix_c.len()),
        });
    }
    proof {
        assert(!has_prefix(lw@, branch_tag@[0].1@));
        assert(!has_prefix(lw@, branch_tag@[1].1@));
        assert(!has_prefix(lw@, branch_tag@[2].1@));
        assert(!has_prefix(lw@, branch_tag@[3].1@));
        assert(!has_prefix(lw@, branch_tag@[4].1@));
        assert(!has_prefix(lw@, branch_tag@[5].1@));
        assert(!has_prefix(lw@, branch_tag@[6].1@));
        assert(!has_prefix(lw@, branch_tag@[7].1@));
    }

    let shows: [(&str, &str); 4] = [
        ("branches", "show branches"),
        ("tags", "show tags"),
        ("logs", "show logs"),
        ("reflections", "show reflections"),
    ];
    assert(str_pairs(shows@) =~= show_table());
    if let Some(i) = first_prefix(lw, &shows) {
        let (kind, prefix) = shows[i];
        return Some(DremioCommand::Show { kind: own(kind), rest: rest_after(nm, prefix.unicode_len()) });
    }
    proof {
        assert(!has_prefix(lw@, shows@[0].1@));
        assert(!has_prefix(lw@, shows@[1].1@));
        assert(!has_prefix(lw@, shows@[2].1@));
        assert(!has_prefix(lw@, shows@[3].1@));
    }

    if starts_with_str(lw, "vacuum catalog") {
        return Some(DremioCommand::VacuumCatalog { rest: rest_after(nm, 14) });
    }

    let pipes: [(&str, &str); 4] = [
        ("create", "create pipe"),
        ("alter", "alter pipe"),
        ("describe", "describe pipe"),
        ("drop", "drop pipe"),
    ];
    assert(str_pairs(pipes@) =~= pipe_table());
    if let Some(i) = first_prefix(lw, &pipes) {
        let (verb, prefix) = pipes[i];
        return Some(DremioCommand::Pipe { verb: own(verb), rest: rest_after(nm, prefix.unicode_len()) });
    }
    proof {
        assert(!has_prefix(lw@, pipes@[0].1@));
        assert(!has_prefix(lw@, pipes@[1].1@));
        assert(!has_prefix(lw@, pipes@[2].1@));
        assert(!has_prefix(lw@, pipes@[3].1@));
    }

    let maintenance: [(&str, &str); 3] = [
        ("optimize", "optimize table"),
        ("vacuum", "vacuum table"),
        ("rollback", "rollback table"),
    ];
    assert(str_pairs(maintenance@) =~= maintenance_table());
    if let Some(i) = first_prefix(lw, &maintenance) {
        let (verb, prefix) = maintenance[i];
        return Some(
            DremioCommand::TableMaintenance { verb: own(verb), rest: rest_after(nm, prefix.unicode_len()) },
        );
    }
    proof {
        assert(!has_prefix(lw@, maintenance@[0].1@));
        assert(!has_prefix(lw@, maintenance@[1].1@));
        assert(!has_prefix(lw@, maintenance@[2].1@));
    }

    if starts_with_str(lw, "alter pds") {
        return Some(DremioCommand::AlterPds { rest: rest_after(nm, 9) });
    }

    if starts_with_command_prefix(lw, "copy into table") {
        return Some(DremioCommand::TableMaintenance { verb: own("COPY INTO TABLE"), rest: rest_after(nm, 15) });
    }

    if starts_with_command_prefix(lw, "copy into") {
        return Some(DremioCommand::TableMaintenance { verb: own("COPY INTO"), rest: rest_after(nm, 9) });
    }

    if starts_with_str(lw, "analyze table") {
        return Some(DremioCommand::AnalyzeTable { rest: rest_after(nm, 13) });
    }

    if starts_with_command_prefix(lw, "show tblproperties") {
        return Some(DremioCommand::ShowTableProperties { rest: rest_after(nm, 18) });
    }

    if starts_with_str(lw, "show table properties") {
        return Some(DremioCommand::ShowTableProperties { rest: rest_after(nm, 21) });
    }

    let accel: [(&str, &str); 5] = [
        ("create", "create acceleration"),
        ("alter", "alter acceleration"),
        ("drop", "drop acceleration"),
        ("describe", "describe acceleration"),
        ("refresh", "refresh acceleration"),
    ];
    assert(str_pairs(accel@) =~= acceleration_table());
    if let Some(i) = first_prefix(lw, &accel) {
        let (verb, prefix) = accel[i];
        return Some(
            DremioCommand::AccelerationManage { verb: own(verb), rest: rest_after(nm, prefix.unicode_len()) },
        );
    }
    proof {
        assert(!has_prefix(lw@, accel@[0].1@));
        assert(!has_prefix(lw@, accel@[1].1@));
        assert(!has_prefix(lw@, accel@[2].1@));
        assert(!has_prefix(lw@, accel@[3].1@));
        assert(!has_prefix(lw@, accel@[4].1@));
    }

    if starts_with_str(lw, "acceleration") {
        return Some(DremioCommand::Acceleration { rest: rest_after(nm, 12) });
    }

    let reflections: [(&str, &str); 5] = [
        ("create", "create reflection"),
        ("alter", "alter reflection"),
        ("drop", "drop reflection"),
        ("describe", "describe reflection"),
        ("refresh", "refresh reflection"),
    ];
    assert(str_pairs(reflections@) =~= reflection_table());
    if let Some(i) = first_prefix(lw, &reflections) {
        let (verb, prefix) = reflections[i];
        return Some(DremioCommand::Reflection { verb: own(verb), rest: rest_after(nm, prefix.unicode_len()) });
    }
    proof {
        assert(!has_prefix(lw@, reflections@[0].1@));
        assert(!has_prefix(lw@, reflections@[1].1@));
        assert(!has_prefix(lw@, reflections@[2].1@));
        assert(!has_prefix(lw@, reflections@[3].1@));
        assert(!has_prefix(lw@, reflections@[4].1@));
    }

    if starts_with_command_prefix(lw, "roles") {
        return Some(DremioCommand::RolesUsers { kind: own("roles"), rest: rest_after(trimmed_c.as_slice(), 5) });
    }
    if starts_with_command_prefix(lw, "users") {
        return Some(DremioCommand::RolesUsers { kind: own("users"), rest: rest_after(trimmed_c.as_slice(), 5) });
    }

    if starts_with_command_prefix(lw, "row column policies") {
        return Some(DremioCommand::RowColumnPolicies { rest: rest_after(nm, 19) });
    }

    if starts_with_command_prefix(lw, "row-column policies") {
        return Some(DremioCommand::RowColumnPolicies { rest: rest_after(nm, 19) });
    }

    let generic: [(&str, &str); 19] = [
        ("ALTER FOLDER", "alter folder"),
        ("ALTER SOURCE", "alter source"),
        ("ALTER SPACE", "alter space"),
        ("ALTER VIEW", "alter view"),
        ("ALTER TABLE", "alter table"),
        ("GRANT", "grant"),
        ("REVOKE", "revoke"),
        ("CREATE ROLE", "create role"),
        ("DROP ROLE", "drop role"),
        ("GRANT ROLE", "grant role"),
        ("REVOKE ROLE", "revoke role"),
        ("CREATE USER", "create user"),
        ("ALTER USER", "alter user"),
        ("DROP USER", "drop user"),
        ("SHOW FUNCTIONS", "show functions"),
        ("CREATE FUNCTION", "create function"),
        ("DROP FUNCTION", "drop function"),
        ("DESCRIBE FUNCTION", "describe function"),
        ("ALTER ROLE", "alter role"),
    ];
    assert(str_pairs(generic@) =~= generic_table());
    let ghost before_generic = command_of(raw@);
    let mut g: usize = 0;
    while g < 19
        invariant
            g <= 19,
            crate::patterns::alter_reflection_search(trimmed(raw@)) is None,
            forall|j: int| 0 <= j < g ==> !command_prefix(lw@, #[trigger] generic@[j].1@),
            first_command_prefix(lw@, generic_table(), g as int) == first_command_prefix(lw@, generic_table(), 0),
        decreases 19 - g,
    {
        let (head, prefix) = generic[g];
        assert(generic_table()[g as int] == (head@, prefix@));
        if starts_with_command_prefix(lw, prefix) {
            let head_words = split_words(chars_of(head).as_slice());
            let mut head_v: Vec<String> = Vec::new();
            let mut k: usize = 0;
            while k < head_words.len()
                invariant
                    k <= head_words@.len(),
                    head_words@.len() == words(head@).len(),
                    forall|i: int| 0 <= i < head_words@.len() ==> #[trigger] head_words@[i]@ == words(head@)[i],
                    strings_view(head_v@) == words(head@).take(k as int),
                decreases head_words.len() - k,
            {
                let ghost before = head_v@;
                head_v.push(string_of(head_words[k].as_slice()));
                assert(strings_view(head_v@) =~= strings_view(before).push(words(head@)[k as int]));
                assert(words(head@).take(k + 1) =~= words(head@).take(k as int).push(words(head@)[k as int]));
                k = k + 1;
            }
            assert(words(head@).take(k as int) =~= words(head@));
            proof {
                assert(command_prefix(lw@, generic@[g as int].1@));
                assert(starts_command(lw@)) by {
                    if g == 0 {} else if g == 1 {} else if g == 2 {} else if g == 3 {} else if g == 4 {}
                    else if g == 5 {} else if g == 6 {} else if g == 7 {} else if g == 8 {} else if g == 9 {}
                    else if g == 10 {} else if g == 11 {} else if g == 12 {} else if g == 13 {}
                    else if g == 14 {} else if g == 15 {} else if g == 16 {} else if g == 17 {} else {}
                }
            }
            return Some(DremioCommand::Generic { head: head_v, rest: rest_after(nm, prefix.unicode_len()) });
        }
        g = g + 1;
    }
    proof {
        assert(!command_prefix(lw@, generic@[0].1@));
        assert(!command_prefix(lw@, generic@[1].1@));
        assert(!command_prefix(lw@, generic@[2].1@));
        assert(!command_prefix(lw@, generic@[3].1@));
        assert(!command_prefix(lw@, generic@[4].1@));
        assert(!command_prefix(lw@, generic@[5].1@));
        assert(!command_prefix(lw@, generic@[6].1@));
        assert(!command_prefix(lw@, generic@[7].1@));
        assert(!command_prefix(lw@, generic@[8].1@));
        assert(!command_prefix(lw@, generic@[9].1@));
        assert(!command_prefix(lw@, generic@[10].1@));
        assert(!command_prefix(lw@, generic@[11].1@));
        assert(!command_prefix(lw@, generic@[12].1@));
        assert(!command_prefix(lw@, generic@[13].1@));
        assert(!command_prefix(lw@, generic@[14].1@));
        assert(!command_prefix(lw@, generic@[15].1@));
        assert(!command_prefix(lw@, generic@[16].1@));
        assert(!command_prefix(lw@, generic@[17].1@));
        assert(!command_prefix(lw@, generic@[18].1@));
    }

    let queue_tag: [(&str, &str); 4] = [
        ("set", "set queue"),
        ("set", "set tag"),
        ("reset", "reset queue"),
        ("reset", "reset tag"),
    ];
    assert(str_pairs(queue_tag@) =~= queue_tag_table());
    if let Some(i) = first_prefix(lw, &queue_tag) {
        let (verb, prefix) = queue_tag[i];
        let prefix_c = chars_of(prefix);
        let kind = if i % 2 == 0 {
            "queue"
        } else {
            "tag"
        };
        return Some(DremioCommand::QueueTag {
            verb: own(verb),
            kind: own(kind),
            rest: rest_after(nm, prefix_c.len()),
        });
    }
    proof {
        assert(!has_prefix(lw@, queue_tag@[0].1@));
        assert(!has_prefix(lw@, queue_tag@[1].1@));
        assert(!has_prefix(lw@, queue_tag@[2].1@));
        assert(!has_prefix(lw@, queue_tag@[3].1@));
    }

    None
}

} // verus!
