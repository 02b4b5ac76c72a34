//! Turning SQL text into statements: the text is split at top-level
//! semicolons, Dremio commands are recognised by their leading words, and
//! the rest goes to the SQL parser; what it refuses is kept as raw text
//! unless parsing is strict.
use vstd::prelude::*;

use crate::commands::{
    command_of, command_view, opt_version_view, parse_dremio_command, strip_dremio_version_clause,
    stripped_sql, version_of, CommandV, DremioCommand, DremioVersionClause, SelectorV,
};
use crate::config::DialectKind;
use crate::fragments::{fragment_views, fragments_of, split_sql_fragments, well_formed_fragments, StatementFragment};
use crate::sql_convert::{
    parse_outcome, parse_statements, parsed_statements, parser_hazard, words_hazard, relay_channel_at, set_authorization_at, solid_words,
};
use crate::tokens::{sql_tokens, tokenize, Tok, TokKind};
use crate::sql_model::{
    FactorKind, FactorNode, JoinNode, QueryBody, SqlQuery, SqlStatement, StatementKind,
    TableWithJoinsNode,
};
use crate::text::{trim, trimmed, string_of, chars_of};

verus! {

/// Options of a parse: whether a statement that the SQL parser refuses is an
/// error (strict) or is kept as raw text.
#[derive(Debug, Clone, Copy)]
pub struct ParseOptions {
    pub strict: bool,
}

impl Default for ParseOptions {
    fn default() -> (r: ParseOptions)
        ensures
            !r.strict,
    {
        ParseOptions { strict: false }
    }
}

/// One statement of the input: parsed SQL with its Dremio version clause and,
/// for each relation alias in walk order, whether it was written with `AS`;
/// a recognised Dremio command; or text that the SQL parser refused.
#[derive(Debug)]
pub enum ParsedStatement {
    Sql {
        stmt: Box<SqlStatement>,
        version: Option<DremioVersionClause>,
        has_semicolon: bool,
        relation_alias_has_as: Vec<bool>,
    },
    Command { cmd: DremioCommand, has_semicolon: bool },
    Raw { sql: String, has_semicolon: bool },
}

/// The `AS` flags of the relation aliases of a table factor: those inside it
/// first, then its own.
pub open spec fn factor_alias_flags(f: FactorNode) -> Seq<bool>
    decreases f,
{
    let inner = match f.kind {
        FactorKind::Derived { subquery, .. } => query_alias_flags(*subquery),
        FactorKind::NestedJoin(t) => relation_alias_flags(*t),
        FactorKind::Wrapped(g) => factor_alias_flags(*g),
        _ => Seq::empty(),
    };
    match f.alias {
        Some(a) => inner.push(a.explicit),
        None => inner,
    }
}

pub open spec fn joins_alias_flags(js: Seq<JoinNode>) -> Seq<bool>
    decreases js,
{
    if js.len() == 0 {
        Seq::empty()
    } else {
        joins_alias_flags(js.drop_last()) + factor_alias_flags(js.last().relation)
    }
}

pub open spec fn relation_alias_flags(t: TableWithJoinsNode) -> Seq<bool>
    decreases t,
{
    factor_alias_flags(t.relation) + joins_alias_flags(t.joins@)
}

pub open spec fn relations_alias_flags(rs: Seq<TableWithJoinsNode>) -> Seq<bool>
    decreases rs,
{
    if rs.len() == 0 {
        Seq::empty()
    } else {
        relations_alias_flags(rs.drop_last()) + relation_alias_flags(rs.last())
    }
}

pub open spec fn ctes_alias_flags(qs: Seq<crate::sql_model::CteNode>) -> Seq<bool>
    decreases qs,
{
    if qs.len() == 0 {
        Seq::empty()
    } else {
        ctes_alias_flags(qs.drop_last()) + query_alias_flags(qs.last().query)
    }
}

/// The `AS` flags of a query's relation aliases: its common table
/// expressions first, then its body.
pub open spec fn query_alias_flags(q: SqlQuery) -> Seq<bool>
    decreases q,
{
    let with_flags = match q.with {
        Some(w) => ctes_alias_flags(w.ctes@),
        None => Seq::empty(),
    };
    let body_flags = match q.body {
        QueryBody::Select(s) => relations_alias_flags(s.from@),
        QueryBody::Nested(inner) => query_alias_flags(*inner),
        _ => Seq::empty(),
    };
    with_flags + body_flags
}

/// The `AS` flags of a statement's relation aliases, taken from the query it
/// holds (none for other statements).
pub open spec fn statement_alias_flags(s: SqlStatement) -> Seq<bool> {
    match s.kind {
        StatementKind::Query(q) => query_alias_flags(q),
        StatementKind::CreateTable(c) => match c.query {
            Some(q) => query_alias_flags(q),
            None => Seq::empty(),
        },
        StatementKind::CreateView(v) => query_alias_flags(v.query),
        StatementKind::Insert(i) => match i.source {
            Some(q) => query_alias_flags(q),
            None => Seq::empty(),
        },
        StatementKind::Other => Seq::empty(),
    }
}

fn collect_factor(f: &FactorNode, flags: &mut Vec<bool>)
    ensures
        final(flags)@ == old(flags)@ + factor_alias_flags(*f),
    decreases f,
{
    match &f.kind {
        FactorKind::Derived { subquery, .. } => collect_query(subquery, flags),
        FactorKind::NestedJoin(t) => collect_relation(t, flags),
        FactorKind::Wrapped(g) => collect_factor(g, flags),
        _ => {},
    }
    if let Some(a) = &f.alias {
        flags.push(a.explicit);
    }
}

fn collect_relation(t: &TableWithJoinsNode, flags: &mut Vec<bool>)
    ensures
        final(flags)@ == old(flags)@ + relation_alias_flags(*t),
    decreases t,
{
    collect_factor(&t.relation, flags);
    let mut i: usize = 0;
    while i < t.joins.len()
        invariant
            i <= t.joins@.len(),
            flags@ == old(flags)@ + factor_alias_flags(t.relation) + joins_alias_flags(
                t.joins@.subrange(0, i as int),
            ),
        decreases t.joins.len() - i,
    {
        proof {
            assert(t.joins@.subrange(0, i + 1).drop_last() == t.joins@.subrange(0, i as int));
        }
        collect_factor(&t.joins[i].relation, flags);
        i = i + 1;
    }
    proof {
        assert(t.joins@.subrange(0, i as int) == t.joins@);
    }
}

fn collect_query(q: &SqlQuery, flags: &mut Vec<bool>)
    ensures
        final(flags)@ == old(flags)@ + query_alias_flags(*q),
    decreases q,
{
    let ghost start = flags@;
    if let Some(w) = &q.with {
        let mut i: usize = 0;
        while i < w.ctes.len()
            invariant
                i <= w.ctes@.len(),
                flags@ == start + ctes_alias_flags(w.ctes@.subrange(0, i as int)),
                q.with == Some(*w),
            decreases w.ctes.len() - i,
        {
            proof {
                assert(w.ctes@.subrange(0, i + 1).drop_last() == w.ctes@.subrange(0, i as int));
            }
            proof {
                assert(decreases_to!(q.with => q.with->0));
                assert(decreases_to!(*w => w.ctes));
                assert(decreases_to!(w.ctes => w.ctes@));
                assert(decreases_to!(w.ctes@ => w.ctes@[i as int]));
                assert(decreases_to!(w.ctes@[i as int] => w.ctes@[i as int].query));
                assert(decreases_to!(*q => w.ctes@[i as int].query));
            }
            collect_query(&w.ctes[i].query, flags);
            i = i + 1;
        }
        proof {
            assert(w.ctes@.subrange(0, i as int) == w.ctes@);
        }
    }
    let ghost mid = flags@;
    match &q.body {
        QueryBody::Select(s) => {
            let mut i: usize = 0;
            while i < s.from.len()
                invariant
                    i <= s.from@.len(),
                    flags@ == mid + relations_alias_flags(s.from@.subrange(0, i as int)),
                    q.body == QueryBody::Select(*s),
                decreases s.from.len() - i,
            {
                proof {
                    assert(s.from@.subrange(0, i + 1).drop_last() == s.from@.subrange(0, i as int));
                }
                proof {
                    assert(decreases_to!(q.body => q.body->Select_0));
                    assert(decreases_to!(**s => s.from));
                    assert(decreases_to!(s.from => s.from@));
                    assert(decreases_to!(s.from@ => s.from@[i as int]));
                    assert(decreases_to!(*q => s.from@[i as int]));
                }
                collect_relation(&s.from[i], flags);
                i = i + 1;
            }
            proof {
                assert(s.from@.subrange(0, i as int) == s.from@);
            }
        },
        QueryBody::Nested(inner) => collect_query(inner, flags),
        _ => {},
    }
}

/// For each relation alias of the statement, in walk order, whether it was
/// written with `AS`.
pub fn collect_relation_alias_flags(stmt: &SqlStatement) -> (r: Vec<bool>)
    ensures
        r@ == statement_alias_flags(*stmt),
{
    let mut flags: Vec<bool> = Vec::new();
    match &stmt.kind {
        StatementKind::Query(q) => collect_query(q, &mut flags),
        StatementKind::CreateTable(c) => {
            if let Some(q) = &c.query {
                collect_query(q, &mut flags);
            }
        },
        StatementKind::CreateView(v) => collect_query(&v.query, &mut flags),
        StatementKind::Insert(i) => {
            if let Some(q) = &i.source {
                collect_query(q, &mut flags);
            }
        },
        StatementKind::Other => {},
    }
    proof {
        assert(flags@ == Seq::<bool>::empty() + statement_alias_flags(*stmt));
    }
    flags
}


/// Whether a semicolon ended the statement.
pub open spec fn ends_with_semicolon(p: ParsedStatement) -> bool {
    match p {
        ParsedStatement::Sql { has_semicolon, .. } => has_semicolon,
        ParsedStatement::Command { has_semicolon, .. } => has_semicolon,
        ParsedStatement::Raw { has_semicolon, .. } => has_semicolon,
    }
}

/// What holds of every parsed statement: the `AS` flags of a SQL statement
/// are those of its relation aliases, and raw text is a trimmed, non-empty
/// statement text.
pub open spec fn parsed_entry_ok(p: ParsedStatement) -> bool {
    match p {
        ParsedStatement::Sql { stmt, relation_alias_has_as, .. } => {
            relation_alias_has_as@ == statement_alias_flags(*stmt)
        },
        ParsedStatement::Command { .. } => true,
        ParsedStatement::Raw { sql, .. } => sql@.len() > 0 && sql@ == crate::text::trimmed(sql@),
    }
}

pub open spec fn parsed_entries_ok(ps: Seq<ParsedStatement>) -> bool {
    forall|i: int| 0 <= i < ps.len() ==> parsed_entry_ok(#[trigger] ps[i])
}

/// A parsed statement as plain values: the statement, its version clause
/// and its semicolon; the command and its semicolon; or the raw text and
/// its semicolon.
pub enum EntryV {
    Sql(SqlStatement, Option<(Option<SelectorV>, Option<Seq<char>>)>, bool),
    Command(CommandV, bool),
    Raw(Seq<char>, bool),
}

pub open spec fn entry_view(p: ParsedStatement) -> EntryV {
    match p {
        ParsedStatement::Sql { stmt, version, has_semicolon, .. } => EntryV::Sql(
            *stmt,
            opt_version_view(version),
            has_semicolon,
        ),
        ParsedStatement::Command { cmd, has_semicolon } => EntryV::Command(command_view(cmd), has_semicolon),
        ParsedStatement::Raw { sql, has_semicolon } => EntryV::Raw(sql@, has_semicolon),
    }
}

pub open spec fn entry_views(v: Seq<ParsedStatement>) -> Seq<EntryV> {
    v.map_values(|p: ParsedStatement| entry_view(p))
}

/// Statements of one fragment, each with the fragment's semicolon.
pub open spec fn sql_entries(stmts: Seq<SqlStatement>, has_semicolon: bool) -> Seq<EntryV> {
    stmts.map_values(|st: SqlStatement| EntryV::Sql(st, None, has_semicolon))
}

/// ANSI parsing of the fragments: each one goes to the SQL parser whole and
/// each of its statements is an entry; a fragment the parser refuses is
/// raw text, or, when strict, the parse fails with the parser's message.
pub open spec fn ansi_entries(frags: Seq<(Seq<char>, bool)>, strict: bool) -> Result<Seq<EntryV>, Seq<char>>
    decreases frags.len(),
{
    if frags.len() == 0 {
        Ok(Seq::empty())
    } else {
        match ansi_entries(frags.drop_last(), strict) {
            Err(e) => Err(e),
            Ok(pre) => {
                let f = frags.last();
                match screened_parse(DialectKind::Ansi, f.0) {
                    Err(e) => if strict {
                        Err(e)
                    } else {
                        Ok(pre.push(EntryV::Raw(f.0, f.1)))
                    },
                    Ok(stmts) => Ok(pre + sql_entries(stmts, f.1)),
                }
            },
        }
    }
}

/// The message for text that the SQL parser cannot be given.
pub open spec fn hazard_message() -> Seq<char> {
    "statement not supported by the SQL parser"@
}

/// What the SQL parser gives for a text under a dialect: its statements or
/// its message, except that text on which it would panic is refused
/// beforehand.
pub open spec fn screened_parse(dialect: DialectKind, sql: Seq<char>) -> Result<Seq<SqlStatement>, Seq<char>> {
    if parser_hazard(dialect, sql) {
        Err(hazard_message())
    } else {
        parsed_statements(dialect, sql)
    }
}

pub open spec fn word_views(w: Seq<(Vec<char>, Vec<char>)>) -> Seq<(Seq<char>, Seq<char>)> {
    w.map_values(|p: (Vec<char>, Vec<char>)| (p.0@, p.1@))
}

/// The tokens the SQL parser reads, each as its keyword and its text.
fn solid_words_of(ts: &Vec<Tok>) -> (r: Vec<(Vec<char>, Vec<char>)>)
    ensures
        word_views(r@) == solid_words(ts@),
{
    let mut r: Vec<(Vec<char>, Vec<char>)> = Vec::new();
    let mut i: usize = 0;
    assert(ts@.take(0) =~= Seq::<Tok>::empty());
    assert(word_views(r@) =~= Seq::<(Seq<char>, Seq<char>)>::empty());
    while i < ts.len()
        invariant
            i <= ts@.len(),
            word_views(r@) == solid_words(ts@.take(i as int)),
        decreases ts.len() - i,
    {
        let t = &ts[i];
        assert(ts@.take(i + 1).drop_last() =~= ts@.take(i as int));
        assert(ts@.take(i + 1).last() == *t);
        match &t.kind {
            TokKind::Space => {},
            TokKind::Comment => {},
            TokKind::Word { keyword, .. } => {
                let ghost before = r@;
                r.push((chars_of(keyword.as_str()), chars_of(t.text.as_str())));
                assert(word_views(r@) =~= word_views(before).push((keyword@, t.text@)));
            },
            _ => {
                let ghost before = r@;
                r.push((Vec::new(), chars_of(t.text.as_str())));
                assert(word_views(r@) =~= word_views(before).push((Seq::<char>::empty(), t.text@)));
            },
        }
        i = i + 1;
    }
    assert(ts@.take(i as int) =~= ts@);
    r
}

/// Whether `RELAY LOGS FOR CHANNEL` occurs among the words.
fn has_relay_channel(w: &Vec<(Vec<char>, Vec<char>)>) -> (r: bool)
    ensures
        r == exists|i: int| relay_channel_at(word_views(w@), i),
{
    let ghost v = word_views(w@);
    let mut i: usize = 0;
    while w.len() > 3 && i < w.len() - 3
        invariant
            i <= w@.len(),
            v == word_views(w@),
            forall|j: int| 0 <= j < i ==> !#[trigger] relay_channel_at(v, j),
        decreases w.len() - i,
    {
        if crate::text::eq_str(w[i].0.as_slice(), "RELAY") && crate::text::eq_str(w[i + 1].0.as_slice(), "LOGS")
            && crate::text::eq_str(w[i + 2].0.as_slice(), "FOR") && crate::text::eq_str(
            w[i + 3].0.as_slice(),
            "CHANNEL",
        ) {
            assert(relay_channel_at(v, i as int));
            return true;
        }
        i = i + 1;
    }
    proof {
        assert forall|j: int| !#[trigger] relay_channel_at(v, j) by {
            if 0 <= j && j >= i {
                assert(!(j + 3 < v.len()));
            }
        }
    }
    false
}

/// Whether `SET AUTHORIZATION` without a scope occurs among the words.
fn has_set_authorization(w: &Vec<(Vec<char>, Vec<char>)>) -> (r: bool)
    ensures
        r == exists|a: int| set_authorization_at(word_views(w@), a),
{
    let ghost v = word_views(w@);
    let mut a: usize = 0;
    while w.len() > 1 && a < w.len() - 1
        invariant
            a <= w@.len(),
            v == word_views(w@),
            forall|j: int| 0 <= j < a ==> !#[trigger] set_authorization_at(v, j),
        decreases w.len() - a,
    {
        let after_set = a >= 1 && crate::text::eq_str(w[a - 1].0.as_slice(), "SET");
        let after_hivevar = a >= 3 && crate::text::eq_str(w[a - 3].0.as_slice(), "SET") && crate::text::eq_str(
            w[a - 2].0.as_slice(),
            "HIVEVAR",
        ) && crate::text::eq_str(w[a - 1].1.as_slice(), ":");
        if crate::text::eq_str(w[a].0.as_slice(), "AUTHORIZATION") && !crate::text::eq_str(w[a + 1].1.as_slice(), "=")
            && (after_set || after_hivevar) {
            assert(set_authorization_at(v, a as int));
            return true;
        }
        assert(!set_authorization_at(v, a as int));
        a = a + 1;
    }
    proof {
        assert forall|j: int| !#[trigger] set_authorization_at(v, j) by {
            if 0 <= j && j >= a {
                assert(!(j + 1 < v.len()));
            }
        }
    }
    false
}

/// Parses a text under a dialect, refusing beforehand text on which the
/// SQL parser would panic.
fn parse_screened(dialect: DialectKind, sql: &str) -> (r: Result<Vec<SqlStatement>, String>)
    ensures
        parse_outcome(r) == screened_parse(dialect, sql@),
{
    if let Ok(ts) = tokenize(dialect, sql) {
        let w = solid_words_of(&ts);
        let relay = match dialect {
            DialectKind::Dremio => has_relay_channel(&w),
            DialectKind::Ansi => false,
        };
        if has_set_authorization(&w) || relay {
            proof {
                assert(sql_tokens(dialect, sql@) == Some(ts@));
                let v = solid_words(ts@);
                assert(word_views(w@) == v);
                assert(words_hazard(dialect, v));
            }
            return Err(string_of(chars_of("statement not supported by the SQL parser").as_slice()));
        }
    }
    parse_statements(dialect, sql)
}

/// Dremio parsing of the fragments: a blank one is skipped, a command is
/// recognised by its leading words, and otherwise the text without its
/// version clause goes to the SQL parser, whose last statement (if any) is
/// the entry; a refused fragment is raw text, or, when strict, the error.
pub open spec fn dremio_entries(frags: Seq<(Seq<char>, bool)>, strict: bool) -> Result<Seq<EntryV>, Seq<char>>
    decreases frags.len(),
{
    if frags.len() == 0 {
        Ok(Seq::empty())
    } else {
        match dremio_entries(frags.drop_last(), strict) {
            Err(e) => Err(e),
            Ok(pre) => {
                let f = frags.last();
                let t = trimmed(f.0);
                if t.len() == 0 {
                    Ok(pre)
                } else {
                    match command_of(t) {
                        Some(c) => Ok(pre.push(EntryV::Command(c, f.1))),
                        None => match screened_parse(DialectKind::Dremio, stripped_sql(t)) {
                            Err(e) => if strict {
                                Err(e)
                            } else {
                                Ok(pre.push(EntryV::Raw(f.0, f.1)))
                            },
                            Ok(stmts) => if stmts.len() > 0 {
                                Ok(pre.push(EntryV::Sql(stmts.last(), version_of(t), f.1)))
                            } else {
                                Ok(pre)
                            },
                        },
                    }
                }
            },
        }
    }
}

/// What parsing a text gives under a dialect: the entries, or the SQL
/// parser's message for the first statement it refused in a strict parse.
pub open spec fn parsed_entries(dialect: DialectKind, input: Seq<char>, strict: bool) -> Result<Seq<EntryV>, Seq<char>> {
    match dialect {
        DialectKind::Ansi => ansi_entries(fragments_of(input), strict),
        DialectKind::Dremio => dremio_entries(fragments_of(input), strict),
    }
}

/// Once a strict ANSI parse fails on a prefix of the fragments, it fails
/// the same way on all of them.
proof fn lemma_ansi_err_stays(frags: Seq<(Seq<char>, bool)>, k: int, strict: bool)
    requires
        0 <= k <= frags.len(),
        ansi_entries(frags.take(k), strict) is Err,
    ensures
        ansi_entries(frags, strict) == ansi_entries(frags.take(k), strict),
    decreases frags.len(),
{
    if k < frags.len() {
        assert(frags.drop_last().take(k) =~= frags.take(k));
        lemma_ansi_err_stays(frags.drop_last(), k, strict);
    } else {
        assert(frags.take(k) =~= frags);
    }
}

proof fn lemma_dremio_err_stays(frags: Seq<(Seq<char>, bool)>, k: int, strict: bool)
    requires
        0 <= k <= frags.len(),
        dremio_entries(frags.take(k), strict) is Err,
    ensures
        dremio_entries(frags, strict) == dremio_entries(frags.take(k), strict),
    decreases frags.len(),
{
    if k < frags.len() {
        assert(frags.drop_last().take(k) =~= frags.take(k));
        lemma_dremio_err_stays(frags.drop_last(), k, strict);
    } else {
        assert(frags.take(k) =~= frags);
    }
}

proof fn lemma_ansi_strict_ok(frags: Seq<(Seq<char>, bool)>)
    requires
        ansi_entries(frags, true) is Ok,
    ensures
        ansi_entries(frags, false) == ansi_entries(frags, true),
    decreases frags.len(),
{
    if frags.len() > 0 {
        lemma_ansi_strict_ok(frags.drop_last());
    }
}

proof fn lemma_dremio_strict_ok(frags: Seq<(Seq<char>, bool)>)
    requires
        dremio_entries(frags, true) is Ok,
    ensures
        dremio_entries(frags, false) == dremio_entries(frags, true),
    decreases frags.len(),
{
    if frags.len() > 0 {
        lemma_dremio_strict_ok(frags.drop_last());
    }
}

/// Strict mode only turns a refused fragment into an error: where a strict
/// parse succeeds, the lenient parse gives the same statements.
pub proof fn law_strict_success_matches_lenient(dialect: DialectKind, input: Seq<char>)
    requires
        parsed_entries(dialect, input, true) is Ok,
    ensures
        parsed_entries(dialect, input, false) == parsed_entries(dialect, input, true),
{
    match dialect {
        DialectKind::Ansi => lemma_ansi_strict_ok(fragments_of(input)),
        DialectKind::Dremio => lemma_dremio_strict_ok(fragments_of(input)),
    }
}

/// Some entry is raw text.
pub open spec fn has_raw(es: Seq<EntryV>) -> bool {
    exists|i: int| 0 <= i < es.len() && #[trigger] es[i] is Raw
}

proof fn lemma_has_raw_push(pre: Seq<EntryV>, e: EntryV)
    ensures
        has_raw(pre.push(e)) == (has_raw(pre) || e is Raw),
{
    let s = pre.push(e);
    if has_raw(pre) {
        let i = choose|i: int| 0 <= i < pre.len() && #[trigger] pre[i] is Raw;
        assert(s[i] == pre[i]);
    }
    if e is Raw {
        assert(s[pre.len() as int] == e);
    }
    if has_raw(s) {
        let i = choose|i: int| 0 <= i < s.len() && #[trigger] s[i] is Raw;
        if i < pre.len() {
            assert(s[i] == pre[i]);
        }
    }
}

proof fn lemma_has_raw_sql(pre: Seq<EntryV>, stmts: Seq<SqlStatement>, has_semicolon: bool)
    ensures
        has_raw(pre + sql_entries(stmts, has_semicolon)) == has_raw(pre),
{
    let s = pre + sql_entries(stmts, has_semicolon);
    if has_raw(pre) {
        let i = choose|i: int| 0 <= i < pre.len() && #[trigger] pre[i] is Raw;
        assert(s[i] == pre[i]);
    }
    if has_raw(s) {
        let i = choose|i: int| 0 <= i < s.len() && #[trigger] s[i] is Raw;
        if i < pre.len() {
            assert(s[i] == pre[i]);
        } else {
            assert(s[i] == sql_entries(stmts, has_semicolon)[i - pre.len()]);
        }
    }
}

proof fn lemma_ansi_raw(frags: Seq<(Seq<char>, bool)>)
    ensures
        ansi_entries(frags, false) is Ok,
        ansi_entries(frags, true) is Err <==> has_raw(ansi_entries(frags, false)->Ok_0),
    decreases frags.len(),
{
    if frags.len() == 0 {
        assert(!has_raw(Seq::<EntryV>::empty()));
    } else {
        lemma_ansi_raw(frags.drop_last());
        let pre = ansi_entries(frags.drop_last(), false)->Ok_0;
        let f = frags.last();
        match screened_parse(DialectKind::Ansi, f.0) {
            Err(_) => lemma_has_raw_push(pre, EntryV::Raw(f.0, f.1)),
            Ok(stmts) => lemma_has_raw_sql(pre, stmts, f.1),
        }
    }
}

proof fn lemma_dremio_raw(frags: Seq<(Seq<char>, bool)>)
    ensures
        dremio_entries(frags, false) is Ok,
        dremio_entries(frags, true) is Err <==> has_raw(dremio_entries(frags, false)->Ok_0),
    decreases frags.len(),
{
    if frags.len() == 0 {
        assert(!has_raw(Seq::<EntryV>::empty()));
    } else {
        lemma_dremio_raw(frags.drop_last());
        let pre = dremio_entries(frags.drop_last(), false)->Ok_0;
        let f = frags.last();
        let t = trimmed(f.0);
        if t.len() > 0 {
            match command_of(t) {
                Some(c) => lemma_has_raw_push(pre, EntryV::Command(c, f.1)),
                None => match screened_parse(DialectKind::Dremio, stripped_sql(t)) {
                    Err(_) => lemma_has_raw_push(pre, EntryV::Raw(f.0, f.1)),
                    Ok(stmts) => {
                        if stmts.len() > 0 {
                            lemma_has_raw_push(pre, EntryV::Sql(stmts.last(), version_of(t), f.1));
                        }
                    },
                },
            }
        }
    }
}

/// A lenient parse never fails, and a strict parse of the same text fails
/// exactly when the lenient one kept some statement as raw text.
pub proof fn law_strict_fails_exactly_on_raw(dialect: DialectKind, input: Seq<char>)
    ensures
        parsed_entries(dialect, input, false) is Ok,
        parsed_entries(dialect, input, true) is Err <==> has_raw(parsed_entries(dialect, input, false)->Ok_0),
{
    match dialect {
        DialectKind::Ansi => lemma_ansi_raw(fragments_of(input)),
        DialectKind::Dremio => lemma_dremio_raw(fragments_of(input)),
    }
}

pub open spec fn parse_result_view(r: Result<Vec<ParsedStatement>, String>) -> Result<Seq<EntryV>, Seq<char>> {
    match r {
        Ok(v) => Ok(entry_views(v@)),
        Err(e) => Err(e@),
    }
}

fn push_sql(
    out: &mut Vec<ParsedStatement>,
    stmt: SqlStatement,
    version: Option<DremioVersionClause>,
    has_semicolon: bool,
)
    requires
        parsed_entries_ok(old(out)@),
    ensures
        parsed_entries_ok(final(out)@),
        final(out)@.len() == old(out)@.len() + 1,
        final(out)@.drop_last() == old(out)@,
        final(out)@.last() matches ParsedStatement::Sql { version: v, has_semicolon: h, .. } && v == version && h == has_semicolon,
        entry_views(final(out)@) == entry_views(old(out)@).push(EntryV::Sql(stmt, opt_version_view(version), has_semicolon)),
{
    let relation_alias_has_as = collect_relation_alias_flags(&stmt);
    let ghost st = stmt;
    out.push(ParsedStatement::Sql { stmt: Box::new(stmt), version, has_semicolon, relation_alias_has_as });
    assert(entry_views(out@) =~= entry_views(old(out)@).push(EntryV::Sql(st, opt_version_view(version), has_semicolon)));
    proof {
        assert forall|i: int| 0 <= i < out@.len() implies parsed_entry_ok(#[trigger] out@[i]) by {
            if i < out@.len() - 1 {
                assert(out@[i] == old(out)@[i]);
            }
        }
    }
}

fn push_raw(out: &mut Vec<ParsedStatement>, frag: &StatementFragment)
    requires
        parsed_entries_ok(old(out)@),
        frag.sql@.len() > 0,
        frag.sql@ == crate::text::trimmed(frag.sql@),
    ensures
        parsed_entries_ok(final(out)@),
        final(out)@.len() == old(out)@.len() + 1,
        final(out)@.drop_last() == old(out)@,
        final(out)@.last() matches ParsedStatement::Raw { sql, has_semicolon } && sql@ == frag.sql@ && has_semicolon == frag.has_semicolon,
        entry_views(final(out)@) == entry_views(old(out)@).push(EntryV::Raw(frag.sql@, frag.has_semicolon)),
{
    out.push(ParsedStatement::Raw { sql: frag.sql.clone(), has_semicolon: frag.has_semicolon });
    assert(entry_views(out@) =~= entry_views(old(out)@).push(EntryV::Raw(frag.sql@, frag.has_semicolon)));
    proof {
        assert forall|i: int| 0 <= i < out@.len() implies parsed_entry_ok(#[trigger] out@[i]) by {
            if i < out@.len() - 1 {
                assert(out@[i] == old(out)@[i]);
            }
        }
    }
}

/// ANSI parsing: each fragment goes to the SQL parser whole, and each of its
/// statements becomes an entry; a refused fragment is an error when strict,
/// raw text otherwise.
fn parse_ansi(fragments: &Vec<StatementFragment>, options: ParseOptions) -> (r: Result<
    Vec<ParsedStatement>,
    String,
>)
    requires
        well_formed_fragments(fragments@),
    ensures
        r is Err ==> options.strict,
        r matches Ok(v) ==> parsed_entries_ok(v@),
        r matches Ok(v) ==> forall|i: int| 0 <= i < v@.len() ==> (#[trigger] v@[i] matches ParsedStatement::Sql { version, .. } ==> version is None),
        r matches Ok(v) ==> forall|i: int| 0 <= i < v@.len() ==> !(#[trigger] v@[i] is Command),
        parse_result_view(r) == ansi_entries(fragment_views(fragments@), options.strict),
{
    let ghost fv = fragment_views(fragments@);
    let mut out: Vec<ParsedStatement> = Vec::new();
    let mut i: usize = 0;
    assert(fv.take(0) =~= Seq::<(Seq<char>, bool)>::empty());
    assert(entry_views(out@) =~= Seq::<EntryV>::empty());
    while i < fragments.len()
        invariant
            i <= fragments@.len(),
            fv == fragment_views(fragments@),
            well_formed_fragments(fragments@),
            parsed_entries_ok(out@),
            forall|j: int| 0 <= j < out@.len() ==> (#[trigger] out@[j] matches ParsedStatement::Sql { version, .. } ==> version is None),
            forall|j: int| 0 <= j < out@.len() ==> !(#[trigger] out@[j] is Command),
            ansi_entries(fv.take(i as int), options.strict) == Ok::<Seq<EntryV>, Seq<char>>(entry_views(out@)),
        decreases fragments.len() - i,
    {
        let frag = &fragments[i];
        proof {
            assert(fv[i as int] == (frag.sql@, frag.has_semicolon));
            assert(fv.take(i + 1).drop_last() =~= fv.take(i as int));
            assert(fv.take(i + 1).last() == fv[i as int]);
        }
        let ghost pre = entry_views(out@);
        match parse_screened(DialectKind::Ansi, frag.sql.as_str()) {
            Err(e) => {
                if options.strict {
                    proof {
                        lemma_ansi_err_stays(fv, i + 1, options.strict);
                    }
                    return Err(e);
                }
                assert(fragments@[i as int].sql@.len() > 0);
                let ghost before = out@;
                push_raw(&mut out, frag);
                proof {
                    assert forall|j: int| 0 <= j < out@.len() implies !(#[trigger] out@[j] is Command) by {
                        if j < out@.len() - 1 { assert(out@[j] == before[j]); }
                    }
                    assert forall|j: int| 0 <= j < out@.len() implies (#[trigger] out@[j] matches ParsedStatement::Sql { version, .. } ==> version is None) by {
                        if j < out@.len() - 1 { assert(out@[j] == before[j]); }
                    }
                }
            },
            Ok(stmts) => {
                let ghost orig = stmts@;
                let ghost mut k: int = 0;
                let mut stmts = stmts;
                assert(orig.take(0) =~= Seq::<SqlStatement>::empty());
                assert(sql_entries(orig.take(0), frag.has_semicolon) =~= Seq::<EntryV>::empty());
                assert(entry_views(out@) =~= pre + sql_entries(orig.take(0), frag.has_semicolon));
                while stmts.len() > 0
                    invariant
                        parsed_entries_ok(out@),
                        forall|j: int| 0 <= j < out@.len() ==> (#[trigger] out@[j] matches ParsedStatement::Sql { version, .. } ==> version is None),
                        forall|j: int| 0 <= j < out@.len() ==> !(#[trigger] out@[j] is Command),
                        0 <= k <= orig.len(),
                        stmts@ == orig.skip(k),
                        entry_views(out@) == pre + sql_entries(orig.take(k), frag.has_semicolon),
                    decreases stmts.len(),
                {
                    let stmt = stmts.remove(0);
                    assert(stmt == orig[k]);
                    let ghost before = out@;
                    push_sql(&mut out, stmt, None, frag.has_semicolon);
                    proof {
                        assert(sql_entries(orig.take(k + 1), frag.has_semicolon) =~= sql_entries(
                            orig.take(k),
                            frag.has_semicolon,
                        ).push(EntryV::Sql(orig[k], None, frag.has_semicolon)));
                        k = k + 1;
                        assert(stmts@ =~= orig.skip(k));
                        assert(entry_views(out@) =~= pre + sql_entries(orig.take(k), frag.has_semicolon));
                    }
                    proof {
                        assert forall|j: int| 0 <= j < out@.len() implies !(#[trigger] out@[j] is Command) by {
                            if j < out@.len() - 1 { assert(out@[j] == before[j]); }
                        }
                        assert forall|j: int| 0 <= j < out@.len() implies (#[trigger] out@[j] matches ParsedStatement::Sql { version, .. } ==> version is None) by {
                            if j < out@.len() - 1 { assert(out@[j] == before[j]); }
                        }
                    }
                }
                assert(orig.take(k) =~= orig);
            },
        }
        i = i + 1;
    }
    assert(fv.take(i as int) =~= fv);
    Ok(out)
}

/// Dremio parsing: a fragment that starts like a Dremio command becomes a
/// command; otherwise its version clause is taken out and the rest goes to
/// the SQL parser, whose last statement is kept; a refused fragment is an
/// error when strict, raw text otherwise.
fn parse_dremio(fragments: &Vec<StatementFragment>, options: ParseOptions) -> (r: Result<
    Vec<ParsedStatement>,
    String,
>)
    requires
        well_formed_fragments(fragments@),
    ensures
        r is Err ==> options.strict,
        r matches Ok(v) ==> parsed_entries_ok(v@),
        parse_result_view(r) == dremio_entries(fragment_views(fragments@), options.strict),
{
    let ghost fv = fragment_views(fragments@);
    let mut out: Vec<ParsedStatement> = Vec::new();
    let mut i: usize = 0;
    assert(fv.take(0) =~= Seq::<(Seq<char>, bool)>::empty());
    assert(entry_views(out@) =~= Seq::<EntryV>::empty());
    while i < fragments.len()
        invariant
            i <= fragments@.len(),
            fv == fragment_views(fragments@),
            well_formed_fragments(fragments@),
            parsed_entries_ok(out@),
            dremio_entries(fv.take(i as int), options.strict) == Ok::<Seq<EntryV>, Seq<char>>(entry_views(out@)),
        decreases fragments.len() - i,
    {
        let frag = &fragments[i];
        proof {
            assert(fv[i as int] == (frag.sql@, frag.has_semicolon));
            assert(fv.take(i + 1).drop_last() =~= fv.take(i as int));
            assert(fv.take(i + 1).last() == fv[i as int]);
        }
        let ghost pre = entry_views(out@);
        let trimmed_sql = string_of(trim(chars_of(frag.sql.as_str()).as_slice()).as_slice());
        if trimmed_sql.as_str().unicode_len() == 0 {
            i = i + 1;
            continue;
        }
        match parse_dremio_command(trimmed_sql.as_str()) {
            Some(cmd) => {
                let ghost before = out@;
                let ghost cv = command_view(cmd);
                out.push(ParsedStatement::Command { cmd, has_semicolon: frag.has_semicolon });
                assert(entry_views(out@) =~= pre.push(EntryV::Command(cv, frag.has_semicolon)));
                proof {
                    assert forall|j: int| 0 <= j < out@.len() implies parsed_entry_ok(#[trigger] out@[j]) by {
                        if j < out@.len() - 1 { assert(out@[j] == before[j]); }
                    }
                }
            },
            None => {
                let parsed = strip_dremio_version_clause(trimmed_sql.as_str());
                match parse_screened(DialectKind::Dremio, parsed.sql.as_str()) {
                    Err(e) => {
                        if options.strict {
                            proof {
                                lemma_dremio_err_stays(fv, i + 1, options.strict);
                            }
                            return Err(e);
                        }
                        assert(fragments@[i as int].sql@.len() > 0);
                        push_raw(&mut out, frag);
                    },
                    Ok(stmts) => {
                        let ghost orig = stmts@;
                        let mut stmts = stmts;
                        if let Some(stmt) = stmts.pop() {
                            assert(stmt == orig.last());
                            push_sql(&mut out, stmt, parsed.version, frag.has_semicolon);
                        }
                    },
                }
            },
        }
        i = i + 1;
    }
    assert(fv.take(i as int) =~= fv);
    Ok(out)
}

/// Parses SQL text under a dialect with default options (not strict).
pub fn parse_sql(input: &str, dialect: DialectKind) -> (r: Result<Vec<ParsedStatement>, String>)
    ensures
        r is Ok,
        r matches Ok(v) ==> parsed_entries_ok(v@),
        parse_result_view(r) == parsed_entries(dialect, input@, false),
{
    parse_sql_with_options(input, dialect, ParseOptions { strict: false })
}

/// Parses SQL text under a dialect. Only a strict parse can fail, and only
/// with the SQL parser's message for a statement it refused.
pub fn parse_sql_with_options(input: &str, dialect: DialectKind, options: ParseOptions) -> (r: Result<
    Vec<ParsedStatement>,
    String,
>)
    ensures
        !options.strict ==> r is Ok,
        r matches Ok(v) ==> parsed_entries_ok(v@),
        dialect == DialectKind::Ansi ==> (r matches Ok(v) ==> forall|i: int| 0 <= i < v@.len() ==> !(#[trigger] v@[i] is Command)),
        parse_result_view(r) == parsed_entries(dialect, input@, options.strict),
{
    let fragments = split_sql_fragments(input);
    match dialect {
        DialectKind::Ansi => parse_ansi(&fragments, options),
        DialectKind::Dremio => parse_dremio(&fragments, options),
    }
}

} // verus!
