//! The layout of queries, stated as documents: what `format_query` and the
//! functions it calls produce. The relation aliases take `AS` as the
//! recorded flags say, read in order from a position; each layout also
//! gives the position after the flags it read.
use vstd::prelude::*;

use crate::blocks::{
    comma_sep, parenthesized_inline, sep_list, spec_comma_clause, spec_comma_clause_per_line, Sep,
};
use crate::commands::DremioVersionClause;
use crate::config::{FormatterConfig, KeywordCase};
use crate::doc::{has_line, DocV};
use crate::dremio_format::version_lines;
use crate::blocks::texts;
use crate::expr_layout::{
    expr_doc, expr_has_query, func_has_query, lemma_expr_reads_no_flag, lemma_window_reads_no_flag, paren_block_doc,
    window_doc,
};
use crate::keywords::{keyword_cased, kw};
use crate::sql_format::{chosen_layout, join_prefix_spec, single_wildcard, SelectLayout};
use crate::sql_model::{
    FactorKind, AliasNode, ExprKind, FuncArgs, FuncCall, NamePart, CteNode, FactorNode, GroupByNode, JoinConstraintNode, JoinNode, LimitNode, QueryBody,
    SelectItemKind, SelectItemNode, SelectNode, SqlExpr, SqlQuery, TableWithJoinsNode, ValuesNode,
    WithClause,
};
use crate::text::{comma_separated, has_prefix, replaced_first};

verus! {

/// A keyword under the keyword case, a space and the rest, as one text.
pub open spec fn keyword_then_doc(cfg: FormatterConfig, keyword: Seq<char>, rest: Seq<char>) -> DocV {
    DocV::Text(keyword_cased(keyword, cfg.keyword_case) + seq![' '] + rest)
}

/// Half the line length, at least one: the width within which a condition
/// stays on one line.
pub open spec fn half_limit(cfg: FormatterConfig) -> usize {
    if cfg.line_length / 2 >= 1 {
        cfg.line_length / 2
    } else {
        1
    }
}

/// Half the line length, at least twenty: the width within which a select
/// item's expression stays on one line.
pub open spec fn projection_limit(cfg: FormatterConfig) -> usize {
    if cfg.line_length / 2 >= 20 {
        cfg.line_length / 2
    } else {
        20
    }
}

pub open spec fn item_has_query(i: SelectItemNode) -> bool {
    match i.kind {
        SelectItemKind::Unnamed(e) => expr_has_query(e),
        SelectItemKind::Aliased { expr, .. } => expr_has_query(expr),
        _ => false,
    }
}

/// A select item: its expression, with `AS <alias>` when it has one; a
/// wildcard as written.
pub open spec fn select_item_doc(
    i: SelectItemNode,
    limit: usize,
    cfg: FormatterConfig,
    flags: Seq<bool>,
    idx: int,
) -> (DocV, int)
    decreases i, 5nat,
{
    match i.kind {
        SelectItemKind::Unnamed(e) => expr_doc(e, limit, cfg, flags, idx),
        SelectItemKind::Aliased { expr, alias } => {
            let (x, i1) = expr_doc(expr, limit, cfg, flags, idx);
            (DocV::Group(seq![x, DocV::Space, kw(cfg, "AS"@), DocV::Space, DocV::Text(alias@)]), i1)
        },
        _ => (DocV::Text(i.text@), idx),
    }
}

/// The select items' layouts in order.
pub open spec fn item_docs(
    items: Seq<SelectItemNode>,
    limit: usize,
    cfg: FormatterConfig,
    flags: Seq<bool>,
    idx: int,
) -> (Seq<DocV>, int)
    decreases items, 0nat,
{
    if items.len() == 0 {
        (Seq::empty(), idx)
    } else {
        let (pre, i1) = item_docs(items.drop_last(), limit, cfg, flags, idx);
        let (d, i2) = select_item_doc(items.last(), limit, cfg, flags, i1);
        (pre.push(d), i2)
    }
}

pub open spec fn layout_sep(l: SelectLayout) -> Sep {
    match l {
        SelectLayout::Inline => Sep::Space,
        SelectLayout::PerLine => Sep::Line,
    }
}

pub open spec fn layout_break(l: SelectLayout) -> DocV {
    match l {
        SelectLayout::Inline => DocV::Space,
        SelectLayout::PerLine => DocV::Line,
    }
}

/// The select items with a comma and a space (inline) or a line (per line)
/// between neighbours.
pub open spec fn projection_doc(
    items: Seq<SelectItemNode>,
    layout: SelectLayout,
    cfg: FormatterConfig,
    flags: Seq<bool>,
    idx: int,
) -> (DocV, int)
    decreases items, 1nat,
{
    let (ds, i1) = item_docs(items, projection_limit(cfg), cfg, flags, idx);
    (DocV::Group(sep_list(ds, comma_sep(layout_sep(layout)))), i1)
}

/// `SELECT [DISTINCT]`, then the list after a space or on indented lines.
pub open spec fn select_head_doc(
    s: SelectNode,
    layout: SelectLayout,
    cfg: FormatterConfig,
    flags: Seq<bool>,
    idx: int,
) -> (DocV, int)
    decreases s, 4nat,
{
    let (pd, i1) = projection_doc(s.projection@, layout, cfg, flags, idx);
    (
        DocV::Group(
            seq![kw(cfg, "SELECT"@)] + (if s.distinct {
                seq![DocV::Space, kw(cfg, "DISTINCT"@)]
            } else {
                Seq::empty()
            }) + seq![layout_break(layout), DocV::Indent(Box::new(pd))],
        ),
        i1,
    )
}

/// `<label> <condition>`, the condition indented when it breaks.
pub open spec fn boolean_clause_doc(
    label: Seq<char>,
    e: SqlExpr,
    cfg: FormatterConfig,
    flags: Seq<bool>,
    idx: int,
) -> (DocV, int)
    decreases e, 5nat,
{
    let (x, i1) = expr_doc(e, half_limit(cfg), cfg, flags, idx);
    (DocV::Group(seq![kw(cfg, label), DocV::Space, DocV::Indent(Box::new(x))]), i1)
}

/// `<label> <condition>` of a join.
pub open spec fn join_boolean_clause_doc(
    label: Seq<char>,
    e: SqlExpr,
    cfg: FormatterConfig,
    flags: Seq<bool>,
    idx: int,
) -> (DocV, int)
    decreases e, 5nat,
{
    let (x, i1) = expr_doc(e, half_limit(cfg), cfg, flags, idx);
    (DocV::Group(seq![kw(cfg, label), DocV::Space, x]), i1)
}

pub open spec fn values_row_doc(row: Seq<String>, explicit: bool, cfg: FormatterConfig) -> DocV {
    if explicit {
        DocV::Group(seq![kw(cfg, "ROW"@), DocV::Space, parenthesized_inline(row)])
    } else {
        parenthesized_inline(row)
    }
}

pub open spec fn values_rows(v: ValuesNode, cfg: FormatterConfig) -> Seq<DocV> {
    v.rows@.map_values(|r: Vec<String>| values_row_doc(r@, v.explicit_row, cfg))
}

/// `VALUES` with its one row after a space, or each row on an indented
/// line.
pub open spec fn values_doc(v: ValuesNode, cfg: FormatterConfig) -> DocV {
    let rows = values_rows(v, cfg);
    DocV::Group(
        seq![kw(cfg, "VALUES"@)] + (if rows.len() == 1 {
            seq![DocV::Space, rows[0]]
        } else {
            seq![DocV::Line, DocV::Indent(Box::new(DocV::Group(sep_list(rows, comma_sep(Sep::Line)))))]
        }),
    )
}

/// An offset without the `OFFSET ` the parser writes before it.
pub open spec fn offset_rest(o: Seq<char>) -> Seq<char> {
    if has_prefix(o, "OFFSET "@) {
        o.skip(7)
    } else {
        o
    }
}

/// `ORDER BY ALL` and the options after it, as the one item of the clause.
pub open spec fn order_by_all_doc(opts: Seq<char>, cfg: FormatterConfig) -> DocV {
    DocV::Group(
        seq![
            DocV::Text(keyword_cased("ORDER BY"@, cfg.keyword_case)),
            DocV::Space,
            DocV::Indent(Box::new(DocV::Group(seq![DocV::Text("ALL"@ + opts)]))),
        ],
    )
}

/// `ORDER BY` on a line of its own, when the query has one.
pub open spec fn order_by_parts(q: SqlQuery, cfg: FormatterConfig) -> Seq<DocV> {
    match q.order_by_all {
        Some(opts) => seq![DocV::Line, order_by_all_doc(opts@, cfg)],
        None => if q.order_by@.len() > 0 {
            seq![DocV::Line, spec_comma_clause("ORDER BY"@, q.order_by@, cfg)]
        } else {
            Seq::empty()
        },
    }
}

/// `ORDER BY`, `LIMIT` and `OFFSET`, each on a line of its own.
pub open spec fn tail_parts(q: SqlQuery, cfg: FormatterConfig) -> Seq<DocV> {
    order_by_parts(q, cfg) + match q.limit {
        LimitNode::Absent => Seq::empty(),
        LimitNode::LimitOffset { limit, offset } => (match limit {
            Some(l) => seq![DocV::Line, keyword_then_doc(cfg, "LIMIT"@, l@)],
            None => Seq::empty(),
        }) + (match offset {
            Some(o) => seq![DocV::Line, keyword_then_doc(cfg, "OFFSET"@, offset_rest(o@))],
            None => Seq::empty(),
        }),
        LimitNode::OffsetCommaLimit { offset, limit } => seq![
            DocV::Line,
            keyword_then_doc(cfg, "LIMIT"@, offset@ + seq![',', ' '] + limit@),
        ],
    }
}

/// The flag read at a position, and the position after it: a recorded
/// flag, or `AS` (and the same position) when none is left.
pub open spec fn take_flag(flags: Seq<bool>, idx: int) -> (bool, int) {
    if 0 <= idx < flags.len() {
        (flags[idx], idx + 1)
    } else {
        (true, idx)
    }
}

/// A relation that the layout prints as written: neither a table function
/// nor a derived table.
pub open spec fn factor_simple(f: FactorNode) -> bool {
    !(f.kind is TableFunction || f.kind is Derived)
}

/// A relation: `TABLE (...)` and derived tables on indented lines; any
/// other relation as written, without the `AS` of an alias whose flag says
/// it was written without it.
pub open spec fn factor_doc(f: FactorNode, cfg: FormatterConfig, flags: Seq<bool>, idx: int) -> (DocV, int)
    decreases f, 5nat,
{
    match f.kind {
        FactorKind::TableFunction(e) => table_function_factor_doc(f.alias, e, cfg, flags, idx),
        FactorKind::Derived { lateral, subquery } => derived_factor_doc(f.alias, lateral, *subquery, cfg, flags, idx),
        _ => plain_factor_doc(f, flags, idx),
    }
}

/// A relation as written, without the `AS` of an alias whose flag says it
/// was written without it.
pub open spec fn plain_factor_doc(f: FactorNode, flags: Seq<bool>, idx: int) -> (DocV, int) {
    match f.alias {
        Some(a) => {
            let (has_as, next) = take_flag(flags, idx);
            (
                if has_as {
                    DocV::Text(f.text@)
                } else {
                    DocV::Text(replaced_first(f.text@, " AS "@ + alias_text(a), " "@ + alias_text(a)))
                },
                next,
            )
        },
        None => (DocV::Text(f.text@), idx),
    }
}

pub open spec fn join_simple(j: JoinNode) -> bool {
    factor_simple(j.relation) && (match j.match_condition {
        Some(m) => !expr_has_query(m),
        None => true,
    }) && (match j.constraint {
        Some(JoinConstraintNode::On(e)) => !expr_has_query(e),
        _ => true,
    })
}

/// The `ASOF ON` condition of a join on an indented line.
pub open spec fn match_condition_parts(m: Option<SqlExpr>, cfg: FormatterConfig, flags: Seq<bool>, idx: int) -> (Seq<DocV>, int)
    decreases m, 6nat,
{
    match m {
        Some(e) => {
            let (d, i1) = join_boolean_clause_doc("ASOF ON"@, e, cfg, flags, idx);
            (seq![DocV::Line, DocV::Indent(Box::new(d))], i1)
        },
        None => (Seq::empty(), idx),
    }
}

/// The `ON` condition of a join on an indented line, or `USING (...)`
/// after a space.
pub open spec fn constraint_parts(
    c: Option<JoinConstraintNode>,
    cfg: FormatterConfig,
    flags: Seq<bool>,
    idx: int,
) -> (Seq<DocV>, int)
    decreases c, 6nat,
{
    match c {
        Some(JoinConstraintNode::On(e)) => {
            let (d, i1) = join_boolean_clause_doc("ON"@, e, cfg, flags, idx);
            (seq![DocV::Line, DocV::Indent(Box::new(d))], i1)
        },
        Some(JoinConstraintNode::Using(cols)) => (
            if cols@.len() > 0 {
                seq![DocV::Space, spec_comma_clause("USING"@, cols@, cfg)]
            } else {
                Seq::empty()
            },
            idx,
        ),
        _ => (Seq::empty(), idx),
    }
}

/// `[NATURAL] <kind> <relation>`, then the `ASOF ON` and `ON` conditions
/// on indented lines, or `USING (...)` after a space.
pub open spec fn join_doc(j: JoinNode, cfg: FormatterConfig, flags: Seq<bool>, idx: int) -> (DocV, int)
    decreases j, 7nat,
{
    let (rel, i1) = factor_doc(j.relation, cfg, flags, idx);
    let head = (if j.constraint == Some(JoinConstraintNode::Natural) {
        seq![kw(cfg, "NATURAL"@), DocV::Space]
    } else {
        Seq::empty()
    }) + seq![kw(cfg, join_prefix_spec(j.op)), DocV::Space, rel];
    let (mp, i2) = match_condition_parts(j.match_condition, cfg, flags, i1);
    let (cp, i3) = constraint_parts(j.constraint, cfg, flags, i2);
    (DocV::Group(seq![DocV::Group(head)] + mp + cp), i3)
}

/// The joins, each on a line of its own.
pub open spec fn joins_parts(js: Seq<JoinNode>, cfg: FormatterConfig, flags: Seq<bool>, idx: int) -> (Seq<DocV>, int)
    decreases js, 0nat,
{
    if js.len() == 0 {
        (Seq::empty(), idx)
    } else {
        let (pre, i1) = joins_parts(js.drop_last(), cfg, flags, idx);
        let (jd, i2) = join_doc(js.last(), cfg, flags, i1);
        (pre + seq![DocV::Line, jd], i2)
    }
}

/// The first relation after `FROM`: indented, unless it is a table
/// function.
pub open spec fn first_relation_doc(f: FactorNode, fd: DocV) -> DocV {
    if f.kind is TableFunction {
        fd
    } else {
        DocV::Indent(Box::new(fd))
    }
}

/// `FROM` with the first relation (and the version clause after it), the
/// other relations and the joins each on a line of its own.
pub open spec fn from_parts(
    from: Seq<TableWithJoinsNode>,
    cfg: FormatterConfig,
    version: Option<DremioVersionClause>,
    flags: Seq<bool>,
    idx: int,
) -> (Seq<DocV>, int)
    decreases from, 0nat,
{
    if from.len() == 0 {
        (Seq::empty(), idx)
    } else {
        let (pre, i1) = from_parts(from.drop_last(), cfg, version, flags, idx);
        let rel = from.last();
        let (fd, i2) = factor_doc(rel.relation, cfg, flags, i1);
        let head = if from.len() == 1 {
            seq![
                DocV::Group(seq![kw(cfg, "FROM"@), DocV::Space, first_relation_doc(rel.relation, fd)]),
            ] + (match version {
                Some(v) => seq![DocV::Line, DocV::Group(version_lines(v, cfg.keyword_case))],
                None => Seq::empty(),
            })
        } else {
            seq![DocV::Line, fd]
        };
        let (jp, i3) = joins_parts(rel.joins@, cfg, flags, i2);
        (pre + head + jp, i3)
    }
}

pub open spec fn from_simple(from: Seq<TableWithJoinsNode>) -> bool {
    forall|k: int|
        0 <= k < from.len() ==> factor_simple(#[trigger] from[k].relation) && forall|j: int|
            0 <= j < from[k].joins@.len() ==> join_simple(#[trigger] from[k].joins@[j])
}

pub open spec fn select_simple(s: SelectNode) -> bool {
    &&& forall|k: int| 0 <= k < s.projection@.len() ==> !item_has_query(#[trigger] s.projection@[k])
    &&& from_simple(s.from@)
    &&& (match s.selection {
        Some(e) => !expr_has_query(e),
        None => true,
    })
    &&& (match s.having {
        Some(e) => !expr_has_query(e),
        None => true,
    })
}

/// `GROUP BY ALL`, or the grouping list (one per line when there are
/// several), on a line of its own.
pub open spec fn group_by_parts(s: SelectNode, cfg: FormatterConfig) -> Seq<DocV> {
    match s.group_by {
        GroupByNode::All => seq![DocV::Line, DocV::Text("GROUP BY ALL"@)],
        GroupByNode::Exprs(v) => if v@.len() > 1 {
            seq![DocV::Line, spec_comma_clause_per_line("GROUP BY"@, v@, cfg)]
        } else if v@.len() == 1 {
            seq![DocV::Line, spec_comma_clause("GROUP BY"@, v@, cfg)]
        } else {
            Seq::empty()
        },
    }
}

/// The select list's layout, per line when a multi-line list is preferred.
pub open spec fn effective_layout(s: SelectNode, cfg: FormatterConfig, prefer_multiline: bool) -> SelectLayout {
    if prefer_multiline && chosen_layout(s, cfg) == SelectLayout::Inline {
        SelectLayout::PerLine
    } else {
        chosen_layout(s, cfg)
    }
}

/// A `WHERE` or `HAVING` condition on a line of its own.
pub open spec fn condition_parts(
    label: Seq<char>,
    e: Option<SqlExpr>,
    cfg: FormatterConfig,
    flags: Seq<bool>,
    idx: int,
) -> (Seq<DocV>, int)
    decreases e, 6nat,
{
    match e {
        Some(x) => {
            let (d, i1) = boolean_clause_doc(label, x, cfg, flags, idx);
            (seq![DocV::Line, d], i1)
        },
        None => (Seq::empty(), idx),
    }
}

/// The parts of a select: its head, `FROM` after a space (inline list) or
/// on a line, then `WHERE`, `GROUP BY` and `HAVING`.
pub open spec fn select_parts(
    s: SelectNode,
    cfg: FormatterConfig,
    version: Option<DremioVersionClause>,
    prefer_multiline: bool,
    flags: Seq<bool>,
    idx: int,
) -> (Seq<DocV>, int)
    decreases s, 7nat,
{
    let layout = effective_layout(s, cfg, prefer_multiline);
    let (hd, i1) = select_head_doc(s, layout, cfg, flags, idx);
    let (fp, i2) = from_parts(s.from@, cfg, version, flags, i1);
    let fd = DocV::Group(fp);
    let from_part = if s.from@.len() > 0 {
        if layout == SelectLayout::Inline && !(has_line(fd) && single_wildcard(s)) {
            seq![DocV::Space, fd]
        } else {
            seq![DocV::Line, fd]
        }
    } else {
        Seq::empty()
    };
    let (wp, i3) = condition_parts("WHERE"@, s.selection, cfg, flags, i2);
    let (hp, i4) = condition_parts("HAVING"@, s.having, cfg, flags, i3);
    (seq![hd] + from_part + wp + group_by_parts(s, cfg) + hp, i4)
}

/// A query whose relations are neither table functions nor derived tables
/// and whose expressions hold no subquery, down through its common table
/// expressions and parentheses.
pub open spec fn query_simple(q: SqlQuery) -> bool
    decreases q,
{
    (match q.with {
        Some(w) => ctes_simple(w.ctes@),
        None => true,
    }) && match q.body {
        QueryBody::Select(s) => select_simple(*s),
        QueryBody::Nested(inner) => query_simple(*inner),
        _ => true,
    }
}

pub open spec fn ctes_simple(cs: Seq<CteNode>) -> bool
    decreases cs,
{
    if cs.len() == 0 {
        true
    } else {
        ctes_simple(cs.drop_last()) && query_simple(cs.last().query)
    }
}

/// A query: its common table expressions and a blank line, its body, then
/// `ORDER BY`, `LIMIT` and `OFFSET`.
pub open spec fn query_doc(
    q: SqlQuery,
    cfg: FormatterConfig,
    version: Option<DremioVersionClause>,
    prefer_multiline: bool,
    flags: Seq<bool>,
    idx: int,
) -> (DocV, int)
    decreases q, 5nat,
{
    let (wp, i1) = match q.with {
        Some(w) => {
            let (wd, i) = with_doc(w, cfg, flags, idx);
            (seq![wd, DocV::Line, DocV::Line], i)
        },
        None => (Seq::empty(), idx),
    };
    let (bp, i2) = match q.body {
        QueryBody::Select(s) => select_parts(*s, cfg, version, prefer_multiline, flags, i1),
        QueryBody::Nested(inner) => {
            let (d, i) = query_doc(*inner, cfg, version, prefer_multiline, flags, i1);
            (seq![paren_block_doc(d)], i)
        },
        QueryBody::Values(v) => (seq![values_doc(v, cfg)], i1),
        QueryBody::Other(t) => (seq![DocV::Text(t@)], i1),
    };
    (DocV::Group(wp + bp + tail_parts(q, cfg)), i2)
}

/// `WITH [RECURSIVE]` and the common table expressions, one per line after
/// the first.
pub open spec fn with_doc(w: WithClause, cfg: FormatterConfig, flags: Seq<bool>, idx: int) -> (DocV, int)
    decreases w, 5nat,
{
    let (cp, i) = cte_parts(w.ctes@, cfg, flags, idx);
    (
        DocV::Group(
            seq![kw(cfg, "WITH"@)] + (if w.recursive {
                seq![DocV::Space, kw(cfg, "RECURSIVE"@)]
            } else {
                Seq::empty()
            }) + cp,
        ),
        i,
    )
}

pub open spec fn cte_parts(cs: Seq<CteNode>, cfg: FormatterConfig, flags: Seq<bool>, idx: int) -> (Seq<DocV>, int)
    decreases cs, 0nat,
{
    if cs.len() == 0 {
        (Seq::empty(), idx)
    } else {
        let (pre, i1) = cte_parts(cs.drop_last(), cfg, flags, idx);
        let (cd, i2) = cte_doc(cs.last(), cfg, flags, i1);
        (pre + (if cs.len() == 1 {
            seq![DocV::Space]
        } else {
            seq![DocV::Text(","@), DocV::Line]
        }) + seq![cd], i2)
    }
}

/// `<name> AS [<materialization>] (`, the query indented, `)`, and the
/// `FROM` that follows it when there is one.
pub open spec fn cte_doc(c: CteNode, cfg: FormatterConfig, flags: Seq<bool>, idx: int) -> (DocV, int)
    decreases c, 5nat,
{
    let (qd, i) = query_doc(c.query, cfg, None, false, flags, idx);
    let head = DocV::Group(
        seq![DocV::Text(c.alias@), DocV::Space, kw(cfg, "AS"@)] + (match c.materialized {
            Some(m) => seq![DocV::Space, DocV::Text(m@)],
            None => Seq::empty(),
        }) + seq![DocV::Space, DocV::Text("("@)],
    );
    (
        DocV::Group(
            seq![head, DocV::Line, DocV::Indent(Box::new(qd)), DocV::Line, DocV::Text(")"@)] + (match c.from {
                Some(f) => seq![DocV::Space, kw(cfg, "FROM"@), DocV::Space, DocV::Text(f@)],
                None => Seq::empty(),
            }),
        ),
        i,
    )
}

/// The name of a function called in `TABLE (...)`: a single unquoted
/// identifier under the keyword case, any other name as written.
pub open spec fn invocation_name(f: FuncCall, kc: KeywordCase) -> Seq<char> {
    if f.name_parts@.len() == 1 && (f.name_parts@[0] matches NamePart::Ident { quoted, .. } && !quoted) {
        keyword_cased(f.name_parts@[0]->value@, kc)
    } else {
        f.name_text@
    }
}

/// Texts joined by single spaces.
pub open spec fn clause_text(clauses: Seq<String>) -> Seq<char>
    decreases clauses.len(),
{
    if clauses.len() == 0 {
        Seq::empty()
    } else if clauses.len() == 1 {
        clauses[0]@
    } else {
        clause_text(clauses.drop_last()) + seq![' '] + clauses.last()@
    }
}

/// The arguments of a call, one per line: `DISTINCT` (or the like) before
/// the first, then the trailing clauses on a line of their own.
pub open spec fn list_arg_parts(
    duplicate: Option<String>,
    args: Seq<String>,
    clauses: Seq<String>,
    kc: KeywordCase,
) -> Seq<DocV> {
    let dup: Seq<DocV> = match duplicate {
        Some(d) => seq![DocV::Text(keyword_cased(d@, kc))] + (if args.len() > 0 {
            seq![DocV::Space]
        } else {
            Seq::empty()
        }),
        None => Seq::empty(),
    };
    let base = dup + sep_list(texts(args), comma_sep(Sep::Line));
    if clauses.len() > 0 {
        base + (if base.len() > 0 {
            seq![DocV::Line]
        } else {
            Seq::empty()
        }) + seq![DocV::Text(clause_text(clauses))]
    } else {
        base
    }
}

/// A call with its arguments (or its subquery) on indented lines between
/// its parentheses, followed by its window.
pub open spec fn invocation_doc(f: FuncCall, cfg: FormatterConfig, flags: Seq<bool>, idx: int) -> (DocV, int)
    decreases f, 5nat,
{
    let open = DocV::Group(seq![DocV::Text(invocation_name(f, cfg.keyword_case)), DocV::Text("("@)]);
    let (args, i1) = match f.args {
        FuncArgs::Absent => (Seq::empty(), idx),
        FuncArgs::Subquery(q) => {
            let (qd, i) = query_doc(*q, cfg, None, false, flags, idx);
            (seq![DocV::Group(seq![DocV::Line, DocV::Indent(Box::new(qd)), DocV::Line])], i)
        },
        FuncArgs::List { duplicate, args, clauses } => (
            seq![
                DocV::Group(
                    seq![
                        DocV::Line,
                        DocV::Indent(
                            Box::new(DocV::Group(list_arg_parts(duplicate, args@, clauses@, cfg.keyword_case))),
                        ),
                        DocV::Line,
                    ],
                ),
            ],
            idx,
        ),
    };
    let (wp, i2) = match f.over {
        Some(w) => {
            let (wd, i) = window_doc(w, half_limit(cfg), cfg, flags, i1);
            (seq![DocV::Space, wd], i)
        },
        None => (Seq::empty(), i1),
    };
    (DocV::Group(seq![open] + args + seq![DocV::Group(seq![DocV::Text(")"@)])] + wp), i2)
}

/// The expression inside `TABLE (...)`: a call laid out with its arguments
/// one per line, or the expression's own layout.
pub open spec fn table_fn_doc(e: SqlExpr, cfg: FormatterConfig, flags: Seq<bool>, idx: int) -> (DocV, int)
    decreases e, 5nat,
{
    match e.kind {
        ExprKind::Function(f) => invocation_doc(*f, cfg, flags, idx),
        _ => expr_doc(e, half_limit(cfg), cfg, flags, idx),
    }
}

/// An alias as written after its optional `AS`: the name, then the column
/// aliases in brackets when there are any.
#[verifier::opaque]
pub open spec fn alias_text(a: AliasNode) -> Seq<char> {
    a.name@ + (if a.columns@.len() > 0 {
        seq![' ', '('] + comma_separated(crate::literals::strings(a.columns@)) + seq![')']
    } else {
        Seq::empty()
    })
}

/// ` [AS] <alias>` after a parenthesised relation, as the flag says.
pub open spec fn alias_parts(alias: Option<AliasNode>, cfg: FormatterConfig, flags: Seq<bool>, idx: int) -> (Seq<DocV>, int) {
    match alias {
        Some(a) => {
            let (has_as, next) = take_flag(flags, idx);
            (
                seq![DocV::Space] + (if has_as {
                    seq![kw(cfg, "AS"@), DocV::Space]
                } else {
                    Seq::empty()
                }) + seq![DocV::Text(alias_text(a))],
                next,
            )
        },
        None => (Seq::empty(), idx),
    }
}

/// `TABLE (`, the expression on an indented line, `)` and the alias.
pub open spec fn table_function_factor_doc(
    alias: Option<AliasNode>,
    e: SqlExpr,
    cfg: FormatterConfig,
    flags: Seq<bool>,
    idx: int,
) -> (DocV, int)
    decreases e, 6nat,
{
    let (inner, i1) = table_fn_doc(e, cfg, flags, idx);
    let (ap, i2) = alias_parts(alias, cfg, flags, i1);
    (
        DocV::Group(
            seq![
                kw(cfg, "TABLE"@),
                DocV::Space,
                DocV::Text("("@),
                DocV::Line,
                DocV::Indent(Box::new(inner)),
                DocV::Line,
                DocV::Text(")"@),
            ] + ap,
        ),
        i2,
    )
}

/// `[LATERAL] (`, the query on indented lines with its select list one item
/// per line, `)` and the alias.
pub open spec fn derived_factor_doc(
    alias: Option<AliasNode>,
    lateral: bool,
    sub: SqlQuery,
    cfg: FormatterConfig,
    flags: Seq<bool>,
    idx: int,
) -> (DocV, int)
    decreases sub, 6nat,
{
    let (inner, i1) = query_doc(sub, cfg, None, true, flags, idx);
    let (ap, i2) = alias_parts(alias, cfg, flags, i1);
    (
        DocV::Group(
            (if lateral {
                seq![kw(cfg, "LATERAL"@), DocV::Space]
            } else {
                Seq::empty()
            }) + seq![DocV::Text("("@), DocV::Line, DocV::Indent(Box::new(inner)), DocV::Line, DocV::Text(")"@)] + ap,
        ),
        i2,
    )
}

/// A query whose relations are tables, derived tables over such queries or
/// table functions without subqueries (no parenthesised join), and whose
/// expressions hold no subquery, down through its common table expressions
/// and parentheses.
pub open spec fn query_plain(q: SqlQuery) -> bool
    decreases q, 3nat,
{
    (match q.with {
        Some(w) => ctes_plain(w.ctes@),
        None => true,
    }) && match q.body {
        QueryBody::Select(s) => select_plain(*s),
        QueryBody::Nested(inner) => query_plain(*inner),
        _ => true,
    }
}

pub open spec fn ctes_plain(cs: Seq<CteNode>) -> bool
    decreases cs, 0nat,
{
    if cs.len() == 0 {
        true
    } else {
        ctes_plain(cs.drop_last()) && query_plain(cs.last().query)
    }
}

pub open spec fn select_plain(s: SelectNode) -> bool
    decreases s, 2nat,
{
    &&& forall|k: int| 0 <= k < s.projection@.len() ==> !item_has_query(#[trigger] s.projection@[k])
    &&& from_plain(s.from@)
    &&& (match s.selection {
        Some(e) => !expr_has_query(e),
        None => true,
    })
    &&& (match s.having {
        Some(e) => !expr_has_query(e),
        None => true,
    })
}

pub open spec fn from_plain(from: Seq<TableWithJoinsNode>) -> bool
    decreases from, 0nat,
{
    if from.len() == 0 {
        true
    } else {
        from_plain(from.drop_last()) && factor_plain(from.last().relation) && joins_plain(from.last().joins@)
    }
}

pub open spec fn joins_plain(js: Seq<JoinNode>) -> bool
    decreases js, 0nat,
{
    if js.len() == 0 {
        true
    } else {
        joins_plain(js.drop_last()) && factor_plain(js.last().relation) && (match js.last().match_condition {
            Some(m) => !expr_has_query(m),
            None => true,
        }) && (match js.last().constraint {
            Some(JoinConstraintNode::On(e)) => !expr_has_query(e),
            _ => true,
        })
    }
}

/// A table, a derived table over a plain query, or a table function whose
/// expression holds no subquery.
pub open spec fn factor_plain(f: FactorNode) -> bool
    decreases f, 1nat,
{
    match f.kind {
        FactorKind::Plain => true,
        FactorKind::Derived { subquery, .. } => query_plain(*subquery),
        FactorKind::TableFunction(e) => match e.kind {
            ExprKind::Function(fc) => !func_has_query(*fc) && !(fc.args is Subquery),
            _ => !expr_has_query(e),
        },
        _ => false,
    }
}

/// A select list without subqueries reads no alias flag.
proof fn lemma_items_read_no_flag(
    items: Seq<SelectItemNode>,
    limit: usize,
    cfg: FormatterConfig,
    flags: Seq<bool>,
    idx: int,
)
    requires
        forall|k: int| 0 <= k < items.len() ==> !item_has_query(#[trigger] items[k]),
    ensures
        item_docs(items, limit, cfg, flags, idx).1 == idx,
    decreases items.len(),
{
    if items.len() > 0 {
        lemma_items_read_no_flag(items.drop_last(), limit, cfg, flags, idx);
        assert(items.last() == items[items.len() - 1]);
        assert(!item_has_query(items[items.len() - 1]));
        match items.last().kind {
            SelectItemKind::Unnamed(e) => lemma_expr_reads_no_flag(e, limit, cfg, flags, idx),
            SelectItemKind::Aliased { expr, .. } => lemma_expr_reads_no_flag(expr, limit, cfg, flags, idx),
            _ => {},
        }
        assert(select_item_doc(items.last(), limit, cfg, flags, idx).1 == idx);
    }
}

/// A `WHERE` or `HAVING` condition without subqueries reads no alias flag.
proof fn lemma_condition_reads_no_flag(
    label: Seq<char>,
    e: Option<SqlExpr>,
    cfg: FormatterConfig,
    flags: Seq<bool>,
    idx: int,
)
    requires
        e matches Some(x) ==> !expr_has_query(x),
    ensures
        condition_parts(label, e, cfg, flags, idx).1 == idx,
{
    if let Some(x) = e {
        lemma_expr_reads_no_flag(x, half_limit(cfg), cfg, flags, idx);
    }
}

/// A plain relation reads the flags recorded for it.
proof fn lemma_factor_flags(f: FactorNode, cfg: FormatterConfig, flags: Seq<bool>, idx: int)
    requires
        factor_plain(f),
        0 <= idx,
        idx + crate::parser::factor_alias_flags(f).len() <= flags.len(),
    ensures
        factor_doc(f, cfg, flags, idx).1 == idx + crate::parser::factor_alias_flags(f).len(),
    decreases f, 1nat,
{
    match f.kind {
        FactorKind::Derived { lateral, subquery } => {
            law_alias_flags_consumed(*subquery, cfg, None, true, flags, idx);
            assert(factor_doc(f, cfg, flags, idx) == derived_factor_doc(f.alias, lateral, *subquery, cfg, flags, idx));
        },
        FactorKind::TableFunction(e) => {
            match e.kind {
                ExprKind::Function(fc) => {
                    if let Some(w) = fc.over {
                        lemma_window_reads_no_flag(w, half_limit(cfg), cfg, flags, idx);
                    }
                    assert(invocation_doc(*fc, cfg, flags, idx).1 == idx);
                },
                _ => lemma_expr_reads_no_flag(e, half_limit(cfg), cfg, flags, idx),
            }
            assert(table_fn_doc(e, cfg, flags, idx).1 == idx);
            assert(factor_doc(f, cfg, flags, idx) == table_function_factor_doc(f.alias, e, cfg, flags, idx));
        },
        _ => {},
    }
}

proof fn lemma_joins_flags(js: Seq<JoinNode>, cfg: FormatterConfig, flags: Seq<bool>, idx: int)
    requires
        joins_plain(js),
        0 <= idx,
        idx + crate::parser::joins_alias_flags(js).len() <= flags.len(),
    ensures
        joins_parts(js, cfg, flags, idx).1 == idx + crate::parser::joins_alias_flags(js).len(),
    decreases js, 0nat,
{
    if js.len() > 0 {
        let j = js.last();
        lemma_joins_flags(js.drop_last(), cfg, flags, idx);
        let i1 = joins_parts(js.drop_last(), cfg, flags, idx).1;
        lemma_factor_flags(j.relation, cfg, flags, i1);
        let i2 = factor_doc(j.relation, cfg, flags, i1).1;
        if let Some(m) = j.match_condition {
            lemma_expr_reads_no_flag(m, half_limit(cfg), cfg, flags, i2);
        }
        let i3 = match_condition_parts(j.match_condition, cfg, flags, i2).1;
        assert(i3 == i2);
        if let Some(JoinConstraintNode::On(e)) = j.constraint {
            lemma_expr_reads_no_flag(e, half_limit(cfg), cfg, flags, i3);
        }
        assert(constraint_parts(j.constraint, cfg, flags, i3).1 == i3);
        assert(join_doc(j, cfg, flags, i1).1 == i2);
    }
}

proof fn lemma_from_flags(
    from: Seq<TableWithJoinsNode>,
    cfg: FormatterConfig,
    version: Option<DremioVersionClause>,
    flags: Seq<bool>,
    idx: int,
)
    requires
        from_plain(from),
        0 <= idx,
        idx + crate::parser::relations_alias_flags(from).len() <= flags.len(),
    ensures
        from_parts(from, cfg, version, flags, idx).1 == idx + crate::parser::relations_alias_flags(from).len(),
    decreases from, 0nat,
{
    if from.len() > 0 {
        let rest = from.drop_last();
        let rel = from.last();
        assert(crate::parser::relations_alias_flags(from) == crate::parser::relations_alias_flags(rest)
            + crate::parser::relation_alias_flags(rel));
        assert(crate::parser::relation_alias_flags(rel) == crate::parser::factor_alias_flags(rel.relation)
            + crate::parser::joins_alias_flags(rel.joins@));
        lemma_from_flags(rest, cfg, version, flags, idx);
        let i1 = from_parts(rest, cfg, version, flags, idx).1;
        lemma_factor_flags(rel.relation, cfg, flags, i1);
        let i2 = factor_doc(rel.relation, cfg, flags, i1).1;
        lemma_joins_flags(rel.joins@, cfg, flags, i2);
    }
}

proof fn lemma_ctes_flags(cs: Seq<CteNode>, cfg: FormatterConfig, flags: Seq<bool>, idx: int)
    requires
        ctes_plain(cs),
        0 <= idx,
        idx + crate::parser::ctes_alias_flags(cs).len() <= flags.len(),
    ensures
        cte_parts(cs, cfg, flags, idx).1 == idx + crate::parser::ctes_alias_flags(cs).len(),
    decreases cs, 0nat,
{
    if cs.len() > 0 {
        assert(crate::parser::ctes_alias_flags(cs) == crate::parser::ctes_alias_flags(cs.drop_last())
            + crate::parser::query_alias_flags(cs.last().query));
        lemma_ctes_flags(cs.drop_last(), cfg, flags, idx);
        let i1 = cte_parts(cs.drop_last(), cfg, flags, idx).1;
        law_alias_flags_consumed(cs.last().query, cfg, None, false, flags, i1);
        assert(cte_doc(cs.last(), cfg, flags, i1).1 == query_doc(cs.last().query, cfg, None, false, flags, i1).1);
    }
}

/// The layout of a query whose relations are tables, derived tables or
/// table functions (no parenthesised join) and whose expressions hold no
/// subquery reads exactly as many relation-alias flags as the parser
/// records for it (one per alias, in the same order of traversal), so the
/// flags that follow belong to what comes after the query.
#[verifier::spinoff_prover]
#[verifier::rlimit(100)]
pub proof fn law_alias_flags_consumed(
    q: SqlQuery,
    cfg: FormatterConfig,
    version: Option<DremioVersionClause>,
    prefer_multiline: bool,
    flags: Seq<bool>,
    idx: int,
)
    requires
        query_plain(q),
        0 <= idx,
        idx + crate::parser::query_alias_flags(q).len() <= flags.len(),
    ensures
        query_doc(q, cfg, version, prefer_multiline, flags, idx).1 == idx + crate::parser::query_alias_flags(q).len(),
    decreases q, 3nat,
{
    let wl: int = match q.with {
        Some(w) => crate::parser::ctes_alias_flags(w.ctes@).len() as int,
        None => 0,
    };
    let i1 = match q.with {
        Some(w) => {
            lemma_ctes_flags(w.ctes@, cfg, flags, idx);
            with_doc(w, cfg, flags, idx).1
        },
        None => idx,
    };
    assert(i1 == idx + wl);
    match q.body {
        QueryBody::Select(s) => {
            reveal_with_fuel(query_plain, 2);
            assert(select_plain(*s));
            assert(from_plain(s.from@));
            let layout = effective_layout(*s, cfg, prefer_multiline);
            lemma_items_read_no_flag(s.projection@, projection_limit(cfg), cfg, flags, i1);
            assert(projection_doc(s.projection@, layout, cfg, flags, i1).1 == i1);
            let i2 = select_head_doc(*s, layout, cfg, flags, i1).1;
            assert(i2 == i1);
            lemma_from_flags(s.from@, cfg, version, flags, i2);
            let i3 = from_parts(s.from@, cfg, version, flags, i2).1;
            lemma_condition_reads_no_flag("WHERE"@, s.selection, cfg, flags, i3);
            lemma_condition_reads_no_flag("HAVING"@, s.having, cfg, flags, i3);
            assert(select_parts(*s, cfg, version, prefer_multiline, flags, i1).1 == i3);
        },
        QueryBody::Nested(inner) => {
            law_alias_flags_consumed(*inner, cfg, version, prefer_multiline, flags, i1);
        },
        _ => {},
    }
}

} // verus!
