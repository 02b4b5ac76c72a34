//! The layout of expressions, stated as documents: what `format_expr` and
//! the functions it calls produce. A subquery's layout also depends on the
//! relation aliases met before it, so each layout reads the recorded alias
//! flags from a position and gives the position after the flags it read.
use vstd::prelude::*;

use crate::blocks::{sep_list, spec_window_clause, texts};
use crate::config::{FormatterConfig, KeywordCase};
use crate::doc::DocV;
use crate::query_layout::query_doc;
use crate::keywords::{builtin_function_names, keyword_cased, kw};
use crate::sql_format::{has_logical_ops, predicate_keyword, type_has_custom};
use crate::sql_model::{
    BinOp, CaseBranch, CastStyle, DateField, ExprKind, FrameBound, FrameNode, FuncCall,
    IntervalExpr, NamePart, SqlExpr, TypeName, WindowRef, WindowSpecNode,
};
use crate::text::{decimal, eq_ignore_ascii_case, has_prefix, replaced};

verus! {

/// Whether an expression holds a subquery that the layout formats: an
/// `EXISTS` or a parenthesised query, also inside a cast, an interval, a
/// predicate, an operation, parentheses, a `CASE` or a window's
/// `PARTITION BY` and frame bounds.
pub open spec fn expr_has_query(e: SqlExpr) -> bool
    decreases e, 1nat,
{
    match e.kind {
        ExprKind::Exists { .. } => true,
        ExprKind::Subquery(_) => true,
        ExprKind::Function(f) => func_has_query(*f),
        ExprKind::Cast { expr, .. } => expr_has_query(*expr),
        ExprKind::Interval(i) => expr_has_query(i.value),
        ExprKind::Predicate { inner, .. } => expr_has_query(*inner),
        ExprKind::BinaryOp { left, right, .. } => expr_has_query(*left) || expr_has_query(*right),
        ExprKind::Nested(inner) => expr_has_query(*inner),
        ExprKind::Case { operand, branches, else_result } => {
            (match operand {
                Some(o) => expr_has_query(*o),
                None => false,
            }) || branches_have_query(branches@) || (match else_result {
                Some(x) => expr_has_query(*x),
                None => false,
            })
        },
        _ => false,
    }
}

pub open spec fn branches_have_query(bs: Seq<CaseBranch>) -> bool
    decreases bs, 0nat,
{
    if bs.len() == 0 {
        false
    } else {
        branches_have_query(bs.drop_last()) || expr_has_query(bs.last().condition) || expr_has_query(
            bs.last().result,
        )
    }
}

pub open spec fn exprs_have_query(es: Seq<SqlExpr>) -> bool
    decreases es, 0nat,
{
    if es.len() == 0 {
        false
    } else {
        exprs_have_query(es.drop_last()) || expr_has_query(es.last())
    }
}

pub open spec fn func_has_query(f: FuncCall) -> bool
    decreases f, 0nat,
{
    match f.over {
        Some(w) => window_has_query(w),
        None => false,
    }
}

pub open spec fn window_has_query(w: WindowRef) -> bool
    decreases w, 0nat,
{
    match w {
        WindowRef::Spec(s) => spec_has_query(s),
        WindowRef::Named(_) => false,
    }
}

pub open spec fn spec_has_query(s: WindowSpecNode) -> bool
    decreases s, 0nat,
{
    exprs_have_query(s.partition_by@) || (match s.frame {
        Some(fr) => frame_has_query(fr),
        None => false,
    })
}

pub open spec fn frame_has_query(fr: FrameNode) -> bool
    decreases fr, 0nat,
{
    bound_has_query(fr.start) || (match fr.end {
        Some(b) => bound_has_query(b),
        None => false,
    })
}

pub open spec fn bound_has_query(b: FrameBound) -> bool
    decreases b, 0nat,
{
    match b {
        FrameBound::Preceding(Some(x)) => expr_has_query(*x),
        FrameBound::Following(Some(x)) => expr_has_query(*x),
        _ => false,
    }
}

/// `(`, a line, the body indented, a line, `)`.
pub open spec fn paren_block_doc(body: DocV) -> DocV {
    DocV::Group(seq![DocV::Text("("@), DocV::Line, DocV::Indent(Box::new(body)), DocV::Line, DocV::Text(")"@)])
}

/// A data type as written, under the keyword case unless it names a custom
/// type.
pub open spec fn data_type_text(t: TypeName, kc: KeywordCase) -> Seq<char> {
    if type_has_custom(t) {
        t.text@
    } else {
        keyword_cased(t.text@, kc)
    }
}

/// A date-time field: a custom one as written, `WEEK(<day>)` or a named one
/// under the keyword case.
pub open spec fn datetime_field_text(f: DateField, kc: KeywordCase) -> Seq<char> {
    match f {
        DateField::Custom(name) => name@,
        DateField::Week(Some(day)) => keyword_cased("WEEK"@, kc) + seq!['('] + day@ + seq![')'],
        DateField::Week(None) => keyword_cased("WEEK"@, kc),
        DateField::Second => keyword_cased("SECOND"@, kc),
        DateField::Named(name) => keyword_cased(name@, kc),
    }
}

/// ` (<n>)`, or ` (<n>, <m>)`.
pub open spec fn precision_doc(n: u64, m: Option<u64>) -> DocV {
    DocV::Text(
        seq![' ', '('] + decimal(n as nat) + (match m {
            Some(m) => seq![',', ' '] + decimal(m as nat),
            None => Seq::empty(),
        }) + seq![')'],
    )
}

/// A typed string such as `DATE '2024-01-01'`: the type and the value with
/// its quotes doubled, or the value as the parser writes it; ODBC syntax is
/// kept whole.
pub open spec fn typed_string_doc(
    odbc: bool,
    t: TypeName,
    single_quoted: Option<String>,
    value_text: String,
    whole: String,
    kc: KeywordCase,
) -> DocV {
    if odbc {
        DocV::Text(whole@)
    } else {
        DocV::Text(
            data_type_text(t, kc) + seq![' '] + (match single_quoted {
                Some(v) => seq!['\''] + replaced(v@, "'"@, "''"@) + seq!['\''],
                None => value_text@,
            }),
        )
    }
}

/// The tail of an interval after its value.
pub open spec fn interval_tail(i: IntervalExpr, kc: KeywordCase) -> Seq<DocV> {
    if i.leading_field == Some(DateField::Second) && i.leading_precision is Some
        && i.fractional_seconds_precision is Some {
        seq![
            DocV::Space,
            DocV::Text(keyword_cased("SECOND"@, kc)),
            precision_doc(i.leading_precision.unwrap(), i.fractional_seconds_precision),
        ]
    } else {
        (match i.leading_field {
            Some(f) => seq![DocV::Space, DocV::Text(datetime_field_text(f, kc))],
            None => Seq::empty(),
        }) + (match i.leading_precision {
            Some(p) => seq![precision_doc(p, None)],
            None => Seq::empty(),
        }) + (match i.last_field {
            Some(f) => seq![
                DocV::Space,
                DocV::Text(keyword_cased("TO"@, kc)),
                DocV::Space,
                DocV::Text(datetime_field_text(f, kc)),
            ],
            None => Seq::empty(),
        }) + (match i.fractional_seconds_precision {
            Some(p) => seq![precision_doc(p, None)],
            None => Seq::empty(),
        })
    }
}

/// The length of a `CASE` on one line: `CASE`, the operand, `WHEN ... THEN
/// ...` per branch, `ELSE ...` and `END`, each part after a space.
pub open spec fn case_inline_len(
    operand: Option<Box<SqlExpr>>,
    branches: Seq<CaseBranch>,
    else_result: Option<Box<SqlExpr>>,
) -> nat {
    4 + (match operand {
        Some(o) => o.text@.len() + 1,
        None => 0,
    }) + branches_inline_len(branches) + (match else_result {
        Some(x) => 6 + x.text@.len(),
        None => 0,
    }) + 4
}

pub open spec fn branches_inline_len(bs: Seq<CaseBranch>) -> nat
    decreases bs.len(),
{
    if bs.len() == 0 {
        0
    } else {
        branches_inline_len(bs.drop_last()) + 12 + bs.last().condition.text@.len() + bs.last().result.text@.len()
    }
}

/// A length as a `usize` counts it, stopping at the largest value.
pub open spec fn clamped(n: nat) -> nat {
    if n > usize::MAX {
        usize::MAX as nat
    } else {
        n
    }
}

/// A call as written without its window: `{fn ` for ODBC syntax, the name,
/// the parameters and arguments, then `WITHIN GROUP (ORDER BY ...)`,
/// `FILTER (WHERE ...)` and the null treatment where present, and `}` for
/// ODBC syntax.
#[verifier::opaque]
pub open spec fn call_text(f: FuncCall) -> Seq<char> {
    (if f.odbc { "{fn "@ } else { Seq::empty() }) + f.name_text@ + f.parameters_text@ + f.args_text@
        + (if f.within_group@.len() > 0 {
        " WITHIN GROUP (ORDER BY "@ + crate::text::comma_separated(crate::literals::strings(f.within_group@)) + ")"@
    } else {
        Seq::empty()
    }) + (match f.filter {
        Some(c) => " FILTER (WHERE "@ + c@ + ")"@,
        None => Seq::empty(),
    }) + (match f.null_treatment {
        Some(n) => " "@ + n@,
        None => Seq::empty(),
    }) + (if f.odbc { "}"@ } else { Seq::empty() })
}

/// The function name put under the keyword case in a call's text, when
/// the text starts with the name (after `{fn ` for ODBC syntax).
pub open spec fn name_replaced(f: FuncCall, t: Seq<char>, new_name: Seq<char>) -> Seq<char> {
    let lead: Seq<char> = if f.odbc { "{fn "@ } else { Seq::empty() };
    let prefix = lead + f.name_text@;
    if has_prefix(t, prefix) {
        t.take(lead.len() as int) + new_name + t.skip(prefix.len() as int)
    } else {
        t
    }
}

/// Whether a name is one of the built-in aggregate and window functions.
pub open spec fn is_builtin_name(v: Seq<char>) -> bool {
    exists|i: int| 0 <= i < builtin_function_names().len() && eq_ignore_ascii_case(v, #[trigger] builtin_function_names()[i])
}

/// The text of a call without its window: the parser's, with the name under
/// the keyword case when it is a single unquoted built-in name.
pub open spec fn func_base_text(f: FuncCall, kc: KeywordCase) -> Seq<char> {
    if f.name_parts@.len() == 1 && (f.name_parts@[0] matches NamePart::Ident { value, quoted } && !quoted
        && is_builtin_name(value@)) {
        name_replaced(f, call_text(f), keyword_cased(f.name_parts@[0]->value@, kc))
    } else {
        call_text(f)
    }
}

/// The layout of an expression, and the position in the relation-alias
/// flags after those that its subqueries read, starting at `idx`.
pub open spec fn expr_doc(e: SqlExpr, limit: usize, cfg: FormatterConfig, flags: Seq<bool>, idx: int) -> (DocV, int)
    decreases e, 3nat,
{
    match e.kind {
        ExprKind::Value { boolean } => (
            match boolean {
                Some(true) => kw(cfg, "TRUE"@),
                Some(false) => kw(cfg, "FALSE"@),
                None => DocV::Text(e.text@),
            },
            idx,
        ),
        ExprKind::Function(f) => func_doc(*f, limit, cfg, flags, idx),
        ExprKind::Cast { style, expr, data_type, format } => {
            let (x, i1) = expr_doc(*expr, limit, cfg, flags, idx);
            let t = DocV::Text(data_type_text(data_type, cfg.keyword_case));
            (
                match style {
                    CastStyle::DoubleColon => DocV::Group(seq![x, DocV::Text("::"@), t]),
                    _ => {
                        let name: Seq<char> = match style {
                            CastStyle::Cast => "CAST"@,
                            CastStyle::TryCast => "TRY_CAST"@,
                            _ => "SAFE_CAST"@,
                        };
                        DocV::Group(
                            seq![kw(cfg, name), DocV::Text("("@), x, DocV::Space, kw(cfg, "AS"@), DocV::Space, t]
                                + (match format {
                                Some(fmt) => seq![DocV::Space, kw(cfg, "FORMAT"@), DocV::Space, DocV::Text(fmt@)],
                                None => Seq::empty(),
                            }) + seq![DocV::Text(")"@)],
                        )
                    },
                },
                i1,
            )
        },
        ExprKind::TypedString { odbc, data_type, single_quoted, value_text } => (
            typed_string_doc(odbc, data_type, single_quoted, value_text, e.text, cfg.keyword_case),
            idx,
        ),
        ExprKind::Interval(i) => {
            let (x, i1) = expr_doc(i.value, limit, cfg, flags, idx);
            (DocV::Group(seq![kw(cfg, "INTERVAL"@), DocV::Space, x] + interval_tail(*i, cfg.keyword_case)), i1)
        },
        ExprKind::Predicate { test, inner } => {
            let (x, i1) = expr_doc(*inner, limit, cfg, flags, idx);
            (DocV::Group(seq![x, DocV::Space, kw(cfg, predicate_keyword(test))]), i1)
        },
        ExprKind::BinaryOp { left, op, right } => {
            let (l, i1) = expr_doc(*left, limit, cfg, flags, idx);
            let (r, i2) = expr_doc(*right, limit, cfg, flags, i1);
            (
                match op {
                    BinOp::And => DocV::Group(seq![DocV::Group(seq![l, DocV::Line, kw(cfg, "AND"@), DocV::Space, r])]),
                    BinOp::Or => DocV::Group(seq![DocV::Group(seq![l, DocV::Line, kw(cfg, "OR"@), DocV::Space, r])]),
                    BinOp::Other(o) => DocV::Group(
                        seq![l, DocV::Space, DocV::Text(keyword_cased(o@, cfg.keyword_case)), DocV::Space, r],
                    ),
                },
                i2,
            )
        },
        ExprKind::Nested(inner) => {
            let (x, i1) = expr_doc(*inner, limit, cfg, flags, idx);
            (
                if clamped(inner.text@.len() + 2) <= limit && !has_logical_ops(*inner) {
                    DocV::Group(seq![DocV::Text("("@), x, DocV::Text(")"@)])
                } else {
                    paren_block_doc(x)
                },
                i1,
            )
        },
        ExprKind::Case { .. } => case_doc(e, limit, cfg, flags, idx),
        ExprKind::Exists { subquery, negated } => {
            let (q, i1) = query_doc(*subquery, cfg, None, false, flags, idx);
            let name: Seq<char> = if negated { "NOT EXISTS"@ } else { "EXISTS"@ };
            let name_len: nat = if negated { 10 } else { 6 };
            (
                if clamped(clamped(subquery.text@.len() + name_len) + 3) <= limit {
                    DocV::Group(seq![kw(cfg, name), DocV::Space, DocV::Text("("@), q, DocV::Text(")"@)])
                } else {
                    DocV::Group(seq![kw(cfg, name), DocV::Line, DocV::Indent(Box::new(paren_block_doc(q)))])
                },
                i1,
            )
        },
        ExprKind::Subquery(sub) => {
            let (q, i1) = query_doc(*sub, cfg, None, false, flags, idx);
            (
                if clamped(sub.text@.len() + 2) <= limit {
                    DocV::Group(seq![DocV::Text("("@), q, DocV::Text(")"@)])
                } else {
                    paren_block_doc(q)
                },
                i1,
            )
        },
        _ => (DocV::Text(e.text@), idx),
    }
}

/// Whether a `CASE` is laid out over several lines: more than one branch,
/// or longer than the limit on one line.
pub open spec fn case_multiline(
    operand: Option<Box<SqlExpr>>,
    branches: Seq<CaseBranch>,
    else_result: Option<Box<SqlExpr>>,
    limit: usize,
) -> bool {
    branches.len() > 1 || clamped(case_inline_len(operand, branches, else_result)) > limit
}

/// `CASE` and its operand.
pub open spec fn case_head(
    operand: Option<Box<SqlExpr>>,
    limit: usize,
    cfg: FormatterConfig,
    flags: Seq<bool>,
    idx: int,
) -> (Seq<DocV>, int)
    decreases operand, 1nat,
{
    match operand {
        Some(o) => {
            let (od, i1) = expr_doc(*o, limit, cfg, flags, idx);
            (seq![kw(cfg, "CASE"@), DocV::Space, od], i1)
        },
        None => (seq![kw(cfg, "CASE"@)], idx),
    }
}

/// The layout of an `ELSE` result, if there is one.
pub open spec fn else_doc(
    else_result: Option<Box<SqlExpr>>,
    limit: usize,
    cfg: FormatterConfig,
    flags: Seq<bool>,
    idx: int,
) -> (Option<DocV>, int)
    decreases else_result, 1nat,
{
    match else_result {
        Some(x) => {
            let (xd, i1) = expr_doc(*x, limit, cfg, flags, idx);
            (Some(xd), i1)
        },
        None => (None, idx),
    }
}

/// A `CASE`: on one line, or `CASE [operand]`, the branches and `ELSE` on
/// indented lines, and `END` on a line of its own.
pub open spec fn case_doc(e: SqlExpr, limit: usize, cfg: FormatterConfig, flags: Seq<bool>, idx: int) -> (DocV, int)
    decreases e, 2nat,
{
    match e.kind {
        ExprKind::Case { operand, branches, else_result } => {
            let (head, i1) = case_head(operand, limit, cfg, flags, idx);
            let (pairs, i2) = branch_pairs(branches@, limit, cfg, flags, i1);
            let (els, i3) = else_doc(else_result, limit, cfg, flags, i2);
            (
                if case_multiline(operand, branches@, else_result, limit) {
                    let items = branch_groups(pairs, cfg) + (match els {
                        Some(xd) => seq![DocV::Group(seq![kw(cfg, "ELSE"@), DocV::Space, xd])],
                        None => Seq::empty(),
                    });
                    DocV::Group(
                        seq![DocV::Group(head)] + (if items.len() > 0 {
                            seq![DocV::Line, DocV::Indent(Box::new(DocV::Group(sep_list(items, seq![DocV::Line]))))]
                        } else {
                            Seq::empty()
                        }) + seq![DocV::Line, kw(cfg, "END"@)],
                    )
                } else {
                    DocV::Group(
                        head + branch_inline_parts(pairs, cfg) + (match els {
                            Some(xd) => seq![DocV::Space, kw(cfg, "ELSE"@), DocV::Space, xd],
                            None => Seq::empty(),
                        }) + seq![DocV::Space, kw(cfg, "END"@)],
                    )
                },
                i3,
            )
        },
        _ => (DocV::Text(e.text@), idx),
    }
}

/// The layouts of each branch's condition and result, in order.
pub open spec fn branch_pairs(
    bs: Seq<CaseBranch>,
    limit: usize,
    cfg: FormatterConfig,
    flags: Seq<bool>,
    idx: int,
) -> (Seq<(DocV, DocV)>, int)
    decreases bs, 0nat,
{
    if bs.len() == 0 {
        (Seq::empty(), idx)
    } else {
        let (pre, i1) = branch_pairs(bs.drop_last(), limit, cfg, flags, idx);
        let (c, i2) = expr_doc(bs.last().condition, limit, cfg, flags, i1);
        let (r, i3) = expr_doc(bs.last().result, limit, cfg, flags, i2);
        (pre.push((c, r)), i3)
    }
}

/// `WHEN <condition> THEN <result>` as a group.
pub open spec fn branch_group(p: (DocV, DocV), cfg: FormatterConfig) -> DocV {
    DocV::Group(seq![kw(cfg, "WHEN"@), DocV::Space, p.0, DocV::Space, kw(cfg, "THEN"@), DocV::Space, p.1])
}

/// Each branch as a group `WHEN <condition> THEN <result>`.
pub open spec fn branch_groups(ps: Seq<(DocV, DocV)>, cfg: FormatterConfig) -> Seq<DocV> {
    ps.map_values(|p: (DocV, DocV)| branch_group(p, cfg))
}

/// The branches on one line, each ` WHEN <condition> THEN <result>`.
pub open spec fn branch_inline_parts(ps: Seq<(DocV, DocV)>, cfg: FormatterConfig) -> Seq<DocV>
    decreases ps.len(),
{
    if ps.len() == 0 {
        Seq::empty()
    } else {
        branch_inline_parts(ps.drop_last(), cfg) + seq![
            DocV::Space,
            kw(cfg, "WHEN"@),
            DocV::Space,
            ps.last().0,
            DocV::Space,
            kw(cfg, "THEN"@),
            DocV::Space,
            ps.last().1,
        ]
    }
}

/// The layouts of expressions in order.
pub open spec fn expr_docs(
    es: Seq<SqlExpr>,
    limit: usize,
    cfg: FormatterConfig,
    flags: Seq<bool>,
    idx: int,
) -> (Seq<DocV>, int)
    decreases es, 0nat,
{
    if es.len() == 0 {
        (Seq::empty(), idx)
    } else {
        let (pre, i1) = expr_docs(es.drop_last(), limit, cfg, flags, idx);
        let (d, i2) = expr_doc(es.last(), limit, cfg, flags, i1);
        (pre.push(d), i2)
    }
}

/// A function call: its base text, then its window after a space.
pub open spec fn func_doc(f: FuncCall, limit: usize, cfg: FormatterConfig, flags: Seq<bool>, idx: int) -> (DocV, int)
    decreases f, 1nat,
{
    let base = DocV::Text(func_base_text(f, cfg.keyword_case));
    match f.over {
        Some(w) => {
            let (wd, i1) = window_doc(w, limit, cfg, flags, idx);
            (DocV::Group(seq![base, DocV::Space, wd]), i1)
        },
        None => (base, idx),
    }
}

/// `OVER <name>`, or the window specification.
pub open spec fn window_doc(w: WindowRef, limit: usize, cfg: FormatterConfig, flags: Seq<bool>, idx: int) -> (DocV, int)
    decreases w, 1nat,
{
    match w {
        WindowRef::Named(name) => (DocV::Group(seq![kw(cfg, "OVER"@), DocV::Space, DocV::Text(name@)]), idx),
        WindowRef::Spec(s) => window_spec_doc(s, limit, cfg, flags, idx),
    }
}

/// `OVER (...)` with the window's clauses inline when there is one and it
/// fits, otherwise one per indented line.
pub open spec fn window_spec_doc(
    s: WindowSpecNode,
    limit: usize,
    cfg: FormatterConfig,
    flags: Seq<bool>,
    idx: int,
) -> (DocV, int)
    decreases s, 1nat,
{
    let (clauses, i1) = window_clauses(s, limit, cfg, flags, idx);
    (
        if clauses.len() > 1 || s.text@.len() > limit {
            DocV::Group(
                seq![
                    kw(cfg, "OVER"@),
                    DocV::Space,
                    paren_block_doc(DocV::Group(sep_list(clauses, seq![DocV::Line]))),
                ],
            )
        } else {
            DocV::Group(
                seq![
                    kw(cfg, "OVER"@),
                    DocV::Space,
                    DocV::Group(
                        seq![DocV::Text("("@), DocV::Group(sep_list(clauses, seq![DocV::Space])), DocV::Text(")"@)],
                    ),
                ],
            )
        },
        i1,
    )
}

/// The clauses of a window specification: its base window's name,
/// `PARTITION BY`, `ORDER BY` and the frame, those that are given.
pub open spec fn window_clauses(
    s: WindowSpecNode,
    limit: usize,
    cfg: FormatterConfig,
    flags: Seq<bool>,
    idx: int,
) -> (Seq<DocV>, int)
    decreases s, 0nat,
{
    let (pd, i1) = expr_docs(s.partition_by@, limit, cfg, flags, idx);
    let (fr, i2) = match s.frame {
        Some(fr) => {
            let (fd, i) = frame_doc(fr, limit, cfg, flags, i1);
            (seq![fd], i)
        },
        None => (Seq::empty(), i1),
    };
    (
        (match s.window_name {
            Some(n) => seq![DocV::Text(n@)],
            None => Seq::empty(),
        }) + (if s.partition_by@.len() > 0 {
            seq![spec_window_clause("PARTITION BY"@, pd, cfg)]
        } else {
            Seq::empty()
        }) + (if s.order_by@.len() > 0 {
            seq![spec_window_clause("ORDER BY"@, texts(s.order_by@), cfg)]
        } else {
            Seq::empty()
        }) + fr,
        i2,
    )
}

/// `<units> <bound>` or `<units> BETWEEN <bound> AND <bound>`.
pub open spec fn frame_doc(fr: FrameNode, limit: usize, cfg: FormatterConfig, flags: Seq<bool>, idx: int) -> (DocV, int)
    decreases fr, 0nat,
{
    let (start, i1) = bound_doc(fr.start, limit, cfg, flags, idx);
    match fr.end {
        Some(end) => {
            let (ed, i2) = bound_doc(end, limit, cfg, flags, i1);
            (
                DocV::Group(
                    seq![kw(cfg, fr.units@)] + seq![
                        DocV::Space,
                        kw(cfg, "BETWEEN"@),
                        DocV::Space,
                        start,
                        DocV::Space,
                        kw(cfg, "AND"@),
                        DocV::Space,
                        ed,
                    ],
                ),
                i2,
            )
        },
        None => (DocV::Group(seq![kw(cfg, fr.units@)] + seq![DocV::Space, start]), i1),
    }
}

/// `CURRENT ROW`, `UNBOUNDED PRECEDING`/`FOLLOWING`, or an offset followed
/// by `PRECEDING`/`FOLLOWING`.
pub open spec fn bound_doc(b: FrameBound, limit: usize, cfg: FormatterConfig, flags: Seq<bool>, idx: int) -> (DocV, int)
    decreases b, 0nat,
{
    match b {
        FrameBound::CurrentRow => (DocV::Group(seq![kw(cfg, "CURRENT"@), DocV::Space, kw(cfg, "ROW"@)]), idx),
        FrameBound::Preceding(None) => (
            DocV::Group(seq![kw(cfg, "UNBOUNDED"@), DocV::Space, kw(cfg, "PRECEDING"@)]),
            idx,
        ),
        FrameBound::Following(None) => (
            DocV::Group(seq![kw(cfg, "UNBOUNDED"@), DocV::Space, kw(cfg, "FOLLOWING"@)]),
            idx,
        ),
        FrameBound::Preceding(Some(x)) => {
            let (xd, i1) = expr_doc(*x, limit, cfg, flags, idx);
            (DocV::Group(seq![xd, DocV::Space, kw(cfg, "PRECEDING"@)]), i1)
        },
        FrameBound::Following(Some(x)) => {
            let (xd, i1) = expr_doc(*x, limit, cfg, flags, idx);
            (DocV::Group(seq![xd, DocV::Space, kw(cfg, "FOLLOWING"@)]), i1)
        },
    }
}

/// The layout of an expression without a subquery reads no relation-alias
/// flag.
pub proof fn lemma_expr_reads_no_flag(e: SqlExpr, limit: usize, cfg: FormatterConfig, flags: Seq<bool>, idx: int)
    requires
        !expr_has_query(e),
    ensures
        expr_doc(e, limit, cfg, flags, idx).1 == idx,
    decreases e, 3nat,
{
    match e.kind {
        ExprKind::Function(f) => {
            lemma_func_reads_no_flag(*f, limit, cfg, flags, idx);
        },
        ExprKind::Cast { expr, .. } => lemma_expr_reads_no_flag(*expr, limit, cfg, flags, idx),
        ExprKind::Interval(i) => lemma_expr_reads_no_flag(i.value, limit, cfg, flags, idx),
        ExprKind::Predicate { inner, .. } => lemma_expr_reads_no_flag(*inner, limit, cfg, flags, idx),
        ExprKind::BinaryOp { left, right, .. } => {
            lemma_expr_reads_no_flag(*left, limit, cfg, flags, idx);
            lemma_expr_reads_no_flag(*right, limit, cfg, flags, idx);
        },
        ExprKind::Nested(inner) => lemma_expr_reads_no_flag(*inner, limit, cfg, flags, idx),
        ExprKind::Case { operand, branches, else_result } => {
            if let Some(o) = operand {
                lemma_expr_reads_no_flag(*o, limit, cfg, flags, idx);
            }
            assert(case_head(operand, limit, cfg, flags, idx).1 == idx);
            lemma_branches_read_no_flag(branches@, limit, cfg, flags, idx);
            if let Some(x) = else_result {
                lemma_expr_reads_no_flag(*x, limit, cfg, flags, idx);
            }
            assert(else_doc(else_result, limit, cfg, flags, idx).1 == idx);
            assert(case_doc(e, limit, cfg, flags, idx).1 == idx);
        },
        ExprKind::Value { .. } => {},
        ExprKind::TypedString { .. } => {},
        ExprKind::Exists { .. } => {},
        ExprKind::Subquery(_) => {},
        _ => {
            assert(expr_doc(e, limit, cfg, flags, idx).1 == idx);
        },
    }
}

proof fn lemma_branches_read_no_flag(bs: Seq<CaseBranch>, limit: usize, cfg: FormatterConfig, flags: Seq<bool>, idx: int)
    requires
        !branches_have_query(bs),
    ensures
        branch_pairs(bs, limit, cfg, flags, idx).1 == idx,
    decreases bs, 0nat,
{
    if bs.len() > 0 {
        lemma_branches_read_no_flag(bs.drop_last(), limit, cfg, flags, idx);
        lemma_expr_reads_no_flag(bs.last().condition, limit, cfg, flags, idx);
        lemma_expr_reads_no_flag(bs.last().result, limit, cfg, flags, idx);
    }
}

proof fn lemma_exprs_read_no_flag(es: Seq<SqlExpr>, limit: usize, cfg: FormatterConfig, flags: Seq<bool>, idx: int)
    requires
        !exprs_have_query(es),
    ensures
        expr_docs(es, limit, cfg, flags, idx).1 == idx,
    decreases es, 0nat,
{
    if es.len() > 0 {
        lemma_exprs_read_no_flag(es.drop_last(), limit, cfg, flags, idx);
        lemma_expr_reads_no_flag(es.last(), limit, cfg, flags, idx);
    }
}

proof fn lemma_func_reads_no_flag(f: FuncCall, limit: usize, cfg: FormatterConfig, flags: Seq<bool>, idx: int)
    requires
        !func_has_query(f),
    ensures
        func_doc(f, limit, cfg, flags, idx).1 == idx,
    decreases f, 1nat,
{
    if let Some(WindowRef::Spec(s)) = f.over {
        lemma_spec_reads_no_flag(s, limit, cfg, flags, idx);
    }
}

/// The layout of a window without a subquery reads no relation-alias flag.
pub proof fn lemma_window_reads_no_flag(w: WindowRef, limit: usize, cfg: FormatterConfig, flags: Seq<bool>, idx: int)
    requires
        !window_has_query(w),
    ensures
        window_doc(w, limit, cfg, flags, idx).1 == idx,
{
    if let WindowRef::Spec(s) = w {
        lemma_spec_reads_no_flag(s, limit, cfg, flags, idx);
    }
}

proof fn lemma_spec_reads_no_flag(s: WindowSpecNode, limit: usize, cfg: FormatterConfig, flags: Seq<bool>, idx: int)
    requires
        !spec_has_query(s),
    ensures
        window_clauses(s, limit, cfg, flags, idx).1 == idx,
        window_spec_doc(s, limit, cfg, flags, idx).1 == idx,
    decreases s, 0nat,
{
    lemma_exprs_read_no_flag(s.partition_by@, limit, cfg, flags, idx);
    if let Some(fr) = s.frame {
        lemma_bound_reads_no_flag(fr.start, limit, cfg, flags, idx);
        if let Some(b) = fr.end {
            lemma_bound_reads_no_flag(b, limit, cfg, flags, idx);
        }
    }
}

proof fn lemma_bound_reads_no_flag(b: FrameBound, limit: usize, cfg: FormatterConfig, flags: Seq<bool>, idx: int)
    requires
        !bound_has_query(b),
    ensures
        bound_doc(b, limit, cfg, flags, idx).1 == idx,
    decreases b, 0nat,
{
    match b {
        FrameBound::Preceding(Some(x)) => lemma_expr_reads_no_flag(*x, limit, cfg, flags, idx),
        FrameBound::Following(Some(x)) => lemma_expr_reads_no_flag(*x, limit, cfg, flags, idx),
        _ => {},
    }
}

/// The inline length of a prefix of the branches is at most that of all.
pub proof fn lemma_branches_inline_len_prefix(bs: Seq<CaseBranch>, i: int)
    requires
        0 <= i <= bs.len(),
    ensures
        branches_inline_len(bs.take(i)) <= branches_inline_len(bs),
    decreases bs.len(),
{
    if i == bs.len() {
        assert(bs.take(i) =~= bs);
    } else {
        assert(bs.drop_last().take(i) =~= bs.take(i));
        lemma_branches_inline_len_prefix(bs.drop_last(), i);
    }
}

/// A list with separators is empty exactly when the list is.
pub proof fn lemma_sep_list_empty(items: Seq<DocV>, sep: Seq<DocV>)
    ensures
        sep_list(items, sep).len() == 0 <==> items.len() == 0,
{
    if items.len() > 1 {
        assert(sep_list(items, sep) == sep_list(items.drop_last(), sep) + sep + seq![items.last()]);
    }
}

} // verus!
