//! Layout of parsed SQL statements as documents: queries, select lists,
//! relations and joins, expressions, window specifications and the DDL and
//! DML statements that have a layout of their own.
use vstd::prelude::*;

use crate::blocks::{
    comma_joined, comma_joined_docs, format_comma_clause, format_comma_clause_per_line,
    format_parenthesized_block, format_parenthesized_clause, format_parenthesized_inline,
    format_window_clause, lit, push_docs, separated_docs, Sep,
};
use crate::commands::DremioVersionClause;
use crate::config::{DialectKind, FormatterConfig, SelectListStyle};
use crate::doc::{doc_has_line, doc_view, docs_view, lemma_docs_view, lemma_docs_view_push, Doc, DocV};
use crate::dremio_format::format_dremio_version_clause;
use crate::keywords::{apply_keyword_case, apply_keyword_case_chars, is_builtin_function_name, keyword_cased, keyword_doc, kw};
use crate::sql_model::{
    BinOp, CaseBranch, CastStyle, ClusterSpec, CreateTableNode, CreateViewNode, CteNode,
    DateField, ExprKind, FactorKind, FactorNode, FrameBound, FrameNode, FuncArgs, FuncCall,
    GroupByNode, HiveFormatNode, InsertNode, IntervalExpr, JoinConstraintNode, JoinNode,
    JoinOpKind, LimitNode, NamePart, PartitionSpec, PredicateKind, QueryBody, SelectItemKind,
    SelectItemNode, SelectNode, SqlExpr, SqlQuery, SqlStatement, StatementKind,
    TableWithJoinsNode, TypeName, TypeShape, ValuesNode, WindowRef, WindowSpecNode, WithClause,
};
use crate::text::{
    chars_of, decimal, push_all, push_str, replace_all, replace_first, replaced, slice, starts_with,
    string_of, u64_to_chars,
};
use crate::blocks::{sep_list, spec_window_clause};
use crate::query_layout::{
    boolean_clause_doc, factor_doc, from_parts, item_docs, join_doc, joins_parts, query_doc, with_doc, cte_doc,
    cte_parts, effective_layout, select_parts, alias_parts, derived_factor_doc, invocation_doc, table_fn_doc,
    table_function_factor_doc, take_flag, join_boolean_clause_doc, keyword_then_doc, layout_break, projection_doc,
    projection_limit, select_head_doc, select_item_doc, tail_parts, values_doc, values_rows,
};
use crate::expr_layout::{
    bound_doc, datetime_field_text, expr_doc, frame_doc, func_doc, interval_tail, precision_doc, case_doc,
    case_head, case_inline_len, case_multiline, clamped, branch_pairs, branch_groups, branch_inline_parts,
    else_doc, branches_inline_len, lemma_branches_inline_len_prefix, typed_string_doc, window_doc,
    window_spec_doc,
};

verus! {

broadcast use lemma_docs_view_push, lemma_docs_view;

/// Hands out, in order, the recorded `AS` flags of the relation aliases as
/// the layout meets them.
pub struct RelationAliasTracker {
    pub flags: Vec<bool>,
    pub index: usize,
}

impl RelationAliasTracker {
    pub fn new(flags: Vec<bool>) -> (r: RelationAliasTracker)
        ensures
            r.flags@ == flags@,
            r.index == 0,
    {
        RelationAliasTracker { flags, index: 0 }
    }

    /// The next flag, if any is left.
    pub fn next(&mut self) -> (r: Option<bool>)
        ensures
            final(self).flags@ == old(self).flags@,
            old(self).index < old(self).flags@.len() ==> r == Some(old(self).flags@[old(self).index as int])
                && final(self).index == old(self).index + 1,
            old(self).index >= old(self).flags@.len() ==> r is None && final(self).index == old(self).index,
    {
        if self.index < self.flags.len() {
            let value = self.flags[self.index];
            self.index = self.index + 1;
            Some(value)
        } else {
            None
        }
    }

    /// Whether the next alias takes `AS`: its flag, or yes when none is left.
    pub fn next_has_as(&mut self) -> (r: bool)
        ensures
            final(self).flags@ == old(self).flags@,
            old(self).index < old(self).flags@.len() ==> r == old(self).flags@[old(self).index as int]
                && final(self).index == old(self).index + 1,
            old(self).index >= old(self).flags@.len() ==> r && final(self).index == old(self).index,
    {
        match self.next() {
            Some(b) => b,
            None => true,
        }
    }
}

/// Whether a tracker still hands out the same flags from the same place.
pub open spec fn same_tracker(a: RelationAliasTracker, b: RelationAliasTracker) -> bool {
    a.flags@ == b.flags@ && a.index == b.index
}

/// How a select list is laid out.
#[derive(Debug, Clone, Copy, PartialEq, Eq, Structural)]
pub enum SelectLayout {
    Inline,
    PerLine,
}

// ---------------------------------------------------------------------------
// Small document helpers
// ---------------------------------------------------------------------------

fn chars_doc(v: Vec<char>) -> (d: Doc)
    ensures
        d matches Doc::Text(t) && t@ == v@,
{
    Doc::Text(string_of(v.as_slice()))
}

fn indent(d: Doc) -> (r: Doc)
    ensures
        r matches Doc::Indent(b) && *b == d,
        r@ == DocV::Indent(Box::new(d@)),
{
    Doc::Indent(Box::new(d))
}

fn str_len(s: &String) -> (n: usize)
    ensures
        n == s@.len(),
{
    s.as_str().unicode_len()
}

/// `(`, a line, the body indented, a line, `)`.
fn paren_block(body: Doc) -> (d: Doc)
    ensures
        d@ == crate::expr_layout::paren_block_doc(body@),
{
    let ghost bv = body@;
    let v = vec![lit("("), Doc::Line, indent(body), Doc::Line, lit(")")];
    assert(docs_view(v@) =~= seq![DocV::Text("("@), DocV::Line, DocV::Indent(Box::new(bv)), DocV::Line, DocV::Text(")"@)]);
    Doc::Group(v)
}

/// A group of one document.
fn group1(a: Doc) -> (d: Doc)
    ensures
        d@ == DocV::Group(seq![a@]),
{
    let v = vec![a];
    assert(docs_view(v@) =~= seq![doc_view(v@[0])]);
    Doc::Group(v)
}

/// A group of two documents.
fn group2(a: Doc, b: Doc) -> (d: Doc)
    ensures
        d@ == DocV::Group(seq![a@, b@]),
{
    let v = vec![a, b];
    assert(docs_view(v@) =~= seq![doc_view(v@[0]), doc_view(v@[1])]);
    Doc::Group(v)
}

/// A group of three documents.
fn group3(a: Doc, b: Doc, c: Doc) -> (d: Doc)
    ensures
        d@ == DocV::Group(seq![a@, b@, c@]),
{
    let v = vec![a, b, c];
    assert(docs_view(v@) =~= seq![doc_view(v@[0]), doc_view(v@[1]), doc_view(v@[2])]);
    Doc::Group(v)
}

/// A keyword text as written under the configured keyword case, followed by
/// a space and the rest.
fn keyword_then(cfg: &FormatterConfig, keyword: &str, rest: &[char]) -> (d: Doc)
    ensures
        d@ == keyword_then_doc(*cfg, keyword@, rest@),
{
    let mut v = chars_of(apply_keyword_case(keyword, cfg).as_str());
    v.push(' ');
    push_all(&mut v, rest);
    assert(v@ =~= keyword_cased(keyword@, cfg.keyword_case) + seq![' '] + rest@);
    chars_doc(v)
}

// ---------------------------------------------------------------------------
// Expressions
// ---------------------------------------------------------------------------

/// Whether an expression holds an `AND` or `OR` outside a subquery: in a
/// binary operation, a parenthesised expression, a `BETWEEN` or a `CASE`.
pub open spec fn has_logical_ops(e: SqlExpr) -> bool
    decreases e,
{
    match e.kind {
        ExprKind::BinaryOp { left, op, right } => {
            (op is And || op is Or) || has_logical_ops(*left) || has_logical_ops(*right)
        },
        ExprKind::Nested(inner) => has_logical_ops(*inner),
        ExprKind::Between { expr, low, high } => {
            has_logical_ops(*expr) || has_logical_ops(*low) || has_logical_ops(*high)
        },
        ExprKind::Case { operand, branches, else_result } => {
            (match operand {
                Some(o) => has_logical_ops(*o),
                None => false,
            }) || branches_have_logical_ops(branches@) || (match else_result {
                Some(x) => has_logical_ops(*x),
                None => false,
            })
        },
        _ => false,
    }
}

pub open spec fn branches_have_logical_ops(bs: Seq<CaseBranch>) -> bool
    decreases bs,
{
    if bs.len() == 0 {
        false
    } else {
        branches_have_logical_ops(bs.drop_last()) || has_logical_ops(bs.last().condition)
            || has_logical_ops(bs.last().result)
    }
}

#[verifier::loop_isolation(false)]
pub fn contains_logical_ops(e: &SqlExpr) -> (r: bool)
    ensures
        r == has_logical_ops(*e),
    decreases e,
{
    match &e.kind {
        ExprKind::BinaryOp { left, op, right } => {
            let is_logic = match op {
                BinOp::And => true,
                BinOp::Or => true,
                BinOp::Other(_) => false,
            };
            is_logic || contains_logical_ops(left) || contains_logical_ops(right)
        },
        ExprKind::Nested(inner) => contains_logical_ops(inner),
        ExprKind::Between { expr, low, high } => {
            contains_logical_ops(expr) || contains_logical_ops(low) || contains_logical_ops(high)
        },
        ExprKind::Case { operand, branches, else_result } => {
            let in_operand = match operand {
                Some(o) => contains_logical_ops(o),
                None => false,
            };
            let mut in_branches = false;
            let mut i: usize = 0;
            while i < branches.len()
                invariant
                    i <= branches@.len(),
                    in_branches == branches_have_logical_ops(branches@.take(i as int)),
                decreases branches.len() - i,
            {
                proof {
                    assert(branches@.take(i + 1).drop_last() == branches@.take(i as int));
                    assert(decreases_to!(e.kind => e.kind->Case_branches));
                    assert(decreases_to!(*branches => branches@));
                    assert(decreases_to!(branches@ => branches@[i as int]));
                    assert(decreases_to!(*e => branches@[i as int].condition));
                    assert(decreases_to!(*e => branches@[i as int].result));
                }
                let c = contains_logical_ops(&branches[i].condition);
                let r = contains_logical_ops(&branches[i].result);
                in_branches = in_branches || c || r;
                i = i + 1;
            }
            proof {
                assert(branches@.take(i as int) == branches@);
            }
            let in_else = match else_result {
                Some(x) => contains_logical_ops(x),
                None => false,
            };
            in_operand || in_branches || in_else
        },
        _ => false,
    }
}

/// A value: a boolean under the keyword case, anything else as written.
fn format_value_literal(boolean: Option<bool>, text: &String, cfg: &FormatterConfig) -> (d: Doc)
    ensures
        boolean == Some(true) ==> d@ == kw(*cfg, "TRUE"@),
        boolean == Some(false) ==> d@ == kw(*cfg, "FALSE"@),
        boolean is None ==> d@ == DocV::Text(text@),
{
    match boolean {
        Some(true) => Doc::Text(apply_keyword_case("TRUE", cfg)),
        Some(false) => Doc::Text(apply_keyword_case("FALSE", cfg)),
        None => Doc::Text(text.clone()),
    }
}

pub open spec fn type_has_custom(t: TypeName) -> bool
    decreases t,
{
    match t.shape {
        TypeShape::Custom => true,
        TypeShape::Array(Some(inner)) => type_has_custom(*inner),
        TypeShape::Array(None) => false,
        TypeShape::Struct(fields) => fields_have_custom(fields@),
        TypeShape::Other => false,
    }
}

pub open spec fn fields_have_custom(fs: Seq<TypeName>) -> bool
    decreases fs,
{
    if fs.len() == 0 {
        false
    } else {
        fields_have_custom(fs.drop_last()) || type_has_custom(fs.last())
    }
}

/// Whether a data type names a custom type anywhere (in an array's element
/// type or a struct's field types too).
#[verifier::loop_isolation(false)]
pub fn data_type_has_custom(t: &TypeName) -> (r: bool)
    ensures
        r == type_has_custom(*t),
    decreases t,
{
    match &t.shape {
        TypeShape::Custom => true,
        TypeShape::Array(Some(inner)) => data_type_has_custom(inner),
        TypeShape::Array(None) => false,
        TypeShape::Struct(fields) => {
            let mut found = false;
            let mut i: usize = 0;
            while i < fields.len()
                invariant
                    i <= fields@.len(),
                    found == fields_have_custom(fields@.take(i as int)),
                decreases fields.len() - i,
            {
                proof {
                    assert(fields@.take(i + 1).drop_last() == fields@.take(i as int));
                    assert(decreases_to!(t.shape => t.shape->Struct_0));
                    assert(decreases_to!(*fields => fields@));
                    assert(decreases_to!(fields@ => fields@[i as int]));
                    assert(decreases_to!(*t => fields@[i as int]));
                }
                let f = data_type_has_custom(&fields[i]);
                found = found || f;
                i = i + 1;
            }
            proof {
                assert(fields@.take(i as int) == fields@);
            }
            found
        },
        TypeShape::Other => false,
    }
}

/// A data type as written, under the keyword case unless it names a custom
/// type.
pub fn format_data_type(t: &TypeName, cfg: &FormatterConfig) -> (r: String)
    ensures
        type_has_custom(*t) ==> r@ == t.text@,
        !type_has_custom(*t) ==> r@ == crate::keywords::keyword_cased(t.text@, cfg.keyword_case),
{
    if data_type_has_custom(t) {
        t.text.clone()
    } else {
        apply_keyword_case(t.text.as_str(), cfg)
    }
}

/// A date-time field: a custom one as written, `WEEK(<day>)` or a named one
/// under the keyword case.
fn format_datetime_field(field: &DateField, cfg: &FormatterConfig) -> (r: String)
    ensures
        r@ == datetime_field_text(*field, cfg.keyword_case),
{
    match field {
        DateField::Custom(name) => name.clone(),
        DateField::Week(Some(day)) => {
            let mut v = chars_of(apply_keyword_case("WEEK", cfg).as_str());
            v.push('(');
            push_str(&mut v, day.as_str());
            v.push(')');
            assert(v@ =~= keyword_cased("WEEK"@, cfg.keyword_case) + seq!['('] + day@ + seq![')']);
            string_of(v.as_slice())
        },
        DateField::Week(None) => apply_keyword_case("WEEK", cfg),
        DateField::Second => apply_keyword_case("SECOND", cfg),
        DateField::Named(name) => apply_keyword_case(name.as_str(), cfg),
    }
}

/// ` (<n>)`, or ` (<n>, <m>)`.
fn precision_text(n: u64, m: Option<u64>) -> (d: Doc)
    ensures
        d@ == precision_doc(n, m),
{
    let mut v: Vec<char> = Vec::new();
    v.push(' ');
    v.push('(');
    let digits = u64_to_chars(n);
    push_all(&mut v, digits.as_slice());
    let ghost head = v@;
    if let Some(m) = m {
        v.push(',');
        v.push(' ');
        let more = u64_to_chars(m);
        push_all(&mut v, more.as_slice());
        assert(v@ =~= head + (seq![',', ' '] + decimal(m as nat)));
    } else {
        assert(v@ =~= head + Seq::<char>::empty());
    }
    v.push(')');
    assert(v@ =~= seq![' ', '('] + decimal(n as nat) + (match m {
        Some(m) => seq![',', ' '] + decimal(m as nat),
        None => Seq::empty(),
    }) + seq![')']);
    chars_doc(v)
}

/// A typed string such as `DATE '2024-01-01'`: the type under the keyword
/// case and the quoted value; ODBC syntax is kept as written.
fn format_typed_string(
    odbc: bool,
    data_type: &TypeName,
    single_quoted: &Option<String>,
    value_text: &String,
    whole: &String,
    cfg: &FormatterConfig,
) -> (d: Doc)
    ensures
        d@ == typed_string_doc(odbc, *data_type, *single_quoted, *value_text, *whole, cfg.keyword_case),
{
    if odbc {
        return Doc::Text(whole.clone());
    }
    let type_text = format_data_type(data_type, cfg);
    let mut v = chars_of(type_text.as_str());
    v.push(' ');
    let ghost head = v@;
    assert(head =~= crate::expr_layout::data_type_text(*data_type, cfg.keyword_case) + seq![' ']);
    match single_quoted {
        Some(value) => {
            let q = chars_of("'");
            let qq = chars_of("''");
            assert(q@ == "'"@ && qq@ == "''"@);
            let escaped = replace_all(chars_of(value.as_str()).as_slice(), q.as_slice(), qq.as_slice());
            v.push('\'');
            push_all(&mut v, escaped.as_slice());
            v.push('\'');
            assert(v@ =~= head + (seq!['\''] + replaced(value@, "'"@, "''"@) + seq!['\'']));
        },
        None => {
            push_str(&mut v, value_text.as_str());
            assert(v@ =~= head + value_text@);
        },
    }
    chars_doc(v)
}

/// Half the line length, at least one.
fn half_line(cfg: &FormatterConfig) -> (n: usize)
    ensures
        n == if cfg.line_length / 2 >= 1 { cfg.line_length / 2 } else { 1 },
{
    let h = cfg.line_length / 2;
    if h >= 1 { h } else { 1 }
}

/// The keyword of a unary predicate.
pub open spec fn predicate_keyword(t: PredicateKind) -> Seq<char> {
    match t {
        PredicateKind::IsNull => "IS NULL"@,
        PredicateKind::IsNotNull => "IS NOT NULL"@,
        PredicateKind::IsTrue => "IS TRUE"@,
        PredicateKind::IsNotTrue => "IS NOT TRUE"@,
        PredicateKind::IsFalse => "IS FALSE"@,
        PredicateKind::IsNotFalse => "IS NOT FALSE"@,
        PredicateKind::IsUnknown => "IS UNKNOWN"@,
        PredicateKind::IsNotUnknown => "IS NOT UNKNOWN"@,
    }
}

fn predicate_keyword_str(t: &PredicateKind) -> (r: &'static str)
    ensures
        r@ == predicate_keyword(*t),
{
    match t {
        PredicateKind::IsNull => "IS NULL",
        PredicateKind::IsNotNull => "IS NOT NULL",
        PredicateKind::IsTrue => "IS TRUE",
        PredicateKind::IsNotTrue => "IS NOT TRUE",
        PredicateKind::IsFalse => "IS FALSE",
        PredicateKind::IsNotFalse => "IS NOT FALSE",
        PredicateKind::IsUnknown => "IS UNKNOWN",
        PredicateKind::IsNotUnknown => "IS NOT UNKNOWN",
    }
}

/// A group of `n` parts whose part `i` is `x`.
pub open spec fn group_with(d: DocV, n: nat, i: int, x: DocV) -> bool {
    d matches DocV::Group(v) && v.len() == n && 0 <= i < n && v[i] == x
}

/// The expression's layout. Binary `AND`/`OR` break before the operator;
/// parentheses, `EXISTS` and subqueries break onto indented lines when
/// their inline text is longer than `inline_limit`; a `CASE` breaks when it
/// has more than one branch or is longer than `inline_limit`; function
/// names that are built-in aggregates or window functions, booleans, data
/// types and operators follow the keyword case; anything else is printed as
/// the parser writes it.
#[verifier::loop_isolation(false)]
#[verifier::spinoff_prover]
#[verifier::rlimit(60)]
fn format_expr(
    e: &SqlExpr,
    inline_limit: usize,
    cfg: &FormatterConfig,
    tr: &mut RelationAliasTracker,
) -> (d: Doc)
    ensures
        (d@, final(tr).index as int) == expr_doc(*e, inline_limit, *cfg, old(tr).flags@, old(tr).index as int),
        final(tr).flags@ == old(tr).flags@,
        e.kind matches ExprKind::Exists { negated, .. } ==> (d@ matches DocV::Group(v) && v.len() >= 3 && v[0] == kw(
            *cfg,
            if negated { "NOT EXISTS"@ } else { "EXISTS"@ },
        )),
        e.kind is Subquery ==> (d@ matches DocV::Group(v) && v.len() >= 3 && v[0] == DocV::Text("("@) && v.last()
            == DocV::Text(")"@)),
    decreases e, 1nat,
{
    match &e.kind {
        ExprKind::Value { boolean } => format_value_literal(*boolean, &e.text, cfg),
        ExprKind::Function(f) => format_function_call(f, inline_limit, cfg, tr),
        ExprKind::Cast { style, expr, data_type, format } => {
            let expr_doc = format_expr(expr, inline_limit, cfg, tr);
            let type_text = format_data_type(data_type, cfg);
            let ghost xv = expr_doc@;
            let ghost tv = DocV::Text(type_text@);
            match style {
                CastStyle::DoubleColon => group3(expr_doc, lit("::"), Doc::Text(type_text)),
                _ => {
                    let name = match style {
                        CastStyle::Cast => "CAST",
                        CastStyle::TryCast => "TRY_CAST",
                        _ => "SAFE_CAST",
                    };
                    let ghost nv: Seq<char> = match style {
                        CastStyle::Cast => "CAST"@,
                        CastStyle::TryCast => "TRY_CAST"@,
                        _ => "SAFE_CAST"@,
                    };
                    assert(name@ == nv);
                    let mut parts: Vec<Doc> = vec![
                        Doc::Text(apply_keyword_case(name, cfg)),
                        lit("("),
                        expr_doc,
                        Doc::Space,
                        keyword_doc(cfg, "AS"),
                        Doc::Space,
                        Doc::Text(type_text),
                    ];
                    let ghost p0 = seq![kw(*cfg, nv), DocV::Text("("@), xv, DocV::Space, kw(*cfg, "AS"@), DocV::Space, tv];
                    assert(docs_view(parts@) =~= p0);
                    if let Some(fmt) = format {
                        parts.push(Doc::Space);
                        parts.push(keyword_doc(cfg, "FORMAT"));
                        parts.push(Doc::Space);
                        parts.push(Doc::Text(fmt.clone()));
                    }
                    let ghost p1 = docs_view(parts@);
                    assert(p1 =~= p0 + (match format {
                        Some(fmt) => seq![DocV::Space, kw(*cfg, "FORMAT"@), DocV::Space, DocV::Text(fmt@)],
                        None => Seq::<DocV>::empty(),
                    }));
                    parts.push(lit(")"));
                    assert(docs_view(parts@) =~= p1 + seq![DocV::Text(")"@)]);
                    Doc::Group(parts)
                },
            }
        },
        ExprKind::TypedString { odbc, data_type, single_quoted, value_text } => {
            format_typed_string(*odbc, data_type, single_quoted, value_text, &e.text, cfg)
        },
        ExprKind::Interval(i) => format_interval_expr(i, inline_limit, cfg, tr),
        ExprKind::Predicate { test, inner } => {
            let keyword = predicate_keyword_str(test);
            let inner_doc = format_expr(inner, inline_limit, cfg, tr);
            group3(inner_doc, Doc::Space, keyword_doc(cfg, keyword))
        },
        ExprKind::BinaryOp { left, op, right } => {
            let left_doc = format_expr(left, inline_limit, cfg, tr);
            let right_doc = format_expr(right, inline_limit, cfg, tr);
            let ghost lv = left_doc@;
            let ghost rv = right_doc@;
            match op {
                BinOp::And => {
                    let w = vec![left_doc, Doc::Line, keyword_doc(cfg, "AND"), Doc::Space, right_doc];
                    assert(docs_view(w@) =~= seq![lv, DocV::Line, kw(*cfg, "AND"@), DocV::Space, rv]);
                    let v = vec![Doc::Group(w)];
                    assert(docs_view(v@) =~= seq![DocV::Group(seq![lv, DocV::Line, kw(*cfg, "AND"@), DocV::Space, rv])]);
                    Doc::Group(v)
                },
                BinOp::Or => {
                    let w = vec![left_doc, Doc::Line, keyword_doc(cfg, "OR"), Doc::Space, right_doc];
                    assert(docs_view(w@) =~= seq![lv, DocV::Line, kw(*cfg, "OR"@), DocV::Space, rv]);
                    let v = vec![Doc::Group(w)];
                    assert(docs_view(v@) =~= seq![DocV::Group(seq![lv, DocV::Line, kw(*cfg, "OR"@), DocV::Space, rv])]);
                    Doc::Group(v)
                },
                BinOp::Other(op_text) => {
                    let v = vec![
                        left_doc,
                        Doc::Space,
                        Doc::Text(apply_keyword_case(op_text.as_str(), cfg)),
                        Doc::Space,
                        right_doc,
                    ];
                    assert(docs_view(v@) =~= seq![
                        lv,
                        DocV::Space,
                        DocV::Text(keyword_cased(op_text@, cfg.keyword_case)),
                        DocV::Space,
                        rv,
                    ]);
                    Doc::Group(v)
                },
            }
        },
        ExprKind::Nested(inner) => {
            let inner_doc = format_expr(inner, inline_limit, cfg, tr);
            let inline_len = str_len(&inner.text).saturating_add(2);
            assert(inline_len == clamped(inner.text@.len() + 2));
            if inline_len <= inline_limit && !contains_logical_ops(inner) {
                group3(lit("("), inner_doc, lit(")"))
            } else {
                paren_block(inner_doc)
            }
        },
        ExprKind::Case { .. } => format_case(e, inline_limit, cfg, tr),
        ExprKind::Exists { subquery, negated } => {
            let formatted = format_query(subquery, cfg, None, tr);
            let keyword = if *negated { "NOT EXISTS" } else { "EXISTS" };
            let keyword_len: usize = if *negated { 10 } else { 6 };
            let inline_len = str_len(&subquery.text).saturating_add(keyword_len).saturating_add(3);
            if inline_len <= inline_limit {
                let kd = keyword_doc(cfg, keyword);
                let ghost kv = kd@;
                let ghost fv = formatted@;
                let v = vec![kd, Doc::Space, lit("("), formatted, lit(")")];
                assert(docs_view(v@) =~= seq![kv, DocV::Space, DocV::Text("("@), fv, DocV::Text(")"@)]);
                Doc::Group(v)
            } else {
                group3(keyword_doc(cfg, keyword), Doc::Line, indent(paren_block(formatted)))
            }
        },
        ExprKind::Subquery(q) => {
            let formatted = format_query(q, cfg, None, tr);
            let inline_len = str_len(&q.text).saturating_add(2);
            if inline_len <= inline_limit {
                group3(lit("("), formatted, lit(")"))
            } else {
                paren_block(formatted)
            }
        },
        _ => Doc::Text(e.text.clone()),
    }
}

/// `INTERVAL <value>` with its fields and precisions.
#[verifier::spinoff_prover]
#[verifier::rlimit(60)]
fn format_interval_expr(
    i: &IntervalExpr,
    inline_limit: usize,
    cfg: &FormatterConfig,
    tr: &mut RelationAliasTracker,
) -> (d: Doc)
    ensures
        d@ == DocV::Group(
            seq![kw(*cfg, "INTERVAL"@), DocV::Space, expr_doc(i.value, inline_limit, *cfg, old(tr).flags@, old(tr).index as int).0]
                + interval_tail(*i, cfg.keyword_case),
        ),
        final(tr).index == expr_doc(i.value, inline_limit, *cfg, old(tr).flags@, old(tr).index as int).1,
        final(tr).flags@ == old(tr).flags@,
    decreases i, 1nat,
{
    let value = format_expr(&i.value, inline_limit, cfg, tr);
    let ghost vv = value@;
    let mut parts: Vec<Doc> = vec![Doc::Text(apply_keyword_case("INTERVAL", cfg)), Doc::Space, value];
    let ghost head = seq![kw(*cfg, "INTERVAL"@), DocV::Space, vv];
    assert(docs_view(parts@) =~= head);
    if let (Some(DateField::Second), Some(lp), Some(fp)) = (&i.leading_field, i.leading_precision, i.fractional_seconds_precision) {
        parts.push(Doc::Space);
        parts.push(Doc::Text(format_datetime_field(&DateField::Second, cfg)));
        parts.push(precision_text(lp, Some(fp)));
        assert(docs_view(parts@) =~= head + interval_tail(*i, cfg.keyword_case));
        return Doc::Group(parts);
    }
    assert(!(i.leading_field == Some(DateField::Second) && i.leading_precision is Some
        && i.fractional_seconds_precision is Some));
    if let Some(field) = &i.leading_field {
        parts.push(Doc::Space);
        parts.push(Doc::Text(format_datetime_field(field, cfg)));
    }
    let ghost p1 = docs_view(parts@);
    assert(p1 =~= head + (match i.leading_field {
        Some(f) => seq![DocV::Space, DocV::Text(datetime_field_text(f, cfg.keyword_case))],
        None => Seq::<DocV>::empty(),
    }));
    if let Some(lp) = i.leading_precision {
        parts.push(precision_text(lp, None));
    }
    let ghost p2 = docs_view(parts@);
    assert(p2 =~= p1 + (match i.leading_precision {
        Some(p) => seq![precision_doc(p, None)],
        None => Seq::<DocV>::empty(),
    }));
    if let Some(field) = &i.last_field {
        parts.push(Doc::Space);
        parts.push(keyword_doc(cfg, "TO"));
        parts.push(Doc::Space);
        parts.push(Doc::Text(format_datetime_field(field, cfg)));
    }
    let ghost p3 = docs_view(parts@);
    assert(p3 =~= p2 + (match i.last_field {
        Some(f) => seq![
            DocV::Space,
            DocV::Text(keyword_cased("TO"@, cfg.keyword_case)),
            DocV::Space,
            DocV::Text(datetime_field_text(f, cfg.keyword_case)),
        ],
        None => Seq::<DocV>::empty(),
    }));
    if let Some(fp) = i.fractional_seconds_precision {
        parts.push(precision_text(fp, None));
    }
    assert(docs_view(parts@) =~= p3 + (match i.fractional_seconds_precision {
        Some(p) => seq![precision_doc(p, None)],
        None => Seq::<DocV>::empty(),
    }));
    assert(docs_view(parts@) =~= head + interval_tail(*i, cfg.keyword_case));
    Doc::Group(parts)
}

/// The length of a `CASE` on one line, `None` when it does not fit in a
/// `usize`.
#[verifier::loop_isolation(false)]
fn estimate_case_inline_length(
    operand: &Option<Box<SqlExpr>>,
    branches: &Vec<CaseBranch>,
    else_result: &Option<Box<SqlExpr>>,
) -> (r: Option<usize>)
    ensures
        r == (if case_inline_len(*operand, branches@, *else_result) <= usize::MAX {
            Some(case_inline_len(*operand, branches@, *else_result) as usize)
        } else {
            None::<usize>
        }),
{
    let ghost total = case_inline_len(*operand, branches@, *else_result);
    let ghost opl: nat = match operand {
        Some(o) => o.text@.len() + 1,
        None => 0,
    };
    let ghost ell: nat = match else_result {
        Some(x) => 6 + x.text@.len(),
        None => 0,
    };
    proof {
        lemma_branches_inline_len_prefix(branches@, 0);
        assert(branches@.take(0) =~= Seq::<CaseBranch>::empty());
    }
    let mut len: usize = 4;
    if let Some(op) = operand {
        len = match len.checked_add(str_len(&op.text)) {
            Some(n) => match n.checked_add(1) {
                Some(m) => m,
                None => return None,
            },
            None => return None,
        };
    }
    assert(len == 4 + opl);
    let mut i: usize = 0;
    while i < branches.len()
        invariant
            i <= branches@.len(),
            len == 4 + opl + branches_inline_len(branches@.take(i as int)),
        decreases branches.len() - i,
    {
        proof {
            lemma_branches_inline_len_prefix(branches@, i + 1);
            assert(branches@.take(i + 1).drop_last() =~= branches@.take(i as int));
        }
        let c = str_len(&branches[i].condition.text);
        let r = str_len(&branches[i].result.text);
        len = match len.checked_add(6) {
            Some(n) => n,
            None => return None,
        };
        len = match len.checked_add(c) {
            Some(n) => n,
            None => return None,
        };
        len = match len.checked_add(6) {
            Some(n) => n,
            None => return None,
        };
        len = match len.checked_add(r) {
            Some(n) => n,
            None => return None,
        };
        i = i + 1;
    }
    proof {
        assert(branches@.take(i as int) =~= branches@);
    }
    if let Some(res) = else_result {
        len = match len.checked_add(6) {
            Some(n) => n,
            None => return None,
        };
        len = match len.checked_add(str_len(&res.text)) {
            Some(n) => n,
            None => return None,
        };
    }
    assert(len == 4 + opl + branches_inline_len(branches@) + ell);
    len.checked_add(4)
}

/// A `CASE`: on one line when it has a single branch and fits in
/// `inline_limit`, otherwise with each branch on an indented line.
#[verifier::loop_isolation(false)]
#[verifier::spinoff_prover]
#[verifier::rlimit(100)]
fn format_case(
    e: &SqlExpr,
    inline_limit: usize,
    cfg: &FormatterConfig,
    tr: &mut RelationAliasTracker,
) -> (d: Doc)
    requires
        e.kind is Case,
    ensures
        (d@, final(tr).index as int) == case_doc(*e, inline_limit, *cfg, old(tr).flags@, old(tr).index as int),
        final(tr).flags@ == old(tr).flags@,
    decreases e, 0nat,
{
    let ghost flags0 = tr.flags@;
    let ghost idx0 = tr.index as int;
    match &e.kind {
        ExprKind::Case { operand, branches, else_result } => {
            let inline_len = match estimate_case_inline_length(operand, branches, else_result) {
                Some(n) => n,
                None => usize::MAX,
            };
            assert(inline_len == clamped(case_inline_len(*operand, branches@, *else_result)));
            let multiline = branches.len() > 1 || inline_len > inline_limit;
            assert(multiline == case_multiline(*operand, branches@, *else_result, inline_limit));
            let mut head: Vec<Doc> = vec![keyword_doc(cfg, "CASE")];
            assert(docs_view(head@) =~= seq![kw(*cfg, "CASE"@)]);
            if let Some(op) = operand {
                head.push(Doc::Space);
                head.push(format_expr(op, inline_limit, cfg, tr));
            }
            let ghost hd = case_head(*operand, inline_limit, *cfg, flags0, idx0);
            let ghost head_v = hd.0;
            let ghost i1 = hd.1;
            assert(docs_view(head@) =~= head_v && tr.index == i1 && tr.flags@ == flags0);
            let mut lines: Vec<Doc> = Vec::new();
            let mut i: usize = 0;
            proof {
                assert(branches@.take(0) =~= Seq::<CaseBranch>::empty());
            }
            while i < branches.len()
                invariant
                    i <= branches@.len(),
                    tr.flags@ == flags0,
                    tr.index == branch_pairs(branches@.take(i as int), inline_limit, *cfg, flags0, i1).1,
                    multiline ==> docs_view(head@) == head_v && docs_view(lines@) == sep_list(
                        branch_groups(branch_pairs(branches@.take(i as int), inline_limit, *cfg, flags0, i1).0, *cfg),
                        seq![DocV::Line],
                    ),
                    !multiline ==> docs_view(head@) == head_v + branch_inline_parts(
                        branch_pairs(branches@.take(i as int), inline_limit, *cfg, flags0, i1).0,
                        *cfg,
                    ) && lines@.len() == 0,
                decreases branches.len() - i,
            {
                proof {
                    assert(decreases_to!(e.kind => e.kind->Case_branches));
                    assert(decreases_to!(*branches => branches@));
                    assert(decreases_to!(branches@ => branches@[i as int]));
                    assert(decreases_to!(*e => branches@[i as int].condition));
                    assert(decreases_to!(*e => branches@[i as int].result));
                    assert(branches@.take(i + 1).drop_last() =~= branches@.take(i as int));
                    assert(branches@.take(i + 1).last() == branches@[i as int]);
                }
                let ghost pre = branch_pairs(branches@.take(i as int), inline_limit, *cfg, flags0, i1);
                let ghost pre_head = docs_view(head@);
                let ghost pre_lines = docs_view(lines@);
                let cond = format_expr(&branches[i].condition, inline_limit, cfg, tr);
                let res = format_expr(&branches[i].result, inline_limit, cfg, tr);
                let ghost cv = cond@;
                let ghost rv = res@;
                let ghost next = branch_pairs(branches@.take(i + 1), inline_limit, *cfg, flags0, i1);
                assert(next.0 == pre.0.push((cv, rv)) && next.1 == tr.index);
                if multiline {
                    if i > 0 {
                        lines.push(Doc::Line);
                    }
                    let w = vec![
                        keyword_doc(cfg, "WHEN"),
                        Doc::Space,
                        cond,
                        Doc::Space,
                        keyword_doc(cfg, "THEN"),
                        Doc::Space,
                        res,
                    ];
                    let ghost wv = seq![
                        kw(*cfg, "WHEN"@),
                        DocV::Space,
                        cv,
                        DocV::Space,
                        kw(*cfg, "THEN"@),
                        DocV::Space,
                        rv,
                    ];
                    assert(docs_view(w@) =~= wv);
                    lines.push(Doc::Group(w));
                    proof {
                        let bd = branch_groups(pre.0, *cfg);
                        let bd1 = branch_groups(next.0, *cfg);
                        assert(bd1 =~= bd.push(DocV::Group(wv)));
                        assert(bd1.drop_last() =~= bd);
                        if i == 0 {
                            assert(bd =~= Seq::<DocV>::empty());
                            assert(docs_view(lines@) =~= sep_list(bd1, seq![DocV::Line]));
                        } else {
                            assert(bd.len() > 0);
                            assert(docs_view(lines@) =~= pre_lines + seq![DocV::Line] + seq![DocV::Group(wv)]);
                        }
                    }
                } else {
                    head.push(Doc::Space);
                    head.push(keyword_doc(cfg, "WHEN"));
                    head.push(Doc::Space);
                    head.push(cond);
                    head.push(Doc::Space);
                    head.push(keyword_doc(cfg, "THEN"));
                    head.push(Doc::Space);
                    head.push(res);
                    assert(next.0.drop_last() =~= pre.0);
                    assert(docs_view(head@) =~= pre_head + seq![
                        DocV::Space,
                        kw(*cfg, "WHEN"@),
                        DocV::Space,
                        cv,
                        DocV::Space,
                        kw(*cfg, "THEN"@),
                        DocV::Space,
                        rv,
                    ]);
                }
                i = i + 1;
            }
            proof {
                assert(branches@.take(i as int) =~= branches@);
            }
            let ghost bp = branch_pairs(branches@, inline_limit, *cfg, flags0, i1);
            let ghost i2 = bp.1;
            let ghost ed = else_doc(*else_result, inline_limit, *cfg, flags0, i2);
            let ghost bd = branch_groups(bp.0, *cfg);
            let ghost else_items: Seq<DocV> = match ed.0 {
                Some(xd) => seq![DocV::Group(seq![kw(*cfg, "ELSE"@), DocV::Space, xd])],
                None => Seq::empty(),
            };
            let ghost items = bd + else_items;
            proof {
                if multiline && bd.len() > 0 {
                    assert(sep_list(bd, seq![DocV::Line]).len() > 0);
                }
                crate::expr_layout::lemma_sep_list_empty(bd, seq![DocV::Line]);
            }
            if let Some(res) = else_result {
                let ghost pre_lines = docs_view(lines@);
                let ghost pre_head = docs_view(head@);
                let res_doc = format_expr(res, inline_limit, cfg, tr);
                let ghost xv = res_doc@;
                assert(ed.0 == Some(xv));
                if multiline {
                    if lines.len() > 0 {
                        lines.push(Doc::Line);
                    }
                    lines.push(group3(keyword_doc(cfg, "ELSE"), Doc::Space, res_doc));
                    proof {
                        assert(items.drop_last() =~= bd);
                        if bd.len() == 0 {
                            assert(docs_view(lines@) =~= sep_list(items, seq![DocV::Line]));
                        } else {
                            assert(docs_view(lines@) =~= pre_lines + seq![DocV::Line] + seq![items.last()]);
                        }
                    }
                } else {
                    head.push(Doc::Space);
                    head.push(keyword_doc(cfg, "ELSE"));
                    head.push(Doc::Space);
                    head.push(res_doc);
                    assert(docs_view(head@) =~= pre_head + seq![DocV::Space, kw(*cfg, "ELSE"@), DocV::Space, xv]);
                }
            } else {
                assert(items =~= bd);
            }
            assert(tr.index == ed.1 && tr.flags@ == flags0);
            assert(multiline ==> docs_view(lines@) == sep_list(items, seq![DocV::Line]));
            assert(!multiline ==> docs_view(head@) == head_v + branch_inline_parts(bp.0, *cfg) + (match ed.0 {
                Some(xd) => seq![DocV::Space, kw(*cfg, "ELSE"@), DocV::Space, xd],
                None => Seq::<DocV>::empty(),
            }));
            proof {
                crate::expr_layout::lemma_sep_list_empty(items, seq![DocV::Line]);
            }
            if multiline {
                let ghost lv = docs_view(lines@);
                let mut parts: Vec<Doc> = vec![Doc::Group(head)];
                assert(docs_view(parts@) =~= seq![DocV::Group(docs_view(head@))]);
                let ghost p1 = docs_view(parts@);
                let has_lines = lines.len() > 0;
                if has_lines {
                    let ind = indent(Doc::Group(lines));
                    assert(ind@ == DocV::Indent(Box::new(DocV::Group(lv))));
                    parts.push(Doc::Line);
                    parts.push(ind);
                    assert(docs_view(parts@) =~= p1 + seq![DocV::Line, DocV::Indent(Box::new(DocV::Group(lv)))]);
                } else {
                    assert(docs_view(parts@) =~= p1 + Seq::<DocV>::empty());
                }
                let ghost p2 = docs_view(parts@);
                parts.push(Doc::Line);
                parts.push(keyword_doc(cfg, "END"));
                assert(docs_view(parts@) =~= p2 + seq![DocV::Line, kw(*cfg, "END"@)]);
                assert(docs_view(parts@) =~= p1 + (if items.len() > 0 {
                    seq![DocV::Line, DocV::Indent(Box::new(DocV::Group(sep_list(items, seq![DocV::Line]))))]
                } else {
                    Seq::<DocV>::empty()
                }) + seq![DocV::Line, kw(*cfg, "END"@)]);
                Doc::Group(parts)
            } else {
                let ghost pre_head = docs_view(head@);
                head.push(Doc::Space);
                head.push(keyword_doc(cfg, "END"));
                assert(docs_view(head@) =~= pre_head + seq![DocV::Space, kw(*cfg, "END"@)]);
                Doc::Group(head)
            }
        },
        _ => Doc::Text(e.text.clone()),
    }
}

/// The single unquoted identifier that names a function, if its name is
/// one.
pub open spec fn unquoted_name(f: FuncCall) -> Option<String> {
    if f.name_parts@.len() == 1 {
        match f.name_parts@[0] {
            NamePart::Ident { value, quoted } => if !quoted { Some(value) } else { None },
            NamePart::Other => None,
        }
    } else {
        None
    }
}

/// Whether a function's name is cased like a keyword: a single unquoted
/// identifier naming a built-in aggregate or window function.
pub open spec fn name_is_cased(f: FuncCall) -> bool {
    unquoted_name(f) matches Some(v) && exists|i: int|
        0 <= i < crate::keywords::builtin_function_names().len() && crate::text::eq_ignore_ascii_case(
            v@,
            #[trigger] crate::keywords::builtin_function_names()[i],
        )
}

fn single_unquoted_name(f: &FuncCall) -> (r: Option<&String>)
    ensures
        r matches Some(v) ==> unquoted_name(*f) == Some(*v),
        r is None ==> unquoted_name(*f) is None,
{
    if f.name_parts.len() == 1 {
        match &f.name_parts[0] {
            NamePart::Ident { value, quoted } => if !*quoted { Some(value) } else { None },
            NamePart::Other => None,
        }
    } else {
        None
    }
}

/// A call as written without its window.
fn call_text_of(f: &FuncCall) -> (r: Vec<char>)
    ensures
        r@ == crate::expr_layout::call_text(*f),
{
    let mut t: Vec<char> = if f.odbc { chars_of("{fn ") } else { Vec::new() };
    push_str(&mut t, f.name_text.as_str());
    push_str(&mut t, f.parameters_text.as_str());
    push_str(&mut t, f.args_text.as_str());
    let ghost t0 = t@;
    if f.within_group.len() > 0 {
        push_str(&mut t, " WITHIN GROUP (ORDER BY ");
        push_all(&mut t, crate::text::comma_separated_text(&f.within_group).as_slice());
        push_str(&mut t, ")");
    }
    let ghost t1 = t@;
    if let Some(c) = &f.filter {
        push_str(&mut t, " FILTER (WHERE ");
        push_str(&mut t, c.as_str());
        push_str(&mut t, ")");
    }
    let ghost t2 = t@;
    if let Some(n) = &f.null_treatment {
        push_str(&mut t, " ");
        push_str(&mut t, n.as_str());
    }
    let ghost t3 = t@;
    if f.odbc {
        push_str(&mut t, "}");
    }
    proof {
        let lead: Seq<char> = if f.odbc { "{fn "@ } else { Seq::empty() };
        assert(t0 =~= lead + f.name_text@ + f.parameters_text@ + f.args_text@);
        assert(t1 =~= t0 + (if f.within_group@.len() > 0 {
            " WITHIN GROUP (ORDER BY "@ + crate::text::comma_separated(crate::literals::strings(f.within_group@)) + ")"@
        } else {
            Seq::empty()
        }));
        assert(t2 =~= t1 + (match f.filter {
            Some(c) => " FILTER (WHERE "@ + c@ + ")"@,
            None => Seq::empty(),
        }));
        assert(t3 =~= t2 + (match f.null_treatment {
            Some(n) => " "@ + n@,
            None => Seq::empty(),
        }));
        reveal(crate::expr_layout::call_text);
        assert(t@ =~= crate::expr_layout::call_text(*f));
    }
    t
}

/// The call's text with its name replaced, when the text starts with it.
fn with_name_replaced(f: &FuncCall, text: &[char], new_name: &[char]) -> (r: Vec<char>)
    ensures
        r@ == crate::expr_layout::name_replaced(*f, text@, new_name@),
{
    let t = slice(text, 0, text.len());
    assert(t@ =~= text@);
    let mut prefix: Vec<char> = if f.odbc { chars_of("{fn ") } else { Vec::new() };
    let ghost lead: Seq<char> = if f.odbc { "{fn "@ } else { Seq::empty() };
    assert(prefix@ =~= lead);
    let prefix_len = prefix.len();
    push_str(&mut prefix, f.name_text.as_str());
    assert(prefix@ =~= lead + f.name_text@);
    if starts_with(t.as_slice(), prefix.as_slice()) {
        let mut out = slice(t.as_slice(), 0, prefix_len);
        push_all(&mut out, new_name);
        let rest = slice(t.as_slice(), prefix.len(), t.len());
        push_all(&mut out, rest.as_slice());
        assert(out@ =~= t@.take(lead.len() as int) + new_name@ + t@.skip(prefix@.len() as int));
        out
    } else {
        t
    }
}

/// A function call as the parser writes it, its name under the keyword case
/// when it is a built-in aggregate or window function, followed by its
/// window.
#[verifier::spinoff_prover]
#[verifier::rlimit(60)]
fn format_function_call(
    f: &FuncCall,
    inline_limit: usize,
    cfg: &FormatterConfig,
    tr: &mut RelationAliasTracker,
) -> (d: Doc)
    ensures
        (d@, final(tr).index as int) == func_doc(*f, inline_limit, *cfg, old(tr).flags@, old(tr).index as int),
        final(tr).flags@ == old(tr).flags@,
        !name_is_cased(*f) && f.over is None ==> d@ == DocV::Text(crate::expr_layout::call_text(*f)),
        !name_is_cased(*f) && f.over is Some ==> group_with(d@, 3, 0, DocV::Text(crate::expr_layout::call_text(*f))),
    decreases f, 1nat,
{
    let call = call_text_of(f);
    let base_text = match single_unquoted_name(f) {
        Some(value) => {
            let vc = chars_of(value.as_str());
            if is_builtin_function_name(vc.as_slice()) {
                let cased = chars_of(apply_keyword_case(value.as_str(), cfg).as_str());
                with_name_replaced(f, call.as_slice(), cased.as_slice())
            } else {
                call
            }
        },
        None => call,
    };
    assert(base_text@ == crate::expr_layout::func_base_text(*f, cfg.keyword_case));
    let base = chars_doc(base_text);
    match &f.over {
        Some(w) => {
            let window = format_window_type(w, inline_limit, cfg, tr);
            group3(base, Doc::Space, window)
        },
        None => base,
    }
}

#[verifier::spinoff_prover]
#[verifier::rlimit(60)]
fn format_window_type(
    w: &WindowRef,
    inline_limit: usize,
    cfg: &FormatterConfig,
    tr: &mut RelationAliasTracker,
) -> (d: Doc)
    ensures
        (d@, final(tr).index as int) == window_doc(*w, inline_limit, *cfg, old(tr).flags@, old(tr).index as int),
        final(tr).flags@ == old(tr).flags@,
    decreases w, 1nat,
{
    match w {
        WindowRef::Named(name) => group3(keyword_doc(cfg, "OVER"), Doc::Space, Doc::Text(name.clone())),
        WindowRef::Spec(spec) => format_window_spec(spec, inline_limit, cfg, tr),
    }
}

/// `OVER (...)`: inline when it has one clause and fits in `inline_limit`,
/// otherwise one clause per indented line.
#[verifier::loop_isolation(false)]
#[verifier::spinoff_prover]
#[verifier::rlimit(60)]
fn format_window_spec(
    spec: &WindowSpecNode,
    inline_limit: usize,
    cfg: &FormatterConfig,
    tr: &mut RelationAliasTracker,
) -> (d: Doc)
    ensures
        (d@, final(tr).index as int) == window_spec_doc(*spec, inline_limit, *cfg, old(tr).flags@, old(tr).index as int),
        final(tr).flags@ == old(tr).flags@,
    decreases spec, 1nat,
{
    let ghost flags0 = tr.flags@;
    let ghost idx0 = tr.index as int;
    let ghost pd = crate::expr_layout::expr_docs(spec.partition_by@, inline_limit, *cfg, flags0, idx0);
    let mut clauses: Vec<Doc> = Vec::new();
    if let Some(name) = &spec.window_name {
        clauses.push(Doc::Text(name.clone()));
    }
    let ghost c1 = docs_view(clauses@);
    assert(c1 =~= (match spec.window_name {
        Some(n) => seq![DocV::Text(n@)],
        None => Seq::<DocV>::empty(),
    }));
    if spec.partition_by.len() > 0 {
        let mut exprs: Vec<Doc> = Vec::new();
        let mut i: usize = 0;
        proof {
            assert(spec.partition_by@.take(0) =~= Seq::<SqlExpr>::empty());
        }
        while i < spec.partition_by.len()
            invariant
                i <= spec.partition_by@.len(),
                docs_view(exprs@) == crate::expr_layout::expr_docs(
                    spec.partition_by@.take(i as int),
                    inline_limit,
                    *cfg,
                    flags0,
                    idx0,
                ).0,
                tr.index == crate::expr_layout::expr_docs(
                    spec.partition_by@.take(i as int),
                    inline_limit,
                    *cfg,
                    flags0,
                    idx0,
                ).1,
                tr.flags@ == flags0,
            decreases spec.partition_by.len() - i,
        {
            proof {
                assert(decreases_to!(spec.partition_by => spec.partition_by@));
                assert(decreases_to!(spec.partition_by@ => spec.partition_by@[i as int]));
                assert(spec.partition_by@.take(i + 1).drop_last() =~= spec.partition_by@.take(i as int));
                assert(spec.partition_by@.take(i + 1).last() == spec.partition_by@[i as int]);
            }
            exprs.push(format_expr(&spec.partition_by[i], inline_limit, cfg, tr));
            i = i + 1;
        }
        proof {
            assert(spec.partition_by@.take(i as int) =~= spec.partition_by@);
        }
        clauses.push(format_window_clause("PARTITION BY", exprs, cfg));
    } else {
        assert(spec.partition_by@ =~= Seq::<SqlExpr>::empty());
    }
    assert(tr.index == pd.1 && tr.flags@ == flags0);
    let ghost c2 = docs_view(clauses@);
    assert(c2 =~= c1 + (if spec.partition_by@.len() > 0 {
        seq![spec_window_clause("PARTITION BY"@, pd.0, *cfg)]
    } else {
        Seq::<DocV>::empty()
    }));
    if spec.order_by.len() > 0 {
        let mut exprs: Vec<Doc> = Vec::new();
        let mut i: usize = 0;
        while i < spec.order_by.len()
            invariant
                i <= spec.order_by@.len(),
                docs_view(exprs@) == crate::blocks::texts(spec.order_by@.take(i as int)),
            decreases spec.order_by.len() - i,
        {
            exprs.push(Doc::Text(spec.order_by[i].clone()));
            assert(crate::blocks::texts(spec.order_by@.take(i + 1)) =~= crate::blocks::texts(
                spec.order_by@.take(i as int),
            ).push(DocV::Text(spec.order_by@[i as int]@)));
            i = i + 1;
        }
        proof {
            assert(spec.order_by@.take(i as int) =~= spec.order_by@);
        }
        clauses.push(format_window_clause("ORDER BY", exprs, cfg));
    }
    let ghost c3 = docs_view(clauses@);
    assert(c3 =~= c2 + (if spec.order_by@.len() > 0 {
        seq![spec_window_clause("ORDER BY"@, crate::blocks::texts(spec.order_by@), *cfg)]
    } else {
        Seq::<DocV>::empty()
    }));
    if let Some(frame) = &spec.frame {
        clauses.push(format_window_frame(frame, inline_limit, cfg, tr));
    }
    let ghost wc = crate::expr_layout::window_clauses(*spec, inline_limit, *cfg, flags0, idx0);
    assert(docs_view(clauses@) =~= c3 + (match spec.frame {
        Some(fr) => seq![frame_doc(fr, inline_limit, *cfg, flags0, pd.1).0],
        None => Seq::<DocV>::empty(),
    }));
    assert(docs_view(clauses@) == wc.0);
    assert(tr.index == wc.1 && tr.flags@ == flags0);
    let inline_len = str_len(&spec.text);
    let multiline = clauses.len() > 1 || inline_len > inline_limit;
    if multiline {
        let body = Doc::Group(separated_docs(clauses, Sep::Line));
        group3(keyword_doc(cfg, "OVER"), Doc::Space, paren_block(body))
    } else {
        let inner = Doc::Group(separated_docs(clauses, Sep::Space));
        let parens = group3(lit("("), inner, lit(")"));
        group3(keyword_doc(cfg, "OVER"), Doc::Space, parens)
    }
}

#[verifier::spinoff_prover]
#[verifier::rlimit(60)]
fn format_window_frame(
    frame: &FrameNode,
    inline_limit: usize,
    cfg: &FormatterConfig,
    tr: &mut RelationAliasTracker,
) -> (d: Doc)
    ensures
        (d@, final(tr).index as int) == frame_doc(*frame, inline_limit, *cfg, old(tr).flags@, old(tr).index as int),
        final(tr).flags@ == old(tr).flags@,
    decreases frame, 1nat,
{
    let mut parts: Vec<Doc> = vec![keyword_doc(cfg, frame.units.as_str())];
    let ghost first = docs_view(parts@);
    assert(first =~= seq![kw(*cfg, frame.units@)]);
    let start = format_window_frame_bound(&frame.start, inline_limit, cfg, tr);
    match &frame.end {
        Some(end) => {
            let end_doc = format_window_frame_bound(end, inline_limit, cfg, tr);
            let ghost sv = start@;
            let ghost ev = end_doc@;
            parts.push(Doc::Space);
            parts.push(keyword_doc(cfg, "BETWEEN"));
            parts.push(Doc::Space);
            parts.push(start);
            parts.push(Doc::Space);
            parts.push(keyword_doc(cfg, "AND"));
            parts.push(Doc::Space);
            parts.push(end_doc);
            assert(docs_view(parts@) =~= first + seq![
                DocV::Space,
                kw(*cfg, "BETWEEN"@),
                DocV::Space,
                sv,
                DocV::Space,
                kw(*cfg, "AND"@),
                DocV::Space,
                ev,
            ]);
        },
        None => {
            let ghost sv = start@;
            parts.push(Doc::Space);
            parts.push(start);
            assert(docs_view(parts@) =~= first + seq![DocV::Space, sv]);
        },
    }
    Doc::Group(parts)
}

#[verifier::spinoff_prover]
#[verifier::rlimit(60)]
fn format_window_frame_bound(
    bound: &FrameBound,
    inline_limit: usize,
    cfg: &FormatterConfig,
    tr: &mut RelationAliasTracker,
) -> (d: Doc)
    ensures
        (d@, final(tr).index as int) == bound_doc(*bound, inline_limit, *cfg, old(tr).flags@, old(tr).index as int),
        final(tr).flags@ == old(tr).flags@,
    decreases bound, 1nat,
{
    match bound {
        FrameBound::CurrentRow => group3(keyword_doc(cfg, "CURRENT"), Doc::Space, keyword_doc(cfg, "ROW")),
        FrameBound::Preceding(None) => group3(keyword_doc(cfg, "UNBOUNDED"), Doc::Space, keyword_doc(cfg, "PRECEDING")),
        FrameBound::Following(None) => group3(keyword_doc(cfg, "UNBOUNDED"), Doc::Space, keyword_doc(cfg, "FOLLOWING")),
        FrameBound::Preceding(Some(x)) => {
            let xd = format_expr(x, inline_limit, cfg, tr);
            group3(xd, Doc::Space, keyword_doc(cfg, "PRECEDING"))
        },
        FrameBound::Following(Some(x)) => {
            let xd = format_expr(x, inline_limit, cfg, tr);
            group3(xd, Doc::Space, keyword_doc(cfg, "FOLLOWING"))
        },
    }
}

// ---------------------------------------------------------------------------
// Queries
// ---------------------------------------------------------------------------

/// A query laid out in the usual way (no preference for a multi-line
/// select list).
#[verifier::spinoff_prover]
#[verifier::rlimit(60)]
fn format_query(
    q: &SqlQuery,
    cfg: &FormatterConfig,
    version: Option<DremioVersionClause>,
    tr: &mut RelationAliasTracker,
) -> (d: Doc)
    ensures
        (d@, final(tr).index as int) == query_doc(*q, *cfg, version, false, old(tr).flags@, old(tr).index as int),
        final(tr).flags@ == old(tr).flags@,
    decreases q, 2nat,
{
    format_query_with_layout_preference(q, cfg, version, tr, false)
}

/// A query: its common table expressions, its body (a select with its
/// clauses one per line, a parenthesised query, `VALUES` rows, or the
/// parser's text), then `ORDER BY`, `LIMIT` and `OFFSET`. With
/// `prefer_multiline` an inline select list is put one item per line.
#[verifier::loop_isolation(false)]
#[verifier::spinoff_prover]
#[verifier::rlimit(60)]
fn format_query_with_layout_preference(
    q: &SqlQuery,
    cfg: &FormatterConfig,
    version: Option<DremioVersionClause>,
    tr: &mut RelationAliasTracker,
    prefer_multiline: bool,
) -> (d: Doc)
    ensures
        (d@, final(tr).index as int) == query_doc(
            *q,
            *cfg,
            version,
            prefer_multiline,
            old(tr).flags@,
            old(tr).index as int,
        ),
        final(tr).flags@ == old(tr).flags@,
    decreases q, 1nat,
{
    let ghost flags0 = tr.flags@;
    let ghost idx0 = tr.index as int;
    let mut parts: Vec<Doc> = Vec::new();
    if let Some(w) = &q.with {
        let wd = format_with(w, cfg, tr);
        let ghost wv = wd@;
        parts.push(wd);
        parts.push(Doc::Line);
        parts.push(Doc::Line);
        assert(docs_view(parts@) =~= seq![wv, DocV::Line, DocV::Line]);
    }
    let ghost i1 = tr.index as int;
    let ghost wp = docs_view(parts@);
    assert(wp == (match q.with {
        Some(w) => seq![with_doc(w, *cfg, flags0, idx0).0, DocV::Line, DocV::Line],
        None => Seq::<DocV>::empty(),
    }) && i1 == (match q.with {
        Some(w) => with_doc(w, *cfg, flags0, idx0).1,
        None => idx0,
    }) && tr.flags@ == flags0);
    match &q.body {
        QueryBody::Select(s) => {
            let body = format_select_parts(s, cfg, version, prefer_multiline, tr);
            push_docs(&mut parts, body);
        },
        QueryBody::Nested(inner) => {
            let inner_doc = format_query_with_layout_preference(inner, cfg, version, tr, prefer_multiline);
            let ghost iv = inner_doc@;
            parts.push(paren_block(inner_doc));
            assert(docs_view(parts@) =~= wp + seq![crate::expr_layout::paren_block_doc(iv)]);
        },
        QueryBody::Values(v) => {
            let vd = format_values(v, cfg);
            let ghost vv = vd@;
            parts.push(vd);
            assert(docs_view(parts@) =~= wp + seq![vv]);
        },
        QueryBody::Other(text) => {
            parts.push(Doc::Text(text.clone()));
            assert(docs_view(parts@) =~= wp + seq![DocV::Text(text@)]);
        },
    }
    let ghost pb = docs_view(parts@);
    append_query_tail(&mut parts, q, cfg);
    assert(docs_view(parts@) == pb + tail_parts(*q, *cfg));
    assert(docs_view(parts@) =~= query_doc(*q, *cfg, version, prefer_multiline, flags0, idx0).0->Group_0);
    Doc::Group(parts)
}

/// The parts of a select: its head and list, `FROM`, `WHERE`, `GROUP BY`
/// and `HAVING`.
#[verifier::loop_isolation(false)]
#[verifier::spinoff_prover]
#[verifier::rlimit(100)]
fn format_select_parts(
    s: &SelectNode,
    cfg: &FormatterConfig,
    version: Option<DremioVersionClause>,
    prefer_multiline: bool,
    tr: &mut RelationAliasTracker,
) -> (parts: Vec<Doc>)
    ensures
        (docs_view(parts@), final(tr).index as int) == select_parts(
            *s,
            *cfg,
            version,
            prefer_multiline,
            old(tr).flags@,
            old(tr).index as int,
        ),
        final(tr).flags@ == old(tr).flags@,
    decreases s, 2nat,
{
    let ghost flags0 = tr.flags@;
    let ghost idx0 = tr.index as int;
    let mut parts: Vec<Doc> = Vec::new();
    let mut layout = choose_layout(s, cfg);
    if prefer_multiline && layout == SelectLayout::Inline {
        layout = SelectLayout::PerLine;
    }
    assert(layout == effective_layout(*s, *cfg, prefer_multiline));
    let ghost hd = select_head_doc(*s, layout, *cfg, flags0, idx0);
    let sd = format_select(s, layout, cfg, tr);
    let ghost sv = sd@;
    parts.push(sd);
    let is_single_wildcard = s.projection.len() == 1 && match &s.projection[0].kind {
        SelectItemKind::Wildcard => true,
        SelectItemKind::QualifiedWildcard => true,
        _ => false,
    };
    assert(is_single_wildcard == single_wildcard(*s));
    let ghost p1 = docs_view(parts@);
    let ghost i1 = hd.1;
    assert(p1 =~= seq![hd.0] && tr.index == i1 && tr.flags@ == flags0);
    let ghost fp = from_parts(s.from@, *cfg, version, flags0, i1);
    if let Some(from_doc) = format_from(&s.from, cfg, &version, tr) {
        let ghost fv = from_doc@;
        let needs_newline = doc_has_line(&from_doc);
        if layout == SelectLayout::Inline && !(needs_newline && is_single_wildcard) {
            parts.push(Doc::Space);
            parts.push(from_doc);
            assert(docs_view(parts@) =~= p1 + seq![DocV::Space, fv]);
        } else {
            parts.push(Doc::Line);
            parts.push(from_doc);
            assert(docs_view(parts@) =~= p1 + seq![DocV::Line, fv]);
        }
    } else {
        assert(docs_view(parts@) =~= p1 + Seq::<DocV>::empty());
    }
    let ghost p2 = docs_view(parts@);
    let ghost i2 = fp.1;
    assert(tr.index == i2 && tr.flags@ == flags0);
    let ghost wp = crate::query_layout::condition_parts("WHERE"@, s.selection, *cfg, flags0, i2);
    push_condition(&mut parts, "WHERE", &s.selection, cfg, tr);
    let ghost p3 = docs_view(parts@);
    push_group_by(&mut parts, s, cfg);
    let ghost p4 = docs_view(parts@);
    let ghost hp = crate::query_layout::condition_parts("HAVING"@, s.having, *cfg, flags0, wp.1);
    push_condition(&mut parts, "HAVING", &s.having, cfg, tr);
    assert(docs_view(parts@) =~= select_parts(*s, *cfg, version, prefer_multiline, flags0, idx0).0);
    parts
}

/// `GROUP BY` on a line of its own, when the select has one.
fn push_group_by(parts: &mut Vec<Doc>, s: &SelectNode, cfg: &FormatterConfig)
    ensures
        docs_view(final(parts)@) == docs_view(old(parts)@) + crate::query_layout::group_by_parts(*s, *cfg),
{
    let ghost p3 = docs_view(parts@);
    match &s.group_by {
        GroupByNode::All => {
            parts.push(Doc::Line);
            parts.push(lit("GROUP BY ALL"));
        },
        GroupByNode::Exprs(exprs) => {
            if exprs.len() > 0 {
                parts.push(Doc::Line);
                if exprs.len() > 1 {
                    parts.push(format_comma_clause_per_line("GROUP BY", exprs, cfg));
                } else {
                    parts.push(format_comma_clause("GROUP BY", exprs, cfg));
                }
            }
        },
    }
    let ghost p4 = docs_view(parts@);
    assert(p4 =~= p3 + crate::query_layout::group_by_parts(*s, *cfg));
}

/// A `WHERE` or `HAVING` condition on a line of its own, when there is one.
#[verifier::spinoff_prover]
#[verifier::rlimit(50)]
fn push_condition(
    parts: &mut Vec<Doc>,
    label: &str,
    e: &Option<SqlExpr>,
    cfg: &FormatterConfig,
    tr: &mut RelationAliasTracker,
)
    ensures
        docs_view(final(parts)@) == docs_view(old(parts)@) + crate::query_layout::condition_parts(
            label@,
            *e,
            *cfg,
            old(tr).flags@,
            old(tr).index as int,
        ).0,
        final(tr).index == crate::query_layout::condition_parts(label@, *e, *cfg, old(tr).flags@, old(tr).index as int).1,
        final(tr).flags@ == old(tr).flags@,
    decreases e, 3nat,
{
    let ghost p0 = docs_view(parts@);
    if let Some(x) = e {
        parts.push(Doc::Line);
        let d = format_boolean_clause(label, x, cfg, tr);
        let ghost dv = d@;
        parts.push(d);
        assert(docs_view(parts@) =~= p0 + seq![DocV::Line, dv]);
    } else {
        assert(docs_view(parts@) =~= p0 + Seq::<DocV>::empty());
    }
}

/// `ORDER BY` on a line of its own, when the query has one.
fn push_order_by(parts: &mut Vec<Doc>, q: &SqlQuery, cfg: &FormatterConfig)
    ensures
        docs_view(final(parts)@) == docs_view(old(parts)@) + crate::query_layout::order_by_parts(*q, *cfg),
{
    let ghost p0 = docs_view(parts@);
    match &q.order_by_all {
        Some(opts) => {
            let mut item = chars_of("ALL");
            push_str(&mut item, opts.as_str());
            let one = vec![Doc::Text(string_of(item.as_slice()))];
            assert(docs_view(one@) =~= seq![DocV::Text("ALL"@ + opts@)]);
            parts.push(Doc::Line);
            parts.push(group3(keyword_doc(cfg, "ORDER BY"), Doc::Space, indent(Doc::Group(one))));
            assert(docs_view(parts@) =~= p0 + seq![DocV::Line, crate::query_layout::order_by_all_doc(opts@, *cfg)]);
        },
        None => {
            if q.order_by.len() > 0 {
                parts.push(Doc::Line);
                parts.push(format_comma_clause("ORDER BY", &q.order_by, cfg));
                assert(docs_view(parts@) =~= p0 + seq![DocV::Line, crate::blocks::spec_comma_clause("ORDER BY"@, q.order_by@, *cfg)]);
            } else {
                assert(docs_view(parts@) =~= p0 + Seq::<DocV>::empty());
            }
        },
    }
    let ghost p1 = docs_view(parts@);
    assert(p1 =~= p0 + crate::query_layout::order_by_parts(*q, *cfg));
}

/// `ORDER BY`, `LIMIT` and `OFFSET`, each on a line of its own.
fn append_query_tail(parts: &mut Vec<Doc>, q: &SqlQuery, cfg: &FormatterConfig)
    ensures
        docs_view(final(parts)@) == docs_view(old(parts)@) + tail_parts(*q, *cfg),
{
    let ghost p0 = docs_view(parts@);
    push_order_by(parts, q, cfg);
    let ghost p1 = docs_view(parts@);
    match &q.limit {
        LimitNode::Absent => {
            assert(p1 =~= p1 + Seq::<DocV>::empty());
        },
        LimitNode::LimitOffset { limit, offset } => {
            if let Some(l) = limit {
                parts.push(Doc::Line);
                parts.push(keyword_then(cfg, "LIMIT", chars_of(l.as_str()).as_slice()));
            }
            let ghost p2 = docs_view(parts@);
            assert(p2 =~= p1 + (match limit {
                Some(l) => seq![DocV::Line, keyword_then_doc(*cfg, "LIMIT"@, l@)],
                None => Seq::<DocV>::empty(),
            }));
            if let Some(o) = offset {
                parts.push(Doc::Line);
                let oc = chars_of(o.as_str());
                proof {
                    reveal_strlit("OFFSET ");
                }
                let rest = if crate::text::starts_with_str(oc.as_slice(), "OFFSET ") {
                    slice(oc.as_slice(), 7, oc.len())
                } else {
                    oc
                };
                assert(rest@ == crate::query_layout::offset_rest(o@));
                parts.push(keyword_then(cfg, "OFFSET", rest.as_slice()));
            }
            assert(docs_view(parts@) =~= p2 + (match offset {
                Some(o) => seq![DocV::Line, keyword_then_doc(*cfg, "OFFSET"@, crate::query_layout::offset_rest(o@))],
                None => Seq::<DocV>::empty(),
            }));
        },
        LimitNode::OffsetCommaLimit { offset, limit } => {
            parts.push(Doc::Line);
            let mut v = chars_of(offset.as_str());
            v.push(',');
            v.push(' ');
            push_str(&mut v, limit.as_str());
            assert(v@ =~= offset@ + seq![',', ' '] + limit@);
            parts.push(keyword_then(cfg, "LIMIT", v.as_slice()));
        },
    }
    assert(docs_view(parts@) =~= p0 + tail_parts(*q, *cfg));
}

/// `VALUES` with one row inline, or each row on an indented line.
fn format_values(v: &ValuesNode, cfg: &FormatterConfig) -> (d: Doc)
    ensures
        d@ == values_doc(*v, *cfg),
{
    let mut rows: Vec<Doc> = Vec::new();
    let mut i: usize = 0;
    while i < v.rows.len()
        invariant
            i <= v.rows@.len(),
            docs_view(rows@) == values_rows(*v, *cfg).take(i as int),
        decreases v.rows.len() - i,
    {
        let paren = format_parenthesized_inline(&v.rows[i]);
        if v.explicit_row {
            rows.push(group3(keyword_doc(cfg, "ROW"), Doc::Space, paren));
        } else {
            rows.push(paren);
        }
        assert(docs_view(rows@) =~= values_rows(*v, *cfg).take(i + 1));
        i = i + 1;
    }
    assert(values_rows(*v, *cfg).take(i as int) =~= values_rows(*v, *cfg));
    let ghost rv = docs_view(rows@);
    let mut parts: Vec<Doc> = vec![keyword_doc(cfg, "VALUES")];
    assert(docs_view(parts@) =~= seq![kw(*cfg, "VALUES"@)]);
    if rows.len() == 1 {
        let row = rows.remove(0);
        assert(row@ == rv[0]);
        parts.push(Doc::Space);
        parts.push(row);
        assert(docs_view(parts@) =~= seq![kw(*cfg, "VALUES"@)] + seq![DocV::Space, rv[0]]);
    } else {
        let joined = comma_joined_docs(rows, Sep::Line);
        parts.push(Doc::Line);
        parts.push(indent(Doc::Group(joined)));
        assert(docs_view(parts@) =~= seq![kw(*cfg, "VALUES"@)] + seq![
            DocV::Line,
            DocV::Indent(Box::new(DocV::Group(sep_list(rv, crate::blocks::comma_sep(Sep::Line))))),
        ]);
    }
    assert(rv.len() == values_rows(*v, *cfg).len());
    assert(docs_view(parts@) =~= seq![kw(*cfg, "VALUES"@)] + (if rv.len() == 1 {
        seq![DocV::Space, rv[0]]
    } else {
        seq![DocV::Line, DocV::Indent(Box::new(DocV::Group(sep_list(rv, crate::blocks::comma_sep(Sep::Line)))))]
    }));
    Doc::Group(parts)
}

/// `WITH [RECURSIVE]` and the common table expressions, one per line after
/// the first.
#[verifier::loop_isolation(false)]
#[verifier::spinoff_prover]
#[verifier::rlimit(60)]
fn format_with(w: &WithClause, cfg: &FormatterConfig, tr: &mut RelationAliasTracker) -> (d: Doc)
    ensures
        (d@, final(tr).index as int) == with_doc(*w, *cfg, old(tr).flags@, old(tr).index as int),
        final(tr).flags@ == old(tr).flags@,
    decreases w, 1nat,
{
    let ghost flags0 = tr.flags@;
    let ghost idx0 = tr.index as int;
    let mut parts: Vec<Doc> = vec![keyword_doc(cfg, "WITH")];
    if w.recursive {
        parts.push(Doc::Space);
        parts.push(keyword_doc(cfg, "RECURSIVE"));
    }
    let ghost head = docs_view(parts@);
    assert(head =~= seq![kw(*cfg, "WITH"@)] + (if w.recursive {
        seq![DocV::Space, kw(*cfg, "RECURSIVE"@)]
    } else {
        Seq::<DocV>::empty()
    }));
    let mut i: usize = 0;
    while i < w.ctes.len()
        invariant
            i <= w.ctes@.len(),
            docs_view(parts@) == head + cte_parts(w.ctes@.take(i as int), *cfg, flags0, idx0).0,
            tr.index == cte_parts(w.ctes@.take(i as int), *cfg, flags0, idx0).1,
            tr.flags@ == flags0,
        decreases w.ctes.len() - i,
    {
        proof {
            assert(decreases_to!(w.ctes => w.ctes@));
            assert(decreases_to!(w.ctes@ => w.ctes@[i as int]));
            assert(w.ctes@.take(i + 1).drop_last() =~= w.ctes@.take(i as int));
            assert(w.ctes@.take(i + 1).last() == w.ctes@[i as int]);
        }
        let ghost pre = docs_view(parts@);
        if i == 0 {
            parts.push(Doc::Space);
        } else {
            parts.push(lit(","));
            parts.push(Doc::Line);
        }
        let ghost sep = docs_view(parts@);
        assert(sep =~= pre + (if i == 0 {
            seq![DocV::Space]
        } else {
            seq![DocV::Text(","@), DocV::Line]
        }));
        let cd = format_cte(&w.ctes[i], cfg, tr);
        let ghost cv = cd@;
        parts.push(cd);
        assert(docs_view(parts@) =~= sep + seq![cv]);
        i = i + 1;
    }
    proof {
        assert(w.ctes@.take(i as int) =~= w.ctes@);
    }
    Doc::Group(parts)
}

/// `<name> AS [<materialization>] (`, the query indented, `)`.
#[verifier::spinoff_prover]
#[verifier::rlimit(60)]
fn format_cte(c: &CteNode, cfg: &FormatterConfig, tr: &mut RelationAliasTracker) -> (d: Doc)
    ensures
        (d@, final(tr).index as int) == cte_doc(*c, *cfg, old(tr).flags@, old(tr).index as int),
        final(tr).flags@ == old(tr).flags@,
    decreases c, 1nat,
{
    let mut head: Vec<Doc> = vec![Doc::Text(c.alias.clone()), Doc::Space, keyword_doc(cfg, "AS")];
    assert(docs_view(head@) =~= seq![DocV::Text(c.alias@), DocV::Space, kw(*cfg, "AS"@)]);
    if let Some(m) = &c.materialized {
        head.push(Doc::Space);
        head.push(Doc::Text(m.clone()));
    }
    let ghost h1 = docs_view(head@);
    assert(h1 =~= seq![DocV::Text(c.alias@), DocV::Space, kw(*cfg, "AS"@)] + (match c.materialized {
        Some(m) => seq![DocV::Space, DocV::Text(m@)],
        None => Seq::<DocV>::empty(),
    }));
    head.push(Doc::Space);
    head.push(lit("("));
    let ghost hv = docs_view(head@);
    assert(hv =~= h1 + seq![DocV::Space, DocV::Text("("@)]);
    let body = format_query(&c.query, cfg, None, tr);
    let ghost bv = body@;
    let mut parts: Vec<Doc> = vec![Doc::Group(head), Doc::Line, indent(body), Doc::Line, lit(")")];
    let ghost p0 = seq![DocV::Group(hv), DocV::Line, DocV::Indent(Box::new(bv)), DocV::Line, DocV::Text(")"@)];
    assert(docs_view(parts@) =~= p0);
    if let Some(from) = &c.from {
        parts.push(Doc::Space);
        parts.push(keyword_doc(cfg, "FROM"));
        parts.push(Doc::Space);
        parts.push(Doc::Text(from.clone()));
    }
    assert(docs_view(parts@) =~= p0 + (match c.from {
        Some(f) => seq![DocV::Space, kw(*cfg, "FROM"@), DocV::Space, DocV::Text(f@)],
        None => Seq::<DocV>::empty(),
    }));
    Doc::Group(parts)
}

// ---------------------------------------------------------------------------
// Select lists
// ---------------------------------------------------------------------------

/// Whether the projection is a single `*` or `t.*`.
pub open spec fn single_wildcard(s: SelectNode) -> bool {
    s.projection@.len() == 1 && (s.projection@[0].kind is Wildcard || s.projection@[0].kind is QualifiedWildcard)
}

/// The keyword that introduces a join.
pub open spec fn join_prefix_spec(op: JoinOpKind) -> Seq<char> {
    match op {
        JoinOpKind::Join => "JOIN"@,
        JoinOpKind::Inner => "INNER JOIN"@,
        JoinOpKind::Left => "LEFT JOIN"@,
        JoinOpKind::LeftOuter => "LEFT JOIN"@,
        JoinOpKind::Right => "RIGHT JOIN"@,
        JoinOpKind::RightOuter => "RIGHT JOIN"@,
        JoinOpKind::FullOuter => "FULL JOIN"@,
        JoinOpKind::CrossJoin => "CROSS JOIN"@,
        JoinOpKind::Semi => "SEMI JOIN"@,
        JoinOpKind::LeftSemi => "LEFT SEMI JOIN"@,
        JoinOpKind::RightSemi => "RIGHT SEMI JOIN"@,
        JoinOpKind::Anti => "ANTI JOIN"@,
        JoinOpKind::LeftAnti => "LEFT ANTI JOIN"@,
        JoinOpKind::RightAnti => "RIGHT ANTI JOIN"@,
        JoinOpKind::CrossApply => "CROSS APPLY"@,
        JoinOpKind::OuterApply => "OUTER APPLY"@,
        JoinOpKind::AsOf => "ASOF JOIN"@,
        JoinOpKind::StraightJoin => "STRAIGHT_JOIN"@,
    }
}

/// The keyword that introduces a join, `JOIN` and `INNER JOIN` each as written.
pub fn join_prefix(op: &JoinOpKind) -> (r: &'static str)
    ensures
        r@ == join_prefix_spec(*op),
{
    match op {
        JoinOpKind::Join => "JOIN",
        JoinOpKind::Inner => "INNER JOIN",
        JoinOpKind::Left => "LEFT JOIN",
        JoinOpKind::LeftOuter => "LEFT JOIN",
        JoinOpKind::Right => "RIGHT JOIN",
        JoinOpKind::RightOuter => "RIGHT JOIN",
        JoinOpKind::FullOuter => "FULL JOIN",
        JoinOpKind::CrossJoin => "CROSS JOIN",
        JoinOpKind::Semi => "SEMI JOIN",
        JoinOpKind::LeftSemi => "LEFT SEMI JOIN",
        JoinOpKind::RightSemi => "RIGHT SEMI JOIN",
        JoinOpKind::Anti => "ANTI JOIN",
        JoinOpKind::LeftAnti => "LEFT ANTI JOIN",
        JoinOpKind::RightAnti => "RIGHT ANTI JOIN",
        JoinOpKind::CrossApply => "CROSS APPLY",
        JoinOpKind::OuterApply => "OUTER APPLY",
        JoinOpKind::AsOf => "ASOF JOIN",
        JoinOpKind::StraightJoin => "STRAIGHT_JOIN",
    }
}

/// Whether a join is `NATURAL`.
pub open spec fn is_natural(j: JoinNode) -> bool {
    j.constraint matches Some(JoinConstraintNode::Natural)
}

/// The projection's length on one line: the items' texts with `, ` between.
pub open spec fn projection_len(items: Seq<SelectItemNode>) -> nat
    decreases items.len(),
{
    if items.len() == 0 {
        0
    } else if items.len() == 1 {
        items[0].text@.len()
    } else {
        projection_len(items.drop_last()) + 2 + items.last().text@.len()
    }
}

/// The length of the first line of a select laid out inline: `SELECT`,
/// `DISTINCT`, the projection, then `FROM` with the first relation and its
/// first join.
pub open spec fn first_line_len(s: SelectNode) -> nat {
    let head: nat = if s.distinct { 16 } else { 7 };
    let from: nat = if s.from@.len() > 0 {
        let first = s.from@[0];
        let join: nat = if first.joins@.len() > 0 {
            let j = first.joins@[0];
            (1 + (if is_natural(j) { 8nat } else { 0nat }) + join_prefix_spec(j.op).len() + 1
                + j.relation.text@.len()) as nat
        } else {
            0
        };
        (6 + first.relation.text@.len() + join) as nat
    } else {
        0
    };
    head + projection_len(s.projection@) + from
}

/// Inline when the style is not per line and the projection is a single
/// wildcard or the first line fits the line length; otherwise per line.
pub open spec fn chosen_layout(s: SelectNode, cfg: FormatterConfig) -> SelectLayout {
    if cfg.select_list_style == SelectListStyle::PerLine {
        SelectLayout::PerLine
    } else if single_wildcard(s) {
        SelectLayout::Inline
    } else if crate::expr_layout::clamped(first_line_len(s)) <= cfg.line_length {
        SelectLayout::Inline
    } else {
        SelectLayout::PerLine
    }
}

fn estimate_projection_length(items: &Vec<SelectItemNode>) -> (r: usize)
    ensures
        r == (if projection_len(items@) > usize::MAX { usize::MAX as nat } else { projection_len(items@) }),
{
    let mut len: usize = 0;
    let mut i: usize = 0;
    while i < items.len()
        invariant
            i <= items@.len(),
            len == (if projection_len(items@.take(i as int)) > usize::MAX { usize::MAX as nat } else { projection_len(items@.take(i as int)) }),
        decreases items.len() - i,
    {
        proof {
            assert(items@.take(i + 1).drop_last() == items@.take(i as int));
        }
        if i > 0 {
            len = len.saturating_add(2);
        }
        len = len.saturating_add(str_len(&items[i].text));
        i = i + 1;
    }
    proof {
        assert(items@.take(i as int) == items@);
    }
    len
}

/// Chooses how to lay out a select list.
pub fn choose_layout(s: &SelectNode, cfg: &FormatterConfig) -> (r: SelectLayout)
    ensures
        r == chosen_layout(*s, *cfg),
{
    if cfg.select_list_style == SelectListStyle::PerLine {
        return SelectLayout::PerLine;
    }
    if s.projection.len() == 1 {
        match &s.projection[0].kind {
            SelectItemKind::Wildcard => return SelectLayout::Inline,
            SelectItemKind::QualifiedWildcard => return SelectLayout::Inline,
            _ => {},
        }
    }
    let mut len: usize = if s.distinct { 16 } else { 7 };
    len = len.saturating_add(estimate_projection_length(&s.projection));
    if s.from.len() > 0 {
        let first = &s.from[0];
        len = len.saturating_add(6);
        len = len.saturating_add(str_len(&first.relation.text));
        if first.joins.len() > 0 {
            let j = &first.joins[0];
            let natural: usize = match &j.constraint {
                Some(JoinConstraintNode::Natural) => 8,
                _ => 0,
            };
            len = len.saturating_add(1).saturating_add(natural);
            len = len.saturating_add(join_prefix(&j.op).unicode_len());
            len = len.saturating_add(1);
            len = len.saturating_add(str_len(&j.relation.text));
        }
    }
    if len <= cfg.line_length {
        SelectLayout::Inline
    } else {
        SelectLayout::PerLine
    }
}

/// `SELECT [DISTINCT]` and the list, inline after a space or indented on
/// the following lines.
#[verifier::spinoff_prover]
#[verifier::rlimit(60)]
fn format_select(
    s: &SelectNode,
    layout: SelectLayout,
    cfg: &FormatterConfig,
    tr: &mut RelationAliasTracker,
) -> (d: Doc)
    ensures
        (d@, final(tr).index as int) == select_head_doc(*s, layout, *cfg, old(tr).flags@, old(tr).index as int),
        final(tr).flags@ == old(tr).flags@,
    decreases s, 1nat,
{
    let list = format_projection(&s.projection, layout, cfg, tr);
    let ghost lv = list@;
    let mut parts: Vec<Doc> = vec![keyword_doc(cfg, "SELECT")];
    if s.distinct {
        parts.push(Doc::Space);
        parts.push(keyword_doc(cfg, "DISTINCT"));
    }
    let ghost p1 = docs_view(parts@);
    assert(p1 =~= seq![kw(*cfg, "SELECT"@)] + (if s.distinct {
        seq![DocV::Space, kw(*cfg, "DISTINCT"@)]
    } else {
        Seq::<DocV>::empty()
    }));
    match layout {
        SelectLayout::Inline => parts.push(Doc::Space),
        SelectLayout::PerLine => parts.push(Doc::Line),
    }
    parts.push(indent(list));
    assert(docs_view(parts@) =~= p1 + seq![layout_break(layout), DocV::Indent(Box::new(lv))]);
    Doc::Group(parts)
}

/// The select items separated by `, ` (inline) or by a comma and a line
/// (per line); expressions break within half the line length, at least 20.
#[verifier::loop_isolation(false)]
#[verifier::spinoff_prover]
#[verifier::rlimit(60)]
fn format_projection(
    items: &Vec<SelectItemNode>,
    layout: SelectLayout,
    cfg: &FormatterConfig,
    tr: &mut RelationAliasTracker,
) -> (d: Doc)
    ensures
        (d@, final(tr).index as int) == projection_doc(items@, layout, *cfg, old(tr).flags@, old(tr).index as int),
        final(tr).flags@ == old(tr).flags@,
    decreases items, 1nat,
{
    let ghost flags0 = tr.flags@;
    let ghost idx0 = tr.index as int;
    let half = cfg.line_length / 2;
    let inline_limit: usize = if half >= 20 { half } else { 20 };
    assert(inline_limit == projection_limit(*cfg));
    let mut docs: Vec<Doc> = Vec::new();
    let mut i: usize = 0;
    proof {
        assert(items@.take(0) =~= Seq::<SelectItemNode>::empty());
    }
    while i < items.len()
        invariant
            i <= items@.len(),
            docs_view(docs@) == item_docs(items@.take(i as int), inline_limit, *cfg, flags0, idx0).0,
            tr.index == item_docs(items@.take(i as int), inline_limit, *cfg, flags0, idx0).1,
            tr.flags@ == flags0,
        decreases items.len() - i,
    {
        proof {
            assert(decreases_to!(*items => items@));
            assert(decreases_to!(items@ => items@[i as int]));
            assert(items@.take(i + 1).drop_last() =~= items@.take(i as int));
            assert(items@.take(i + 1).last() == items@[i as int]);
        }
        docs.push(format_select_item(&items[i], inline_limit, cfg, tr));
        i = i + 1;
    }
    proof {
        assert(items@.take(i as int) =~= items@);
    }
    let sep = match layout {
        SelectLayout::Inline => Sep::Space,
        SelectLayout::PerLine => Sep::Line,
    };
    Doc::Group(comma_joined_docs(docs, sep))
}

#[verifier::spinoff_prover]
#[verifier::rlimit(60)]
fn format_select_item(
    item: &SelectItemNode,
    inline_limit: usize,
    cfg: &FormatterConfig,
    tr: &mut RelationAliasTracker,
) -> (d: Doc)
    ensures
        (d@, final(tr).index as int) == select_item_doc(*item, inline_limit, *cfg, old(tr).flags@, old(tr).index as int),
        final(tr).flags@ == old(tr).flags@,
    decreases item, 1nat,
{
    match &item.kind {
        SelectItemKind::Unnamed(e) => format_expr(e, inline_limit, cfg, tr),
        SelectItemKind::Aliased { expr, alias } => {
            let e = format_expr(expr, inline_limit, cfg, tr);
            let ghost ev = e@;
            let v = vec![e, Doc::Space, keyword_doc(cfg, "AS"), Doc::Space, Doc::Text(alias.clone())];
            assert(docs_view(v@) =~= seq![ev, DocV::Space, kw(*cfg, "AS"@), DocV::Space, DocV::Text(alias@)]);
            Doc::Group(v)
        },
        _ => Doc::Text(item.text.clone()),
    }
}

// ---------------------------------------------------------------------------
// FROM and joins
// ---------------------------------------------------------------------------

/// `FROM` with the first relation (and the version clause after it), the
/// other relations and every join each on a line of its own; `None` when
/// there is no relation.
#[verifier::loop_isolation(false)]
#[verifier::spinoff_prover]
#[verifier::rlimit(60)]
fn format_from(
    from: &Vec<TableWithJoinsNode>,
    cfg: &FormatterConfig,
    version: &Option<DremioVersionClause>,
    tr: &mut RelationAliasTracker,
) -> (r: Option<Doc>)
    ensures
        from@.len() == 0 <==> r is None,
        r matches Some(d) ==> d@ == DocV::Group(from_parts(from@, *cfg, *version, old(tr).flags@, old(tr).index as int).0),
        final(tr).index == from_parts(from@, *cfg, *version, old(tr).flags@, old(tr).index as int).1,
        final(tr).flags@ == old(tr).flags@,
    decreases from, 1nat,
{
    if from.len() == 0 {
        return None;
    }
    let ghost flags0 = tr.flags@;
    let ghost idx0 = tr.index as int;
    let mut parts: Vec<Doc> = Vec::new();
    let mut i: usize = 0;
    proof {
        assert(from@.take(0) =~= Seq::<TableWithJoinsNode>::empty());
    }
    while i < from.len()
        invariant
            i <= from@.len(),
            docs_view(parts@) == from_parts(from@.take(i as int), *cfg, *version, flags0, idx0).0,
            tr.index == from_parts(from@.take(i as int), *cfg, *version, flags0, idx0).1,
            tr.flags@ == flags0,
        decreases from.len() - i,
    {
        proof {
            assert(decreases_to!(*from => from@));
            assert(decreases_to!(from@ => from@[i as int]));
            assert(decreases_to!(from@[i as int] => from@[i as int].relation));
            assert(from@.take(i + 1).drop_last() =~= from@.take(i as int));
            assert(from@.take(i + 1).last() == from@[i as int]);
        }
        let ghost pre = docs_view(parts@);
        let ghost i1 = tr.index as int;
        let rel = &from[i];
        let rel_doc = format_table_factor(&rel.relation, cfg, tr);
        let ghost fd = rel_doc@;
        let ghost i2 = tr.index as int;
        if i == 0 {
            let needs_from_indent = match &rel.relation.kind {
                FactorKind::TableFunction(_) => false,
                _ => true,
            };
            let rel_doc = if needs_from_indent { indent(rel_doc) } else { rel_doc };
            assert(rel_doc@ == crate::query_layout::first_relation_doc(rel.relation, fd));
            parts.push(group3(Doc::Text(apply_keyword_case("FROM", cfg)), Doc::Space, rel_doc));
            if let Some(v) = version {
                parts.push(Doc::Line);
                parts.push(format_dremio_version_clause(v, cfg));
            }
            assert(docs_view(parts@) =~= pre + (seq![
                DocV::Group(seq![kw(*cfg, "FROM"@), DocV::Space, crate::query_layout::first_relation_doc(rel.relation, fd)]),
            ] + (match *version {
                Some(v) => seq![DocV::Line, DocV::Group(crate::dremio_format::version_lines(v, cfg.keyword_case))],
                None => Seq::<DocV>::empty(),
            })));
        } else {
            parts.push(Doc::Line);
            parts.push(rel_doc);
            assert(docs_view(parts@) =~= pre + seq![DocV::Line, fd]);
        }
        let ghost pre_j = docs_view(parts@);
        let mut k: usize = 0;
        proof {
            assert(rel.joins@.take(0) =~= Seq::<JoinNode>::empty());
        }
        while k < rel.joins.len()
            invariant
                k <= rel.joins@.len(),
                docs_view(parts@) == pre_j + joins_parts(rel.joins@.take(k as int), *cfg, flags0, i2).0,
                tr.index == joins_parts(rel.joins@.take(k as int), *cfg, flags0, i2).1,
                tr.flags@ == flags0,
            decreases rel.joins.len() - k,
        {
            proof {
                assert(decreases_to!(from@[i as int] => from@[i as int].joins));
                assert(decreases_to!(rel.joins => rel.joins@));
                assert(decreases_to!(rel.joins@ => rel.joins@[k as int]));
                assert(decreases_to!(*from => rel.joins@[k as int]));
                assert(rel.joins@.take(k + 1).drop_last() =~= rel.joins@.take(k as int));
                assert(rel.joins@.take(k + 1).last() == rel.joins@[k as int]);
            }
            let ghost before = docs_view(parts@);
            parts.push(Doc::Line);
            let jd = format_join(&rel.joins[k], cfg, tr);
            let ghost jv = jd@;
            parts.push(jd);
            assert(docs_view(parts@) =~= before + seq![DocV::Line, jv]);
            k = k + 1;
        }
        proof {
            assert(rel.joins@.take(k as int) =~= rel.joins@);
        }
        i = i + 1;
    }
    proof {
        assert(from@.take(i as int) =~= from@);
    }
    Some(Doc::Group(parts))
}

/// An alias as written after its optional `AS`.
fn alias_text_of(a: &crate::sql_model::AliasNode) -> (r: String)
    ensures
        r@ == crate::query_layout::alias_text(*a),
{
    let mut t = chars_of(a.name.as_str());
    if a.columns.len() > 0 {
        t.push(' ');
        t.push('(');
        push_all(&mut t, crate::text::comma_separated_text(&a.columns).as_slice());
        t.push(')');
    }
    let ghost tail: Seq<char> = if a.columns@.len() > 0 {
        seq![' ', '('] + crate::text::comma_separated(crate::literals::strings(a.columns@)) + seq![')']
    } else {
        Seq::empty()
    };
    assert(t@ =~= a.name@ + tail);
    proof {
        reveal(crate::query_layout::alias_text);
    }
    string_of(t.as_slice())
}

/// ` [AS] <alias>` after a parenthesised relation, as the recorded flag says.
#[verifier::spinoff_prover]
#[verifier::rlimit(60)]
fn push_alias(parts: &mut Vec<Doc>, alias: &Option<crate::sql_model::AliasNode>, cfg: &FormatterConfig, tr: &mut RelationAliasTracker)
    ensures
        docs_view(final(parts)@) == docs_view(old(parts)@) + alias_parts(*alias, *cfg, old(tr).flags@, old(tr).index as int).0,
        final(tr).index == alias_parts(*alias, *cfg, old(tr).flags@, old(tr).index as int).1,
        final(tr).flags@ == old(tr).flags@,
{
    let ghost p0 = docs_view(parts@);
    if let Some(a) = alias {
        let has_as = tr.next_has_as();
        parts.push(Doc::Space);
        if has_as {
            parts.push(keyword_doc(cfg, "AS"));
            parts.push(Doc::Space);
        }
        parts.push(Doc::Text(alias_text_of(a)));
        assert(docs_view(parts@) =~= p0 + (seq![DocV::Space] + (if has_as {
            seq![kw(*cfg, "AS"@), DocV::Space]
        } else {
            Seq::<DocV>::empty()
        }) + seq![DocV::Text(crate::query_layout::alias_text(*a))]));
    } else {
        assert(docs_view(parts@) =~= p0 + Seq::<DocV>::empty());
    }
}

/// A relation: `TABLE (...)` and derived tables break onto indented lines;
/// any other relation is the parser's text, without the `AS` of an alias
/// that was written without it.
#[verifier::spinoff_prover]
#[verifier::rlimit(100)]
fn format_table_factor(f: &FactorNode, cfg: &FormatterConfig, tr: &mut RelationAliasTracker) -> (d: Doc)
    ensures
        (d@, final(tr).index as int) == factor_doc(*f, *cfg, old(tr).flags@, old(tr).index as int),
        final(tr).flags@ == old(tr).flags@,
    decreases f, 1nat,
{
    match &f.kind {
        FactorKind::TableFunction(e) => format_table_function_factor(&f.alias, e, cfg, tr),
        FactorKind::Derived { lateral, subquery } => format_derived_factor(&f.alias, *lateral, subquery, cfg, tr),
        _ => format_plain_factor(f, tr),
    }
}

/// `TABLE (`, the expression on an indented line, `)` and the alias.
#[verifier::spinoff_prover]
#[verifier::rlimit(100)]
fn format_table_function_factor(
    alias: &Option<crate::sql_model::AliasNode>,
    e: &SqlExpr,
    cfg: &FormatterConfig,
    tr: &mut RelationAliasTracker,
) -> (d: Doc)
    ensures
        (d@, final(tr).index as int) == crate::query_layout::table_function_factor_doc(
            *alias,
            *e,
            *cfg,
            old(tr).flags@,
            old(tr).index as int,
        ),
        final(tr).flags@ == old(tr).flags@,
    decreases e, 3nat,
{
    let ghost flags = tr.flags@;
    let ghost i0 = tr.index as int;
    let ghost t = table_fn_doc(*e, *cfg, flags, i0);
    let inner = format_table_function_expr(e, cfg, tr);
    let ghost iv = inner@;
    assert(iv == t.0 && tr.index == t.1);
    let mut parts = table_function_head(inner, cfg);
    let ghost head = docs_view(parts@);
    let ghost ap = alias_parts(*alias, *cfg, flags, t.1);
    push_alias(&mut parts, alias, cfg, tr);
    assert(docs_view(parts@) == head + ap.0);
    assert(crate::query_layout::table_function_factor_doc(*alias, *e, *cfg, flags, i0) == (
        DocV::Group(head + ap.0),
        ap.1,
    ));
    Doc::Group(parts)
}

/// `TABLE (`, the expression on an indented line, and `)`.
fn table_function_head(inner: Doc, cfg: &FormatterConfig) -> (parts: Vec<Doc>)
    ensures
        docs_view(parts@) == seq![
            kw(*cfg, "TABLE"@),
            DocV::Space,
            DocV::Text("("@),
            DocV::Line,
            DocV::Indent(Box::new(inner@)),
            DocV::Line,
            DocV::Text(")"@),
        ],
{
    let ghost iv = inner@;
    let parts: Vec<Doc> = vec![
        keyword_doc(cfg, "TABLE"),
        Doc::Space,
        lit("("),
        Doc::Line,
        indent(inner),
        Doc::Line,
        lit(")"),
    ];
    assert(docs_view(parts@) =~= seq![
        kw(*cfg, "TABLE"@),
        DocV::Space,
        DocV::Text("("@),
        DocV::Line,
        DocV::Indent(Box::new(iv)),
        DocV::Line,
        DocV::Text(")"@),
    ]);
    parts
}

/// `[LATERAL] (`, the query on indented lines, `)` and the alias.
#[verifier::spinoff_prover]
#[verifier::rlimit(60)]
fn format_derived_factor(
    alias: &Option<crate::sql_model::AliasNode>,
    lateral: bool,
    subquery: &SqlQuery,
    cfg: &FormatterConfig,
    tr: &mut RelationAliasTracker,
) -> (d: Doc)
    ensures
        (d@, final(tr).index as int) == crate::query_layout::derived_factor_doc(
            *alias,
            lateral,
            *subquery,
            *cfg,
            old(tr).flags@,
            old(tr).index as int,
        ),
        final(tr).flags@ == old(tr).flags@,
    decreases subquery, 2nat,
{
    let mut parts: Vec<Doc> = Vec::new();
    if lateral {
        parts.push(keyword_doc(cfg, "LATERAL"));
        parts.push(Doc::Space);
    }
    let ghost p0 = docs_view(parts@);
    assert(p0 =~= (if lateral {
        seq![kw(*cfg, "LATERAL"@), DocV::Space]
    } else {
        Seq::<DocV>::empty()
    }));
    let inner = format_query_with_layout_preference(subquery, cfg, None, tr, true);
    let ghost iv = inner@;
    parts.push(lit("("));
    parts.push(Doc::Line);
    parts.push(indent(inner));
    parts.push(Doc::Line);
    parts.push(lit(")"));
    assert(docs_view(parts@) =~= p0 + seq![
        DocV::Text("("@),
        DocV::Line,
        DocV::Indent(Box::new(iv)),
        DocV::Line,
        DocV::Text(")"@),
    ]);
    push_alias(&mut parts, alias, cfg, tr);
    Doc::Group(parts)
}

/// A relation as written, without the `AS` of an alias that was written
/// without it.
fn format_plain_factor(f: &FactorNode, tr: &mut RelationAliasTracker) -> (d: Doc)
    ensures
        (d@, final(tr).index as int) == crate::query_layout::plain_factor_doc(*f, old(tr).flags@, old(tr).index as int),
        final(tr).flags@ == old(tr).flags@,
{
    let text = chars_of(f.text.as_str());
    match &f.alias {
        Some(a) => {
            let has_as = tr.next_has_as();
            if !has_as {
                let at = alias_text_of(a);
                let mut needle = chars_of(" AS ");
                push_str(&mut needle, at.as_str());
                let mut with = chars_of(" ");
                push_str(&mut with, at.as_str());
                chars_doc(replace_first(text.as_slice(), needle.as_slice(), with.as_slice()))
            } else {
                chars_doc(text)
            }
        },
        None => chars_doc(text),
    }
}

/// The expression inside `TABLE (...)`: a function call with its arguments
/// one per line, or any other expression.
#[verifier::spinoff_prover]
#[verifier::rlimit(60)]
fn format_table_function_expr(e: &SqlExpr, cfg: &FormatterConfig, tr: &mut RelationAliasTracker) -> (d: Doc)
    ensures
        (d@, final(tr).index as int) == table_fn_doc(*e, *cfg, old(tr).flags@, old(tr).index as int),
        final(tr).flags@ == old(tr).flags@,
    decreases e, 2nat,
{
    match &e.kind {
        ExprKind::Function(f) => format_function_invocation(f, cfg, tr),
        _ => format_expr(e, half_line(cfg), cfg, tr),
    }
}

/// A function call laid out with its arguments one per indented line; a
/// name of one unquoted identifier follows the keyword case.
#[verifier::loop_isolation(false)]
#[verifier::spinoff_prover]
#[verifier::rlimit(60)]
fn format_function_invocation(f: &FuncCall, cfg: &FormatterConfig, tr: &mut RelationAliasTracker) -> (d: Doc)
    ensures
        (d@, final(tr).index as int) == invocation_doc(*f, *cfg, old(tr).flags@, old(tr).index as int),
        final(tr).flags@ == old(tr).flags@,
    decreases f, 1nat,
{
    let ghost flags0 = tr.flags@;
    let ghost idx0 = tr.index as int;
    let name = match single_unquoted_name(f) {
        Some(value) => apply_keyword_case(value.as_str(), cfg),
        None => f.name_text.clone(),
    };
    assert(name@ == crate::query_layout::invocation_name(*f, cfg.keyword_case));
    let open = group2(Doc::Text(name), lit("("));
    assert(open@ == DocV::Group(seq![DocV::Text(crate::query_layout::invocation_name(*f, cfg.keyword_case)), DocV::Text("("@)]));
    let ghost ov = open@;
    let mut parts: Vec<Doc> = vec![open];
    assert(docs_view(parts@) =~= seq![ov]);
    match &f.args {
        FuncArgs::Absent => {},
        FuncArgs::Subquery(q) => {
            let formatted = format_query(q, cfg, None, tr);
            let ghost fv = formatted@;
            parts.push(group3(Doc::Line, indent(formatted), Doc::Line));
            assert(docs_view(parts@) =~= seq![ov, DocV::Group(seq![DocV::Line, DocV::Indent(Box::new(fv)), DocV::Line])]);
        },
        FuncArgs::List { duplicate, args, clauses } => {
            let mut arg_parts: Vec<Doc> = Vec::new();
            if let Some(dup) = duplicate {
                arg_parts.push(Doc::Text(apply_keyword_case(dup.as_str(), cfg)));
                if args.len() > 0 {
                    arg_parts.push(Doc::Space);
                }
            }
            let ghost a0 = docs_view(arg_parts@);
            let joined = comma_joined(args, Sep::Line);
            crate::blocks::push_docs(&mut arg_parts, joined);
            let ghost a1 = docs_view(arg_parts@);
            if clauses.len() > 0 {
                if arg_parts.len() > 0 {
                    arg_parts.push(Doc::Line);
                }
                let mut text: Vec<char> = Vec::new();
                let mut i: usize = 0;
                while i < clauses.len()
                    invariant
                        i <= clauses@.len(),
                        text@ == crate::query_layout::clause_text(clauses@.take(i as int)),
                    decreases clauses.len() - i,
                {
                    proof {
                        assert(clauses@.take(i + 1).drop_last() =~= clauses@.take(i as int));
                        assert(clauses@.take(i + 1).last() == clauses@[i as int]);
                    }
                    let ghost before = text@;
                    if i > 0 {
                        text.push(' ');
                    }
                    push_str(&mut text, clauses[i].as_str());
                    proof {
                        if i == 0 {
                            assert(clauses@.take(1) =~= seq![clauses@[0]]);
                            assert(text@ =~= clauses@[0]@);
                        } else {
                            assert(text@ =~= before + seq![' '] + clauses@[i as int]@);
                        }
                    }
                    i = i + 1;
                }
                proof {
                    assert(clauses@.take(i as int) =~= clauses@);
                }
                let ghost a2 = docs_view(arg_parts@);
                arg_parts.push(chars_doc(text));
                assert(docs_view(arg_parts@) =~= a2 + seq![DocV::Text(crate::query_layout::clause_text(clauses@))]);
            }
            assert(docs_view(arg_parts@) =~= crate::query_layout::list_arg_parts(
                *duplicate,
                args@,
                clauses@,
                cfg.keyword_case,
            ));
            let ghost av = docs_view(arg_parts@);
            parts.push(group3(Doc::Line, indent(Doc::Group(arg_parts)), Doc::Line));
            assert(docs_view(parts@) =~= seq![
                ov,
                DocV::Group(seq![DocV::Line, DocV::Indent(Box::new(DocV::Group(av))), DocV::Line]),
            ]);
        },
    }
    let ghost p1 = docs_view(parts@);
    assert(p1 =~= seq![ov] + (match f.args {
        FuncArgs::Absent => Seq::<DocV>::empty(),
        FuncArgs::Subquery(q) => seq![
            DocV::Group(
                seq![
                    DocV::Line,
                    DocV::Indent(Box::new(query_doc(*q, *cfg, None, false, flags0, idx0).0)),
                    DocV::Line,
                ],
            ),
        ],
        FuncArgs::List { duplicate, args, clauses } => seq![
            DocV::Group(
                seq![
                    DocV::Line,
                    DocV::Indent(
                        Box::new(
                            DocV::Group(crate::query_layout::list_arg_parts(duplicate, args@, clauses@, cfg.keyword_case)),
                        ),
                    ),
                    DocV::Line,
                ],
            ),
        ],
    }) && tr.index == (match f.args {
        FuncArgs::Subquery(q) => query_doc(*q, *cfg, None, false, flags0, idx0).1,
        _ => idx0,
    }) && tr.flags@ == flags0);
    let ghost i1 = tr.index;
    parts.push(group1(lit(")")));
    assert(docs_view(parts@) =~= p1 + seq![DocV::Group(seq![DocV::Text(")"@)])]);
    let ghost p2 = docs_view(parts@);
    if let Some(w) = &f.over {
        parts.push(Doc::Space);
        let wd = format_window_type(w, half_line(cfg), cfg, tr);
        let ghost wv = wd@;
        parts.push(wd);
        assert(docs_view(parts@) =~= p2 + seq![DocV::Space, wv]);
    } else {
        assert(docs_view(parts@) =~= p2 + Seq::<DocV>::empty());
    }
    assert(docs_view(parts@) =~= p2 + (match f.over {
        Some(w) => seq![DocV::Space, window_doc(w, crate::query_layout::half_limit(*cfg), *cfg, flags0, i1 as int).0],
        None => Seq::<DocV>::empty(),
    }));
    assert(tr.index == invocation_doc(*f, *cfg, flags0, idx0).1);
    Doc::Group(parts)
}

/// A join: `[NATURAL] <kind> <relation>`, then `ASOF ON` and `ON`
/// conditions on indented lines, or `USING (...)` after a space.
#[verifier::loop_isolation(false)]
#[verifier::spinoff_prover]
#[verifier::rlimit(100)]
fn format_join(j: &JoinNode, cfg: &FormatterConfig, tr: &mut RelationAliasTracker) -> (d: Doc)
    ensures
        (d@, final(tr).index as int) == join_doc(*j, *cfg, old(tr).flags@, old(tr).index as int),
        final(tr).flags@ == old(tr).flags@,
    decreases j, 1nat,
{
    let ghost flags0 = tr.flags@;
    let ghost idx0 = tr.index as int;
    let mut head: Vec<Doc> = Vec::new();
    if let Some(JoinConstraintNode::Natural) = &j.constraint {
        head.push(Doc::Text(apply_keyword_case("NATURAL", cfg)));
        head.push(Doc::Space);
    }
    let ghost h0 = docs_view(head@);
    assert(h0 =~= (if j.constraint == Some(JoinConstraintNode::Natural) {
        seq![kw(*cfg, "NATURAL"@), DocV::Space]
    } else {
        Seq::<DocV>::empty()
    }));
    head.push(Doc::Text(apply_keyword_case(join_prefix(&j.op), cfg)));
    head.push(Doc::Space);
    let rel = format_table_factor(&j.relation, cfg, tr);
    let ghost relv = rel@;
    head.push(rel);
    let ghost hv = docs_view(head@);
    assert(hv =~= h0 + seq![kw(*cfg, join_prefix_spec(j.op)), DocV::Space, relv]);
    let ghost i1 = tr.index as int;
    let mut parts: Vec<Doc> = vec![Doc::Group(head)];
    assert(docs_view(parts@) =~= seq![DocV::Group(hv)]);
    let ghost mp = crate::query_layout::match_condition_parts(j.match_condition, *cfg, flags0, i1);
    push_match_condition(&mut parts, &j.match_condition, cfg, tr);
    let ghost p1 = docs_view(parts@);
    let ghost cp = crate::query_layout::constraint_parts(j.constraint, *cfg, flags0, mp.1);
    push_constraint(&mut parts, &j.constraint, cfg, tr);
    assert(docs_view(parts@) =~= seq![DocV::Group(hv)] + mp.0 + cp.0);
    Doc::Group(parts)
}

/// The `ASOF ON` condition of a join on an indented line, when it has one.
#[verifier::spinoff_prover]
#[verifier::rlimit(50)]
fn push_match_condition(
    parts: &mut Vec<Doc>,
    m: &Option<SqlExpr>,
    cfg: &FormatterConfig,
    tr: &mut RelationAliasTracker,
)
    ensures
        docs_view(final(parts)@) == docs_view(old(parts)@) + crate::query_layout::match_condition_parts(
            *m,
            *cfg,
            old(tr).flags@,
            old(tr).index as int,
        ).0,
        final(tr).index == crate::query_layout::match_condition_parts(*m, *cfg, old(tr).flags@, old(tr).index as int).1,
        final(tr).flags@ == old(tr).flags@,
    decreases m, 3nat,
{
    let ghost p0 = docs_view(parts@);
    if let Some(x) = m {
        parts.push(Doc::Line);
        let d = format_join_boolean_clause("ASOF ON", x, cfg, tr);
        let ghost dv = d@;
        parts.push(indent(d));
        assert(docs_view(parts@) =~= p0 + seq![DocV::Line, DocV::Indent(Box::new(dv))]);
    } else {
        assert(docs_view(parts@) =~= p0 + Seq::<DocV>::empty());
    }
}

/// The `ON` condition of a join on an indented line, or `USING (...)`
/// after a space.
#[verifier::spinoff_prover]
#[verifier::rlimit(100)]
fn push_constraint(
    parts: &mut Vec<Doc>,
    c: &Option<JoinConstraintNode>,
    cfg: &FormatterConfig,
    tr: &mut RelationAliasTracker,
)
    ensures
        docs_view(final(parts)@) == docs_view(old(parts)@) + crate::query_layout::constraint_parts(
            *c,
            *cfg,
            old(tr).flags@,
            old(tr).index as int,
        ).0,
        final(tr).index == crate::query_layout::constraint_parts(*c, *cfg, old(tr).flags@, old(tr).index as int).1,
        final(tr).flags@ == old(tr).flags@,
    decreases c, 3nat,
{
    let ghost p0 = docs_view(parts@);
    match c {
        Some(JoinConstraintNode::On(e)) => {
            parts.push(Doc::Line);
            let d = format_join_boolean_clause("ON", e, cfg, tr);
            let ghost dv = d@;
            parts.push(indent(d));
            assert(docs_view(parts@) =~= p0 + seq![DocV::Line, DocV::Indent(Box::new(dv))]);
        },
        Some(JoinConstraintNode::Using(cols)) => {
            if cols.len() > 0 {
                parts.push(Doc::Space);
                let u = format_comma_clause("USING", cols, cfg);
                let ghost uv = u@;
                parts.push(u);
                assert(docs_view(parts@) =~= p0 + seq![DocV::Space, uv]);
            } else {
                assert(docs_view(parts@) =~= p0 + Seq::<DocV>::empty());
            }
        },
        _ => {
            assert(docs_view(parts@) =~= p0 + Seq::<DocV>::empty());
        },
    }
}

/// `<label> <condition>`, the condition indented when it breaks.
#[verifier::spinoff_prover]
#[verifier::rlimit(60)]
fn format_boolean_clause(label: &str, e: &SqlExpr, cfg: &FormatterConfig, tr: &mut RelationAliasTracker) -> (d: Doc)
    ensures
        (d@, final(tr).index as int) == boolean_clause_doc(label@, *e, *cfg, old(tr).flags@, old(tr).index as int),
        final(tr).flags@ == old(tr).flags@,
    decreases e, 2nat,
{
    let cond = format_expr(e, half_line(cfg), cfg, tr);
    group3(keyword_doc(cfg, label), Doc::Space, indent(cond))
}

/// `<label> <condition>` inside a join.
#[verifier::spinoff_prover]
#[verifier::rlimit(60)]
fn format_join_boolean_clause(label: &str, e: &SqlExpr, cfg: &FormatterConfig, tr: &mut RelationAliasTracker) -> (d: Doc)
    ensures
        (d@, final(tr).index as int) == join_boolean_clause_doc(label@, *e, *cfg, old(tr).flags@, old(tr).index as int),
        final(tr).flags@ == old(tr).flags@,
    decreases e, 2nat,
{
    let cond = format_expr(e, half_line(cfg), cfg, tr);
    group3(keyword_doc(cfg, label), Doc::Space, cond)
}

// ---------------------------------------------------------------------------
// Statements
// ---------------------------------------------------------------------------

/// Whether none of the flags is set.
/// Whether none of the flags is set.
pub open spec fn none_present(p: Seq<bool>) -> bool {
    forall|i: int| 0 <= i < p.len() ==> !p[i]
}

pub fn none_set(present: &Vec<bool>) -> (r: bool)
    ensures
        r == none_present(present@),
{
    let mut i: usize = 0;
    while i < present.len()
        invariant
            i <= present@.len(),
            forall|j: int| 0 <= j < i ==> !present@[j],
        decreases present.len() - i,
    {
        if present[i] {
            return false;
        }
        i = i + 1;
    }
    true
}

/// A Hive storage format that gives nothing (no row format, storage or
/// location, and no serde properties).
pub open spec fn hive_empty(h: HiveFormatNode) -> bool {
    !h.row_format && !h.storage && !h.location && (match h.serde_properties {
        Some(n) => n == 0,
        None => true,
    })
}

pub fn hive_format_is_empty(h: &HiveFormatNode) -> (r: bool)
    ensures
        r == hive_empty(*h),
{
    !h.row_format && !h.storage && !h.location && match h.serde_properties {
        Some(n) => n == 0,
        None => true,
    }
}

fn hive_absent(h: &Option<HiveFormatNode>) -> (r: bool)
    ensures
        r == (match *h {
            Some(x) => hive_empty(x),
            None => true,
        }),
{
    match h {
        Some(x) => hive_format_is_empty(x),
        None => true,
    }
}

/// Keywords under the keyword case, joined by single spaces.
pub open spec fn cased_join(ws: Seq<Seq<char>>, kc: crate::config::KeywordCase) -> Seq<char>
    decreases ws.len(),
{
    if ws.len() == 0 {
        Seq::empty()
    } else if ws.len() == 1 {
        keyword_cased(ws[0], kc)
    } else {
        cased_join(ws.drop_last(), kc) + seq![' '] + keyword_cased(ws.last(), kc)
    }
}

pub open spec fn str_views(ws: Seq<&str>) -> Seq<Seq<char>> {
    ws.map_values(|w: &str| w@)
}

fn cased_words(words: &Vec<&str>, cfg: &FormatterConfig) -> (r: String)
    ensures
        r@ == cased_join(str_views(words@), cfg.keyword_case),
{
    let ghost all = str_views(words@);
    let mut v: Vec<char> = Vec::new();
    let mut i: usize = 0;
    while i < words.len()
        invariant
            i <= words@.len(),
            all == str_views(words@),
            v@ == cased_join(all.take(i as int), cfg.keyword_case),
        decreases words.len() - i,
    {
        proof {
            assert(all.take(i + 1).drop_last() =~= all.take(i as int));
            assert(all.take(i + 1).last() == words@[i as int]@);
        }
        if i > 0 {
            v.push(' ');
        }
        let w = apply_keyword_case(words[i], cfg);
        push_str(&mut v, w.as_str());
        proof {
            if i == 0 {
                assert(all.take(1) =~= seq![words@[0]@]);
                assert(v@ =~= cased_join(all.take(1), cfg.keyword_case));
            } else {
                assert(v@ =~= cased_join(all.take(i + 1), cfg.keyword_case));
            }
        }
        i = i + 1;
    }
    proof {
        assert(all.take(i as int) =~= all);
    }
    string_of(v.as_slice())
}

/// The words of a `CREATE TABLE` head.
pub open spec fn table_head_words(ct: CreateTableNode) -> Seq<Seq<char>> {
    seq!["CREATE"@] + (if ct.or_replace { seq!["OR REPLACE"@] } else { Seq::empty() }) + (match ct.global {
        Some(true) => seq!["GLOBAL"@],
        Some(false) => seq!["LOCAL"@],
        None => Seq::empty(),
    }) + (if ct.temporary { seq!["TEMPORARY"@] } else { Seq::empty() }) + (if ct.external {
        seq!["EXTERNAL"@]
    } else {
        Seq::empty()
    }) + seq!["TABLE"@] + (if ct.if_not_exists { seq!["IF NOT EXISTS"@] } else { Seq::empty() })
}

/// `CREATE [OR REPLACE] [GLOBAL|LOCAL] [TEMPORARY] [EXTERNAL] TABLE [IF NOT
/// EXISTS]` under the keyword case.
#[verifier::spinoff_prover]
#[verifier::rlimit(30)]
fn create_table_head(ct: &CreateTableNode, cfg: &FormatterConfig) -> (r: String)
    ensures
        r@ == cased_join(table_head_words(*ct), cfg.keyword_case),
{
    let mut words: Vec<&str> = vec!["CREATE"];
    let ghost mut ws: Seq<Seq<char>> = seq!["CREATE"@];
    assert(str_views(words@) =~= ws);
    if ct.or_replace {
        words.push("OR REPLACE");
        proof { ws = ws.push("OR REPLACE"@); }
    }
    assert(str_views(words@) =~= ws);
    match ct.global {
        Some(true) => {
            words.push("GLOBAL");
            proof { ws = ws.push("GLOBAL"@); }
        },
        Some(false) => {
            words.push("LOCAL");
            proof { ws = ws.push("LOCAL"@); }
        },
        None => {},
    }
    assert(str_views(words@) =~= ws);
    if ct.temporary {
        words.push("TEMPORARY");
        proof { ws = ws.push("TEMPORARY"@); }
    }
    assert(str_views(words@) =~= ws);
    if ct.external {
        words.push("EXTERNAL");
        proof { ws = ws.push("EXTERNAL"@); }
    }
    assert(str_views(words@) =~= ws);
    words.push("TABLE");
    proof { ws = ws.push("TABLE"@); }
    assert(str_views(words@) =~= ws);
    if ct.if_not_exists {
        words.push("IF NOT EXISTS");
        proof { ws = ws.push("IF NOT EXISTS"@); }
    }
    assert(str_views(words@) =~= ws);
    assert(ws =~= table_head_words(*ct));
    cased_words(&words, cfg)
}

/// The document of a plain `CREATE TABLE`.
pub open spec fn create_table_doc(ct: CreateTableNode, cfg: FormatterConfig) -> DocV {
    let entries = ct.columns@ + ct.constraints@;
    DocV::Group(
        seq![DocV::Text(cased_join(table_head_words(ct), cfg.keyword_case)), DocV::Space, DocV::Text(ct.name@)]
            + (if entries.len() > 0 {
            seq![DocV::Space, crate::blocks::parenthesized_block(entries)]
        } else {
            Seq::empty()
        }),
    )
}

/// `CREATE TABLE <name> (` with the columns and constraints one per
/// indented line `)`.
fn format_create_table(ct: &CreateTableNode, cfg: &FormatterConfig) -> (d: Doc)
    ensures
        d@ == create_table_doc(*ct, *cfg),
{
    let head = create_table_head(ct, cfg);
    let name = ct.name.clone();
    let mut parts: Vec<Doc> = vec![Doc::Text(head), Doc::Space, Doc::Text(name)];
    proof {
        reveal_with_fuel(docs_view, 4);
        assert(parts@.drop_last().drop_last().drop_last() =~= Seq::<Doc>::empty());
        assert(parts@.drop_last().drop_last() =~= seq![Doc::Text(head)]);
        assert(parts@.drop_last() =~= seq![Doc::Text(head), Doc::Space]);
    }
    assert(docs_view(parts@) =~= seq![
        DocV::Text(cased_join(table_head_words(*ct), cfg.keyword_case)),
        DocV::Space,
        DocV::Text(ct.name@),
    ]);
    let mut entries: Vec<String> = Vec::new();
    let mut i: usize = 0;
    while i < ct.columns.len()
        invariant
            i <= ct.columns@.len(),
            entries@ == ct.columns@.take(i as int),
        decreases ct.columns.len() - i,
    {
        entries.push(ct.columns[i].clone());
        proof {
            assert(entries@ =~= ct.columns@.take(i + 1));
        }
        i = i + 1;
    }
    assert(ct.columns@.take(i as int) =~= ct.columns@);
    let mut k: usize = 0;
    while k < ct.constraints.len()
        invariant
            k <= ct.constraints@.len(),
            entries@ == ct.columns@ + ct.constraints@.take(k as int),
        decreases ct.constraints.len() - k,
    {
        entries.push(ct.constraints[k].clone());
        proof {
            assert(entries@ =~= ct.columns@ + ct.constraints@.take(k + 1));
        }
        k = k + 1;
    }
    assert(ct.constraints@.take(k as int) =~= ct.constraints@);
    let ghost first = docs_view(parts@);
    assert(docs_view(parts@).len() == 3);
    if entries.len() > 0 {
        parts.push(Doc::Space);
        parts.push(format_parenthesized_block(&entries));
        proof {
            assert(docs_view(parts@) =~= first + seq![DocV::Space, crate::blocks::parenthesized_block(entries@)]);
        }
    } else {
        proof {
            assert(docs_view(parts@) =~= first + Seq::<DocV>::empty());
        }
    }
    Doc::Group(parts)
}

/// Whether the query of a `CREATE TABLE ... AS` deserves a multi-line
/// select list: anything but a select, or a select with more than one item,
/// a `WHERE`, a join, a `GROUP BY` or a `HAVING`.
pub open spec fn prefers_multiline_ctas(q: SqlQuery) -> bool {
    match q.body {
        QueryBody::Select(s) => {
            s.projection@.len() > 1 || s.selection is Some
                || (exists|i: int| 0 <= i < s.from@.len() && #[trigger] s.from@[i].joins@.len() > 0)
                || !(s.group_by matches GroupByNode::Exprs(v) && v@.len() == 0)
                || s.having is Some
        },
        _ => true,
    }
}

pub fn should_prefer_multiline_ctas(q: &SqlQuery) -> (r: bool)
    ensures
        r == prefers_multiline_ctas(*q),
{
    match &q.body {
        QueryBody::Select(s) => {
            let mut any_join = false;
            let mut i: usize = 0;
            while i < s.from.len()
                invariant
                    i <= s.from@.len(),
                    any_join == exists|j: int| 0 <= j < i && #[trigger] s.from@[j].joins@.len() > 0,
                decreases s.from.len() - i,
            {
                if s.from[i].joins.len() > 0 {
                    any_join = true;
                }
                i = i + 1;
            }
            let grouped = match &s.group_by {
                GroupByNode::Exprs(v) => v.len() > 0,
                GroupByNode::All => true,
            };
            s.projection.len() > 1 || s.selection.is_some() || any_join || grouped || s.having.is_some()
        },
        _ => true,
    }
}

/// The items of a `PARTITION BY`.
pub open spec fn partition_items(p: PartitionSpec) -> Seq<String> {
    match p {
        PartitionSpec::Tuple(v) => v@,
        PartitionSpec::Nested(x) => seq![x],
        PartitionSpec::Expr(x) => seq![x],
    }
}

/// The `PARTITION BY`, `CLUSTER BY` and `ORDER BY` clauses of a `CREATE
/// TABLE ... AS`, each on a line of its own.
pub open spec fn ctas_clauses(ct: CreateTableNode, cfg: FormatterConfig) -> Seq<DocV> {
    (match ct.partition_by {
        Some(p) => seq![
            DocV::Line,
            crate::blocks::spec_parenthesized_clause("PARTITION BY"@, partition_items(p), cfg, false),
        ],
        None => Seq::empty(),
    }) + (match ct.cluster_by {
        Some(ClusterSpec::Parenthesized(v)) => if v@.len() > 0 {
            seq![DocV::Line, crate::blocks::spec_parenthesized_clause("CLUSTER BY"@, v@, cfg, false)]
        } else {
            Seq::empty()
        },
        Some(ClusterSpec::Bare(v)) => if v@.len() > 0 {
            seq![DocV::Line, crate::blocks::spec_comma_clause("CLUSTER BY"@, v@, cfg)]
        } else {
            Seq::empty()
        },
        None => Seq::empty(),
    }) + (match ct.order_by {
        Some(items) => if items@.len() > 0 {
            seq![DocV::Line, crate::blocks::spec_comma_clause("ORDER BY"@, items@, cfg)]
        } else {
            Seq::empty()
        },
        None => Seq::empty(),
    })
}

/// `CREATE TABLE <name>`, its clauses, `AS` (on a line of its own after
/// clauses) and the query on the next line, its select list one item per
/// line when there are clauses or, for Dremio, when the query prefers it.
pub open spec fn ctas_doc(
    ct: CreateTableNode,
    q: SqlQuery,
    cfg: FormatterConfig,
    flags: Seq<bool>,
    idx: int,
) -> (DocV, int) {
    let clauses = ctas_clauses(ct, cfg);
    let prefer = clauses.len() > 0 || (cfg.dialect == DialectKind::Dremio && prefers_multiline_ctas(q));
    let (qd, next) = query_doc(q, cfg, None, prefer, flags, idx);
    (
        DocV::Group(
            seq![DocV::Text(cased_join(table_head_words(ct), cfg.keyword_case)), DocV::Space, DocV::Text(ct.name@)]
                + clauses + seq![
                if clauses.len() > 0 {
                    DocV::Line
                } else {
                    DocV::Space
                },
                kw(cfg, "AS"@),
                DocV::Line,
                qd,
            ],
        ),
        next,
    )
}

/// `CREATE TABLE <name>`, then `PARTITION BY`, `CLUSTER BY` and `ORDER BY`
/// each on a line, `AS` (on its own line after such clauses) and the query
/// on the next line.
/// The clauses of a `CREATE TABLE ... AS` before its `AS`.
fn ctas_clause_docs(ct: &CreateTableNode, cfg: &FormatterConfig) -> (parts: Vec<Doc>)
    ensures
        docs_view(parts@) == ctas_clauses(*ct, *cfg),
{
    let mut parts: Vec<Doc> = Vec::new();
    if let Some(p) = &ct.partition_by {
        let items: Vec<String> = match p {
            PartitionSpec::Tuple(v) => v.clone(),
            PartitionSpec::Nested(x) => vec![x.clone()],
            PartitionSpec::Expr(x) => vec![x.clone()],
        };
        assert(items@ =~= partition_items(*p));
        parts.push(Doc::Line);
        parts.push(format_parenthesized_clause("PARTITION BY", &items, cfg, false));
    }
    let ghost p1 = docs_view(parts@);
    assert(p1 =~= (match ct.partition_by {
        Some(p) => seq![
            DocV::Line,
            crate::blocks::spec_parenthesized_clause("PARTITION BY"@, partition_items(p), *cfg, false),
        ],
        None => Seq::<DocV>::empty(),
    }));
    if let Some(c) = &ct.cluster_by {
        match c {
            ClusterSpec::Parenthesized(v) => {
                if v.len() > 0 {
                    parts.push(Doc::Line);
                    parts.push(format_parenthesized_clause("CLUSTER BY", v, cfg, false));
                }
            },
            ClusterSpec::Bare(v) => {
                if v.len() > 0 {
                    parts.push(Doc::Line);
                    parts.push(format_comma_clause("CLUSTER BY", v, cfg));
                }
            },
        }
    }
    let ghost p2 = docs_view(parts@);
    assert(p2 =~= p1 + (match ct.cluster_by {
        Some(ClusterSpec::Parenthesized(v)) => if v@.len() > 0 {
            seq![DocV::Line, crate::blocks::spec_parenthesized_clause("CLUSTER BY"@, v@, *cfg, false)]
        } else {
            Seq::<DocV>::empty()
        },
        Some(ClusterSpec::Bare(v)) => if v@.len() > 0 {
            seq![DocV::Line, crate::blocks::spec_comma_clause("CLUSTER BY"@, v@, *cfg)]
        } else {
            Seq::<DocV>::empty()
        },
        None => Seq::<DocV>::empty(),
    }));
    if let Some(items) = &ct.order_by {
        if items.len() > 0 {
            parts.push(Doc::Line);
            parts.push(format_comma_clause("ORDER BY", items, cfg));
        }
    }
    assert(docs_view(parts@) =~= p2 + (match ct.order_by {
        Some(items) => if items@.len() > 0 {
            seq![DocV::Line, crate::blocks::spec_comma_clause("ORDER BY"@, items@, *cfg)]
        } else {
            Seq::<DocV>::empty()
        },
        None => Seq::<DocV>::empty(),
    }));
    parts
}

/// `CREATE TABLE <name>`, then `PARTITION BY`, `CLUSTER BY` and `ORDER BY`
/// each on a line, `AS` (on its own line after such clauses) and the query
/// on the next line.
#[verifier::spinoff_prover]
#[verifier::rlimit(60)]
fn format_create_table_with_query(
    ct: &CreateTableNode,
    q: &SqlQuery,
    cfg: &FormatterConfig,
    tr: &mut RelationAliasTracker,
) -> (d: Doc)
    ensures
        (d@, final(tr).index as int) == ctas_doc(*ct, *q, *cfg, old(tr).flags@, old(tr).index as int),
        final(tr).flags@ == old(tr).flags@,
    decreases q, 3nat,
{
    let head = create_table_head(ct, cfg);
    let ghost hv = head@;
    let name = ct.name.clone();
    let mut parts: Vec<Doc> = vec![Doc::Text(head), Doc::Space, Doc::Text(name)];
    let ghost p0 = seq![DocV::Text(hv), DocV::Space, DocV::Text(ct.name@)];
    assert(docs_view(parts@) =~= p0);
    let clauses = ctas_clause_docs(ct, cfg);
    let has_pre_as_clause = clauses.len() > 0;
    push_docs(&mut parts, clauses);
    let ghost p3 = docs_view(parts@);
    assert(p3 == p0 + ctas_clauses(*ct, *cfg));
    if has_pre_as_clause {
        parts.push(Doc::Line);
    } else {
        parts.push(Doc::Space);
    }
    parts.push(keyword_doc(cfg, "AS"));
    let prefer_multiline = has_pre_as_clause || (cfg.dialect == DialectKind::Dremio
        && should_prefer_multiline_ctas(q));
    let body = format_query_with_layout_preference(q, cfg, None, tr, prefer_multiline);
    let ghost bv = body@;
    parts.push(Doc::Line);
    parts.push(body);
    assert(docs_view(parts@) =~= p3 + seq![
        if has_pre_as_clause {
            DocV::Line
        } else {
            DocV::Space
        },
        kw(*cfg, "AS"@),
        DocV::Line,
        bv,
    ]);
    Doc::Group(parts)
}

/// The head of an `INSERT`: `INSERT [INTO] <table> [<alias>]
/// [(<columns>)]`.
pub open spec fn insert_head(ins: InsertNode, cfg: FormatterConfig) -> DocV {
    DocV::Group(
        seq![kw(cfg, "INSERT"@)] + (if ins.into {
            seq![DocV::Space, kw(cfg, "INTO"@)]
        } else {
            Seq::empty()
        }) + seq![DocV::Space, DocV::Text(ins.table@)] + (match ins.table_alias {
            Some(a) => seq![DocV::Space, DocV::Text(a@)],
            None => Seq::empty(),
        }) + (if ins.columns@.len() > 0 {
            seq![DocV::Space, crate::blocks::parenthesized_inline(ins.columns@)]
        } else {
            Seq::empty()
        }),
    )
}

/// An `INSERT`'s head and its source query on the next line.
pub open spec fn insert_doc(ins: InsertNode, q: SqlQuery, cfg: FormatterConfig, flags: Seq<bool>, idx: int) -> (DocV, int) {
    let (qd, next) = query_doc(q, cfg, None, false, flags, idx);
    (DocV::Group(seq![insert_head(ins, cfg), DocV::Line, qd]), next)
}

/// `INSERT [INTO] <table> [<alias>] [(<columns>)]` and the source query on
/// the next line; an insert without a source or with other options is the
/// parser's text.
#[verifier::spinoff_prover]
#[verifier::rlimit(60)]
fn format_insert(
    ins: &InsertNode,
    stmt_text: &String,
    cfg: &FormatterConfig,
    tr: &mut RelationAliasTracker,
) -> (d: Doc)
    ensures
        ins.source is None || !none_present(ins.present@) ==> d@ == DocV::Text(stmt_text@) && same_tracker(
            *old(tr),
            *final(tr),
        ),
        ins.source matches Some(q) ==> (none_present(ins.present@) ==> (d@, final(tr).index as int) == insert_doc(
            *ins,
            q,
            *cfg,
            old(tr).flags@,
            old(tr).index as int,
        ) && final(tr).flags@ == old(tr).flags@),
    decreases ins, 3nat,
{
    let source = match &ins.source {
        Some(q) => q,
        None => return Doc::Text(stmt_text.clone()),
    };
    if !none_set(&ins.present) {
        return Doc::Text(stmt_text.clone());
    }
    let mut head: Vec<Doc> = vec![keyword_doc(cfg, "INSERT")];
    if ins.into {
        head.push(Doc::Space);
        head.push(keyword_doc(cfg, "INTO"));
    }
    let ghost h1 = docs_view(head@);
    assert(h1 =~= seq![kw(*cfg, "INSERT"@)] + (if ins.into {
        seq![DocV::Space, kw(*cfg, "INTO"@)]
    } else {
        Seq::<DocV>::empty()
    }));
    head.push(Doc::Space);
    head.push(Doc::Text(ins.table.clone()));
    let ghost h2 = docs_view(head@);
    assert(h2 =~= h1 + seq![DocV::Space, DocV::Text(ins.table@)]);
    if let Some(alias) = &ins.table_alias {
        head.push(Doc::Space);
        head.push(Doc::Text(alias.clone()));
    }
    let ghost h3 = docs_view(head@);
    assert(h3 =~= h2 + (match ins.table_alias {
        Some(a) => seq![DocV::Space, DocV::Text(a@)],
        None => Seq::<DocV>::empty(),
    }));
    if ins.columns.len() > 0 {
        head.push(Doc::Space);
        head.push(format_parenthesized_inline(&ins.columns));
    }
    let ghost hv = docs_view(head@);
    assert(hv =~= h3 + (if ins.columns@.len() > 0 {
        seq![DocV::Space, crate::blocks::parenthesized_inline(ins.columns@)]
    } else {
        Seq::<DocV>::empty()
    }));
    let body = format_query(source, cfg, None, tr);
    group3(Doc::Group(head), Doc::Line, body)
}

/// The words of a `CREATE VIEW` head.
pub open spec fn view_head_words(v: CreateViewNode) -> Seq<Seq<char>> {
    seq!["CREATE"@] + (if v.or_replace { seq!["OR REPLACE"@] } else { Seq::empty() }) + (if v.temporary {
        seq!["TEMPORARY"@]
    } else {
        Seq::empty()
    }) + (if v.materialized { seq!["MATERIALIZED"@] } else { Seq::empty() }) + seq!["VIEW"@] + (if v.if_not_exists {
        seq!["IF NOT EXISTS"@]
    } else {
        Seq::empty()
    })
}

/// `CREATE ... VIEW <name> [(<columns>)] AS` and the query on the next
/// line.
pub open spec fn view_doc(v: CreateViewNode, cfg: FormatterConfig, flags: Seq<bool>, idx: int) -> (DocV, int) {
    let (qd, next) = query_doc(v.query, cfg, None, false, flags, idx);
    (
        DocV::Group(
            seq![DocV::Text(cased_join(view_head_words(v), cfg.keyword_case)), DocV::Space, DocV::Text(v.name@)]
                + (if v.columns@.len() > 0 {
                seq![DocV::Space, crate::blocks::parenthesized_inline(v.columns@)]
            } else {
                Seq::empty()
            }) + seq![DocV::Space, kw(cfg, "AS"@), DocV::Line, qd],
        ),
        next,
    )
}

/// `CREATE [OR REPLACE] [TEMPORARY] [MATERIALIZED] VIEW [IF NOT EXISTS]
/// <name> [(<columns>)] AS` and the query on the next line.
#[verifier::rlimit(30)]
#[verifier::spinoff_prover]
fn format_create_view(v: &CreateViewNode, cfg: &FormatterConfig, tr: &mut RelationAliasTracker) -> (d: Doc)
    ensures
        (d@, final(tr).index as int) == view_doc(*v, *cfg, old(tr).flags@, old(tr).index as int),
        final(tr).flags@ == old(tr).flags@,
    decreases v, 3nat,
{
    let mut words: Vec<&str> = vec!["CREATE"];
    let ghost mut ws: Seq<Seq<char>> = seq!["CREATE"@];
    assert(str_views(words@) =~= ws);
    if v.or_replace {
        words.push("OR REPLACE");
        proof { ws = ws.push("OR REPLACE"@); }
    }
    assert(str_views(words@) =~= ws);
    if v.temporary {
        words.push("TEMPORARY");
        proof { ws = ws.push("TEMPORARY"@); }
    }
    assert(str_views(words@) =~= ws);
    if v.materialized {
        words.push("MATERIALIZED");
        proof { ws = ws.push("MATERIALIZED"@); }
    }
    assert(str_views(words@) =~= ws);
    words.push("VIEW");
    proof { ws = ws.push("VIEW"@); }
    assert(str_views(words@) =~= ws);
    if v.if_not_exists {
        words.push("IF NOT EXISTS");
        proof { ws = ws.push("IF NOT EXISTS"@); }
    }
    assert(str_views(words@) =~= ws);
    assert(ws =~= view_head_words(*v));
    let head = cased_words(&words, cfg);
    let ghost hv = head@;
    let name = v.name.clone();
    let mut parts: Vec<Doc> = vec![Doc::Text(head), Doc::Space, Doc::Text(name)];
    let ghost p0 = seq![DocV::Text(hv), DocV::Space, DocV::Text(v.name@)];
    assert(docs_view(parts@) =~= p0);
    if v.columns.len() > 0 {
        parts.push(Doc::Space);
        parts.push(format_parenthesized_inline(&v.columns));
    }
    let ghost p1 = docs_view(parts@);
    assert(p1 =~= p0 + (if v.columns@.len() > 0 {
        seq![DocV::Space, crate::blocks::parenthesized_inline(v.columns@)]
    } else {
        Seq::<DocV>::empty()
    }));
    let body = format_query(&v.query, cfg, None, tr);
    let ghost bv = body@;
    parts.push(Doc::Space);
    parts.push(keyword_doc(cfg, "AS"));
    parts.push(Doc::Line);
    parts.push(body);
    assert(docs_view(parts@) =~= p1 + seq![DocV::Space, kw(*cfg, "AS"@), DocV::Line, bv]);
    Doc::Group(parts)
}

/// The text with the `AS` of ` AS <alias>` (its first occurrence) taken
/// out when the flag read says the source had none; the position after
/// the flag.
pub open spec fn strip_alias(text: Seq<char>, alias: Seq<char>, flags: Seq<bool>, idx: int) -> (Seq<char>, int) {
    let (has_as, next) = take_flag(flags, idx);
    (
        if has_as {
            text
        } else {
            crate::text::replaced_first(text, " AS "@ + alias, " "@ + alias)
        },
        next,
    )
}

/// The text with the aliases of a relation and those inside it stripped,
/// inner ones first.
pub open spec fn strip_factor(text: Seq<char>, f: FactorNode, flags: Seq<bool>, idx: int) -> (Seq<char>, int)
    decreases f,
{
    let (t1, i1) = match f.kind {
        FactorKind::Derived { subquery, .. } => strip_query(text, *subquery, flags, idx),
        FactorKind::NestedJoin(t) => strip_relation(text, *t, flags, idx),
        FactorKind::Wrapped(g) => strip_factor(text, *g, flags, idx),
        _ => (text, idx),
    };
    match f.alias {
        Some(a) => strip_alias(t1, crate::query_layout::alias_text(a), flags, i1),
        None => (t1, i1),
    }
}

pub open spec fn strip_joins(text: Seq<char>, js: Seq<JoinNode>, flags: Seq<bool>, idx: int) -> (Seq<char>, int)
    decreases js,
{
    if js.len() == 0 {
        (text, idx)
    } else {
        let (t1, i1) = strip_joins(text, js.drop_last(), flags, idx);
        strip_factor(t1, js.last().relation, flags, i1)
    }
}

pub open spec fn strip_relation(text: Seq<char>, t: TableWithJoinsNode, flags: Seq<bool>, idx: int) -> (Seq<char>, int)
    decreases t,
{
    let (t1, i1) = strip_factor(text, t.relation, flags, idx);
    strip_joins(t1, t.joins@, flags, i1)
}

pub open spec fn strip_relations(text: Seq<char>, rs: Seq<TableWithJoinsNode>, flags: Seq<bool>, idx: int) -> (Seq<char>, int)
    decreases rs,
{
    if rs.len() == 0 {
        (text, idx)
    } else {
        let (t1, i1) = strip_relations(text, rs.drop_last(), flags, idx);
        strip_relation(t1, rs.last(), flags, i1)
    }
}

pub open spec fn strip_ctes(text: Seq<char>, cs: Seq<CteNode>, flags: Seq<bool>, idx: int) -> (Seq<char>, int)
    decreases cs,
{
    if cs.len() == 0 {
        (text, idx)
    } else {
        let (t1, i1) = strip_ctes(text, cs.drop_last(), flags, idx);
        strip_query(t1, cs.last().query, flags, i1)
    }
}

/// The text with the aliases of a query's relations stripped: its common
/// table expressions first, then its select's relations and joins.
pub open spec fn strip_query(text: Seq<char>, q: SqlQuery, flags: Seq<bool>, idx: int) -> (Seq<char>, int)
    decreases q,
{
    let (t1, i1) = match q.with {
        Some(w) => strip_ctes(text, w.ctes@, flags, idx),
        None => (text, idx),
    };
    match q.body {
        QueryBody::Select(s) => strip_relations(t1, s.from@, flags, i1),
        _ => (t1, i1),
    }
}

/// Takes the `AS` out of ` AS <alias>` (its first occurrence) when the
/// alias's recorded flag says it was written without one.
fn remove_alias_keyword(text: &mut Vec<char>, tr: &mut RelationAliasTracker, alias: &String)
    ensures
        (final(text)@, final(tr).index as int) == strip_alias(old(text)@, alias@, old(tr).flags@, old(tr).index as int),
        final(tr).flags@ == old(tr).flags@,
{
    if tr.next_has_as() {
        return;
    }
    let mut needle = chars_of(" AS ");
    push_str(&mut needle, alias.as_str());
    let mut with = chars_of(" ");
    push_str(&mut with, alias.as_str());
    let replaced = replace_first(text.as_slice(), needle.as_slice(), with.as_slice());
    *text = replaced;
}

fn strip_aliases_in_factor(text: &mut Vec<char>, f: &FactorNode, tr: &mut RelationAliasTracker)
    ensures
        (final(text)@, final(tr).index as int) == strip_factor(old(text)@, *f, old(tr).flags@, old(tr).index as int),
        final(tr).flags@ == old(tr).flags@,
    decreases f,
{
    match &f.kind {
        FactorKind::Derived { subquery, .. } => strip_aliases_in_query(text, subquery, tr),
        FactorKind::NestedJoin(t) => strip_aliases_in_relation(text, t, tr),
        FactorKind::Wrapped(g) => strip_aliases_in_factor(text, g, tr),
        _ => {},
    }
    if let Some(a) = &f.alias {
        remove_alias_keyword(text, tr, &alias_text_of(a));
    }
}

#[verifier::loop_isolation(false)]
fn strip_aliases_in_relation(text: &mut Vec<char>, t: &TableWithJoinsNode, tr: &mut RelationAliasTracker)
    ensures
        (final(text)@, final(tr).index as int) == strip_relation(old(text)@, *t, old(tr).flags@, old(tr).index as int),
        final(tr).flags@ == old(tr).flags@,
    decreases t,
{
    let ghost flags0 = tr.flags@;
    strip_aliases_in_factor(text, &t.relation, tr);
    let ghost t1 = text@;
    let ghost i1 = tr.index as int;
    let mut k: usize = 0;
    while k < t.joins.len()
        invariant
            k <= t.joins@.len(),
            tr.flags@ == flags0,
            (text@, tr.index as int) == strip_joins(t1, t.joins@.take(k as int), flags0, i1),
        decreases t.joins.len() - k,
    {
        proof {
            assert(decreases_to!(t.joins => t.joins@));
            assert(decreases_to!(t.joins@ => t.joins@[k as int]));
            assert(t.joins@.take(k + 1).drop_last() =~= t.joins@.take(k as int));
            assert(t.joins@.take(k + 1).last() == t.joins@[k as int]);
        }
        strip_aliases_in_factor(text, &t.joins[k].relation, tr);
        k = k + 1;
    }
    assert(t.joins@.take(k as int) =~= t.joins@);
}

#[verifier::loop_isolation(false)]
fn strip_aliases_in_query(text: &mut Vec<char>, q: &SqlQuery, tr: &mut RelationAliasTracker)
    ensures
        (final(text)@, final(tr).index as int) == strip_query(old(text)@, *q, old(tr).flags@, old(tr).index as int),
        final(tr).flags@ == old(tr).flags@,
    decreases q,
{
    let ghost flags0 = tr.flags@;
    let ghost t0 = text@;
    let ghost i0 = tr.index as int;
    if let Some(w) = &q.with {
        let mut i: usize = 0;
        while i < w.ctes.len()
            invariant
                i <= w.ctes@.len(),
                tr.flags@ == flags0,
                (text@, tr.index as int) == strip_ctes(t0, w.ctes@.take(i as int), flags0, i0),
            decreases w.ctes.len() - i,
        {
            proof {
                assert(decreases_to!(q.with => q.with->0));
                assert(decreases_to!(*w => w.ctes));
                assert(decreases_to!(w.ctes => w.ctes@));
                assert(decreases_to!(w.ctes@ => w.ctes@[i as int]));
                assert(decreases_to!(*q => w.ctes@[i as int].query));
                assert(w.ctes@.take(i + 1).drop_last() =~= w.ctes@.take(i as int));
                assert(w.ctes@.take(i + 1).last() == w.ctes@[i as int]);
            }
            strip_aliases_in_query(text, &w.ctes[i].query, tr);
            i = i + 1;
        }
        assert(w.ctes@.take(i as int) =~= w.ctes@);
    }
    let ghost t1 = text@;
    let ghost i1 = tr.index as int;
    if let QueryBody::Select(s) = &q.body {
        let mut i: usize = 0;
        while i < s.from.len()
            invariant
                i <= s.from@.len(),
                tr.flags@ == flags0,
                (text@, tr.index as int) == strip_relations(t1, s.from@.take(i as int), flags0, i1),
            decreases s.from.len() - i,
        {
            proof {
                assert(decreases_to!(q.body => q.body->Select_0));
                assert(decreases_to!(**s => s.from));
                assert(decreases_to!(s.from => s.from@));
                assert(decreases_to!(s.from@ => s.from@[i as int]));
                assert(decreases_to!(*q => s.from@[i as int]));
                assert(s.from@.take(i + 1).drop_last() =~= s.from@.take(i as int));
                assert(s.from@.take(i + 1).last() == s.from@[i as int]);
            }
            let rel = &s.from[i];
            let ghost tb = text@;
            let ghost ib = tr.index as int;
            strip_aliases_in_factor(text, &rel.relation, tr);
            let ghost tf = text@;
            let ghost jf = tr.index as int;
            let mut k: usize = 0;
            while k < rel.joins.len()
                invariant
                    k <= rel.joins@.len(),
                    tr.flags@ == flags0,
                    (text@, tr.index as int) == strip_joins(tf, rel.joins@.take(k as int), flags0, jf),
                decreases rel.joins.len() - k,
            {
                proof {
                    assert(decreases_to!(s.from@[i as int] => s.from@[i as int].joins));
                    assert(decreases_to!(rel.joins => rel.joins@));
                    assert(decreases_to!(rel.joins@ => rel.joins@[k as int]));
                    assert(decreases_to!(*q => rel.joins@[k as int]));
                    assert(rel.joins@.take(k + 1).drop_last() =~= rel.joins@.take(k as int));
                    assert(rel.joins@.take(k + 1).last() == rel.joins@[k as int]);
                }
                strip_aliases_in_factor(text, &rel.joins[k].relation, tr);
                k = k + 1;
            }
            assert(rel.joins@.take(k as int) =~= rel.joins@);
            assert((text@, tr.index as int) == strip_relation(tb, *rel, flags0, ib));
            i = i + 1;
        }
        assert(s.from@.take(i as int) =~= s.from@);
    }
}

/// The parser's text of a statement with the aliases of its query
/// stripped.
pub open spec fn strip_statement(stmt: SqlStatement, flags: Seq<bool>, idx: int) -> Seq<char> {
    match stmt.kind {
        StatementKind::Query(q) => strip_query(stmt.text@, q, flags, idx).0,
        StatementKind::CreateTable(c) => match c.query {
            Some(q) => strip_query(stmt.text@, q, flags, idx).0,
            None => stmt.text@,
        },
        StatementKind::CreateView(v) => strip_query(stmt.text@, v.query, flags, idx).0,
        StatementKind::Insert(i) => match i.source {
            Some(q) => strip_query(stmt.text@, q, flags, idx).0,
            None => stmt.text@,
        },
        StatementKind::Other => stmt.text@,
    }
}

/// The parser's text of a statement, with the `AS` of each relation alias
/// in its query taken out where the source had none.
fn stringify_with_alias_styles(stmt: &SqlStatement, tr: &mut RelationAliasTracker) -> (r: String)
    ensures
        r@ == strip_statement(*stmt, old(tr).flags@, old(tr).index as int),
        stmt.kind is Other ==> r@ == stmt.text@,
{
    let mut text = chars_of(stmt.text.as_str());
    match &stmt.kind {
        StatementKind::Query(q) => strip_aliases_in_query(&mut text, q, tr),
        StatementKind::CreateTable(c) => {
            if let Some(q) = &c.query {
                strip_aliases_in_query(&mut text, q, tr);
            }
        },
        StatementKind::CreateView(v) => strip_aliases_in_query(&mut text, &v.query, tr),
        StatementKind::Insert(i) => {
            if let Some(q) = &i.source {
                strip_aliases_in_query(&mut text, q, tr);
            }
        },
        StatementKind::Other => {},
    }
    string_of(text.as_slice())
}

/// Whether a `CREATE TABLE` has the plain layout: no query, no layout
/// clauses and no other option.
pub open spec fn simple_table(ct: CreateTableNode) -> bool {
    &&& ct.query is None
    &&& ct.order_by is None
    &&& ct.partition_by is None
    &&& ct.cluster_by is None
    &&& forall|i: int| 0 <= i < ct.present@.len() ==> !ct.present@[i]
    &&& match ct.hive_formats {
        Some(h) => hive_empty(h),
        None => true,
    }
}

/// Whether a `CREATE TABLE` is laid out as `CREATE TABLE ... AS <query>`:
/// it has a query, no columns or constraints, and no other option.
pub open spec fn ctas_table(ct: CreateTableNode) -> bool {
    &&& ct.query is Some
    &&& ct.columns@.len() == 0
    &&& ct.constraints@.len() == 0
    &&& forall|i: int| 0 <= i < ct.present@.len() ==> !ct.present@[i]
    &&& match ct.hive_formats {
        Some(h) => hive_empty(h),
        None => true,
    }
}

/// The layout of a statement, its relation aliases reading the flags from
/// position `idx`: a query, a plain or `AS`-query `CREATE TABLE`, a plain
/// `CREATE VIEW` and `INSERT ... <query>` have a layout of their own; any
/// other statement is its text, with the aliases as written where it holds
/// a query.
pub open spec fn statement_layout(
    stmt: SqlStatement,
    cfg: FormatterConfig,
    version: Option<DremioVersionClause>,
    flags: Seq<bool>,
    idx: int,
) -> DocV {
    match stmt.kind {
        StatementKind::Query(q) => query_doc(q, cfg, version, false, flags, idx).0,
        StatementKind::CreateTable(ct) => if simple_table(ct) {
            create_table_doc(ct, cfg)
        } else if ctas_table(ct) {
            ctas_doc(ct, ct.query.unwrap(), cfg, flags, idx).0
        } else {
            DocV::Text(strip_statement(stmt, flags, idx))
        },
        StatementKind::CreateView(v) => if none_present(v.present@) {
            view_doc(v, cfg, flags, idx).0
        } else {
            DocV::Text(strip_statement(stmt, flags, idx))
        },
        StatementKind::Insert(ins) => match ins.source {
            Some(q) => if none_present(ins.present@) {
                insert_doc(ins, q, cfg, flags, idx).0
            } else {
                DocV::Text(stmt.text@)
            },
            None => DocV::Text(stmt.text@),
        },
        StatementKind::Other => DocV::Text(stmt.text@),
    }
}

/// A statement's layout. Queries, plain and `AS`-query `CREATE TABLE`,
/// plain `CREATE VIEW` and `INSERT ... <query>` have one of their own; any
/// other statement is the parser's text with its aliases as written.
#[verifier::spinoff_prover]
#[verifier::rlimit(60)]
pub fn format_statement(
    stmt: &SqlStatement,
    cfg: &FormatterConfig,
    version: Option<DremioVersionClause>,
    tr: &mut RelationAliasTracker,
) -> (d: Doc)
    ensures
        stmt.kind matches StatementKind::Query(q) ==> d@ == query_doc(
            q,
            *cfg,
            version,
            false,
            old(tr).flags@,
            old(tr).index as int,
        ).0,
        stmt.kind matches StatementKind::CreateTable(ct) ==> (simple_table(ct) ==> d@ == create_table_doc(ct, *cfg)),
        stmt.kind matches StatementKind::CreateTable(ct) ==> (!simple_table(ct) && ctas_table(ct) ==> d@ == ctas_doc(
            ct,
            ct.query.unwrap(),
            *cfg,
            old(tr).flags@,
            old(tr).index as int,
        ).0),
        stmt.kind matches StatementKind::CreateTable(ct) ==> (!simple_table(ct) && !ctas_table(ct) ==> d@ == DocV::Text(
            strip_statement(*stmt, old(tr).flags@, old(tr).index as int),
        )),
        stmt.kind matches StatementKind::CreateView(v) ==> (none_present(v.present@) ==> d@ == view_doc(
            v,
            *cfg,
            old(tr).flags@,
            old(tr).index as int,
        ).0),
        stmt.kind matches StatementKind::CreateView(v) ==> (!none_present(v.present@) ==> d@ == DocV::Text(
            strip_statement(*stmt, old(tr).flags@, old(tr).index as int),
        )),
        stmt.kind matches StatementKind::Insert(ins) ==> (ins.source is None || !none_present(ins.present@) ==> d@
            == DocV::Text(stmt.text@)),
        stmt.kind matches StatementKind::Insert(ins) ==> (ins.source matches Some(q) ==> (none_present(ins.present@)
            ==> d@ == insert_doc(ins, q, *cfg, old(tr).flags@, old(tr).index as int).0)),
        stmt.kind is Other ==> d@ == DocV::Text(stmt.text@),
        d@ == statement_layout(*stmt, *cfg, version, old(tr).flags@, old(tr).index as int),
{
    match &stmt.kind {
        StatementKind::Query(q) => format_query(q, cfg, version, tr),
        StatementKind::CreateTable(ct) => {
            let others_absent = none_set(&ct.present) && hive_absent(&ct.hive_formats);
            let simple = ct.query.is_none() && ct.order_by.is_none() && ct.partition_by.is_none()
                && ct.cluster_by.is_none() && others_absent;
            if simple {
                format_create_table(ct, cfg)
            } else {
                match &ct.query {
                    Some(q) => {
                        if ct.columns.len() == 0 && ct.constraints.len() == 0 && others_absent {
                            format_create_table_with_query(ct, q, cfg, tr)
                        } else {
                            Doc::Text(stringify_with_alias_styles(stmt, tr))
                        }
                    },
                    None => Doc::Text(stringify_with_alias_styles(stmt, tr)),
                }
            }
        },
        StatementKind::CreateView(v) => {
            if none_set(&v.present) {
                format_create_view(v, cfg, tr)
            } else {
                Doc::Text(stringify_with_alias_styles(stmt, tr))
            }
        },
        StatementKind::Insert(ins) => format_insert(ins, &stmt.text, cfg, tr),
        StatementKind::Other => Doc::Text(stringify_with_alias_styles(stmt, tr)),
    }
}

} // verus!
