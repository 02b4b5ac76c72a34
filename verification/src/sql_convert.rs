//! Parsing with `sqlparser`, and reading its syntax tree into the library's
//! model. Each converter below handles one `sqlparser` type: it tells the
//! variants apart and moves fields over one for one, keeping the parser's
//! own rendering (`Display`) of a node where the formatting rules print or
//! measure it.
use vstd::prelude::*;

use sqlparser::ast::{
    ArrayElemTypeDef, BinaryOperator, CaseWhen, CastFormat, CastKind, CreateTable,
    CreateTableOptions, CreateView, Cte, DataType, DateTimeField, Expr, Function,
    FunctionArguments, GroupByExpr, HiveDistributionStyle, HiveFormat, Insert, Interval, Join,
    JoinConstraint, JoinOperator, LimitClause, ObjectNamePart, OrderBy, OrderByKind, Query,
    Select, SelectItem, SetExpr, Statement, TableAlias, TableFactor, TableWithJoins,
    TypedString, Value, WindowFrame, WindowFrameBound, WindowSpec, WindowType, With,
    WrappedCollection,
};
use sqlparser::dialect::{AnsiDialect, GenericDialect};
use sqlparser::parser::Parser;

use crate::config::DialectKind;
use crate::tokens::{sql_tokens, Tok, TokKind};
use crate::sql_model::{
    AliasNode, BinOp, CaseBranch, CastStyle, ClusterSpec, CreateTableNode, CreateViewNode,
    CteNode, DateField, ExprKind, FactorKind, FactorNode, FrameBound, FrameNode, FuncArgs,
    FuncCall, GroupByNode, HiveFormatNode, InsertNode, IntervalExpr, JoinConstraintNode,
    JoinNode, JoinOpKind, LimitNode, NamePart, PartitionSpec, PredicateKind, QueryBody,
    SelectItemKind, SelectItemNode, SelectNode, SqlExpr, SqlQuery, SqlStatement,
    StatementKind, TableWithJoinsNode, TypeName, TypeShape, ValuesNode, WindowRef,
    WindowSpecNode, WithClause,
};

verus! {

#[verifier::external_type_specification]
#[verifier::external_body]
pub struct ExStatement(sqlparser::ast::Statement);

#[verifier::external_type_specification]
#[verifier::external_body]
pub struct ExQuery(sqlparser::ast::Query);

#[verifier::external_type_specification]
#[verifier::external_body]
pub struct ExSetExpr(sqlparser::ast::SetExpr);

#[verifier::external_type_specification]
#[verifier::external_body]
pub struct ExSelect(sqlparser::ast::Select);

#[verifier::external_type_specification]
#[verifier::external_body]
pub struct ExSelectItem(sqlparser::ast::SelectItem);

#[verifier::external_type_specification]
#[verifier::external_body]
pub struct ExGroupByExpr(sqlparser::ast::GroupByExpr);

#[verifier::external_type_specification]
#[verifier::external_body]
pub struct ExTableWithJoins(sqlparser::ast::TableWithJoins);

#[verifier::external_type_specification]
#[verifier::external_body]
pub struct ExTableFactor(sqlparser::ast::TableFactor);

#[verifier::external_type_specification]
#[verifier::external_body]
pub struct ExTableAlias(sqlparser::ast::TableAlias);

#[verifier::external_type_specification]
#[verifier::external_body]
pub struct ExJoin(sqlparser::ast::Join);

#[verifier::external_type_specification]
#[verifier::external_body]
pub struct ExJoinOperator(sqlparser::ast::JoinOperator);

#[verifier::external_type_specification]
#[verifier::external_body]
pub struct ExJoinConstraint(sqlparser::ast::JoinConstraint);

#[verifier::external_type_specification]
#[verifier::external_body]
pub struct ExExpr(sqlparser::ast::Expr);

#[verifier::external_type_specification]
#[verifier::external_body]
pub struct ExBinaryOperator(sqlparser::ast::BinaryOperator);

#[verifier::external_type_specification]
#[verifier::external_body]
pub struct ExCaseWhen(sqlparser::ast::CaseWhen);

#[verifier::external_type_specification]
#[verifier::external_body]
pub struct ExCastKind(sqlparser::ast::CastKind);

#[verifier::external_type_specification]
#[verifier::external_body]
pub struct ExCastFormat(sqlparser::ast::CastFormat);

#[verifier::external_type_specification]
#[verifier::external_body]
pub struct ExDataType(sqlparser::ast::DataType);

#[verifier::external_type_specification]
#[verifier::external_body]
pub struct ExArrayElemTypeDef(sqlparser::ast::ArrayElemTypeDef);

#[verifier::external_type_specification]
#[verifier::external_body]
pub struct ExTypedString(sqlparser::ast::TypedString);

#[verifier::external_type_specification]
#[verifier::external_body]
pub struct ExInterval(sqlparser::ast::Interval);

#[verifier::external_type_specification]
#[verifier::external_body]
pub struct ExDateTimeField(sqlparser::ast::DateTimeField);

#[verifier::external_type_specification]
#[verifier::external_body]
pub struct ExFunction(sqlparser::ast::Function);

#[verifier::external_type_specification]
#[verifier::external_body]
pub struct ExObjectNamePart(sqlparser::ast::ObjectNamePart);

#[verifier::external_type_specification]
#[verifier::external_body]
pub struct ExFunctionArguments(sqlparser::ast::FunctionArguments);

#[verifier::external_type_specification]
#[verifier::external_body]
pub struct ExWindowType(sqlparser::ast::WindowType);

#[verifier::external_type_specification]
#[verifier::external_body]
pub struct ExWindowSpec(sqlparser::ast::WindowSpec);

#[verifier::external_type_specification]
#[verifier::external_body]
pub struct ExWindowFrame(sqlparser::ast::WindowFrame);

#[verifier::external_type_specification]
#[verifier::external_body]
pub struct ExWindowFrameBound(sqlparser::ast::WindowFrameBound);

#[verifier::external_type_specification]
#[verifier::external_body]
pub struct ExWith(sqlparser::ast::With);

#[verifier::external_type_specification]
#[verifier::external_body]
pub struct ExCte(sqlparser::ast::Cte);

#[verifier::external_type_specification]
#[verifier::external_body]
pub struct ExOrderBy(sqlparser::ast::OrderBy);

#[verifier::external_type_specification]
#[verifier::external_body]
pub struct ExLimitClause(sqlparser::ast::LimitClause);

#[verifier::external_type_specification]
#[verifier::external_body]
pub struct ExCreateTable(sqlparser::ast::CreateTable);

#[verifier::external_type_specification]
#[verifier::external_body]
#[verifier::reject_recursive_types(T)]
pub struct ExWrappedCollection<T>(sqlparser::ast::WrappedCollection<T>);

#[verifier::external_type_specification]
#[verifier::external_body]
pub struct ExHiveFormat(sqlparser::ast::HiveFormat);

#[verifier::external_type_specification]
#[verifier::external_body]
pub struct ExCreateView(sqlparser::ast::CreateView);

#[verifier::external_type_specification]
#[verifier::external_body]
pub struct ExInsert(sqlparser::ast::Insert);

/// What `sqlparser` makes of a text under a dialect (ANSI, or the generic
/// dialect for Dremio): the statements in the library's model, or the
/// parser's error message.
pub uninterp spec fn parsed_statements(dialect: DialectKind, sql: Seq<char>) -> Result<
    Seq<SqlStatement>,
    Seq<char>,
>;

/// A parse outcome as plain values: the statements, or the error's message.
pub open spec fn parse_outcome(r: Result<Vec<SqlStatement>, String>) -> Result<
    Seq<SqlStatement>,
    Seq<char>,
> {
    match r {
        Ok(v) => Ok(v@),
        Err(e) => Err(e@),
    }
}

/// The keyword a token matched, empty for a token that is not a word.
pub open spec fn keyword_of(t: Tok) -> Seq<char> {
    match t.kind {
        TokKind::Word { keyword, .. } => keyword@,
        _ => Seq::empty(),
    }
}

/// The tokens the SQL parser reads (whitespace and comments left out), each
/// as its keyword and its text.
pub open spec fn solid_words(ts: Seq<Tok>) -> Seq<(Seq<char>, Seq<char>)>
    decreases ts.len(),
{
    if ts.len() == 0 {
        Seq::empty()
    } else if ts.last().kind is Space || ts.last().kind is Comment {
        solid_words(ts.drop_last())
    } else {
        solid_words(ts.drop_last()).push((keyword_of(ts.last()), ts.last().text@))
    }
}

/// `RELAY LOGS FOR CHANNEL` starts at position `i`.
pub open spec fn relay_channel_at(w: Seq<(Seq<char>, Seq<char>)>, i: int) -> bool {
    &&& 0 <= i
    &&& i + 3 < w.len()
    &&& w[i].0 == "RELAY"@
    &&& w[i + 1].0 == "LOGS"@
    &&& w[i + 2].0 == "FOR"@
    &&& w[i + 3].0 == "CHANNEL"@
}

/// An `AUTHORIZATION` at position `a` right after `SET` (or `SET HIVEVAR:`),
/// with no scope between them, and followed by something other than `=`.
pub open spec fn set_authorization_at(w: Seq<(Seq<char>, Seq<char>)>, a: int) -> bool {
    &&& 0 <= a
    &&& a + 1 < w.len()
    &&& w[a].0 == "AUTHORIZATION"@
    &&& w[a + 1].1 != "="@
    &&& ((a >= 1 && w[a - 1].0 == "SET"@) || (a >= 3 && w[a - 3].0 == "SET"@ && w[a - 2].0 == "HIVEVAR"@ && w[a
        - 1].1 == ":"@))
}

/// Text on which `sqlparser`'s parser panics rather than returning an error:
/// `SET AUTHORIZATION` without a scope, which it reads and then unwraps the
/// missing scope of; and, under the generic dialect, `FLUSH RELAY LOGS FOR
/// CHANNEL`, whose channel name it unwraps. Both are judged on the tokens
/// the parser itself reads.
pub open spec fn parser_hazard(dialect: DialectKind, sql: Seq<char>) -> bool {
    sql_tokens(dialect, sql) matches Some(ts) && words_hazard(dialect, solid_words(ts))
}

/// The parser's words hold a scopeless `SET AUTHORIZATION`, or, under the
/// generic dialect, `RELAY LOGS FOR CHANNEL`.
pub open spec fn words_hazard(dialect: DialectKind, w: Seq<(Seq<char>, Seq<char>)>) -> bool {
    (exists|a: int| set_authorization_at(w, a)) || (dialect is Dremio && exists|i: int| relay_channel_at(w, i))
}

/// `sqlparser::parser::Parser::parse_sql` under the dialect's parser
/// dialect. Claims: the statements, or the error's message, are the named
/// parse result of the dialect and the text. The text is never one on which
/// the parser panics (see `parser_hazard`).
#[verifier::external_body]
pub(crate) fn parse_statements(dialect: DialectKind, sql: &str) -> (r: Result<
    Vec<SqlStatement>,
    String,
>)
    requires
        !parser_hazard(dialect, sql@),
    ensures
        parse_outcome(r) == parsed_statements(dialect, sql@),
{
    let parsed = match dialect {
        DialectKind::Ansi => Parser::parse_sql(&AnsiDialect {}, sql),
        DialectKind::Dremio => Parser::parse_sql(&GenericDialect {}, sql),
    };
    parsed.map(|stmts| stmts.iter().map(statement).collect()).map_err(|e| e.to_string())
}

/// Reads `sqlparser`'s `Expr` into the library's model, one for one;
/// nothing is claimed of the result.
#[verifier::external_body]
fn texts_of_exprs(items: &[Expr]) -> Vec<String> {
    items.iter().map(|e| e.to_string()).collect()
}

/// Reads `sqlparser`'s `Statement` into the library's model, one for one;
/// nothing is claimed of the result.
#[verifier::external_body]
fn statement(s: &Statement) -> SqlStatement {
    let kind = match s {
        Statement::Query(q) => StatementKind::Query(query(q)),
        Statement::CreateTable(c) => StatementKind::CreateTable(create_table(c)),
        Statement::CreateView(v) => StatementKind::CreateView(create_view(v)),
        Statement::Insert(i) => StatementKind::Insert(insert(i)),
        _ => StatementKind::Other,
    };
    SqlStatement { kind, text: s.to_string() }
}

/// Reads `sqlparser`'s `Query` into the library's model, one for one;
/// nothing is claimed of the result.
#[verifier::external_body]
fn query(q: &Query) -> SqlQuery {
    SqlQuery {
        text: q.to_string(),
        with: q.with.as_ref().map(with_clause),
        body: set_expr(&q.body),
        order_by: q.order_by.as_ref().map(order_by_items).unwrap_or_default(),
        order_by_all: q.order_by.as_ref().and_then(order_by_all),
        limit: q.limit_clause.as_ref().map(limit_clause).unwrap_or(LimitNode::Absent),
    }
}

/// Reads `sqlparser`'s `OrderBy` into the library's model, one for one;
/// nothing is claimed of the result.
#[verifier::external_body]
fn order_by_items(o: &OrderBy) -> Vec<String> {
    match &o.kind {
        OrderByKind::Expressions(exprs) => exprs.iter().map(|e| e.to_string()).collect(),
        OrderByKind::All(_) => Vec::new(),
    }
}

/// Reads the options of `sqlparser`'s `ORDER BY ALL` into the library's
/// model, one for one; nothing is claimed of the result.
#[verifier::external_body]
fn order_by_all(o: &OrderBy) -> Option<String> {
    match &o.kind {
        OrderByKind::Expressions(_) => None,
        OrderByKind::All(all) => Some(all.to_string()),
    }
}

/// Reads `sqlparser`'s `LimitClause` into the library's model, one for one;
/// nothing is claimed of the result.
#[verifier::external_body]
fn limit_clause(l: &LimitClause) -> LimitNode {
    match l {
        LimitClause::LimitOffset { limit, offset, .. } => LimitNode::LimitOffset {
            limit: limit.as_ref().map(|e| e.to_string()),
            offset: offset.as_ref().map(|o| o.to_string()),
        },
        LimitClause::OffsetCommaLimit { offset, limit } => LimitNode::OffsetCommaLimit {
            offset: offset.to_string(),
            limit: limit.to_string(),
        },
    }
}

/// Reads `sqlparser`'s `With` into the library's model, one for one;
/// nothing is claimed of the result.
#[verifier::external_body]
fn with_clause(w: &With) -> WithClause {
    WithClause { recursive: w.recursive, ctes: w.cte_tables.iter().map(cte).collect() }
}

/// Reads `sqlparser`'s `Cte` into the library's model, one for one;
/// nothing is claimed of the result.
#[verifier::external_body]
fn cte(c: &Cte) -> CteNode {
    CteNode {
        alias: c.alias.to_string(),
        materialized: c.materialized.as_ref().map(|m| m.to_string()),
        query: query(&c.query),
        from: c.from.as_ref().map(|f| f.to_string()),
    }
}

/// Reads `sqlparser`'s `SetExpr` into the library's model, one for one;
/// nothing is claimed of the result.
#[verifier::external_body]
fn set_expr(b: &SetExpr) -> QueryBody {
    match b {
        SetExpr::Select(s) => QueryBody::Select(Box::new(select(s))),
        SetExpr::Query(q) => QueryBody::Nested(Box::new(query(q))),
        SetExpr::Values(v) => QueryBody::Values(ValuesNode {
            explicit_row: v.explicit_row,
            rows: v.rows.iter().map(|r| texts_of_exprs(r)).collect(),
        }),
        other => QueryBody::Other(other.to_string()),
    }
}

/// Reads `sqlparser`'s `Select` into the library's model, one for one;
/// nothing is claimed of the result.
#[verifier::external_body]
fn select(s: &Select) -> SelectNode {
    SelectNode {
        distinct: s.distinct.is_some(),
        projection: s.projection.iter().map(select_item).collect(),
        from: s.from.iter().map(table_with_joins).collect(),
        selection: s.selection.as_ref().map(expr),
        group_by: group_by(&s.group_by),
        having: s.having.as_ref().map(expr),
    }
}

/// Reads `sqlparser`'s `GroupByExpr` into the library's model, one for one;
/// nothing is claimed of the result.
#[verifier::external_body]
fn group_by(g: &GroupByExpr) -> GroupByNode {
    match g {
        GroupByExpr::All(_) => GroupByNode::All,
        GroupByExpr::Expressions(exprs, _) => GroupByNode::Exprs(texts_of_exprs(exprs)),
    }
}

/// Reads `sqlparser`'s `SelectItem` into the library's model, one for one;
/// nothing is claimed of the result.
#[verifier::external_body]
fn select_item(i: &SelectItem) -> SelectItemNode {
    let kind = match i {
        SelectItem::UnnamedExpr(e) => SelectItemKind::Unnamed(expr(e)),
        SelectItem::ExprWithAlias { expr: e, alias } => {
            SelectItemKind::Aliased { expr: expr(e), alias: alias.to_string() }
        },
        SelectItem::Wildcard(_) => SelectItemKind::Wildcard,
        SelectItem::QualifiedWildcard(..) => SelectItemKind::QualifiedWildcard,
    };
    SelectItemNode { kind, text: i.to_string() }
}

/// Reads `sqlparser`'s `TableWithJoins` into the library's model, one for one;
/// nothing is claimed of the result.
#[verifier::external_body]
fn table_with_joins(t: &TableWithJoins) -> TableWithJoinsNode {
    TableWithJoinsNode { relation: factor(&t.relation), joins: t.joins.iter().map(join).collect() }
}

/// Reads `sqlparser`'s `TableAlias` into the library's model: the name, the
/// column aliases and whether the `AS` was there; nothing is claimed of the
/// result.
#[verifier::external_body]
fn alias(a: &TableAlias) -> AliasNode {
    AliasNode {
        name: a.name.to_string(),
        columns: a.columns.iter().map(|c| c.to_string()).collect(),
        explicit: a.explicit,
    }
}

/// Reads `sqlparser`'s `TableFactor` into the library's model, one for one;
/// nothing is claimed of the result.
#[verifier::external_body]
fn factor(f: &TableFactor) -> FactorNode {
    FactorNode { kind: factor_kind(f), text: f.to_string(), alias: factor_alias(f) }
}

/// Reads `sqlparser`'s `TableFactor` into the library's model, one for one;
/// nothing is claimed of the result.
#[verifier::external_body]
fn factor_kind(f: &TableFactor) -> FactorKind {
    match f {
        TableFactor::TableFunction { expr: e, .. } => FactorKind::TableFunction(expr(e)),
        TableFactor::Derived { lateral, subquery, .. } => {
            FactorKind::Derived { lateral: *lateral, subquery: Box::new(query(subquery)) }
        },
        TableFactor::NestedJoin { table_with_joins: t, .. } => {
            FactorKind::NestedJoin(Box::new(table_with_joins(t)))
        },
        TableFactor::Pivot { table, .. }
        | TableFactor::Unpivot { table, .. }
        | TableFactor::MatchRecognize { table, .. } => FactorKind::Wrapped(Box::new(factor(table))),
        _ => FactorKind::Plain,
    }
}

/// Reads `sqlparser`'s `TableFactor` into the library's model, one for one;
/// nothing is claimed of the result.
#[verifier::external_body]
fn factor_alias(f: &TableFactor) -> Option<AliasNode> {
    let a = match f {
        TableFactor::Table { alias, .. } | TableFactor::Derived { alias, .. }
        | TableFactor::TableFunction { alias, .. } | TableFactor::Function { alias, .. }
        | TableFactor::UNNEST { alias, .. } | TableFactor::JsonTable { alias, .. }
        | TableFactor::OpenJsonTable { alias, .. } | TableFactor::NestedJoin { alias, .. }
        | TableFactor::Pivot { alias, .. } | TableFactor::Unpivot { alias, .. }
        | TableFactor::MatchRecognize { alias, .. } | TableFactor::XmlTable { alias, .. }
        | TableFactor::SemanticView { alias, .. } => alias,
    };
    a.as_ref().map(alias)
}

/// Reads `sqlparser`'s `Join` into the library's model, one for one;
/// nothing is claimed of the result.
#[verifier::external_body]
fn join(j: &Join) -> JoinNode {
    JoinNode {
        op: join_kind(&j.join_operator),
        constraint: join_constraint_of(&j.join_operator),
        match_condition: join_match(&j.join_operator),
        relation: factor(&j.relation),
    }
}

/// Reads `sqlparser`'s `JoinOperator` into the library's model, one for one;
/// nothing is claimed of the result.
#[verifier::external_body]
fn join_kind(o: &JoinOperator) -> JoinOpKind {
    match o {
        JoinOperator::Join(_) => JoinOpKind::Join,
        JoinOperator::Inner(_) => JoinOpKind::Inner,
        JoinOperator::Left(_) => JoinOpKind::Left,
        JoinOperator::LeftOuter(_) => JoinOpKind::LeftOuter,
        JoinOperator::Right(_) => JoinOpKind::Right,
        JoinOperator::RightOuter(_) => JoinOpKind::RightOuter,
        JoinOperator::FullOuter(_) => JoinOpKind::FullOuter,
        JoinOperator::CrossJoin(_) => JoinOpKind::CrossJoin,
        JoinOperator::Semi(_) => JoinOpKind::Semi,
        other => join_kind_more(other),
    }
}

/// Reads `sqlparser`'s `JoinOperator` into the library's model, one for one;
/// nothing is claimed of the result.
#[verifier::external_body]
fn join_kind_more(o: &JoinOperator) -> JoinOpKind {
    match o {
        JoinOperator::LeftSemi(_) => JoinOpKind::LeftSemi,
        JoinOperator::RightSemi(_) => JoinOpKind::RightSemi,
        JoinOperator::Anti(_) => JoinOpKind::Anti,
        JoinOperator::LeftAnti(_) => JoinOpKind::LeftAnti,
        JoinOperator::RightAnti(_) => JoinOpKind::RightAnti,
        JoinOperator::CrossApply => JoinOpKind::CrossApply,
        JoinOperator::OuterApply => JoinOpKind::OuterApply,
        JoinOperator::AsOf { .. } => JoinOpKind::AsOf,
        _ => JoinOpKind::StraightJoin,
    }
}

/// Reads `sqlparser`'s `JoinOperator` into the library's model, one for one;
/// nothing is claimed of the result.
#[verifier::external_body]
fn join_constraint_of(o: &JoinOperator) -> Option<JoinConstraintNode> {
    match o {
        JoinOperator::Join(c) | JoinOperator::Inner(c) | JoinOperator::Left(c)
        | JoinOperator::LeftOuter(c) | JoinOperator::Right(c) | JoinOperator::RightOuter(c)
        | JoinOperator::FullOuter(c) | JoinOperator::CrossJoin(c) | JoinOperator::Semi(c)
        | JoinOperator::LeftSemi(c) | JoinOperator::RightSemi(c) | JoinOperator::Anti(c)
        | JoinOperator::LeftAnti(c) | JoinOperator::RightAnti(c)
        | JoinOperator::StraightJoin(c) => Some(join_constraint(c)),
        JoinOperator::AsOf { constraint, .. } => Some(join_constraint(constraint)),
        JoinOperator::CrossApply | JoinOperator::OuterApply => None,
    }
}

/// Reads `sqlparser`'s `JoinOperator` into the library's model, one for one;
/// nothing is claimed of the result.
#[verifier::external_body]
fn join_match(o: &JoinOperator) -> Option<SqlExpr> {
    match o {
        JoinOperator::AsOf { match_condition, .. } => Some(expr(match_condition)),
        _ => None,
    }
}

/// Reads `sqlparser`'s `JoinConstraint` into the library's model, one for one;
/// nothing is claimed of the result.
#[verifier::external_body]
fn join_constraint(c: &JoinConstraint) -> JoinConstraintNode {
    match c {
        JoinConstraint::On(e) => JoinConstraintNode::On(expr(e)),
        JoinConstraint::Using(cols) => {
            JoinConstraintNode::Using(cols.iter().map(|c| c.to_string()).collect())
        },
        JoinConstraint::Natural => JoinConstraintNode::Natural,
        JoinConstraint::None => JoinConstraintNode::Empty,
    }
}

/// Reads `sqlparser`'s `Expr` into the library's model, one for one;
/// nothing is claimed of the result.
#[verifier::external_body]
fn expr(e: &Expr) -> SqlExpr {
    SqlExpr { kind: expr_kind(e), text: e.to_string() }
}

/// Reads `sqlparser`'s `Expr` into the library's model, one for one;
/// nothing is claimed of the result.
#[verifier::external_body]
fn boxed(e: &Expr) -> Box<SqlExpr> {
    Box::new(expr(e))
}

/// Reads `sqlparser`'s `Expr` into the library's model, one for one;
/// nothing is claimed of the result.
#[verifier::external_body]
fn expr_kind(e: &Expr) -> ExprKind {
    match e {
        Expr::Value(v) => ExprKind::Value {
            boolean: match &v.value {
                Value::Boolean(b) => Some(*b),
                _ => None,
            },
        },
        Expr::Function(f) => ExprKind::Function(Box::new(func(f))),
        Expr::Cast { kind, expr: x, data_type, format, .. } => cast(kind, x, data_type, format),
        Expr::TypedString(t) => typed_string(t),
        Expr::Interval(i) => ExprKind::Interval(Box::new(interval(i))),
        other => expr_kind_more(other),
    }
}

/// Reads `sqlparser`'s `Expr` into the library's model, one for one;
/// nothing is claimed of the result.
#[verifier::external_body]
fn expr_kind_more(e: &Expr) -> ExprKind {
    match e {
        Expr::BinaryOp { left, op, right } => {
            ExprKind::BinaryOp { left: boxed(left), op: bin_op(op), right: boxed(right) }
        },
        Expr::Nested(x) => ExprKind::Nested(boxed(x)),
        Expr::Case { operand, conditions, else_result, .. } => {
            case_kind(operand, conditions, else_result)
        },
        Expr::Exists { subquery, negated } => {
            ExprKind::Exists { subquery: Box::new(query(subquery)), negated: *negated }
        },
        other => expr_kind_rest(other),
    }
}

/// Reads `sqlparser`'s `Expr` into the library's model, one for one;
/// nothing is claimed of the result.
#[verifier::external_body]
fn expr_kind_rest(e: &Expr) -> ExprKind {
    match e {
        Expr::Subquery(q) => ExprKind::Subquery(Box::new(query(q))),
        Expr::Between { expr: x, low, high, .. } => {
            ExprKind::Between { expr: boxed(x), low: boxed(low), high: boxed(high) }
        },
        other => predicate_kind(other),
    }
}

/// Reads `sqlparser`'s `Expr` into the library's model, one for one;
/// nothing is claimed of the result.
#[verifier::external_body]
fn predicate_kind(e: &Expr) -> ExprKind {
    let (test, inner) = match e {
        Expr::IsNull(x) => (PredicateKind::IsNull, x),
        Expr::IsNotNull(x) => (PredicateKind::IsNotNull, x),
        Expr::IsTrue(x) => (PredicateKind::IsTrue, x),
        Expr::IsNotTrue(x) => (PredicateKind::IsNotTrue, x),
        Expr::IsFalse(x) => (PredicateKind::IsFalse, x),
        Expr::IsNotFalse(x) => (PredicateKind::IsNotFalse, x),
        Expr::IsUnknown(x) => (PredicateKind::IsUnknown, x),
        Expr::IsNotUnknown(x) => (PredicateKind::IsNotUnknown, x),
        _ => return ExprKind::Other,
    };
    ExprKind::Predicate { test, inner: boxed(inner) }
}

/// Reads `sqlparser`'s `BinaryOperator` into the library's model, one for one;
/// nothing is claimed of the result.
#[verifier::external_body]
fn bin_op(op: &BinaryOperator) -> BinOp {
    match op {
        BinaryOperator::And => BinOp::And,
        BinaryOperator::Or => BinOp::Or,
        other => BinOp::Other(other.to_string()),
    }
}

/// Reads `sqlparser`'s `Expr` into the library's model, one for one;
/// nothing is claimed of the result.
#[verifier::external_body]
fn case_kind(
    operand: &Option<Box<Expr>>,
    conditions: &Vec<CaseWhen>,
    else_result: &Option<Box<Expr>>,
) -> ExprKind {
    ExprKind::Case {
        operand: operand.as_ref().map(|x| boxed(x)),
        branches: conditions.iter().map(case_branch).collect(),
        else_result: else_result.as_ref().map(|x| boxed(x)),
    }
}

/// Reads `sqlparser`'s `CaseWhen` into the library's model, one for one;
/// nothing is claimed of the result.
#[verifier::external_body]
fn case_branch(c: &CaseWhen) -> CaseBranch {
    CaseBranch { condition: expr(&c.condition), result: expr(&c.result) }
}

/// Reads `sqlparser`'s `CastKind` into the library's model, one for one;
/// nothing is claimed of the result.
#[verifier::external_body]
fn cast(kind: &CastKind, x: &Expr, t: &DataType, format: &Option<CastFormat>) -> ExprKind {
    let style = match kind {
        CastKind::Cast => CastStyle::Cast,
        CastKind::TryCast => CastStyle::TryCast,
        CastKind::SafeCast => CastStyle::SafeCast,
        CastKind::DoubleColon => CastStyle::DoubleColon,
    };
    let format = format.as_ref().map(|f| f.to_string());
    ExprKind::Cast { style, expr: boxed(x), data_type: type_of(t), format }
}

/// Reads `sqlparser`'s `TypedString` into the library's model, one for one;
/// nothing is claimed of the result.
#[verifier::external_body]
fn typed_string(t: &TypedString) -> ExprKind {
    let single_quoted = match &t.value.value {
        Value::SingleQuotedString(s) => Some(s.clone()),
        _ => None,
    };
    ExprKind::TypedString {
        odbc: t.uses_odbc_syntax,
        data_type: type_of(&t.data_type),
        single_quoted,
        value_text: t.value.to_string(),
    }
}

/// Reads `sqlparser`'s `DataType` into the library's model, one for one;
/// nothing is claimed of the result.
#[verifier::external_body]
fn type_of(t: &DataType) -> TypeName {
    let shape = match t {
        DataType::Custom(..) => TypeShape::Custom,
        DataType::Array(elem) => TypeShape::Array(array_elem(elem)),
        DataType::Struct(fields, _) => {
            TypeShape::Struct(fields.iter().map(|f| type_of(&f.field_type)).collect())
        },
        _ => TypeShape::Other,
    };
    TypeName { text: t.to_string(), shape }
}

/// Reads `sqlparser`'s `ArrayElemTypeDef` into the library's model, one for one;
/// nothing is claimed of the result.
#[verifier::external_body]
fn array_elem(e: &ArrayElemTypeDef) -> Option<Box<TypeName>> {
    match e {
        ArrayElemTypeDef::None => None,
        ArrayElemTypeDef::AngleBracket(t)
        | ArrayElemTypeDef::SquareBracket(t, _)
        | ArrayElemTypeDef::Parenthesis(t) => Some(Box::new(type_of(t))),
    }
}

/// Reads `sqlparser`'s `Interval` into the library's model, one for one;
/// nothing is claimed of the result.
#[verifier::external_body]
fn interval(i: &Interval) -> IntervalExpr {
    IntervalExpr {
        value: expr(&i.value),
        leading_field: i.leading_field.as_ref().map(date_field),
        leading_precision: i.leading_precision,
        last_field: i.last_field.as_ref().map(date_field),
        fractional_seconds_precision: i.fractional_seconds_precision,
    }
}

/// Reads `sqlparser`'s `DateTimeField` into the library's model, one for one;
/// nothing is claimed of the result.
#[verifier::external_body]
fn date_field(f: &DateTimeField) -> DateField {
    match f {
        DateTimeField::Second => DateField::Second,
        DateTimeField::Week(w) => DateField::Week(w.as_ref().map(|i| i.to_string())),
        DateTimeField::Custom(i) => DateField::Custom(i.to_string()),
        other => DateField::Named(other.to_string()),
    }
}

/// Reads `sqlparser`'s `Function` into the library's model, one for one;
/// nothing is claimed of the result.
#[verifier::external_body]
fn func(f: &Function) -> FuncCall {
    FuncCall {
        odbc: f.uses_odbc_syntax,
        name_text: f.name.to_string(),
        name_parts: f.name.0.iter().map(name_part).collect(),
        parameters_text: f.parameters.to_string(),
        args_text: f.args.to_string(),
        within_group: f.within_group.iter().map(|o| o.to_string()).collect(),
        filter: f.filter.as_ref().map(|c| c.to_string()),
        null_treatment: f.null_treatment.as_ref().map(|n| n.to_string()),
        args: func_args(&f.args),
        over: f.over.as_ref().map(window_ref),
    }
}

/// Reads `sqlparser`'s `ObjectNamePart` into the library's model, one for one;
/// nothing is claimed of the result.
#[verifier::external_body]
fn name_part(p: &ObjectNamePart) -> NamePart {
    match p {
        ObjectNamePart::Identifier(i) => {
            NamePart::Ident { value: i.value.clone(), quoted: i.quote_style.is_some() }
        },
        _ => NamePart::Other,
    }
}

/// Reads `sqlparser`'s `FunctionArguments` into the library's model, one for one;
/// nothing is claimed of the result.
#[verifier::external_body]
fn func_args(a: &FunctionArguments) -> FuncArgs {
    match a {
        FunctionArguments::None => FuncArgs::Absent,
        FunctionArguments::Subquery(q) => FuncArgs::Subquery(Box::new(query(q))),
        FunctionArguments::List(l) => FuncArgs::List {
            duplicate: l.duplicate_treatment.map(|d| d.to_string()),
            args: l.args.iter().map(|x| x.to_string()).collect(),
            clauses: l.clauses.iter().map(|c| c.to_string()).collect(),
        },
    }
}

/// Reads `sqlparser`'s `WindowType` into the library's model, one for one;
/// nothing is claimed of the result.
#[verifier::external_body]
fn window_ref(w: &WindowType) -> WindowRef {
    match w {
        WindowType::NamedWindow(n) => WindowRef::Named(n.to_string()),
        WindowType::WindowSpec(s) => WindowRef::Spec(window_spec(s)),
    }
}

/// Reads `sqlparser`'s `WindowSpec` into the library's model, one for one;
/// nothing is claimed of the result.
#[verifier::external_body]
fn window_spec(s: &WindowSpec) -> WindowSpecNode {
    WindowSpecNode {
        text: s.to_string(),
        window_name: s.window_name.as_ref().map(|n| n.to_string()),
        partition_by: s.partition_by.iter().map(expr).collect(),
        order_by: s.order_by.iter().map(|o| o.to_string()).collect(),
        frame: s.window_frame.as_ref().map(frame),
    }
}

/// Reads `sqlparser`'s `WindowFrame` into the library's model, one for one;
/// nothing is claimed of the result.
#[verifier::external_body]
fn frame(f: &WindowFrame) -> FrameNode {
    FrameNode {
        units: f.units.to_string(),
        start: bound(&f.start_bound),
        end: f.end_bound.as_ref().map(bound),
    }
}

/// Reads `sqlparser`'s `WindowFrameBound` into the library's model, one for one;
/// nothing is claimed of the result.
#[verifier::external_body]
fn bound(b: &WindowFrameBound) -> FrameBound {
    match b {
        WindowFrameBound::CurrentRow => FrameBound::CurrentRow,
        WindowFrameBound::Preceding(e) => FrameBound::Preceding(e.as_ref().map(|x| boxed(x))),
        WindowFrameBound::Following(e) => FrameBound::Following(e.as_ref().map(|x| boxed(x))),
    }
}

/// Reads `sqlparser`'s `CreateTable` into the library's model, one for one;
/// nothing is claimed of the result.
#[verifier::external_body]
fn create_table(c: &CreateTable) -> CreateTableNode {
    CreateTableNode {
        name: c.name.to_string(),
        columns: c.columns.iter().map(|x| x.to_string()).collect(),
        constraints: c.constraints.iter().map(|x| x.to_string()).collect(),
        or_replace: c.or_replace, temporary: c.temporary, external: c.external,
        global: c.global, if_not_exists: c.if_not_exists,
        query: c.query.as_ref().map(|q| query(q)),
        order_by: c.order_by.as_ref().map(|o| texts_of_exprs(o)),
        partition_by: c.partition_by.as_ref().map(|p| partition(p)),
        cluster_by: c.cluster_by.as_ref().map(cluster),
        hive_formats: c.hive_formats.as_ref().map(hive),
        present: table_options_present(c),
    }
}

/// Reads `sqlparser`'s `Expr` into the library's model, one for one;
/// nothing is claimed of the result.
#[verifier::external_body]
fn partition(p: &Expr) -> PartitionSpec {
    match p {
        Expr::Tuple(items) => PartitionSpec::Tuple(texts_of_exprs(items)),
        Expr::Nested(inner) => PartitionSpec::Nested(inner.to_string()),
        other => PartitionSpec::Expr(other.to_string()),
    }
}

/// Reads `sqlparser`'s `WrappedCollection` into the library's model, one for one;
/// nothing is claimed of the result.
#[verifier::external_body]
fn cluster(c: &WrappedCollection<Vec<Expr>>) -> ClusterSpec {
    match c {
        WrappedCollection::Parentheses(items) => ClusterSpec::Parenthesized(texts_of_exprs(items)),
        WrappedCollection::NoWrapping(items) => ClusterSpec::Bare(texts_of_exprs(items)),
    }
}

/// Reads `sqlparser`'s `HiveFormat` into the library's model, one for one;
/// nothing is claimed of the result.
#[verifier::external_body]
fn hive(h: &HiveFormat) -> HiveFormatNode {
    HiveFormatNode {
        row_format: h.row_format.is_some(),
        storage: h.storage.is_some(),
        location: h.location.is_some(),
        serde_properties: h.serde_properties.as_ref().map(|p| p.len()),
    }
}

/// Reads `sqlparser`'s `CreateTable` into the library's model, one for one;
/// nothing is claimed of the result.
#[verifier::external_body]
fn table_options_present(c: &CreateTable) -> Vec<bool> {
    let mut present = vec![
        c.like.is_some(), c.clone.is_some(), c.version.is_some(),
        !matches!(c.table_options, CreateTableOptions::None), c.file_format.is_some(),
        c.location.is_some(), c.comment.is_some(), c.on_commit.is_some(),
        c.on_cluster.is_some(), c.primary_key.is_some(), c.clustered_by.is_some(),
        c.inherits.is_some(), c.partition_of.is_some(), c.for_values.is_some(),
        !matches!(c.hive_distribution, HiveDistributionStyle::NONE),
    ];
    present.extend(table_flags_present(c));
    present.extend(table_settings_present(c));
    present
}

/// Reads `sqlparser`'s `CreateTable` into the library's model, one for one;
/// nothing is claimed of the result.
#[verifier::external_body]
fn table_flags_present(c: &CreateTable) -> Vec<bool> {
    vec![
        c.without_rowid, c.copy_grants, c.strict, c.dynamic, c.transient, c.volatile,
        c.iceberg, c.require_user, c.enable_schema_evolution.is_some(),
        c.change_tracking.is_some(), c.data_retention_time_in_days.is_some(),
        c.max_data_extension_time_in_days.is_some(), c.default_ddl_collation.is_some(),
    ]
}

/// Reads `sqlparser`'s `CreateTable` into the library's model, one for one;
/// nothing is claimed of the result.
#[verifier::external_body]
fn table_settings_present(c: &CreateTable) -> Vec<bool> {
    vec![
        c.with_aggregation_policy.is_some(), c.with_row_access_policy.is_some(),
        c.with_tags.is_some(), c.external_volume.is_some(), c.base_location.is_some(),
        c.catalog.is_some(), c.catalog_sync.is_some(), c.target_lag.is_some(),
        c.storage_serialization_policy.is_some(), c.warehouse.is_some(),
        c.refresh_mode.is_some(), c.initialize.is_some(),
    ]
}

/// Reads `sqlparser`'s `CreateView` into the library's model, one for one;
/// nothing is claimed of the result.
#[verifier::external_body]
fn create_view(v: &CreateView) -> CreateViewNode {
    CreateViewNode {
        name: v.name.to_string(),
        columns: v.columns.iter().map(|c| c.to_string()).collect(),
        query: query(&v.query),
        or_replace: v.or_replace,
        materialized: v.materialized,
        if_not_exists: v.if_not_exists,
        temporary: v.temporary,
        present: view_options_present(v),
    }
}

/// Reads `sqlparser`'s `CreateView` into the library's model, one for one;
/// nothing is claimed of the result.
#[verifier::external_body]
fn view_options_present(v: &CreateView) -> Vec<bool> {
    vec![
        !matches!(v.options, CreateTableOptions::None), !v.cluster_by.is_empty(),
        v.with_no_schema_binding, v.or_alter, v.secure, v.comment.is_some(), v.to.is_some(),
        v.params.is_some(),
    ]
}

/// Reads `sqlparser`'s `Insert` into the library's model, one for one;
/// nothing is claimed of the result.
#[verifier::external_body]
fn insert(i: &Insert) -> InsertNode {
    InsertNode {
        into: i.into,
        table: i.table.to_string(),
        table_alias: i.table_alias.as_ref().map(|a| a.to_string()),
        columns: i.columns.iter().map(|c| c.to_string()).collect(),
        source: i.source.as_ref().map(|q| query(q)),
        present: insert_options_present(i),
    }
}

/// Reads `sqlparser`'s `Insert` into the library's model, one for one;
/// nothing is claimed of the result.
#[verifier::external_body]
fn insert_options_present(i: &Insert) -> Vec<bool> {
    vec![
        i.overwrite, i.partitioned.is_some(), !i.after_columns.is_empty(), i.on.is_some(),
        i.returning.is_some(), i.replace_into, i.priority.is_some(), i.insert_alias.is_some(),
        i.ignore, i.or.is_some(),
    ]
}

} // verus!
