//! The parsed SQL as the formatting rules read it: the structure they walk,
//! with the parser's own rendering (`text`) of each piece that is printed
//! as is or measured.
use vstd::prelude::*;

verus! {

#[derive(Debug)]
pub struct SqlStatement {
    pub kind: StatementKind,
    pub text: String,
}

#[derive(Debug)]
pub enum StatementKind {
    Query(SqlQuery),
    CreateTable(CreateTableNode),
    CreateView(CreateViewNode),
    Insert(InsertNode),
    Other,
}

/// `CREATE TABLE`. `present` holds, for each other table option that the
/// layout does not render, whether it is given (a flag when it is on).
#[derive(Debug)]
pub struct CreateTableNode {
    pub name: String,
    pub columns: Vec<String>,
    pub constraints: Vec<String>,
    pub or_replace: bool,
    pub temporary: bool,
    pub external: bool,
    pub global: Option<bool>,
    pub if_not_exists: bool,
    pub query: Option<SqlQuery>,
    pub order_by: Option<Vec<String>>,
    pub partition_by: Option<PartitionSpec>,
    pub cluster_by: Option<ClusterSpec>,
    pub hive_formats: Option<HiveFormatNode>,
    pub present: Vec<bool>,
}

/// Which parts of a Hive storage format are given: the `SERDEPROPERTIES`
/// by their number.
#[derive(Debug)]
pub struct HiveFormatNode {
    pub row_format: bool,
    pub storage: bool,
    pub location: bool,
    pub serde_properties: Option<usize>,
}

#[derive(Debug)]
pub enum PartitionSpec {
    Tuple(Vec<String>),
    Nested(String),
    Expr(String),
}

#[derive(Debug)]
pub enum ClusterSpec {
    Parenthesized(Vec<String>),
    Bare(Vec<String>),
}

/// `CREATE VIEW`. `present` holds, for each view option that the layout
/// does not render, whether it is given.
#[derive(Debug)]
pub struct CreateViewNode {
    pub name: String,
    pub columns: Vec<String>,
    pub query: SqlQuery,
    pub or_replace: bool,
    pub materialized: bool,
    pub if_not_exists: bool,
    pub temporary: bool,
    pub present: Vec<bool>,
}

/// `INSERT`. `present` holds, for each insert option that the layout does
/// not render, whether it is present.
#[derive(Debug)]
pub struct InsertNode {
    pub into: bool,
    pub table: String,
    pub table_alias: Option<String>,
    pub columns: Vec<String>,
    pub source: Option<SqlQuery>,
    pub present: Vec<bool>,
}

#[derive(Debug)]
pub struct SqlQuery {
    pub text: String,
    pub with: Option<WithClause>,
    pub body: QueryBody,
    pub order_by: Vec<String>,
    /// `ORDER BY ALL`, with the options written after `ALL`.
    pub order_by_all: Option<String>,
    pub limit: LimitNode,
}

#[derive(Debug)]
pub struct WithClause {
    pub recursive: bool,
    pub ctes: Vec<CteNode>,
}

#[derive(Debug)]
pub struct CteNode {
    pub alias: String,
    pub materialized: Option<String>,
    pub query: SqlQuery,
    pub from: Option<String>,
}

#[derive(Debug)]
pub enum QueryBody {
    Select(Box<SelectNode>),
    Nested(Box<SqlQuery>),
    Values(ValuesNode),
    Other(String),
}

#[derive(Debug)]
pub struct ValuesNode {
    pub explicit_row: bool,
    pub rows: Vec<Vec<String>>,
}

#[derive(Debug)]
pub enum LimitNode {
    Absent,
    LimitOffset { limit: Option<String>, offset: Option<String> },
    OffsetCommaLimit { offset: String, limit: String },
}

#[derive(Debug)]
pub struct SelectNode {
    pub distinct: bool,
    pub projection: Vec<SelectItemNode>,
    pub from: Vec<TableWithJoinsNode>,
    pub selection: Option<SqlExpr>,
    pub group_by: GroupByNode,
    pub having: Option<SqlExpr>,
}

#[derive(Debug)]
pub struct SelectItemNode {
    pub kind: SelectItemKind,
    pub text: String,
}

#[derive(Debug)]
pub enum SelectItemKind {
    Unnamed(SqlExpr),
    Aliased { expr: SqlExpr, alias: String },
    Wildcard,
    QualifiedWildcard,
}

#[derive(Debug)]
pub enum GroupByNode {
    All,
    Exprs(Vec<String>),
}

#[derive(Debug)]
pub struct TableWithJoinsNode {
    pub relation: FactorNode,
    pub joins: Vec<JoinNode>,
}

/// A relation alias: its name, the column aliases declared after it, and
/// whether the `AS` was written.
#[derive(Debug)]
pub struct AliasNode {
    pub name: String,
    pub columns: Vec<String>,
    pub explicit: bool,
}

#[derive(Debug)]
pub struct FactorNode {
    pub kind: FactorKind,
    pub text: String,
    pub alias: Option<AliasNode>,
}

#[derive(Debug)]
pub enum FactorKind {
    Plain,
    TableFunction(SqlExpr),
    Derived { lateral: bool, subquery: Box<SqlQuery> },
    NestedJoin(Box<TableWithJoinsNode>),
    Wrapped(Box<FactorNode>),
}

#[derive(Debug)]
pub enum JoinOpKind {
    Join,
    Inner,
    Left,
    LeftOuter,
    Right,
    RightOuter,
    FullOuter,
    CrossJoin,
    Semi,
    LeftSemi,
    RightSemi,
    Anti,
    LeftAnti,
    RightAnti,
    CrossApply,
    OuterApply,
    AsOf,
    StraightJoin,
}

#[derive(Debug)]
pub enum JoinConstraintNode {
    On(SqlExpr),
    Using(Vec<String>),
    Natural,
    Empty,
}

#[derive(Debug)]
pub struct JoinNode {
    pub op: JoinOpKind,
    pub constraint: Option<JoinConstraintNode>,
    pub match_condition: Option<SqlExpr>,
    pub relation: FactorNode,
}

#[derive(Debug)]
pub struct SqlExpr {
    pub kind: ExprKind,
    pub text: String,
}

#[derive(Debug)]
pub struct CaseBranch {
    pub condition: SqlExpr,
    pub result: SqlExpr,
}

#[derive(Debug)]
pub enum PredicateKind {
    IsNull,
    IsNotNull,
    IsTrue,
    IsNotTrue,
    IsFalse,
    IsNotFalse,
    IsUnknown,
    IsNotUnknown,
}

#[derive(Debug)]
pub enum BinOp {
    And,
    Or,
    Other(String),
}

#[derive(Debug)]
pub enum CastStyle {
    Cast,
    TryCast,
    SafeCast,
    DoubleColon,
}

#[derive(Debug)]
pub struct TypeName {
    pub text: String,
    pub shape: TypeShape,
}

#[derive(Debug)]
pub enum TypeShape {
    Custom,
    Array(Option<Box<TypeName>>),
    Struct(Vec<TypeName>),
    Other,
}

#[derive(Debug)]
pub enum DateField {
    Second,
    Week(Option<String>),
    Custom(String),
    Named(String),
}

#[derive(Debug)]
pub struct IntervalExpr {
    pub value: SqlExpr,
    pub leading_field: Option<DateField>,
    pub leading_precision: Option<u64>,
    pub last_field: Option<DateField>,
    pub fractional_seconds_precision: Option<u64>,
}

#[derive(Debug)]
pub enum NamePart {
    Ident { value: String, quoted: bool },
    Other,
}

#[derive(Debug)]
pub enum FuncArgs {
    Absent,
    Subquery(Box<SqlQuery>),
    List { duplicate: Option<String>, args: Vec<String>, clauses: Vec<String> },
}

#[derive(Debug)]
pub struct FrameNode {
    pub units: String,
    pub start: FrameBound,
    pub end: Option<FrameBound>,
}

#[derive(Debug)]
pub enum FrameBound {
    CurrentRow,
    Preceding(Option<Box<SqlExpr>>),
    Following(Option<Box<SqlExpr>>),
}

#[derive(Debug)]
pub struct WindowSpecNode {
    pub text: String,
    pub window_name: Option<String>,
    pub partition_by: Vec<SqlExpr>,
    pub order_by: Vec<String>,
    pub frame: Option<FrameNode>,
}

#[derive(Debug)]
pub enum WindowRef {
    Named(String),
    Spec(WindowSpecNode),
}

/// A function call: its name (rendered and by parts), the parts written
/// after the name (parameters, arguments, `WITHIN GROUP` ordering, `FILTER`
/// condition, null treatment), its arguments and its window.
#[derive(Debug)]
pub struct FuncCall {
    pub odbc: bool,
    pub name_text: String,
    pub name_parts: Vec<NamePart>,
    pub parameters_text: String,
    pub args_text: String,
    pub within_group: Vec<String>,
    pub filter: Option<String>,
    pub null_treatment: Option<String>,
    pub args: FuncArgs,
    pub over: Option<WindowRef>,
}

#[derive(Debug)]
pub enum ExprKind {
    Value { boolean: Option<bool> },
    Function(Box<FuncCall>),
    Cast { style: CastStyle, expr: Box<SqlExpr>, data_type: TypeName, format: Option<String> },
    TypedString { odbc: bool, data_type: TypeName, single_quoted: Option<String>, value_text: String },
    Interval(Box<IntervalExpr>),
    Predicate { test: PredicateKind, inner: Box<SqlExpr> },
    BinaryOp { left: Box<SqlExpr>, op: BinOp, right: Box<SqlExpr> },
    Nested(Box<SqlExpr>),
    Case { operand: Option<Box<SqlExpr>>, branches: Vec<CaseBranch>, else_result: Option<Box<SqlExpr>> },
    Exists { subquery: Box<SqlQuery>, negated: bool },
    Subquery(Box<SqlQuery>),
    Between { expr: Box<SqlExpr>, low: Box<SqlExpr>, high: Box<SqlExpr> },
    Other,
}

} // verus!
