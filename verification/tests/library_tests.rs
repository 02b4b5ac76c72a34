use sqlchisel::commands::{
    parse_dremio_command, strip_dremio_version_clause, DremioCommand, VersionSelector,
};
use sqlchisel::fragments::split_sql_fragments;
use sqlchisel::cli::{
    apply_cli_overrides, build_matchers, check_input_sources, choose_mode, decide_outcome,
    glob_to_regex_pattern, is_ignored_dir, normalize_path, process_input, ConfigOverrides,
    InputOutcome, Mode,
};
use sqlchisel::config::{DialectKind, FormatterConfig, KeywordCase, SelectListStyle, TemplatingMode};
use sqlchisel::doc::Doc;
use sqlchisel::format::{format_sql, join_statements, render_statements, FormatError};
use sqlchisel::jinja::{preserve_jinja_expressions, restore_jinja_expressions};
use sqlchisel::literals::{preserve_string_literals, restore_string_literals};
use sqlchisel::parser::{parse_sql, parse_sql_with_options, ParseOptions, ParsedStatement};
use sqlchisel::printer::{format_doc, PrintConfig};
use sqlchisel::text::replace_first;

fn chars(s: &str) -> Vec<char> {
    s.chars().collect()
}

fn text(v: &[char]) -> String {
    v.iter().collect()
}

#[test]
fn literals_round_trip_through_placeholders() {
    let input = "select 'a''b', x from t -- it's a comment\nwhere y = 'it''s' /* 'c' */";
    let (protected, literals) = preserve_string_literals(&chars(input));
    assert_eq!(literals, vec!["'a''b'".to_string(), "'it''s'".to_string()]);
    assert_eq!(
        text(&protected),
        "select '__SQLCHISEL_LITERAL_0__', x from t -- it's a comment\nwhere y = '__SQLCHISEL_LITERAL_1__' /* 'c' */"
    );
    let restored = restore_string_literals(&protected, &literals);
    assert_eq!(text(&restored), input);
}

#[test]
fn unterminated_literal_runs_to_the_end() {
    let input = "select 'abc";
    let (protected, literals) = preserve_string_literals(&chars(input));
    assert_eq!(literals, vec!["'abc".to_string()]);
    assert_eq!(text(&protected), "select '__SQLCHISEL_LITERAL_0__'");
    assert_eq!(text(&restore_string_literals(&protected, &literals)), input);
}

#[test]
fn literal_contents_survive_formatting() {
    let cfg = FormatterConfig::default();
    let out = format_sql("select 'Mixed Case  ''quoted''' as v from t", &cfg).unwrap();
    assert_eq!(out, "SELECT 'Mixed Case  ''quoted''' AS v FROM t");
}

#[test]
fn templated_input_passes_through() {
    let cfg = FormatterConfig::default();
    for input in ["select {{ col }} from t", "{% if x %}select 1{% endif %}", "select 1 {# note #}"] {
        assert_eq!(format_sql(input, &cfg).unwrap(), input);
    }
}

#[test]
fn statements_are_separated_by_one_blank_line() {
    let cfg = FormatterConfig::default();
    assert_eq!(format_sql("select a; select b;", &cfg).unwrap(), "SELECT a;\n\nSELECT b;");
    assert_eq!(
        format_sql("select a;\n\n\n\nselect b", &cfg).unwrap(),
        "SELECT a;\n\nSELECT b"
    );
}

#[test]
fn semicolons_are_neither_added_nor_removed() {
    let cfg = FormatterConfig::default();
    assert_eq!(format_sql("select a", &cfg).unwrap(), "SELECT a");
    assert_eq!(format_sql("select a;", &cfg).unwrap(), "SELECT a;");
}

#[test]
fn empty_input_formats_to_nothing() {
    let cfg = FormatterConfig::default();
    assert_eq!(format_sql("", &cfg).unwrap(), "");
}

#[test]
fn join_statements_puts_two_breaks_between_documents() {
    let doc = join_statements(vec![Doc::Text("a".into()), Doc::Text("b".into()), Doc::Text("c".into())]);
    let cfg = PrintConfig { line_length: 80, indent_width: 2 };
    assert_eq!(format_doc(&doc, &cfg), "a\n\nb\n\nc");
}

#[test]
fn printer_hard_lines_break_inside_fitting_groups() {
    let doc = Doc::Group(vec![Doc::Text("a".into()), Doc::Line, Doc::Text("b".into())]);
    let cfg = PrintConfig { line_length: 80, indent_width: 2 };
    assert_eq!(format_doc(&doc, &cfg), "a\nb");
}

#[test]
fn non_strict_parsing_never_fails() {
    let out = parse_sql_with_options("unknown_verb x; select 1", DialectKind::Ansi, ParseOptions { strict: false }).unwrap();
    assert_eq!(out.len(), 2);
    assert!(matches!(out[0], ParsedStatement::Raw { has_semicolon: true, .. }));
    assert!(matches!(out[1], ParsedStatement::Sql { has_semicolon: false, .. }));
}

#[test]
fn strict_parse_failure_is_reported() {
    let cfg = FormatterConfig { strict: true, ..Default::default() };
    let err = format_sql("unknown_verb x", &cfg).unwrap_err();
    assert!(matches!(err, FormatError::Parse(_)));
    assert!(err.message().starts_with("parse failed: "), "{err:?}");
    let lenient = FormatterConfig::default();
    assert!(format_sql("unknown_verb x", &lenient).is_ok());
}

#[test]
fn tokenizer_errors_are_reported() {
    let cfg = FormatterConfig::default();
    assert!(matches!(format_sql("select 'abc", &cfg), Err(FormatError::Tokenize(_))));
}

#[test]
fn derived_table_alias_keeps_its_as() {
    let cfg = FormatterConfig::default();
    assert_eq!(
        format_sql("SELECT * FROM (SELECT 1) AS t", &cfg).unwrap(),
        "SELECT *\nFROM (\n    SELECT\n      1\n  ) AS t"
    );
    assert_eq!(
        format_sql("SELECT * FROM (SELECT 1) t", &cfg).unwrap(),
        "SELECT *\nFROM (\n    SELECT\n      1\n  ) t"
    );
}

#[test]
fn casts_typed_strings_and_intervals_follow_keyword_case() {
    let cfg = FormatterConfig::default();
    assert_eq!(
        format_sql(
            "select cast(a as varchar) , try_cast(b as int), c::date, date '2024-01-01', interval '1' day from t",
            &cfg
        )
        .unwrap(),
        "SELECT\n  CAST(a AS VARCHAR),\n  TRY_CAST(b AS INT),\n  c::DATE,\n  DATE '2024-01-01',\n  INTERVAL '1' DAY\nFROM t"
    );
}

#[test]
fn window_frames_are_laid_out() {
    let cfg = FormatterConfig::default();
    assert_eq!(
        format_sql("select sum(x) over (order by y rows between unbounded preceding and current row) from t", &cfg).unwrap(),
        "SELECT SUM(x) OVER (\n    ORDER BY y\n    ROWS BETWEEN UNBOUNDED PRECEDING AND CURRENT ROW\n  ) FROM t"
    );
}

#[test]
fn insert_values_and_limit() {
    let cfg = FormatterConfig::default();
    assert_eq!(format_sql("insert into t (a, b) values (1, 2)", &cfg).unwrap(), "INSERT INTO t (a, b)\nVALUES (1, 2)");
    assert_eq!(format_sql("select a from t limit 5", &cfg).unwrap(), "SELECT a FROM t\nLIMIT 5");
}

#[test]
fn other_statements_are_printed_as_parsed() {
    let cfg = FormatterConfig::default();
    assert_eq!(format_sql("update t set a = 1 where b = 2", &cfg).unwrap(), "UPDATE t SET a = 1 WHERE b = 2");
}

#[test]
fn joins_keep_their_kind() {
    let cfg = FormatterConfig::default();
    assert_eq!(format_sql("select a from t natural join u", &cfg).unwrap(), "SELECT a FROM t\nNATURAL JOIN u");
    assert_eq!(format_sql("select a from t cross join u", &cfg).unwrap(), "SELECT a FROM t\nCROSS JOIN u");
}

#[test]
fn recursive_cte_and_group_by_all() {
    let cfg = FormatterConfig::default();
    assert_eq!(
        format_sql("WITH RECURSIVE x AS (SELECT 1) SELECT * FROM x", &cfg).unwrap(),
        "WITH RECURSIVE x AS (\n  SELECT 1\n)\n\nSELECT * FROM x"
    );
    assert_eq!(
        format_sql("select count(distinct a) from t group by all", &cfg).unwrap(),
        "SELECT COUNT(DISTINCT a) FROM t\nGROUP BY ALL"
    );
}

#[test]
fn capitalized_keywords_in_dremio() {
    let cfg = FormatterConfig { keyword_case: KeywordCase::Capitalize, dialect: DialectKind::Dremio, ..Default::default() };
    assert_eq!(format_sql("create or replace view v as select a from t", &cfg).unwrap(), "Create Or Replace View v As\nSelect a From t");
    assert_eq!(format_sql("select * from t at branch main", &cfg).unwrap(), "Select *\nFrom t\nAt Branch main");
}

#[test]
fn mode_flags_exclude_each_other() {
    assert_eq!(choose_mode(true, true, false, false).unwrap_err(), "use only one of --format, --check, or --write");
    assert_eq!(choose_mode(false, false, true, true).unwrap_err(), "--write requires file inputs (not --stdin)");
    assert_eq!(choose_mode(false, false, false, false).unwrap(), Mode::PassThrough);
    assert_eq!(choose_mode(true, false, false, true).unwrap(), Mode::FormatStdout);
    assert_eq!(choose_mode(false, true, false, false).unwrap(), Mode::Check);
    assert_eq!(choose_mode(false, false, true, false).unwrap(), Mode::Write);
}

#[test]
fn input_sources_are_checked() {
    assert_eq!(check_input_sources(true, 1).unwrap_err(), "use either FILES or --stdin, not both");
    assert_eq!(check_input_sources(false, 0).unwrap_err(), "no input provided; pass FILES or --stdin");
    assert!(check_input_sources(true, 0).is_ok());
    assert!(check_input_sources(false, 2).is_ok());
}

#[test]
fn command_line_values_override_the_file() {
    let mut cfg = FormatterConfig { line_length: 80, strict: true, ..Default::default() };
    let o = ConfigOverrides {
        line_length: Some(120),
        indent_width: None,
        keyword_case: Some(KeywordCase::Lower),
        dialect: Some(DialectKind::Dremio),
        templating: Some(TemplatingMode::Dbt),
        select_list_style: Some(SelectListStyle::PerLine),
        strict: false,
    };
    apply_cli_overrides(&mut cfg, &o);
    assert_eq!(cfg.templating, TemplatingMode::Dbt);
    assert_eq!(cfg.line_length, 120);
    assert_eq!(cfg.indent_width, 2);
    assert_eq!(cfg.keyword_case, KeywordCase::Lower);
    assert_eq!(cfg.dialect, DialectKind::Dremio);
    assert_eq!(cfg.select_list_style, SelectListStyle::PerLine);
    assert!(cfg.strict);
}

#[test]
fn globs_become_anchored_patterns() {
    assert_eq!(glob_to_regex_pattern("**/*.sql"), "^(?:.*/)?[^/]*\\.sql$");
    assert_eq!(glob_to_regex_pattern("a/**"), "^a/.*$");
    assert_eq!(glob_to_regex_pattern("a?(b)"), "^a[^/]\\(b\\)$");
}

#[test]
fn matchers_select_and_rule_out_files() {
    let m = build_matchers(&vec![], &vec!["**/skip/**".to_string()]).unwrap();
    assert!(m.matches("dir/a.sql"));
    assert!(!m.matches("dir/a.txt"));
    assert!(!m.matches("dir/skip/b.sql"));
    assert!(m.is_excluded("dir\\skip\\x"));
    let default_keep = build_matchers(&vec!["**/*.sql".to_string()], &vec![]).unwrap();
    assert!(default_keep.matches("query.sql"));
    assert!(default_keep.matches("a/b/c.sql"));
    assert!(!default_keep.matches("a/b/c.txt"));
    let only = build_matchers(&vec!["*.sql".to_string()], &vec![]).unwrap();
    assert!(only.matches("top.sql"));
    assert!(!only.matches("dir/top.sql"));
}

#[test]
fn ignored_directories_and_paths() {
    assert!(is_ignored_dir(".git"));
    assert!(is_ignored_dir("target"));
    assert!(is_ignored_dir(".cargo"));
    assert!(!is_ignored_dir("src"));
    assert_eq!(normalize_path("a\\b\\c.sql"), "a/b/c.sql");
}

#[test]
fn outcomes_follow_the_mode() {
    assert!(matches!(decide_outcome(Mode::PassThrough, "x", "y".into()), InputOutcome::Echo));
    assert!(matches!(decide_outcome(Mode::FormatStdout, "x", "y".into()), InputOutcome::Print(ref s) if s == "y"));
    assert!(matches!(decide_outcome(Mode::Check, "x", "x".into()), InputOutcome::Unchanged));
    assert!(matches!(decide_outcome(Mode::Check, "x", "y".into()), InputOutcome::WouldReformat));
    assert!(matches!(decide_outcome(Mode::Write, "x", "y".into()), InputOutcome::Rewrite(ref s) if s == "y"));
    assert!(matches!(decide_outcome(Mode::Write, "x", "x".into()), InputOutcome::Unchanged));
    let cfg = FormatterConfig::default();
    assert!(matches!(process_input("select a", &cfg, Mode::PassThrough).unwrap(), InputOutcome::Echo));
    assert!(matches!(process_input("select a", &cfg, Mode::Check).unwrap(), InputOutcome::WouldReformat));
    assert!(matches!(process_input("SELECT a", &cfg, Mode::Check).unwrap(), InputOutcome::Unchanged));
}

#[test]
fn replace_first_replaces_one_occurrence() {
    let out = replace_first(&chars("a AS t AS t"), &chars(" AS t"), &chars(" t"));
    assert_eq!(text(&out), "a t AS t");
    let none = replace_first(&chars("abc"), &chars("x"), &chars("y"));
    assert_eq!(text(&none), "abc");
}

#[test]
fn top_level_commas_split_outside_quotes_and_parentheses() {
    let pieces = sqlchisel::blocks::split_top_level_commas(&chars("a, (b, c) , 'd,e', , \"f,g\", h"));
    assert_eq!(pieces, vec!["a".to_string(), "(b, c)".to_string(), "'d,e'".to_string(), "\"f,g\"".to_string(), "h".to_string()]);
}

#[test]
fn raw_layout_starts_clauses_on_new_lines() {
    let cfg = FormatterConfig::default();
    let doc = sqlchisel::raw::format_raw_sql("unknown_verb foo from bar", &cfg).unwrap();
    let out = format_doc(&doc, &PrintConfig { line_length: cfg.line_length, indent_width: cfg.indent_width });
    assert_eq!(out, "unknown_verb foo\nFROM bar");
}

#[test]
fn relation_aliases_keep_their_own_style() {
    let cfg = FormatterConfig::default();
    let out = format_sql("select * from a x join b as y on x.id = y.id", &cfg).unwrap();
    assert!(out.contains("FROM a x"), "{out}");
    assert!(out.contains("JOIN b AS y"), "{out}");
    let out = format_sql("select * from a as x join b y on x.id = y.id", &cfg).unwrap();
    assert!(out.contains("FROM a AS x"), "{out}");
    assert!(out.contains("JOIN b y"), "{out}");
}

#[test]
fn where_conditions_break_before_and() {
    let cfg = FormatterConfig { line_length: 30, ..Default::default() };
    let out = format_sql("select a from t where b = 1 and c = 2 and d = 3", &cfg).unwrap();
    assert!(out.contains("WHERE b = 1"), "{out}");
    assert!(out.contains("\n  AND c = 2"), "{out}");
}

#[test]
fn jinja_tags_are_protected_and_put_back() {
    let input = "select {{ col }} from t\n{% if x %}\nwhere a = '}}' {# note #}\n{% endif %}";
    let (protected, frags) = preserve_jinja_expressions(&chars(input));
    assert_eq!(frags.len(), 4);
    assert_eq!(
        text(&protected),
        "select SQLCHISEL_JINJA_EXPR_0__ from t\n-- SQLCHISEL_JINJA_BLOCK_1__\nwhere a = '}}' /* SQLCHISEL_JINJA_COMMENT_2__ */\n-- SQLCHISEL_JINJA_BLOCK_3__"
    );
    assert_eq!(text(&restore_jinja_expressions(protected, &frags)), input);
}

#[test]
fn jinja_raw_block_is_kept_whole() {
    let input = "select {% raw %}{{ not_a_tag }}{% endraw %} as c";
    let (protected, frags) = preserve_jinja_expressions(&chars(input));
    assert_eq!(frags.len(), 1);
    assert_eq!(text(&protected), "select SQLCHISEL_JINJA_BLOCK_0__ as c");
    assert_eq!(frags[0].content, "{% raw %}{{ not_a_tag }}{% endraw %}");
}

#[test]
fn dremio_commands_keep_the_rest_of_their_text() {
    match parse_dremio_command("  create   branch  feat_x   IN  cat ") {
        Some(DremioCommand::BranchTag { verb, kind, rest }) => {
            assert_eq!(verb, "create");
            assert_eq!(kind, "branch");
            assert_eq!(rest, "feat_x IN cat");
        }
        other => panic!("unexpected {:?}", other),
    }
    match parse_dremio_command("SET TAG nightly") {
        Some(DremioCommand::QueueTag { verb, kind, rest }) => {
            assert_eq!(verb, "set");
            assert_eq!(kind, "tag");
            assert_eq!(rest, "nightly");
        }
        other => panic!("unexpected {:?}", other),
    }
    match parse_dremio_command("GRANT SELECT ON t TO USER u") {
        Some(DremioCommand::Generic { head, rest }) => {
            assert_eq!(head, vec!["GRANT".to_string()]);
            assert_eq!(rest, "SELECT ON t TO USER u");
        }
        other => panic!("unexpected {:?}", other),
    }
    assert!(parse_dremio_command("SELECT 1").is_none());
}

#[test]
fn version_clause_is_taken_out_up_to_the_next_clause() {
    let r = strip_dremio_version_clause("SELECT * FROM t AT BRANCH dev WHERE x = 1");
    assert_eq!(r.sql, "SELECT * FROM t WHERE x = 1");
    let v = r.version.expect("version clause");
    assert_eq!(v.at, Some(VersionSelector::Branch("dev".to_string())));
    assert_eq!(v.as_of_timestamp, None);
    let plain = strip_dremio_version_clause("SELECT 1");
    assert_eq!(plain.sql, "SELECT 1");
    assert!(plain.version.is_none());
}

#[test]
fn fragments_split_at_top_level_semicolons() {
    let frags = split_sql_fragments("select ';' ; -- a;b\nselect 2 ;  ");
    assert_eq!(frags.len(), 2);
    assert_eq!(frags[0].sql, "select ';'");
    assert!(frags[0].has_semicolon);
    assert_eq!(frags[1].sql, "-- a;b\nselect 2");
    assert!(frags[1].has_semicolon);
}

#[test]
fn subqueries_in_conditions_are_laid_out() {
    let cfg = FormatterConfig::default();
    let out = format_sql("select a from t where exists (select 1 from u x where x.id = t.id)", &cfg).expect("format");
    assert!(out.starts_with("SELECT a FROM t\nWHERE EXISTS ("), "{out}");
    assert!(out.contains("FROM u"), "{out}");
    assert!(out.ends_with(")"), "{out}");
}

#[test]
fn parsed_statements_are_rendered_with_their_literals() {
    let cfg = FormatterConfig::default();
    let stmts = parse_sql("select a from t where b = '__SQLCHISEL_LITERAL_0__'; select 2", DialectKind::Ansi).unwrap();
    let literals = vec!["'x y'".to_string()];
    let out = render_statements(stmts, &literals, &Vec::new(), Vec::new(), &cfg).unwrap();
    assert_eq!(out, "SELECT a FROM t\nWHERE b = 'x y';\n\nSELECT 2");
}

#[test]
fn dbt_mode_formats_around_template_tags() {
    let cfg = FormatterConfig { templating: TemplatingMode::Dbt, ..Default::default() };
    let out = format_sql("select a from {{ ref('t') }}", &cfg).unwrap();
    assert_eq!(out, "SELECT a FROM {{ ref('t') }}");
    let plain = format_sql("select a from t", &cfg).unwrap();
    assert_eq!(plain, "SELECT a FROM t");
}

#[test]
fn passthrough_mode_leaves_templates_alone() {
    let cfg = FormatterConfig::default();
    let input = "select a from {{ ref('t') }}";
    assert_eq!(format_sql(input, &cfg).unwrap(), input);
}

#[test]
fn bare_join_keeps_its_keyword() {
    let cfg = FormatterConfig::default();
    let out = format_sql("SELECT a FROM t JOIN u ON t.id = u.id", &cfg).unwrap();
    assert_eq!(out, "SELECT a FROM t\nJOIN u\n  ON t.id = u.id");
    let inner = format_sql("SELECT a FROM t INNER JOIN u ON t.id = u.id", &cfg).unwrap();
    assert_eq!(inner, "SELECT a FROM t\nINNER JOIN u\n  ON t.id = u.id");
}

#[test]
fn comment_after_a_dropped_token_is_kept() {
    let cfg = FormatterConfig::default();
    let out = format_sql("SELECT a FROM t LEFT OUTER JOIN u ON t.id = u.id -- end", &cfg).unwrap();
    assert!(out.contains("-- end"), "{out}");
    assert!(out.contains("LEFT JOIN u"), "{out}");
}

#[test]
fn relay_channel_text_is_refused_before_parsing() {
    let strict = parse_sql_with_options("FLUSH RELAY LOGS FOR CHANNEL ;", DialectKind::Dremio, ParseOptions { strict: true });
    assert_eq!(strict.unwrap_err(), "statement not supported by the SQL parser");
    let lenient = parse_sql("FLUSH RELAY LOGS FOR CHANNEL ;", DialectKind::Dremio).unwrap();
    assert_eq!(lenient.len(), 1);
    assert!(matches!(lenient[0], ParsedStatement::Raw { .. }));
    let plain = parse_sql("SELECT relay, channel FROM t", DialectKind::Dremio).unwrap();
    assert_eq!(plain.len(), 1);
    assert!(matches!(plain[0], ParsedStatement::Sql { .. }));
}

#[test]
fn set_authorization_without_scope_is_refused_before_parsing() {
    for dialect in [DialectKind::Ansi, DialectKind::Dremio] {
        let strict = parse_sql_with_options("SET AUTHORIZATION DEFAULT", dialect, ParseOptions { strict: true });
        assert_eq!(strict.unwrap_err(), "statement not supported by the SQL parser");
        let lenient = parse_sql("SET AUTHORIZATION DEFAULT", dialect).unwrap();
        assert_eq!(lenient.len(), 1);
        assert!(matches!(lenient[0], ParsedStatement::Raw { .. }));
    }
    let cfg = FormatterConfig::default();
    assert_eq!(format_sql("set authorization default", &cfg).unwrap(), "SET AUTHORIZATION DEFAULT");
    let scoped = parse_sql("SET SESSION AUTHORIZATION DEFAULT", DialectKind::Ansi).unwrap();
    assert!(matches!(scoped[0], ParsedStatement::Sql { .. }));
}

#[test]
fn printer_measures_text_in_bytes() {
    let doc = Doc::Group(vec![Doc::Text("\u{e9}\u{e9}".to_string()), Doc::SoftLine, Doc::Text("a".to_string())]);
    let narrow = PrintConfig { line_length: 4, indent_width: 2 };
    assert_eq!(format_doc(&doc, &narrow), "\u{e9}\u{e9}\na");
    let wide = PrintConfig { line_length: 6, indent_width: 2 };
    assert_eq!(format_doc(&doc, &wide), "\u{e9}\u{e9} a");
}

#[test]
fn copy_into_without_table_keeps_its_verb() {
    let cfg = FormatterConfig { dialect: DialectKind::Dremio, ..Default::default() };
    let out = format_sql("COPY INTO my_space.my_table FROM '@/files'", &cfg).unwrap();
    assert_eq!(out, "COPY INTO my_space.my_table FROM '@/files'");
    let table = format_sql("COPY INTO TABLE my_space.my_table FROM '@/files'", &cfg).unwrap();
    assert_eq!(table, "COPY INTO TABLE\n  my_space.my_table FROM '@/files'");
}

#[test]
fn aliases_with_columns_and_filtered_calls_keep_their_parts() {
    let cfg = FormatterConfig::default();
    let out = format_sql("SELECT x.a FROM t AS x (a, b)", &cfg).unwrap();
    assert!(out.contains("t AS x (a, b)"), "{out}");
    let dremio = FormatterConfig { dialect: DialectKind::Dremio, ..Default::default() };
    let f = format_sql("SELECT count(*) FILTER (WHERE x > 1) FROM t", &dremio).unwrap();
    assert!(f.contains("COUNT(*) FILTER (WHERE x > 1)"), "{f}");
}

#[test]
fn check_mode_reports_only_a_changed_input() {
    let cfg = FormatterConfig::default();
    assert!(matches!(process_input("SELECT a FROM t", &cfg, Mode::Check).unwrap(), InputOutcome::Unchanged));
    assert!(matches!(process_input("select a from t", &cfg, Mode::Check).unwrap(), InputOutcome::WouldReformat));
    let strict = FormatterConfig { strict: true, ..Default::default() };
    let err = process_input("SELEC nope", &strict, Mode::Check).unwrap_err();
    assert!(err.starts_with("parse failed: "), "{err}");
}

#[test]
fn printed_text_differs_only_in_blanks() {
    let doc = Doc::Group(vec![
        Doc::Text("SELECT".to_string()),
        Doc::Line,
        Doc::Indent(Box::new(Doc::Text("a,".to_string()))),
        Doc::SoftLine,
        Doc::Text("b".to_string()),
    ]);
    let out = format_doc(&doc, &PrintConfig { line_length: 5, indent_width: 2 });
    let kept: String = out.chars().filter(|c| *c != ' ' && *c != '\n').collect();
    assert_eq!(kept, "SELECTa,b");
}

#[test]
fn strict_success_matches_the_lenient_parse() {
    let sql = "select a from t; select b from u;";
    let strict = parse_sql_with_options(sql, DialectKind::Ansi, ParseOptions { strict: true }).unwrap();
    let lenient = parse_sql(sql, DialectKind::Ansi).unwrap();
    assert_eq!(strict.len(), 2);
    assert_eq!(lenient.len(), strict.len());
}

#[test]
fn plain_text_splits_at_every_semicolon() {
    let frags = split_sql_fragments("a ; b;; c ");
    let pieces: Vec<(String, bool)> = frags.iter().map(|f| (f.sql.clone(), f.has_semicolon)).collect();
    assert_eq!(
        pieces,
        vec![("a".to_string(), true), ("b".to_string(), true), ("c".to_string(), false)]
    );
}

#[test]
fn strict_fails_exactly_where_lenient_keeps_raw_text() {
    let mixed = "select a from t; selec nope from u;";
    let lenient = parse_sql(mixed, DialectKind::Ansi).unwrap();
    assert!(lenient.iter().any(|s| matches!(s, ParsedStatement::Raw { .. })));
    assert!(parse_sql_with_options(mixed, DialectKind::Ansi, ParseOptions { strict: true }).is_err());
    let clean = "select a from t; select b from u;";
    let lenient = parse_sql(clean, DialectKind::Ansi).unwrap();
    assert!(!lenient.iter().any(|s| matches!(s, ParsedStatement::Raw { .. })));
    assert!(parse_sql_with_options(clean, DialectKind::Ansi, ParseOptions { strict: true }).is_ok());
}

#[test]
fn fit_test_counts_bytes_against_the_rest_of_the_line() {
    let children = vec![Doc::Text("\u{e9}".to_string()), Doc::Space, Doc::Text("ab".to_string())];
    let cfg = PrintConfig { line_length: 10, indent_width: 2 };
    assert!(sqlchisel::printer::fits(&children, 5, &cfg));
    assert!(!sqlchisel::printer::fits(&children, 6, &cfg));
}
