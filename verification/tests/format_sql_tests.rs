use sqlchisel::config::{DialectKind, FormatterConfig, KeywordCase, SelectListStyle};
use sqlchisel::format::format_sql;

fn format_str(sql: &str, cfg: &FormatterConfig) -> String {
    format_sql(sql, cfg).expect("format")
}

#[test]
fn cased_builtins_and_booleans() {
    let cfg = FormatterConfig::default();
    let sql = "select sum(amount), my_func(a), row_number() over(partition by grp order by ts) from t where flag = false";
    let out = format_str(sql, &cfg);
    assert!(
        out.trim()
            == "SELECT SUM(amount), my_func(a), ROW_NUMBER() OVER (\n    PARTITION BY grp\n    ORDER BY ts\n  ) FROM t\nWHERE flag = FALSE",
        "unexpected formatting: {out}"
    );
}

#[test]
fn respects_lower_keyword_case_for_builtins() {
    let cfg = FormatterConfig {
        keyword_case: KeywordCase::Lower,
        ..Default::default()
    };
    let sql = "SELECT MAX(a) FROM t WHERE flag = TRUE";
    let out = format_str(sql, &cfg);
    assert_eq!(out.trim(), "select max(a) from t\nwhere flag = true");
}

#[test]
fn formats_inline_select() {
    let cfg = FormatterConfig::default();
    let sql = "SELECT a, b FROM t";
    let out = format_str(sql, &cfg);
    assert_eq!(out.trim(), "SELECT a, b FROM t");
}

#[test]
fn formats_raw_sql_when_parse_fails() {
    let cfg = FormatterConfig::default();
    let sql = "unknown_verb select field from thing where flag=true;";
    let out = format_str(sql, &cfg);
    assert_eq!(
        out.trim(),
        "unknown_verb\nSELECT field\nFROM thing\nWHERE flag = TRUE;"
    );
}

#[test]
fn preserves_trailing_semicolon_for_single_statement() {
    let cfg = FormatterConfig::default();
    let sql = "SELECT a;";
    let out = format_str(sql, &cfg);
    assert_eq!(out.trim(), "SELECT a;");
}

#[test]
fn formats_select_breaks_to_per_line_when_overflow() {
    let cfg = FormatterConfig {
        line_length: 15,
        ..Default::default()
    };
    let sql = "SELECT a, b, c, d FROM t";
    let out = format_str(sql, &cfg);
    assert_eq!(out.trim(), "SELECT\n  a,\n  b,\n  c,\n  d\nFROM t");
}

#[test]
fn breaks_inline_when_from_would_overflow() {
    let cfg = FormatterConfig {
        line_length: 30,
        ..Default::default()
    };
    let sql = "SELECT a, b FROM very_long_table_name";
    let out = format_str(sql, &cfg);
    assert_eq!(out.trim(), "SELECT\n  a,\n  b\nFROM very_long_table_name");
}

#[test]
fn breaks_inline_when_first_join_would_overflow() {
    let cfg = FormatterConfig {
        line_length: 60,
        ..Default::default()
    };
    let sql =
        "SELECT a FROM base INNER JOIN a_very_long_join_relation_name AS j ON j.id = base.id";
    let out = format_str(sql, &cfg);
    assert_eq!(
        out.trim(),
        "SELECT\n  a\nFROM base\nINNER JOIN a_very_long_join_relation_name AS j\n  ON j.id = base.id"
    );
}

#[test]
fn formats_dremio_path_with_quoted_segments() {
    let cfg = FormatterConfig {
        dialect: DialectKind::Dremio,
        ..Default::default()
    };
    let sql = r#"SELECT * FROM Samples."samples.dremio.com"."NYC-taxi-trips""#;
    let out = format_str(sql, &cfg);
    assert_eq!(
        out.trim(),
        r#"SELECT * FROM Samples."samples.dremio.com"."NYC-taxi-trips""#
    );
}

#[test]
fn formats_dremio_ctas_with_partitioning() {
    let cfg = FormatterConfig {
        dialect: DialectKind::Dremio,
        ..Default::default()
    };
    let sql = "CREATE TABLE IF NOT EXISTS demoCatalog.test.orders_history PARTITION BY (snapshot_ts) AS SELECT *, CAST(NOW() AS TIMESTAMP) AS snapshot_ts FROM demoCatalog.sales.staging.orders;";
    let out = format_str(sql, &cfg);
    assert_eq!(
        out.trim(),
        "CREATE TABLE IF NOT EXISTS demoCatalog.test.orders_history\nPARTITION BY (snapshot_ts)\nAS\nSELECT\n  *,\n  CAST(NOW() AS TIMESTAMP) AS snapshot_ts\nFROM demoCatalog.sales.staging.orders;"
    );
}

#[test]
fn formats_dremio_alter_table_reflection() {
    let cfg = FormatterConfig {
        dialect: DialectKind::Dremio,
        ..Default::default()
    };
    let sql = r#"
ALTER TABLE demoCatalog.sales.staging."flight_segments"
CREATE RAW REFLECTION reporting
USING DISPLAY (
flight_id,
leg_number
)
PARTITION BY (MONTH(created_at));
    "#;
    let out = format_str(sql, &cfg);
    assert_eq!(
        out.trim(),
        "ALTER TABLE demoCatalog.sales.staging.\"flight_segments\"\nCREATE RAW REFLECTION reporting\nUSING DISPLAY (\n  flight_id,\n  leg_number\n)\nPARTITION BY (MONTH(created_at));"
    );
}

#[test]
fn formats_dremio_complex_ctas_output() {
    let cfg = FormatterConfig {
        dialect: DialectKind::Dremio,
        ..Default::default()
    };
    let sql = r#"CREATE TABLE demoCatalog.reporting."tables".orders_partitioned AS (
SELECT 
o.id AS order_id,
CURRENT_TIMESTAMP AS sync_time,
o.order_number AS order_number,
co.site_id AS site_id,
s.brand_id AS brand_id,
s.country_id AS site_country_id,
o.created_at AS created_at,
COALESCE(dist.revenue_share, 0) AS distribution_amount,
CASE WHEN o.change_time IS NULL THEN 0 ELSE 1 END AS is_changed,
CASE WHEN o.cancel_time IS NULL THEN 0 ELSE 1 END AS is_canceled
FROM demoCatalog.reporting."tables"."orders" o
JOIN demoCatalog.reporting."tables"."cart_orders" co ON co.order_id = o.id
JOIN demoCatalog.reporting."tables"."order_revenues" orev ON orev.order_id = o.id
JOIN demoCatalog.reporting."tables"."sites" s ON s.id = co.site_id
LEFT JOIN (
SELECT i.order_id, SUM(i.revenue) AS revenue_share
FROM demoCatalog.reporting."tables"."order_revenue_items" i
JOIN demoCatalog.reporting."tables"."product_types" pt ON i.product_type_id = pt.id
WHERE pt.revenue_group_id = 17
GROUP BY i.order_id
) dist ON dist.order_id = o.id
WHERE NOT EXISTS (
  SELECT 1
  FROM demoCatalog.reporting."tables"."order_items" oi
  JOIN demoCatalog.reporting."tables"."customer_items" ci ON ci.id = oi.customer_item_id
  WHERE oi.order_id = o.id AND ci.product_type_id = 620
  )
  AND (o.is_test_order = FALSE)
);"#;
    let out = format_str(sql, &cfg);
    assert_eq!(
        out.trim(),
        "CREATE TABLE demoCatalog.reporting.\"tables\".orders_partitioned AS\n(\n  SELECT\n    o.id AS order_id,\n    CURRENT_TIMESTAMP AS sync_time,\n    o.order_number AS order_number,\n    co.site_id AS site_id,\n    s.brand_id AS brand_id,\n    s.country_id AS site_country_id,\n    o.created_at AS created_at,\n    COALESCE(dist.revenue_share, 0) AS distribution_amount,\n    CASE WHEN o.change_time IS NULL THEN 0 ELSE 1 END AS is_changed,\n    CASE WHEN o.cancel_time IS NULL THEN 0 ELSE 1 END AS is_canceled\n  FROM demoCatalog.reporting.\"tables\".\"orders\" o\n  JOIN demoCatalog.reporting.\"tables\".\"cart_orders\" co\n    ON co.order_id = o.id\n  JOIN demoCatalog.reporting.\"tables\".\"order_revenues\" orev\n    ON orev.order_id = o.id\n  JOIN demoCatalog.reporting.\"tables\".\"sites\" s\n    ON s.id = co.site_id\n  LEFT JOIN (\n    SELECT\n      i.order_id,\n      SUM(i.revenue) AS revenue_share\n    FROM demoCatalog.reporting.\"tables\".\"order_revenue_items\" i\n    JOIN demoCatalog.reporting.\"tables\".\"product_types\" pt\n      ON i.product_type_id = pt.id\n    WHERE pt.revenue_group_id = 17\n    GROUP BY i.order_id\n  ) dist\n    ON dist.order_id = o.id\n  WHERE NOT EXISTS\n      (\n        SELECT\n          1\n        FROM demoCatalog.reporting.\"tables\".\"order_items\" oi\n        JOIN demoCatalog.reporting.\"tables\".\"customer_items\" ci\n          ON ci.id = oi.customer_item_id\n        WHERE oi.order_id = o.id\n          AND ci.product_type_id = 620\n      )\n    AND (o.is_test_order = FALSE)\n);"
    );
}

#[test]
fn formats_dremio_versioned_clause() {
    let cfg = FormatterConfig {
        dialect: DialectKind::Dremio,
        ..Default::default()
    };
    let sql = "SELECT * FROM my_source.my_space.my_table AT BRANCH my_branch AS OF TIMESTAMP '2025-01-01 00:00:00'";
    let out = format_str(sql, &cfg);
    assert_eq!(
        out.trim(),
        "SELECT *\nFROM my_source.my_space.my_table\nAT BRANCH my_branch\nAS OF TIMESTAMP '2025-01-01 00:00:00'"
    );
}

#[test]
fn passes_through_dremio_use_command() {
    let cfg = FormatterConfig {
        dialect: DialectKind::Dremio,
        ..Default::default()
    };
    let sql = "USE Samples.\"samples.dremio.com\";";
    let out = format_str(sql, &cfg);
    assert_eq!(out.trim(), "USE Samples.\"samples.dremio.com\";");
}

#[test]
fn passthrough_dremio_branch_commands() {
    let cfg = FormatterConfig {
        dialect: DialectKind::Dremio,
        ..Default::default()
    };
    let sql = "create branch my_branch";
    let out = format_str(sql, &cfg);
    assert_eq!(out.trim(), "CREATE BRANCH my_branch");
}

#[test]
fn passthrough_dremio_table_maintenance() {
    let cfg = FormatterConfig {
        dialect: DialectKind::Dremio,
        ..Default::default()
    };
    let sql = "optimize table my_space.my_table";
    let out = format_str(sql, &cfg);
    assert_eq!(out.trim(), "OPTIMIZE TABLE my_space.my_table");
}

#[test]
fn normalizes_dremio_show_branches() {
    let cfg = FormatterConfig {
        dialect: DialectKind::Dremio,
        ..Default::default()
    };
    let sql = "show branches in my_catalog";
    let out = format_str(sql, &cfg);
    assert_eq!(out.trim(), "SHOW BRANCHES in my_catalog");
}

#[test]
fn formats_dremio_alter_pds() {
    let cfg = FormatterConfig {
        dialect: DialectKind::Dremio,
        ..Default::default()
    };
    let sql = "alter pds demo_source.sales.\"chargeback_files\" refresh metadata force update";
    let out = format_str(sql, &cfg);
    assert_eq!(
        out.trim(),
        "ALTER PDS demo_source.sales.\"chargeback_files\" REFRESH METADATA FORCE UPDATE"
    );
}

#[test]
fn formats_dremio_create_folder() {
    let cfg = FormatterConfig {
        dialect: DialectKind::Dremio,
        ..Default::default()
    };
    let sql = "create folder if not exists demoCatalog.sales";
    let out = format_str(sql, &cfg);
    assert_eq!(out.trim(), "CREATE FOLDER IF NOT EXISTS demoCatalog.sales");
}

#[test]
fn normalizes_dremio_set_queue() {
    let cfg = FormatterConfig {
        dialect: DialectKind::Dremio,
        ..Default::default()
    };
    let sql = "set queue foo";
    let out = format_str(sql, &cfg);
    assert_eq!(out.trim(), "SET QUEUE foo");
}

#[test]
fn breaks_long_dremio_command_rest_when_needed() {
    let cfg = FormatterConfig {
        dialect: DialectKind::Dremio,
        line_length: 25,
        ..Default::default()
    };
    let sql = "copy into table my_table using (location 's3://bucket/path/with/long/name')";
    let out = format_str(sql, &cfg);
    assert_eq!(
        out.trim(),
        "COPY INTO TABLE\n  my_table\n  USING (location 's3://bucket/path/with/long/name')"
    );
}

#[test]
fn breaks_merge_branch_rest() {
    let cfg = FormatterConfig {
        dialect: DialectKind::Dremio,
        line_length: 30,
        ..Default::default()
    };
    let sql = "merge branch feature into main at commit abcdef";
    let out = format_str(sql, &cfg);
    assert_eq!(
        out.trim(),
        "MERGE BRANCH\n  feature\n  INTO main\n  AT commit abcdef"
    );
}

#[test]
fn breaks_optimize_table_options() {
    let cfg = FormatterConfig {
        dialect: DialectKind::Dremio,
        line_length: 30,
        ..Default::default()
    };
    let sql = "optimize table my_space.my_table with (option = 'x', other = 'y')";
    let out = format_str(sql, &cfg);
    assert_eq!(
        out.trim(),
        "OPTIMIZE TABLE my_space.my_table\n  WITH (\n    option = 'x',\n    other = 'y'\n  )"
    );
}

#[test]
fn breaks_with_options_per_line_when_long() {
    let cfg = FormatterConfig {
        dialect: DialectKind::Dremio,
        line_length: 40,
        ..Default::default()
    };
    let sql = "optimize table my_space.my_table with (first_option = 'x', second_option = 'y', third_option = 'z')";
    let out = format_str(sql, &cfg);
    assert_eq!(
        out.trim(),
        "OPTIMIZE TABLE my_space.my_table\n  WITH (\n    first_option = 'x',\n    second_option = 'y',\n    third_option = 'z'\n  )"
    );
}

#[test]
fn formats_pipe_with_options() {
    let cfg = FormatterConfig {
        dialect: DialectKind::Dremio,
        line_length: 30,
        ..Default::default()
    };
    let sql = "create pipe my_pipe with (option = 'x')";
    let out = format_str(sql, &cfg);
    assert_eq!(out.trim(), "CREATE PIPE my_pipe\n  WITH (option = 'x')");
}

#[test]
fn formats_acceleration_with_options() {
    let cfg = FormatterConfig {
        dialect: DialectKind::Dremio,
        line_length: 30,
        ..Default::default()
    };
    let sql = "acceleration my_reflection with (refresh = 'auto')";
    let out = format_str(sql, &cfg);
    assert_eq!(
        out.trim(),
        "ACCELERATION\n  my_reflection\n  WITH (refresh = 'auto')"
    );
}

#[test]
fn breaks_acceleration_using_options() {
    let cfg = FormatterConfig {
        dialect: DialectKind::Dremio,
        line_length: 35,
        ..Default::default()
    };
    let sql = "acceleration my_reflection using (option_one = 'a', option_two = 'b')";
    let out = format_str(sql, &cfg);
    assert_eq!(
        out.trim(),
        "ACCELERATION\n  my_reflection\n  USING (\n    option_one = 'a',\n    option_two = 'b'\n  )"
    );
}

#[test]
fn formats_manage_acceleration_with_options() {
    let cfg = FormatterConfig {
        dialect: DialectKind::Dremio,
        line_length: 40,
        ..Default::default()
    };
    let sql = "refresh acceleration my_reflection with (refresh = 'auto')";
    let out = format_str(sql, &cfg);
    assert_eq!(
        out.trim(),
        "REFRESH ACCELERATION\n  my_reflection\n  WITH (refresh = 'auto')"
    );
}

#[test]
fn formats_per_line_select() {
    let cfg = FormatterConfig {
        select_list_style: SelectListStyle::PerLine,
        ..Default::default()
    };
    let sql = "SELECT a, b_long_expr, c FROM t";
    let out = format_str(sql, &cfg);
    assert_eq!(out.trim(), "SELECT\n  a,\n  b_long_expr,\n  c\nFROM t");
}

#[test]
fn formats_join_layout() {
    let cfg = FormatterConfig::default();
    let sql =
        "SELECT a FROM foo INNER JOIN bar ON bar.id = foo.id LEFT JOIN baz ON baz.id = foo.id";
    let out = format_str(sql, &cfg);
    assert_eq!(
        out.trim(),
        "SELECT a FROM foo\nINNER JOIN bar\n  ON bar.id = foo.id\nLEFT JOIN baz\n  ON baz.id = foo.id"
    );
}

#[test]
fn formats_insert_select() {
    let cfg = FormatterConfig::default();
    let sql = "INSERT INTO my_table SELECT a, b FROM source WHERE b > 0 GROUP BY a, b";
    let out = format_str(sql, &cfg);
    assert_eq!(
        out.trim(),
        "INSERT INTO my_table\nSELECT a, b FROM source\nWHERE b > 0\nGROUP BY\n  a,\n  b"
    );
}

#[test]
fn aligns_join_with_version_clause() {
    let cfg = FormatterConfig {
        dialect: DialectKind::Dremio,
        ..Default::default()
    };
    let sql = "SELECT * FROM catalog.orders o AT BRANCH feature_x AS OF TIMESTAMP '2024-10-01 12:00:00' INNER JOIN catalog.order_items i ON i.order_id = o.order_id AND i.valid_from <= o.order_ts";
    let out = format_str(sql, &cfg);
    assert_eq!(
        out.trim(),
        "SELECT *\nFROM catalog.orders o\nAT BRANCH feature_x\nAS OF TIMESTAMP '2024-10-01 12:00:00'\nINNER JOIN catalog.order_items i\n  ON i.order_id = o.order_id\n  AND i.valid_from <= o.order_ts"
    );
}

#[test]
fn formats_joined_subquery_as_select_block() {
    let cfg = FormatterConfig::default();
    let sql = "SELECT * FROM base LEFT JOIN (SELECT customer_id, max(order_ts) AS last_order_ts FROM fact_orders GROUP BY customer_id) last_o ON last_o.customer_id = base.customer_id";
    let out = format_str(sql, &cfg);
    assert_eq!(
        out.trim(),
        "SELECT *\nFROM base\nLEFT JOIN (\n  SELECT\n    customer_id,\n    MAX(order_ts) AS last_order_ts\n  FROM fact_orders\n  GROUP BY customer_id\n) last_o\n  ON last_o.customer_id = base.customer_id"
    );
}

#[test]
fn formats_group_having_order_limit_offset() {
    let cfg = FormatterConfig::default();
    let sql = "SELECT a, b FROM t WHERE a > 1 GROUP BY a HAVING SUM(b) > 0 ORDER BY a DESC, b LIMIT 10 OFFSET 5";
    let out = format_str(sql, &cfg);
    assert_eq!(
        out.trim(),
        "SELECT a, b FROM t\nWHERE a > 1\nGROUP BY a\nHAVING SUM(b) > 0\nORDER BY a DESC, b\nLIMIT 10\nOFFSET 5"
    );
}

#[test]
fn formats_distinct_per_line() {
    let cfg = FormatterConfig {
        select_list_style: SelectListStyle::PerLine,
        ..Default::default()
    };
    let sql = "SELECT DISTINCT a, b, c, d, e, f FROM t";
    let out = format_str(sql, &cfg);
    assert_eq!(
        out.trim(),
        "SELECT DISTINCT\n  a,\n  b,\n  c,\n  d,\n  e,\n  f\nFROM t"
    );
}

#[test]
fn formats_multiple_statements_separately() {
    let cfg = FormatterConfig::default();
    let sql = "SELECT a;\nSELECT b, c FROM t;";
    let out = format_str(sql, &cfg);
    assert_eq!(out.trim(), "SELECT a;\n\nSELECT b, c FROM t;");
}

#[test]
fn formats_multiple_dremio_statements_with_semicolons() {
    let cfg = FormatterConfig {
        dialect: DialectKind::Dremio,
        ..Default::default()
    };
    let sql = "USE my_space;\nSELECT a FROM my_space.table_one;";
    let out = format_str(sql, &cfg);
    assert_eq!(
        out.trim(),
        "USE my_space;\n\nSELECT a FROM my_space.table_one;"
    );
}

#[test]
fn formats_cte() {
    let cfg = FormatterConfig::default();
    let sql = r#"
    WITH cte AS (
        SELECT a, b FROM t
    )
    SELECT a FROM cte"#;
    let out = format_str(sql, &cfg);
    assert_eq!(
        out.trim(),
        "WITH cte AS (\n  SELECT a, b FROM t\n)\n\nSELECT a FROM cte"
    );
}

#[test]
fn breaks_boolean_conditions() {
    let cfg = FormatterConfig {
        line_length: 30,
        ..Default::default()
    };
    let sql = "SELECT a FROM t WHERE a > 1 AND b > 2 AND c > 3";
    let out = format_str(sql, &cfg);
    assert_eq!(
        out.trim(),
        "SELECT a FROM t\nWHERE a > 1\n  AND b > 2\n  AND c > 3"
    );
}

#[test]
fn breaks_group_by_and_order_by_lists() {
    let cfg = FormatterConfig {
        line_length: 25,
        ..Default::default()
    };
    let sql = "SELECT a FROM t GROUP BY a, very_long_group, another_long_group ORDER BY a, very_long_order, another_long_order";
    let out = format_str(sql, &cfg);
    assert_eq!(
        out.trim(),
        "SELECT a FROM t\nGROUP BY\n  a,\n  very_long_group,\n  another_long_group\nORDER BY a,\n  very_long_order,\n  another_long_order"
    );
}

#[test]
fn breaks_on_clause_conditions() {
    let cfg = FormatterConfig {
        line_length: 30,
        ..Default::default()
    };
    let sql = "SELECT * FROM t JOIN u ON t.id = u.id AND t.tenant = u.tenant";
    let out = format_str(sql, &cfg);
    assert_eq!(
        out.trim(),
        "SELECT *\nFROM t\nJOIN u\n  ON t.id = u.id\n  AND t.tenant = u.tenant"
    );
}

#[test]
fn breaks_nested_boolean_with_parens() {
    let cfg = FormatterConfig {
        line_length: 35,
        ..Default::default()
    };
    let sql = "SELECT * FROM t WHERE (a = 1 AND b = 2) OR (c = 3 AND (d = 4 OR e = 5))";
    let out = format_str(sql, &cfg);
    assert_eq!(
        out.trim(),
        "SELECT * FROM t\nWHERE (\n    a = 1\n    AND b = 2\n  )\n  OR (\n    c = 3\n    AND (\n      d = 4\n      OR e = 5\n    )\n  )"
    );
}

#[test]
fn formats_case_expression() {
    let cfg = FormatterConfig {
        line_length: 40,
        ..Default::default()
    };
    let sql = "SELECT CASE WHEN a = 1 THEN 'one' WHEN a = 2 THEN 'two' ELSE 'other' END AS label FROM t";
    let out = format_str(sql, &cfg);
    assert_eq!(
        out.trim(),
        "SELECT\n  CASE\n    WHEN a = 1 THEN 'one'\n    WHEN a = 2 THEN 'two'\n    ELSE 'other'\n  END AS label\nFROM t"
    );
}

#[test]
fn formats_long_single_when_case_multiline() {
    let cfg = FormatterConfig::default();
    let sql = "SELECT CASE WHEN o.status IN ('CANCELLED', 'RETURNED') THEN 1 ELSE 0 END AS is_problem FROM orders AS o";
    let out = format_str(sql, &cfg);
    assert_eq!(
        out.trim(),
        "SELECT\n  CASE\n    WHEN o.status IN ('CANCELLED', 'RETURNED') THEN 1\n    ELSE 0\n  END AS is_problem\nFROM orders AS o"
    );
}

#[test]
fn formats_multiline_window_spec() {
    let cfg = FormatterConfig::default();
    let sql =
        "SELECT ROW_NUMBER() OVER (PARTITION BY customer_id ORDER BY order_ts) AS order_seq FROM fact_orders";
    let out = format_str(sql, &cfg);
    assert_eq!(
        out.trim(),
        "SELECT ROW_NUMBER() OVER (\n    PARTITION BY customer_id\n    ORDER BY order_ts\n  ) AS order_seq FROM fact_orders"
    );
}

#[test]
fn keeps_simple_window_inline() {
    let cfg = FormatterConfig::default();
    let sql = "SELECT SUM(x) OVER (PARTITION BY grp) FROM t";
    let out = format_str(sql, &cfg);
    assert_eq!(out.trim(), "SELECT SUM(x) OVER (PARTITION BY grp) FROM t");
}

#[test]
fn formats_nested_case_branches() {
    let cfg = FormatterConfig::default();
    let sql = "SELECT CASE WHEN lag(event_ts) OVER (PARTITION BY user_id ORDER BY event_ts) IS NULL THEN 1 WHEN event_ts - lag(event_ts) OVER (PARTITION BY user_id ORDER BY event_ts) > INTERVAL '30' MINUTE THEN 1 ELSE 0 END AS is_session_start FROM events";
    let out = format_str(sql, &cfg);
    assert_eq!(
        out.trim(),
        "SELECT\n  CASE\n    WHEN LAG(event_ts) OVER (\n      PARTITION BY user_id\n      ORDER BY event_ts\n    ) IS NULL THEN 1\n    WHEN event_ts - LAG(event_ts) OVER (\n      PARTITION BY user_id\n      ORDER BY event_ts\n    ) > INTERVAL '30' MINUTE THEN 1\n    ELSE 0\n  END AS is_session_start\nFROM events"
    );
}

#[test]
fn formats_subquery_expression() {
    let cfg = FormatterConfig {
        line_length: 80,
        ..Default::default()
    };
    let sql = "SELECT (SELECT max(x) FROM other) AS m FROM t";
    let out = format_str(sql, &cfg);
    assert_eq!(out.trim(), "SELECT (SELECT MAX(x) FROM other) AS m FROM t");
}

#[test]
fn formats_create_table_as_select() {
    let cfg = FormatterConfig::default();
    let sql =
        "CREATE TABLE my_table AS SELECT id, value FROM source WHERE value > 0 ORDER BY id";
    let out = format_str(sql, &cfg);
    assert_eq!(
        out.trim(),
        "CREATE TABLE my_table AS\nSELECT id, value FROM source\nWHERE value > 0\nORDER BY id"
    );
}

#[test]
fn formats_reflection_with_options_multiline() {
    let cfg = FormatterConfig {
        dialect: DialectKind::Dremio,
        ..Default::default()
    };
    let sql = "alter reflection analytics_space.daily_revenue_by_country_reflection using display name 'Daily revenue by country reflection' partition by (order_date) distribute by (country) sort by (order_date, country)";
    let out = format_str(sql, &cfg);
    assert_eq!(
        out.trim(),
        "ALTER REFLECTION\n  analytics_space.daily_revenue_by_country_reflection\n  USING\n    DISPLAY NAME 'Daily revenue by country reflection'\n    PARTITION BY (order_date)\n    DISTRIBUTE BY (country)\n    SORT BY (order_date, country)"
    );
}

#[test]
fn formats_dremio_reflection_command() {
    let cfg = FormatterConfig {
        dialect: DialectKind::Dremio,
        line_length: 40,
        ..Default::default()
    };
    let sql = "create reflection my_reflection using table foo";
    let out = format_str(sql, &cfg);
    assert_eq!(
        out.trim(),
        "CREATE REFLECTION\n  my_reflection\n  USING\n    TABLE foo"
    );
}

#[test]
fn formats_dremio_show_reflections() {
    let cfg = FormatterConfig {
        dialect: DialectKind::Dremio,
        ..Default::default()
    };
    let sql = "show reflections in my_space";
    let out = format_str(sql, &cfg);
    assert_eq!(out.trim(), "SHOW REFLECTIONS in my_space");
}

#[test]
fn formats_dremio_refresh_reflection() {
    let cfg = FormatterConfig {
        dialect: DialectKind::Dremio,
        ..Default::default()
    };
    let sql = "refresh reflection foo";
    let out = format_str(sql, &cfg);
    assert_eq!(out.trim(), "REFRESH REFLECTION foo");
}

#[test]
fn applies_keyword_case_lower() {
    let cfg = FormatterConfig {
        keyword_case: KeywordCase::Lower,
        ..Default::default()
    };
    let sql = "SELECT a, b FROM t WHERE a > 1";
    let out = format_str(sql, &cfg);
    assert_eq!(out.trim(), "select a, b from t\nwhere a > 1");
}

#[test]
fn applies_keyword_case_capitalize() {
    let cfg = FormatterConfig {
        keyword_case: KeywordCase::Capitalize,
        ..Default::default()
    };
    let sql = "SELECT a, b FROM t";
    let out = format_str(sql, &cfg);
    assert_eq!(out.trim(), "Select a, b From t");
}

#[test]
fn formats_create_table_basic() {
    let cfg = FormatterConfig::default();
    let sql =
        "CREATE TABLE IF NOT EXISTS my_table (id INT NOT NULL, name TEXT, PRIMARY KEY (id))";
    let out = format_str(sql, &cfg);
    assert_eq!(
        out.trim(),
        "CREATE TABLE IF NOT EXISTS my_table (\n  id INT NOT NULL,\n  name TEXT,\n  PRIMARY KEY (id)\n)"
    );
}

#[test]
fn formats_create_view_basic() {
    let cfg = FormatterConfig::default();
    let sql = "CREATE VIEW my_view AS SELECT a, b FROM t";
    let out = format_str(sql, &cfg);
    assert_eq!(out.trim(), "CREATE VIEW my_view AS\nSELECT a, b FROM t");
}

#[test]
fn formats_create_or_replace_view_inline_as() {
    let cfg = FormatterConfig::default();
    let sql =
        "CREATE OR REPLACE VIEW demoCatalog.sales.staging.geo.continent AS SELECT * FROM source_cluster.geo.\"continent\"";
    let out = format_str(sql, &cfg);
    assert!(out.trim().starts_with(
        "CREATE OR REPLACE VIEW demoCatalog.sales.staging.geo.continent AS\nSELECT"
    ));
}

#[test]
fn formats_dremio_view_with_long_path_and_functions() {
    let cfg = FormatterConfig {
        dialect: DialectKind::Dremio,
        ..Default::default()
    };
    let sql = "\
CREATE OR REPLACE VIEW demoCatalog.sales.staging.analytics.order_customers AS
SELECT
  o.id AS order_id,
  CURRENT_TIMESTAMP AS sync_time,
  o.site_id AS site_id,
  o.site_country_id AS site_country_id,
  o.created_at AS order_created_at,
  COALESCE(MD5(c.email), '') AS email_hash
FROM demoCatalog.sales.staging.analytics.orders o
JOIN demoCatalog.sales.staging.crm.customers c
  ON c.order_id = o.id;
";
    let out = format_str(sql, &cfg);
    assert_eq!(
        out.trim(),
        "\
CREATE OR REPLACE VIEW demoCatalog.sales.staging.analytics.order_customers AS
SELECT
  o.id AS order_id,
  CURRENT_TIMESTAMP AS sync_time,
  o.site_id AS site_id,
  o.site_country_id AS site_country_id,
  o.created_at AS order_created_at,
  COALESCE(MD5(c.email), '') AS email_hash
FROM demoCatalog.sales.staging.analytics.orders o
JOIN demoCatalog.sales.staging.crm.customers c
  ON c.order_id = o.id;"
    );
}

#[test]
fn formats_sql_with_jinja_blocks() {
    let cfg = FormatterConfig::default();
    let sql = "\
SELECT
  *
FROM {{ ref(\"orders_table\") }}
WHERE order_date >= {{ start_date }}
{% if include_cancelled %}
AND status <> 'CANCELLED'
{% endif %}
;";
    let out = format_str(sql, &cfg);
    assert_eq!(
        out.trim(),
        "\
SELECT
  *
FROM {{ ref(\"orders_table\") }}
WHERE order_date >= {{ start_date }}
{% if include_cancelled %}
AND status <> 'CANCELLED'
{% endif %}
;"
    );
}

#[test]
fn preserves_simple_comments_without_failure() {
    let cfg = FormatterConfig::default();
    let sql = "\
-- Only include active customers
SELECT id, full_name FROM dim_customers;
/* block comment */
SELECT country_code FROM dim_countries;
";
    let out = format_str(sql, &cfg);
    assert_eq!(
        out.trim(),
        "\
-- Only include active customers
SELECT id, full_name FROM dim_customers;

/* block comment */
SELECT country_code FROM dim_countries;"
    );
}

#[test]
fn avoids_trailing_space_before_newline_after_inline_comment() {
    let cfg = FormatterConfig::default();
    let sql = "SELECT 1; -- note\nSELECT 2;";
    let out = format_str(sql, &cfg);
    assert!(
        !out.contains("-- note \n"),
        "unexpected trailing space before newline:\n{out}"
    );
}

#[test]
fn formats_insert_values_with_leading_comment() {
    let cfg = FormatterConfig::default();
    let sql = "\
CREATE TABLE IF NOT EXISTS demoCatalog.sandbox.orders_demo (
id INT,
user_id INT,
created_at TIMESTAMP,
total_amount DECIMAL(10, 2)
);

-- Use CURRENT_DATE so \"last 30 days\" is relative to runtime.
INSERT INTO demoCatalog.sandbox.orders_demo VALUES
(101, 1, CURRENT_DATE - INTERVAL '10' DAY, 150.75),
(102, 1, CURRENT_DATE - INTERVAL '45' DAY, 200.00),
(103, 2, CURRENT_DATE - INTERVAL '5' DAY, 75.50),
(104, 3, CURRENT_DATE - INTERVAL '25' DAY, 310.20),
(105, 3, CURRENT_DATE - INTERVAL '90' DAY, 99.99);
";
    let out = format_str(sql, &cfg);
    assert_eq!(
        out.trim(),
        "\
CREATE TABLE IF NOT EXISTS demoCatalog.sandbox.orders_demo (
  id INT,
  user_id INT,
  created_at TIMESTAMP,
  total_amount DECIMAL(10,2)
);

-- Use CURRENT_DATE so \"last 30 days\" is relative to runtime.
INSERT INTO demoCatalog.sandbox.orders_demo
VALUES
  (101, 1, CURRENT_DATE - INTERVAL '10' DAY, 150.75),
  (102, 1, CURRENT_DATE - INTERVAL '45' DAY, 200.00),
  (103, 2, CURRENT_DATE - INTERVAL '5' DAY, 75.50),
  (104, 3, CURRENT_DATE - INTERVAL '25' DAY, 310.20),
  (105, 3, CURRENT_DATE - INTERVAL '90' DAY, 99.99);"
    );
}

#[test]
fn formats_drop_create_with_jinja_identifiers_and_hint() {
    let cfg = FormatterConfig::default();
    let sql = "\
DROP TABLE IF EXISTS demoCatalog.app.staging.reports.{{ ti.xcom_pull(task_ids='determine_target_table') }};

CREATE TABLE demoCatalog.app.staging.reports.{{ ti.xcom_pull(task_ids='determine_target_table') }} AS
SELECT /*+ no_reflections */
*
FROM external_cluster.app.raw_segments;
";
    let out = format_str(sql, &cfg);
    assert_eq!(out.trim(), sql.trim());
}
