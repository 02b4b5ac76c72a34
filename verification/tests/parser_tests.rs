use sqlchisel::commands::DremioCommand;
use sqlchisel::config::DialectKind;
use sqlchisel::parser::{parse_sql, parse_sql_with_options, ParseOptions, ParsedStatement};
use sqlchisel::sql_model::{QueryBody, StatementKind};

#[test]
fn parses_simple_select() {
    let sql = "SELECT a, b FROM t;";
    let stmts = parse_sql(sql, DialectKind::Ansi).expect("parse");
    assert_eq!(stmts.len(), 1);
    assert!(matches!(
        stmts[0],
        ParsedStatement::Sql {
            has_semicolon: true,
            ..
        }
    ));
}

#[test]
fn parses_cte_and_join() {
    let sql = r#"
    WITH cte AS (
        SELECT id, name FROM users
    )
    SELECT u.id, o.total
    FROM cte AS u
    JOIN orders AS o ON o.user_id = u.id
    "#;

    let stmts = parse_sql(sql, DialectKind::Ansi).expect("parse");
    assert_eq!(stmts.len(), 1);
}

#[test]
fn parses_basic_ddl() {
    let sql = r#"
    CREATE TABLE example (id INT, name TEXT);
    CREATE VIEW v_example AS SELECT id, name FROM example;
    "#;

    let stmts = parse_sql(sql, DialectKind::Ansi).expect("parse");
    assert_eq!(stmts.len(), 2);
    assert!(matches!(
        stmts[0],
        ParsedStatement::Sql {
            has_semicolon: true,
            ..
        }
    ));
    assert!(matches!(
        stmts[1],
        ParsedStatement::Sql {
            has_semicolon: true,
            ..
        }
    ));
}

#[test]
fn falls_back_to_raw_when_parsing_fails() {
    let sql = "unknown_verb select field from thing where flag=true;";
    let stmts = parse_sql(sql, DialectKind::Ansi).expect("parse");
    assert_eq!(stmts.len(), 1);
    match &stmts[0] {
        ParsedStatement::Raw { sql, has_semicolon } => {
            assert_eq!(sql, "unknown_verb select field from thing where flag=true");
            assert!(has_semicolon);
        }
        other => panic!("expected raw fallback, got {other:?}"),
    }
}

#[test]
fn strict_mode_propagates_parse_errors() {
    let sql = "unknown_verb select field from thing where flag=true;";
    let res = parse_sql_with_options(sql, DialectKind::Ansi, ParseOptions { strict: true });
    assert!(res.is_err());
}

#[test]
fn parses_dremio_path_with_quoted_segments() {
    let sql = r#"SELECT * FROM Samples."samples.dremio.com"."NYC-taxi-trips""#;
    let stmts = parse_sql(sql, DialectKind::Dremio).expect("parse dremio path");
    assert_eq!(stmts.len(), 1);
}

#[test]
fn parses_dremio_reflection_command() {
    let sql = "create reflection my_reflection using table foo";
    let stmts = parse_sql(sql, DialectKind::Dremio).expect("parse reflection");
    assert_eq!(stmts.len(), 1);
}

#[test]
fn tracks_semicolons_across_dremio_statements() {
    let sql = "use foo; select * from bar";
    let stmts = parse_sql(sql, DialectKind::Dremio).expect("parse dremio");
    assert_eq!(stmts.len(), 2);
    assert!(matches!(
        stmts[0],
        ParsedStatement::Command {
            has_semicolon: true,
            ..
        }
    ));
    assert!(matches!(
        stmts[1],
        ParsedStatement::Sql {
            has_semicolon: false,
            ..
        }
    ));
}

#[test]
fn parses_dremio_show_reflections() {
    let sql = "show reflections in my_space";
    let stmts = parse_sql(sql, DialectKind::Dremio).expect("parse show reflections");
    assert_eq!(stmts.len(), 1);
}

#[test]
fn parses_dremio_create_folder() {
    let sql = "\
CREATE FOLDER IF NOT EXISTS demoCatalog.sales;
CREATE FOLDER IF NOT EXISTS demoCatalog.shared;
CREATE FOLDER IF NOT EXISTS demoCatalog.sales.staging;
CREATE FOLDER IF NOT EXISTS demoCatalog.sales.curated;";
    let stmts = parse_sql(sql, DialectKind::Dremio).expect("parse create folder");
    assert_eq!(stmts.len(), 4);
    assert!(stmts.iter().all(|s| matches!(
        s,
        ParsedStatement::Command {
            cmd: DremioCommand::CreateFolder { .. },
            has_semicolon: true
        }
    )));
}

#[test]
fn captures_relation_alias_as_usage() {
    let sql = r#"SELECT * FROM "ltv_daily" m LEFT JOIN analytics_space."dim_customers" d ON d.customer_id = m.customer_id"#;
    let stmts = parse_sql(sql, DialectKind::Dremio).expect("parse aliases");
    assert_eq!(stmts.len(), 1);
    match &stmts[0] {
        ParsedStatement::Sql {
            relation_alias_has_as,
            ..
        } => assert_eq!(relation_alias_has_as, &vec![false, false]),
        _ => panic!("expected SQL statement"),
    }
}

#[test]
fn captures_alias_with_command_prefix() {
    let sql = "\
USE analytics_space;
SELECT *
FROM ltv_daily m
LEFT JOIN analytics_space.dim_customers d ON d.customer_id = m.customer_id;";
    let stmts = parse_sql(sql, DialectKind::Dremio).expect("parse command + select");
    assert_eq!(stmts.len(), 2);
    match &stmts[1] {
        ParsedStatement::Sql {
            relation_alias_has_as,
            ..
        } => assert_eq!(relation_alias_has_as, &vec![false, false]),
        _ => panic!("expected SQL statement"),
    }
}

#[test]
fn parses_dremio_alter_pds_commands() {
    let sql = "\
ALTER PDS demo_source.sales.\"chargeback_files\" REFRESH METADATA FORCE UPDATE;
ALTER PDS demo_source.sales.\"chargebacks\" REFRESH METADATA FORCE UPDATE;
ALTER PDS demo_source.sales.\"refund_send_info\" REFRESH METADATA FORCE UPDATE;";
    let stmts = parse_sql(sql, DialectKind::Dremio).expect("parse alter pds");
    assert_eq!(stmts.len(), 3);
    assert!(stmts.iter().all(|s| matches!(
        s,
        ParsedStatement::Command {
            cmd: DremioCommand::AlterPds { .. },
            has_semicolon: true
        }
    )));
}

#[test]
fn captures_aliases_in_ctas() {
    let sql = "\
CREATE TABLE arctic_catalog.analytics_space.daily_revenue_by_country AS
SELECT
cast(order_ts AS date) AS order_date,
c.country,
sum(o.order_amount) AS total_revenue
FROM arctic_catalog.analytics_space.fact_orders o
JOIN arctic_catalog.analytics_space.dim_customers c ON c.customer_id = o.customer_id;";
    let stmts = parse_sql(sql, DialectKind::Dremio).expect("parse CTAS with aliases");
    assert_eq!(stmts.len(), 1);
    match &stmts[0] {
        ParsedStatement::Sql {
            relation_alias_has_as,
            ..
        } => assert_eq!(relation_alias_has_as, &vec![false, false]),
        _ => panic!("expected SQL statement"),
    }
}

#[test]
fn captures_alias_in_joined_subquery_without_as() {
    let sql = "SELECT * FROM base LEFT JOIN (SELECT customer_id, max(order_ts) AS last_order_ts FROM fact_orders GROUP BY customer_id) last_o ON last_o.customer_id = base.customer_id";
    let stmts = parse_sql(sql, DialectKind::Ansi).expect("parse subquery join alias");
    assert_eq!(stmts.len(), 1);
    match &stmts[0] {
        ParsedStatement::Sql {
            relation_alias_has_as,
            ..
        } => assert_eq!(relation_alias_has_as, &vec![false]),
        _ => panic!("expected SQL statement"),
    }
}

#[test]
fn parses_dremio_refresh_acceleration_command() {
    let sql = "refresh acceleration my_reflection with (refresh = 'auto')";
    let stmts = parse_sql(sql, DialectKind::Dremio).expect("parse refresh acceleration");
    assert_eq!(stmts.len(), 1);
}

#[test]
fn parses_dremio_alter_reflection_with_spacing_and_using() {
    let sql = r#"
    alter  reflection  analytics_space.daily_revenue_by_country_reflection
    using
        display name 'Daily revenue by country reflection'
        partition by (order_date)
        distribute by (country)
        sort by (order_date, country)
    ;
    "#;
    let stmts = parse_sql(sql, DialectKind::Dremio).expect("parse alter reflection");
    assert_eq!(stmts.len(), 1);
}

#[test]
fn parses_dremio_parenthesized_ctas_statement() {
    let sql = r#"
CREATE TABLE demoCatalog.reporting."tables".orders_partitioned AS (
SELECT
o.id AS order_id,
CURRENT_TIMESTAMP AS sync_time
FROM demoCatalog.reporting."tables"."orders" o
);
    "#;
    let stmts = parse_sql(sql, DialectKind::Dremio).expect("parse");
    assert_eq!(stmts.len(), 1);
    match &stmts[0] {
        ParsedStatement::Sql {
            stmt,
            relation_alias_has_as,
            ..
        } => {
            assert!(
                !relation_alias_has_as.is_empty(),
                "expected relation alias metadata"
            );
            match &stmt.kind {
                StatementKind::CreateTable(create_table) => {
                    let q = create_table
                        .query
                        .as_ref()
                        .expect("expected CTAS query to be present");
                    assert!(matches!(
                        q.body,
                        QueryBody::Select(_) | QueryBody::Nested(_)
                    ));
                }
                other => panic!("unexpected statement: {other:?}"),
            }
        }
        other => panic!("unexpected parsed statement: {other:?}"),
    }
}

#[test]
fn parses_copy_into_without_table_keyword() {
    let sql = "COPY INTO my_space.my_table FROM '@/files' FILE_FORMAT 'csv'";
    let stmts = parse_sql(sql, DialectKind::Dremio).expect("parse copy into");
    assert_eq!(stmts.len(), 1);
    assert!(matches!(
        stmts[0],
        ParsedStatement::Command {
            cmd: DremioCommand::TableMaintenance { .. },
            ..
        }
    ));
}
