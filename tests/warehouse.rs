use rustdx_cmd::sink::{
    create_database_statement, create_gbbq_table_statement, create_table_statement,
    database_table, factor_query, insert_statement, provisioning_statements, ADJUSTED_BARS_SCHEMA,
    BARS_SCHEMA, GBBQ_SCHEMA,
};

#[test]
fn database_and_table_parts() {
    assert_eq!(database_table("rustdx.gbbq"), Some(("rustdx".to_string(), ".gbbq".to_string())));
    assert_eq!(database_table("a.b.c"), Some(("a".to_string(), ".b.c".to_string())));
    assert_eq!(database_table(".t"), Some((String::new(), ".t".to_string())));
    assert_eq!(database_table("nodot"), None);
}

#[test]
fn provisioning_statements_repeat_identically() {
    let first = provisioning_statements("rustdx.day", ADJUSTED_BARS_SCHEMA).unwrap();
    let second = provisioning_statements("rustdx.day", ADJUSTED_BARS_SCHEMA).unwrap();
    assert_eq!(first, second);
    assert_eq!(first[0], "CREATE DATABASE IF NOT EXISTS rustdx");
    assert_eq!(first[1], create_table_statement(true, "rustdx.day"));
    assert!(first[1].starts_with("CREATE TABLE IF NOT EXISTS rustdx.day"));
    assert!(provisioning_statements("plain", BARS_SCHEMA).is_none());
}

#[test]
fn table_statements() {
    let plain = create_table_statement(false, "rustdx.day");
    let adjusted = create_table_statement(true, "rustdx.day");
    assert!(plain.contains("ORDER BY (date, code)"));
    assert!(!plain.contains("preclose"));
    assert!(adjusted.contains("`preclose` Float64"));
    assert!(adjusted.contains("`factor` Float64"));
    let g = create_gbbq_table_statement("rustdx.gbbq");
    assert_eq!(g, format!("CREATE TABLE IF NOT EXISTS rustdx.gbbq{}", GBBQ_SCHEMA));
    assert!(g.contains("ORDER BY (date, code, category)"));
    assert_eq!(create_database_statement("rustdx.gbbq"), Some("CREATE DATABASE IF NOT EXISTS rustdx".to_string()));
    assert_eq!(create_database_statement("gbbq"), None);
}

#[test]
fn insert_and_factor_queries() {
    assert_eq!(insert_statement("rustdx.day"), "INSERT INTO rustdx.day FORMAT CSVWithNames");
    let q = factor_query("rustdx.factor");
    assert!(q.contains("FROM\n    rustdx.factor\n  GROUP BY"));
    assert!(q.ends_with("INTO OUTFILE 'factor.csv'\nFORMAT CSVWithNames;"));
}
