use parquetta::query::{
    advanced_sql, normalize_where_clause, preview_projection, quote_identifier, sql_string,
    EMPTY_ADVANCED_ERROR, MISSING_PLACEHOLDER_ERROR, WHERE_FILTER_ERROR,
};

#[test]
fn normalizes_empty_filter() {
    assert_eq!(normalize_where_clause("").unwrap(), "");
    assert_eq!(normalize_where_clause("   ").unwrap(), "");
}

#[test]
fn normalizes_where_filter() {
    assert_eq!(
        normalize_where_clause("age > 30").unwrap(),
        "WHERE age > 30"
    );
    assert_eq!(
        normalize_where_clause("WHERE paid = true").unwrap(),
        "WHERE paid = true"
    );
    assert_eq!(
        normalize_where_clause("where paid = true").unwrap(),
        "WHERE paid = true"
    );
}

#[test]
fn rejects_unsafe_filter_fragments() {
    assert!(normalize_where_clause("age > 30; DROP TABLE x").is_err());
    assert!(normalize_where_clause("age > 30 -- comment").is_err());
    assert!(normalize_where_clause("age > 30 /* comment */").is_err());
}

#[test]
fn quotes_identifiers() {
    assert_eq!(quote_identifier("plain"), "\"plain\"");
    assert_eq!(quote_identifier("with space"), "\"with space\"");
    assert_eq!(quote_identifier("a\"b"), "\"a\"\"b\"");
}

#[test]
fn builds_preview_projection() {
    let columns = vec!["id".to_string(), "user name".to_string()];
    assert_eq!(
        preview_projection(&columns),
        "CAST(\"id\" AS VARCHAR) AS \"id\", CAST(\"user name\" AS VARCHAR) AS \"user name\""
    );
}

#[test]
fn prepares_advanced_sql() {
    let sql = advanced_sql("data's.parquet", " SELECT * FROM {{file}}; ").unwrap();
    assert_eq!(sql, "SELECT * FROM read_parquet('data''s.parquet')");
}

#[test]
fn validates_advanced_sql() {
    assert!(advanced_sql("data.parquet", "").is_err());
    assert!(advanced_sql("data.parquet", "SELECT 1").is_err());
}

#[test]
fn formats_sql_string_with_fallback_path() {
    let path = "missing file's.parquet";
    assert_eq!(sql_string(path), "'missing file''s.parquet'");
}

#[test]
fn filter_errors_carry_their_message() {
    assert_eq!(
        normalize_where_clause("a = 1;").unwrap_err(),
        WHERE_FILTER_ERROR
    );
    assert_eq!(
        normalize_where_clause("  where x -- y").unwrap_err(),
        WHERE_FILTER_ERROR
    );
}

#[test]
fn filter_is_trimmed_of_unicode_white_space() {
    assert_eq!(
        normalize_where_clause("\u{a0}\t x = 1 \u{3000}\n").unwrap(),
        "WHERE x = 1"
    );
}

#[test]
fn filter_keyword_needs_its_space() {
    assert_eq!(normalize_where_clause("WHERE").unwrap(), "WHERE WHERE");
    assert_eq!(normalize_where_clause("Where a").unwrap(), "WHERE Where a");
    assert_eq!(normalize_where_clause("WHERE  a").unwrap(), "WHERE  a");
}

#[test]
fn normalized_filter_is_stable() {
    for input in ["age > 30", "where x = 1", "  WHERE  y < 2 ", "WHERE", "-x > 1"] {
        let once = normalize_where_clause(input).unwrap();
        assert_eq!(normalize_where_clause(&once).unwrap(), once);
    }
}

#[test]
fn sql_strings_keep_paths_apart() {
    assert_ne!(sql_string("a'b"), sql_string("a''b"));
    assert_eq!(sql_string(""), "''");
    assert_eq!(sql_string("'"), "''''");
}

#[test]
fn quoting_keeps_names_apart() {
    assert_ne!(quote_identifier("a\"b"), quote_identifier("a\"\"b"));
    assert_eq!(quote_identifier(""), "\"\"");
    assert_eq!(quote_identifier("\""), "\"\"\"\"");
}

#[test]
fn preview_projection_of_nothing_is_empty() {
    let columns: Vec<String> = Vec::new();
    assert_eq!(preview_projection(&columns), "");
    let one = vec!["x\"y".to_string()];
    assert_eq!(preview_projection(&one), "CAST(\"x\"\"y\" AS VARCHAR) AS \"x\"\"y\"");
}

#[test]
fn advanced_sql_errors_carry_their_message() {
    assert_eq!(advanced_sql("d.parquet", " ;; ").unwrap_err(), EMPTY_ADVANCED_ERROR);
    assert_eq!(advanced_sql("d.parquet", "SELECT 1").unwrap_err(), MISSING_PLACEHOLDER_ERROR);
    assert_eq!(advanced_sql("d.parquet", "SELECT {file}").unwrap_err(), MISSING_PLACEHOLDER_ERROR);
}

#[test]
fn advanced_sql_replaces_every_placeholder() {
    let sql = advanced_sql(
        "/tmp/a.parquet",
        "SELECT * FROM {{file}} a JOIN {{file}} b USING (id);;",
    )
    .unwrap();
    assert_eq!(
        sql,
        "SELECT * FROM read_parquet('/tmp/a.parquet') a JOIN read_parquet('/tmp/a.parquet') b USING (id)"
    );
    let nested = advanced_sql("p", "{{{file}}}").unwrap();
    assert_eq!(nested, "{read_parquet('p')}");
}

#[test]
fn advanced_sql_trims_inside_trailing_semicolons() {
    let sql = advanced_sql("p", "  FROM {{file}} ;  ").unwrap();
    assert_eq!(sql, "FROM read_parquet('p')");
    let sql = advanced_sql("p", "x {{file}}; ;").unwrap();
    assert_eq!(sql, "x read_parquet('p');");
}
