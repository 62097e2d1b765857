use parquetta::duckdb_service::{
    cell_to_string, count_row_groups_sql, count_rows_sql, describe_sql, export_sql, page_columns_request,
    page_of, page_query, row_values, schema_sql, ColumnInfo, ExportFormat, ParquetMetadata, QueryInput,
    NO_COLUMNS_ERROR, NO_QUERY_COLUMNS_ERROR,
};
use parquetta::query::{MISSING_PLACEHOLDER_ERROR, WHERE_FILTER_ERROR};

fn filter(columns: &[&str], where_clause: &str) -> QueryInput {
    QueryInput::Filter {
        selected_columns: columns.iter().map(|c| c.to_string()).collect(),
        where_clause: where_clause.to_string(),
    }
}

fn advanced(sql: &str) -> QueryInput {
    QueryInput::Advanced { sql: sql.to_string() }
}

#[test]
fn metadata_statements() {
    assert_eq!(
        schema_sql("/d/a.parquet"),
        "DESCRIBE SELECT * FROM read_parquet('/d/a.parquet') LIMIT 0"
    );
    assert_eq!(count_rows_sql("o'k"), "SELECT count(*) FROM read_parquet('o''k')");
    assert_eq!(
        count_row_groups_sql("x"),
        "SELECT count(DISTINCT row_group_id) FROM parquet_metadata('x')"
    );
    assert_eq!(describe_sql("SELECT 1"), "DESCRIBE SELECT 1");
}

#[test]
fn columns_are_described_only_when_needed() {
    assert_eq!(
        page_columns_request("f", &filter(&[], "")),
        Some("DESCRIBE SELECT * FROM read_parquet('f') LIMIT 0".to_string())
    );
    assert_eq!(page_columns_request("f", &filter(&["a"], "")), None);
    assert_eq!(
        page_columns_request("f", &advanced("SELECT * FROM {{file}}")),
        Some("DESCRIBE SELECT * FROM read_parquet('f')".to_string())
    );
    assert_eq!(page_columns_request("f", &advanced("SELECT 1")), None);
}

#[test]
fn filter_page_statement() {
    let q = page_query("f.parquet", 1000, 2000, &filter(&["id", "na\"me"], "age > 3"), &[]).unwrap();
    assert_eq!(q.columns, vec!["id".to_string(), "na\"me".to_string()]);
    assert_eq!(
        q.sql,
        "SELECT CAST(\"id\" AS VARCHAR) AS \"id\", CAST(\"na\"\"me\" AS VARCHAR) AS \"na\"\"me\" FROM read_parquet('f.parquet') WHERE age > 3 LIMIT ? OFFSET ?"
    );
    assert_eq!((q.limit, q.offset), (1000, 2000));
}

#[test]
fn filter_page_uses_described_columns_without_selection() {
    let described = vec!["x".to_string()];
    let q = page_query("f", 10, 0, &filter(&[], ""), &described).unwrap();
    assert_eq!(q.columns, described);
    assert_eq!(
        q.sql,
        "SELECT CAST(\"x\" AS VARCHAR) AS \"x\" FROM read_parquet('f')  LIMIT ? OFFSET ?"
    );
}

#[test]
fn page_errors() {
    assert_eq!(page_query("f", 1, 0, &filter(&[], "a"), &[]).unwrap_err(), NO_COLUMNS_ERROR);
    assert_eq!(
        page_query("f", 1, 0, &filter(&["a"], "a;b"), &[]).unwrap_err(),
        WHERE_FILTER_ERROR
    );
    assert_eq!(
        page_query("f", 1, 0, &advanced("SELECT 1"), &["a".to_string()]).unwrap_err(),
        MISSING_PLACEHOLDER_ERROR
    );
    assert_eq!(
        page_query("f", 1, 0, &advanced("SELECT * FROM {{file}}"), &[]).unwrap_err(),
        NO_QUERY_COLUMNS_ERROR
    );
}

#[test]
fn advanced_page_statement() {
    let described = vec!["n".to_string()];
    let q = page_query("f", 1000, 3000, &advanced("SELECT n FROM {{file}};"), &described).unwrap();
    assert_eq!(q.columns, described);
    assert_eq!(
        q.sql,
        "SELECT CAST(\"n\" AS VARCHAR) AS \"n\" FROM (SELECT n FROM read_parquet('f')) AS parquetta_query LIMIT ? OFFSET ?"
    );
    assert_eq!((q.limit, q.offset), (1000, 3000));
}

#[test]
fn cells_become_text() {
    assert_eq!(cell_to_string(None), "NULL");
    assert_eq!(cell_to_string(Some("v".to_string())), "v");
    assert_eq!(
        row_values(&[Some("1".to_string()), None]),
        vec!["1".to_string(), "NULL".to_string()]
    );
    let page = page_of(
        vec!["a".to_string(), "b".to_string()],
        &[vec![None, Some("x".to_string())], vec![Some("y".to_string()), None]],
    );
    assert_eq!(page.columns, vec!["a".to_string(), "b".to_string()]);
    assert_eq!(page.rows.len(), 2);
    assert_eq!(page.rows[0], vec!["NULL".to_string(), "x".to_string()]);
    assert_eq!(page.rows[1], vec!["y".to_string(), "NULL".to_string()]);
}

#[test]
fn export_statements() {
    assert_eq!(
        export_sql("in.parquet", "out.csv", &filter(&[], ""), ExportFormat::Csv).unwrap(),
        "COPY (SELECT * FROM read_parquet('in.parquet') ) TO 'out.csv' (FORMAT CSV, HEADER TRUE)"
    );
    assert_eq!(
        export_sql("in", "o's", &filter(&["a", "b c"], "where a > 1"), ExportFormat::Parquet).unwrap(),
        "COPY (SELECT \"a\", \"b c\" FROM read_parquet('in') WHERE a > 1) TO 'o''s' (FORMAT PARQUET)"
    );
    assert_eq!(
        export_sql("in", "o", &advanced(" SELECT 1 FROM {{file}} ;"), ExportFormat::Csv).unwrap(),
        "COPY (SELECT 1 FROM read_parquet('in')) TO 'o' (FORMAT CSV, HEADER TRUE)"
    );
    assert_eq!(
        export_sql("in", "o", &filter(&[], "x /* y */"), ExportFormat::Csv).unwrap_err(),
        WHERE_FILTER_ERROR
    );
}

#[test]
fn preview_and_export_refuse_together() {
    let described = vec!["a".to_string()];
    for w in ["", "a = 1", "a = 1; drop", "-- c"] {
        let input = filter(&[], w);
        let page = page_query("f", 5, 0, &input, &described);
        let export = export_sql("f", "o", &input, ExportFormat::Csv);
        assert_eq!(page.is_err(), export.is_err());
        if let (Err(a), Err(b)) = (page, export) {
            assert_eq!(a, b);
        }
    }
}

#[test]
fn metadata_value_holds_its_fields() {
    let m = ParquetMetadata {
        row_count: Some(3),
        columns: vec![ColumnInfo { name: "a".to_string(), data_type: "INTEGER".to_string() }],
        row_groups: None,
        file_size: 10,
    };
    assert_eq!(m.columns.len(), 1);
}
