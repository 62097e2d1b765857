use parquetta::duckdb_service::{ColumnInfo, ExportFormat, ParquetMetadata, QueryInput};
use parquetta::viewer::{
    can_go_forward, column_label, export_file_name, metadata_summary, rows_loaded_message, ViewerState,
};

fn metadata() -> ParquetMetadata {
    ParquetMetadata {
        row_count: Some(1234),
        columns: vec![
            ColumnInfo { name: "id".to_string(), data_type: "BIGINT".to_string() },
            ColumnInfo { name: "name".to_string(), data_type: "VARCHAR".to_string() },
        ],
        row_groups: None,
        file_size: 1536,
    }
}

#[test]
fn paging_forward_and_back() {
    let mut s = ViewerState::new();
    assert_eq!(s.page_number(), 1);
    assert!(!s.can_go_back());
    s.next_page();
    s.next_page();
    assert_eq!(s.offset, 2000);
    assert_eq!(s.page_label(), "Page 3");
    s.previous_page();
    assert_eq!(s.offset, 1000);
    assert!(s.can_go_back());
    s.previous_page();
    s.previous_page();
    assert_eq!(s.offset, 0);
    assert_eq!(s.page_label(), "Page 1");
}

#[test]
fn loading_selects_all_columns() {
    let mut s = ViewerState::new();
    s.next_page();
    s.open_file();
    assert_eq!(s.offset, 0);
    s.columns_loaded(&metadata());
    assert_eq!(s.selected_columns, vec!["id".to_string(), "name".to_string()]);
}

#[test]
fn toggling_columns() {
    let mut s = ViewerState::new();
    s.columns_loaded(&metadata());
    s.next_page();
    s.toggle_column("id", false);
    assert_eq!(s.offset, 0);
    assert_eq!(s.selected_columns, vec!["name".to_string()]);
    s.toggle_column("id", true);
    assert_eq!(s.selected_columns, vec!["name".to_string(), "id".to_string()]);
    s.toggle_column("id", true);
    assert_eq!(s.selected_columns, vec!["name".to_string(), "id".to_string()]);
    s.toggle_column("zzz", false);
    assert_eq!(s.selected_columns, vec!["name".to_string(), "id".to_string()]);
}

#[test]
fn toggle_on_then_off_restores_selection() {
    let mut s = ViewerState::new();
    s.columns_loaded(&metadata());
    let before = s.selected_columns.clone();
    s.toggle_column("extra", true);
    s.toggle_column("extra", false);
    assert_eq!(s.selected_columns, before);
}

#[test]
fn restart_returns_to_first_page() {
    let mut s = ViewerState::new();
    s.next_page();
    s.restart();
    assert_eq!(s.offset, 0);
}

#[test]
fn page_request_uses_selection_and_filter() {
    let mut s = ViewerState::new();
    s.columns_loaded(&metadata());
    match s.page_input("age > 3") {
        QueryInput::Filter { selected_columns, where_clause } => {
            assert_eq!(selected_columns, vec!["id".to_string(), "name".to_string()]);
            assert_eq!(where_clause, "age > 3");
        }
        QueryInput::Advanced { .. } => panic!("expected a filter"),
    }
}

#[test]
fn pager_texts() {
    assert!(can_go_forward(1000));
    assert!(!can_go_forward(999));
    assert_eq!(rows_loaded_message(0), "0 rows loaded on this page.");
    assert_eq!(rows_loaded_message(1000), "1000 rows loaded on this page.");
    assert_eq!(
        metadata_summary("a.parquet", &metadata()),
        "a.parquet\n\nRows: 1234\nColumns: 2\nRow groups: unknown\nSize: 1.5 KB"
    );
    assert_eq!(column_label(&metadata().columns[1]), "name: VARCHAR");
    assert_eq!(export_file_name(ExportFormat::Csv), "result.csv");
    assert_eq!(export_file_name(ExportFormat::Parquet), "result.parquet");
}

#[test]
fn offsets_stay_on_page_boundaries() {
    let mut s = ViewerState::new();
    for _ in 0..5 {
        s.next_page();
        assert_eq!(s.offset % 1000, 0);
    }
    assert_eq!(s.page_number(), 6);
    s.previous_page();
    assert_eq!(s.offset, 4000);
    assert_eq!(s.page_number(), 5);
}
