//! The data the viewer reads from a Parquet file, and the statements it sends
//! to DuckDB for it: the schema, the row and row-group counts, a preview page
//! and an export. The connection itself lives with the application; what it
//! runs and what it does with the answers is decided here.
use vstd::prelude::*;
use crate::query::{
    advanced_sql, advanced_sql_of, list_separator, normalize_where_clause, preview_projection,
    projection_of, quote_identifier, quoted_identifier, quoted_literal, result_view, sql_string,
    string_views, where_clause_of,
};
pub use crate::query::{ExportFormat, QueryInput};
use crate::text::{join, push_char};

verus! {

/// One column of a Parquet file: its name and its DuckDB type.
#[derive(Clone, Debug)]
pub struct ColumnInfo {
    pub name: String,
    pub data_type: String,
}

/// What the sidebar shows of a Parquet file.
#[derive(Clone, Debug)]
pub struct ParquetMetadata {
    pub row_count: Option<u64>,
    pub columns: Vec<ColumnInfo>,
    pub row_groups: Option<u64>,
    pub file_size: u64,
}

/// One page of the preview: the column titles and the rows, each cell as text.
#[derive(Clone, Debug)]
pub struct QueryPage {
    pub columns: Vec<String>,
    pub rows: Vec<Vec<String>>,
}

/// The statement that fetches a preview page: the columns it returns, its SQL,
/// and the LIMIT and OFFSET values bound to its two parameters.
#[derive(Clone, Debug)]
pub struct PageQuery {
    pub columns: Vec<String>,
    pub sql: String,
    pub limit: i64,
    pub offset: i64,
}

/// Message of a preview with no column to show.
pub const NO_COLUMNS_ERROR: &'static str = "No columns found in the Parquet file";

/// Message of an advanced query that describes no column.
pub const NO_QUERY_COLUMNS_ERROR: &'static str = "Advanced query did not return any columns";

/// The text shown for a cell that is NULL or cannot be read as text.
pub open spec fn cell_text(cell: Option<Seq<char>>) -> Seq<char> {
    match cell {
        Some(s) => s,
        None => seq!['N', 'U', 'L', 'L'],
    }
}

/// The views of optional strings.
pub open spec fn cell_views(cells: Seq<Option<String>>) -> Seq<Option<Seq<char>>> {
    cells.map_values(|c: Option<String>| match c {
        Some(s) => Some(s@),
        None => None,
    })
}

/// The statement that lists the columns of the file and their types.
pub open spec fn schema_sql_of(path: Seq<char>) -> Seq<char> {
    "DESCRIBE SELECT * FROM read_parquet("@ + quoted_literal(path) + ") LIMIT 0"@
}

/// The statement that counts the rows of the file.
pub open spec fn count_rows_sql_of(path: Seq<char>) -> Seq<char> {
    "SELECT count(*) FROM read_parquet("@ + quoted_literal(path) + ")"@
}

/// The statement that counts the row groups of the file.
pub open spec fn count_row_groups_sql_of(path: Seq<char>) -> Seq<char> {
    "SELECT count(DISTINCT row_group_id) FROM parquet_metadata("@ + quoted_literal(path) + ")"@
}

/// The statement that lists the columns a query returns.
pub open spec fn describe_sql_of(sql: Seq<char>) -> Seq<char> {
    "DESCRIBE "@ + sql
}

/// The statement whose columns a preview needs before it can be built: the
/// file's schema for a filter without selected columns, the advanced query's
/// own columns for a valid advanced query, and none otherwise.
pub open spec fn columns_request_of(path: Seq<char>, input: QueryInput) -> Option<Seq<char>> {
    match input {
        QueryInput::Filter { selected_columns, where_clause } => {
            if selected_columns@.len() == 0 {
                Some(schema_sql_of(path))
            } else {
                None
            }
        },
        QueryInput::Advanced { sql } => match advanced_sql_of(path, sql@) {
            Ok(q) => Some(describe_sql_of(q)),
            Err(_) => None,
        },
    }
}

/// The preview statement of a filter: the columns cast to text, read from the
/// file, filtered, one page of them.
pub open spec fn filter_page_sql_of(columns: Seq<Seq<char>>, path: Seq<char>, filter: Seq<char>) -> Seq<char> {
    "SELECT "@ + projection_of(columns) + " FROM read_parquet("@ + quoted_literal(path) + ") "@
        + filter + " LIMIT ? OFFSET ?"@
}

/// The preview statement of an advanced query: its columns cast to text, one
/// page of its rows.
pub open spec fn advanced_page_sql_of(columns: Seq<Seq<char>>, query: Seq<char>) -> Seq<char> {
    "SELECT "@ + projection_of(columns) + " FROM ("@ + query + ") AS parquetta_query"@
        + " LIMIT ? OFFSET ?"@
}

/// The preview page statement for `input`, given the column names that the
/// statement of `columns_request_of` returned (ignored where none is needed),
/// or why no page can be shown. The result is the columns, the SQL and the
/// bound LIMIT and OFFSET.
pub open spec fn page_query_of(
    path: Seq<char>,
    limit: u64,
    offset: u64,
    input: QueryInput,
    described: Seq<Seq<char>>,
) -> Result<(Seq<Seq<char>>, Seq<char>, (i64, i64)), Seq<char>> {
    match input {
        QueryInput::Filter { selected_columns, where_clause } => {
            let columns = if selected_columns@.len() == 0 {
                described
            } else {
                string_views(selected_columns@)
            };
            if columns.len() == 0 {
                Err(NO_COLUMNS_ERROR@)
            } else {
                match where_clause_of(where_clause@) {
                    Err(e) => Err(e),
                    Ok(filter) => Ok(
                        (
                            columns,
                            filter_page_sql_of(columns, path, filter),
                            (limit as i64, offset as i64),
                        ),
                    ),
                }
            }
        },
        QueryInput::Advanced { sql } => match advanced_sql_of(path, sql@) {
            Err(e) => Err(e),
            Ok(query) => if described.len() == 0 {
                Err(NO_QUERY_COLUMNS_ERROR@)
            } else {
                Ok((described, advanced_page_sql_of(described, query), (limit as i64, offset as i64)))
            },
        },
    }
}

/// The select list of an export: `*` without a selection, else the quoted
/// selected columns.
pub open spec fn export_projection_of(selected: Seq<Seq<char>>) -> Seq<char> {
    if selected.len() == 0 {
        seq!['*']
    } else {
        join(selected.map_values(|c: Seq<char>| quoted_identifier(c)), list_separator())
    }
}

/// The query whose result an export writes, or why it is refused.
pub open spec fn export_query_of(source: Seq<char>, input: QueryInput) -> Result<Seq<char>, Seq<char>> {
    match input {
        QueryInput::Filter { selected_columns, where_clause } => match where_clause_of(
            where_clause@,
        ) {
            Err(e) => Err(e),
            Ok(filter) => Ok(
                "SELECT "@ + export_projection_of(string_views(selected_columns@))
                    + " FROM read_parquet("@ + quoted_literal(source) + ") "@ + filter,
            ),
        },
        QueryInput::Advanced { sql } => advanced_sql_of(source, sql@),
    }
}

/// The COPY options of a format.
pub open spec fn copy_options_of(format: ExportFormat) -> Seq<char> {
    match format {
        ExportFormat::Csv => "(FORMAT CSV, HEADER TRUE)"@,
        ExportFormat::Parquet => "(FORMAT PARQUET)"@,
    }
}

/// The statement that writes the export to `output`, or why it is refused.
pub open spec fn export_sql_of(
    source: Seq<char>,
    output: Seq<char>,
    input: QueryInput,
    format: ExportFormat,
) -> Result<Seq<char>, Seq<char>> {
    match export_query_of(source, input) {
        Err(e) => Err(e),
        Ok(query) => Ok(
            "COPY ("@ + query + ") TO "@ + quoted_literal(output) + " "@ + copy_options_of(format),
        ),
    }
}

/// A copy of a list of strings.
pub fn copy_strings(v: &[String]) -> (r: Vec<String>)
    ensures
        string_views(r@) == string_views(v@),
{
    let mut r: Vec<String> = Vec::new();
    let mut i: usize = 0;
    while i < v.len()
        invariant
            i <= v.len(),
            r@.len() == i,
            forall|j: int| 0 <= j < i ==> #[trigger] r@[j]@ == v@[j]@,
        decreases v.len() - i,
    {
        let s = String::from_str(v[i].as_str());
        r.push(s);
        i = i + 1;
    }
    assert(string_views(r@) =~= string_views(v@));
    r
}

/// The statement that lists the columns of the Parquet file at `path` (a path
/// as the file system resolved it) and their types.
pub fn schema_sql(path: &str) -> (r: String)
    ensures
        r@ == schema_sql_of(path@),
{
    let mut out = String::from_str("DESCRIBE SELECT * FROM read_parquet(");
    let quoted = sql_string(path);
    out.append(quoted.as_str());
    out.append(") LIMIT 0");
    out
}

/// The statement that counts the rows of the Parquet file at `path`.
pub fn count_rows_sql(path: &str) -> (r: String)
    ensures
        r@ == count_rows_sql_of(path@),
{
    let mut out = String::from_str("SELECT count(*) FROM read_parquet(");
    let quoted = sql_string(path);
    out.append(quoted.as_str());
    out.append(")");
    out
}

/// The statement that counts the row groups of the Parquet file at `path`.
pub fn count_row_groups_sql(path: &str) -> (r: String)
    ensures
        r@ == count_row_groups_sql_of(path@),
{
    let mut out = String::from_str("SELECT count(DISTINCT row_group_id) FROM parquet_metadata(");
    let quoted = sql_string(path);
    out.append(quoted.as_str());
    out.append(")");
    out
}

/// The statement that lists the columns the query `sql` returns.
pub fn describe_sql(sql: &str) -> (r: String)
    ensures
        r@ == describe_sql_of(sql@),
{
    let mut out = String::from_str("DESCRIBE ");
    out.append(sql);
    out
}

/// The statement whose column names a preview of `input` needs first, if any.
pub fn page_columns_request(path: &str, input: &QueryInput) -> (r: Option<String>)
    ensures
        match r {
            Some(s) => columns_request_of(path@, *input) == Some(s@),
            None => columns_request_of(path@, *input) == None::<Seq<char>>,
        },
{
    match input {
        QueryInput::Filter { selected_columns, where_clause } => {
            if selected_columns.len() == 0 {
                Some(schema_sql(path))
            } else {
                None
            }
        },
        QueryInput::Advanced { sql } => match advanced_sql(path, sql.as_str()) {
            Ok(q) => Some(describe_sql(q.as_str())),
            Err(_) => None,
        },
    }
}

/// Builds the statement of a preview page of `input`: `limit` rows from row
/// `offset` of a filtered selection or of an advanced query's result, every
/// column cast to text. `described` holds the column names that the statement
/// of `page_columns_request` returned; it is read only where one was needed.
pub fn page_query(
    path: &str,
    limit: u64,
    offset: u64,
    input: &QueryInput,
    described: &[String],
) -> (r: Result<PageQuery, String>)
    ensures
        match r {
            Ok(q) => page_query_of(path@, limit, offset, *input, string_views(described@)) == Ok::<
                _,
                Seq<char>,
            >((string_views(q.columns@), q.sql@, (q.limit, q.offset))),
            Err(e) => page_query_of(path@, limit, offset, *input, string_views(described@))
                == Err::<(Seq<Seq<char>>, Seq<char>, (i64, i64)), _>(e@),
        },
{
    match input {
        QueryInput::Filter { selected_columns, where_clause } => {
            let columns = if selected_columns.len() == 0 {
                copy_strings(described)
            } else {
                copy_strings(selected_columns.as_slice())
            };
            if columns.len() == 0 {
                return Err(String::from_str(NO_COLUMNS_ERROR));
            }
            let filter = match normalize_where_clause(where_clause.as_str()) {
                Err(e) => {
                    return Err(e);
                },
                Ok(f) => f,
            };
            let projection = preview_projection(columns.as_slice());
            let mut sql = String::from_str("SELECT ");
            sql.append(projection.as_str());
            sql.append(" FROM read_parquet(");
            let quoted = sql_string(path);
            sql.append(quoted.as_str());
            sql.append(") ");
            sql.append(filter.as_str());
            sql.append(" LIMIT ? OFFSET ?");
            Ok(PageQuery { columns, sql, limit: limit as i64, offset: offset as i64 })
        },
        QueryInput::Advanced { sql } => {
            let query = match advanced_sql(path, sql.as_str()) {
                Err(e) => {
                    return Err(e);
                },
                Ok(q) => q,
            };
            if described.len() == 0 {
                return Err(String::from_str(NO_QUERY_COLUMNS_ERROR));
            }
            let columns = copy_strings(described);
            let projection = preview_projection(columns.as_slice());
            let mut page_sql = String::from_str("SELECT ");
            page_sql.append(projection.as_str());
            page_sql.append(" FROM (");
            page_sql.append(query.as_str());
            page_sql.append(") AS parquetta_query");
            page_sql.append(" LIMIT ? OFFSET ?");
            Ok(PageQuery { columns, sql: page_sql, limit: limit as i64, offset: offset as i64 })
        },
    }
}

/// The text of one cell: its value, or `NULL` where it has none.
pub fn cell_to_string(cell: Option<String>) -> (r: String)
    ensures
        r@ == cell_text(
            match cell {
                Some(s) => Some(s@),
                None => None,
            },
        ),
{
    match cell {
        Some(s) => s,
        None => {
            let mut out = String::new();
            push_char(&mut out, 'N');
            push_char(&mut out, 'U');
            push_char(&mut out, 'L');
            push_char(&mut out, 'L');
            assert(out@ =~= seq!['N', 'U', 'L', 'L']);
            out
        },
    }
}

/// The texts of the cells of one row.
pub fn row_values(cells: &[Option<String>]) -> (r: Vec<String>)
    ensures
        r@.len() == cells@.len(),
        forall|j: int| 0 <= j < cells@.len() ==> #[trigger] r@[j]@ == cell_text(cell_views(cells@)[j]),
{
    let mut r: Vec<String> = Vec::new();
    let n = cells.len();
    let mut i: usize = 0;
    while i < n
        invariant
            n == cells@.len(),
            i <= n,
            r@.len() == i,
            forall|j: int| 0 <= j < i ==> #[trigger] r@[j]@ == cell_text(cell_views(cells@)[j]),
        decreases n - i,
    {
        let cell = match &cells[i] {
            Some(s) => Some(String::from_str(s.as_str())),
            None => None,
        };
        r.push(cell_to_string(cell));
        i = i + 1;
    }
    r
}

/// A preview page of the rows a page statement returned, each cell as text.
/// Each row keeps its length; when every row has a cell per column, so has
/// every row of the page.
pub fn page_of(columns: Vec<String>, rows: &[Vec<Option<String>>]) -> (page: QueryPage)
    ensures
        page.columns@ == columns@,
        page.rows@.len() == rows@.len(),
        forall|i: int| 0 <= i < rows@.len() ==> #[trigger] page.rows@[i]@.len() == rows@[i]@.len(),
        forall|i: int, j: int|
            0 <= i < rows@.len() && 0 <= j < rows@[i]@.len() ==> #[trigger] page.rows@[i]@[j]@
                == cell_text(cell_views(rows@[i]@)[j]),
        (forall|i: int| 0 <= i < rows@.len() ==> #[trigger] rows@[i]@.len() == columns@.len()) ==> (
        forall|i: int| 0 <= i < page.rows@.len() ==> #[trigger] page.rows@[i]@.len()
            == page.columns@.len()),
{
    let mut out: Vec<Vec<String>> = Vec::new();
    let n = rows.len();
    let mut i: usize = 0;
    while i < n
        invariant
            n == rows@.len(),
            i <= n,
            out@.len() == i,
            forall|k: int| 0 <= k < i ==> #[trigger] out@[k]@.len() == rows@[k]@.len(),
            forall|k: int, j: int|
                0 <= k < i && 0 <= j < rows@[k]@.len() ==> #[trigger] out@[k]@[j]@ == cell_text(
                    cell_views(rows@[k]@)[j],
                ),
        decreases n - i,
    {
        let texts = row_values(rows[i].as_slice());
        out.push(texts);
        i = i + 1;
    }
    QueryPage { columns, rows: out }
}

/// The query an export writes, for the file at `source`.
fn export_query(source: &str, input: &QueryInput) -> (r: Result<String, String>)
    ensures
        result_view(r) == export_query_of(source@, *input),
{
    match input {
        QueryInput::Filter { selected_columns, where_clause } => {
            let ghost selected = string_views(selected_columns@);
            let mut projection = String::new();
            if selected_columns.len() == 0 {
                push_char(&mut projection, '*');
                assert(projection@ =~= seq!['*']);
            } else {
                let ghost items = selected.map_values(|c: Seq<char>| quoted_identifier(c));
                let mut i: usize = 0;
                assert(items.take(0) =~= Seq::<Seq<char>>::empty());
                while i < selected_columns.len()
                    invariant
                        i <= selected_columns.len(),
                        selected == string_views(selected_columns@),
                        items == selected.map_values(|c: Seq<char>| quoted_identifier(c)),
                        items.len() == selected_columns.len(),
                        projection@ == join(items.take(i as int), list_separator()),
                    decreases selected_columns.len() - i,
                {
                    let ghost before = projection@;
                    if i > 0 {
                        push_char(&mut projection, ',');
                        push_char(&mut projection, ' ');
                    }
                    let quoted = quote_identifier(selected_columns[i].as_str());
                    projection.append(quoted.as_str());
                    proof {
                        let item = quoted_identifier(selected_columns@[i as int]@);
                        assert(items[i as int] == item);
                        assert(items.take(i + 1).drop_last() =~= items.take(i as int));
                        if i > 0 {
                            assert(projection@ =~= before + list_separator() + item);
                        } else {
                            assert(items.take(1) =~= seq![item]);
                            assert(projection@ =~= item);
                        }
                    }
                    i = i + 1;
                }
                assert(items.take(selected_columns.len() as int) =~= items);
            }
            let filter = match normalize_where_clause(where_clause.as_str()) {
                Err(e) => {
                    return Err(e);
                },
                Ok(f) => f,
            };
            let mut sql = String::from_str("SELECT ");
            sql.append(projection.as_str());
            sql.append(" FROM read_parquet(");
            let quoted = sql_string(source);
            sql.append(quoted.as_str());
            sql.append(") ");
            sql.append(filter.as_str());
            Ok(sql)
        },
        QueryInput::Advanced { sql } => advanced_sql(source, sql.as_str()),
    }
}

/// The statement that exports the result of `input` over the Parquet file at
/// `source` to `output` in `format`, or why the input is refused.
pub fn export_sql(source: &str, output: &str, input: &QueryInput, format: ExportFormat) -> (r:
    Result<String, String>)
    ensures
        result_view(r) == export_sql_of(source@, output@, *input, format),
{
    let query = match export_query(source, input) {
        Err(e) => {
            return Err(e);
        },
        Ok(q) => q,
    };
    let mut sql = String::from_str("COPY (");
    sql.append(query.as_str());
    sql.append(") TO ");
    let quoted = sql_string(output);
    sql.append(quoted.as_str());
    sql.append(" ");
    match format {
        ExportFormat::Csv => sql.append("(FORMAT CSV, HEADER TRUE)"),
        ExportFormat::Parquet => sql.append("(FORMAT PARQUET)"),
    }
    Ok(sql)
}

/// Once the columns are known (the file or the query has some), a preview and
/// an export of the same request are refused together, with the same message.
pub proof fn lemma_preview_and_export_refuse_together(
    path: Seq<char>,
    limit: u64,
    offset: u64,
    input: QueryInput,
    described: Seq<Seq<char>>,
)
    requires
        described.len() > 0,
    ensures
        match (page_query_of(path, limit, offset, input, described), export_query_of(path, input)) {
            (Err(a), Err(b)) => a == b,
            (Ok(_), Ok(_)) => true,
            _ => false,
        },
{
}

/// A preview and an export of the same filter apply the same WHERE clause, and
/// a preview and an export of the same advanced query run the same query.
pub proof fn lemma_preview_and_export_share_filter(
    path: Seq<char>,
    limit: u64,
    offset: u64,
    input: QueryInput,
    described: Seq<Seq<char>>,
)
    ensures
        page_query_of(path, limit, offset, input, described) matches Ok((columns, sql, _)) ==> match input {
            QueryInput::Filter { selected_columns, where_clause } => {
                &&& where_clause_of(where_clause@) matches Ok(filter)
                &&& sql == filter_page_sql_of(columns, path, filter)
                &&& export_query_of(path, input) == Ok::<Seq<char>, Seq<char>>(
                    "SELECT "@ + export_projection_of(string_views(selected_columns@))
                        + " FROM read_parquet("@ + quoted_literal(path) + ") "@ + filter,
                )
            },
            QueryInput::Advanced { sql: text } => {
                &&& advanced_sql_of(path, text@) matches Ok(query)
                &&& sql == advanced_page_sql_of(columns, query)
                &&& export_query_of(path, input) == Ok::<Seq<char>, Seq<char>>(query)
            },
        },
{
}

/// Every preview is one page: its statement ends with `LIMIT ? OFFSET ?`, and
/// the values bound there are the requested limit and offset, for a filter and
/// for an advanced query alike.
pub proof fn lemma_preview_is_paginated(
    path: Seq<char>,
    limit: u64,
    offset: u64,
    input: QueryInput,
    described: Seq<Seq<char>>,
)
    ensures
        page_query_of(path, limit, offset, input, described) matches Ok((_, sql, bound)) ==> {
            &&& bound == (limit as i64, offset as i64)
            &&& exists|head: Seq<char>| sql == head + " LIMIT ? OFFSET ?"@
        },
{
    if let Ok((columns, sql, bound)) = page_query_of(path, limit, offset, input, described) {
        match input {
            QueryInput::Filter { selected_columns, where_clause } => {
                if let Ok(filter) = where_clause_of(where_clause@) {
                    let head = "SELECT "@ + projection_of(columns) + " FROM read_parquet("@
                        + quoted_literal(path) + ") "@ + filter;
                    assert(sql == head + " LIMIT ? OFFSET ?"@);
                }
            },
            QueryInput::Advanced { sql: text } => {
                if let Ok(query) = advanced_sql_of(path, text@) {
                    let head = "SELECT "@ + projection_of(columns) + " FROM ("@ + query
                        + ") AS parquetta_query"@;
                    assert(sql == head + " LIMIT ? OFFSET ?"@);
                }
            },
        }
    }
}


/// An export without a selection takes every column.
pub proof fn lemma_export_of_no_selection()
    ensures
        export_projection_of(seq![]) == seq!['*'],
{
}

/// An export of one selected column takes it under its quoted name.
pub proof fn lemma_export_of_one(c: Seq<char>)
    ensures
        export_projection_of(seq![c]) == quoted_identifier(c),
{
    let items = seq![c].map_values(|x: Seq<char>| quoted_identifier(x));
    assert(items.len() == 1);
    assert(items[0] == quoted_identifier(c));
}

/// Selecting one more column for an export appends `, ` and its quoted name
/// to the select list, so the list splits back into the selected names.
pub proof fn lemma_export_of_push(cs: Seq<Seq<char>>, c: Seq<char>)
    requires
        cs.len() > 0,
    ensures
        export_projection_of(cs.push(c)) == export_projection_of(cs) + seq![',', ' ']
            + quoted_identifier(c),
{
    let f = |x: Seq<char>| quoted_identifier(x);
    let items = cs.push(c).map_values(f);
    assert(items.drop_last() =~= cs.map_values(f));
    assert(items.last() == quoted_identifier(c));
    assert(items.len() >= 2);
}


/// An export statement copies the query to the output file as a literal, with
/// the options of the chosen format at its end.
pub proof fn lemma_export_statement_shape(
    source: Seq<char>,
    output: Seq<char>,
    input: QueryInput,
    format: ExportFormat,
)
    ensures
        export_sql_of(source, output, input, format) matches Ok(sql) ==> {
            &&& export_query_of(source, input) matches Ok(query)
            &&& sql == "COPY ("@ + query + ") TO "@ + quoted_literal(output) + " "@ + match format {
                ExportFormat::Csv => "(FORMAT CSV, HEADER TRUE)"@,
                ExportFormat::Parquet => "(FORMAT PARQUET)"@,
            }
        },
        export_sql_of(source, output, input, format) is Err <==> export_query_of(source, input) is Err,
{
}


/// A preview shows the selected columns in their order; without a selection,
/// and for an advanced query, it shows the described columns in their order.
pub proof fn lemma_preview_columns(
    path: Seq<char>,
    limit: u64,
    offset: u64,
    input: QueryInput,
    described: Seq<Seq<char>>,
)
    ensures
        page_query_of(path, limit, offset, input, described) matches Ok((columns, _, _)) ==> match input {
            QueryInput::Filter { selected_columns, where_clause } => if selected_columns@.len() > 0 {
                columns == string_views(selected_columns@)
            } else {
                columns == described
            },
            QueryInput::Advanced { .. } => columns == described,
        },
        page_query_of(path, limit, offset, input, described) matches Ok((columns, _, _)) ==> columns.len() > 0,
{
}

} // verus!
