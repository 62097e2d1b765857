# parquetta

The verified core of a desktop Parquet viewer that queries files through DuckDB.

- `src/query.rs`: WHERE filters, quoted identifiers, preview projections,
  advanced queries with the `{{file}}` placeholder, SQL string literals.
- `src/duckdb_service.rs`: the statements sent to DuckDB for the schema, the
  counts, a preview page and an export, and the page built from the answer.
- `src/formatting.rs`: byte sizes (`1.5 KB`) and initial column widths.
- `src/viewer.rs`: paging, column selection and the texts of the window.
- `src/text.rs`: the character-level model (trim, contains, replace, join,
  decimal digits) that the contracts are written in.
- `app/`: the GTK window and the DuckDB connection, which run what the library
  decides.

Every function under `src/` carries a Verus contract; the laws of the library
are the public `lemma_*` proof functions.
