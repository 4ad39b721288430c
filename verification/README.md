# ggsql TABULATE

TABULATE turns the result of a SQL query into a gt-style HTML table:
column selection and order, labels, spanners, a stub column, number, date
and text formats, value substitutions, colour and size scales,
highlights and row groups with summary rows.

## Layout

- `src/` — the library, verified with Verus.
  - `parser/` — the query's syntax tree (`SyntaxNode`) and its lowering to
    a `TabulateStmt` (`parse_tabulate`), with exact error messages.
  - `tabulate/layout.rs` — which columns show, in what order, with which
    labels, widths, alignment and cell rules; spanner-id checks.
  - `tabulate/execute.rs` — cell text, highlight styles, row groups, scale
    targets and matrices, the header tree, the SQL to run, and the table
    assembly.
  - `tabulate/format.rs` — `{:num}`, `{:time}` and case templates.
  - `tabulate/html.rs` — the HTML writer.
  - `tabulate/scale.rs` — CSS colours to `#RRGGBB`, foreground choice.
  - `tabulate/test_normalize.rs` — HTML normal form for comparing output.
  - `text.rs` — string helpers with their specifications.
- `app/` — ordinary Rust around the library: tree-sitter trees to
  `SyntaxNode`, Arrow batches and Parquet schemas to plain values, and the
  floating-point work (automatic number formats, aggregates, colour
  interpolation).
- `tests/` — tests of the library.

Calls into `regex`, `chrono`, `csscolorparser`, `uuid` and a few std
functions stand behind small trusted wrappers whose contracts name what
those functions return; everything around them is proved.
