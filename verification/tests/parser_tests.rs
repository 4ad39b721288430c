use ggsql::parser::tabulate::{extract_sql_from_table, parse_tabulate, unquote_string};
use ggsql::parser::SyntaxNode;
use ggsql::tabulate::ast::{
    FacetValue, FormatMode, HighlightClause, RenamingLhs, ScalePalette, SettingValue,
    TabulateStmt,
};
use ggsql::tabulate::execute::{build_sql, determine_table_name, sql_portion_is_cte_only};

fn node(kind: &str, text: &str, children: Vec<SyntaxNode>) -> SyntaxNode {
    SyntaxNode {
        kind: kind.to_string(),
        named: true,
        text: text.to_string(),
        field: None,
        start: 0,
        children,
    }
}

fn leaf(kind: &str, text: &str) -> SyntaxNode {
    node(kind, text, vec![])
}

fn punct(p: &str) -> SyntaxNode {
    SyntaxNode {
        kind: p.to_string(),
        named: false,
        text: p.to_string(),
        field: None,
        start: 0,
        children: vec![],
    }
}

fn field(name: &str, mut n: SyntaxNode) -> SyntaxNode {
    n.field = Some(name.to_string());
    n
}

fn at(start: usize, mut n: SyntaxNode) -> SyntaxNode {
    n.start = start;
    n
}

fn ident(t: &str) -> SyntaxNode {
    leaf("identifier", t)
}

fn string(t: &str) -> SyntaxNode {
    leaf("string", t)
}

fn number(t: &str) -> SyntaxNode {
    leaf("number", t)
}

fn query(clauses: Vec<SyntaxNode>) -> SyntaxNode {
    node("query", "", vec![node("tabulate_statement", "", clauses)])
}

fn parse_ok(root: &SyntaxNode) -> TabulateStmt {
    match parse_tabulate(root) {
        Ok(s) => s,
        Err(e) => panic!("unexpected error: {}", e.message),
    }
}

fn parse_err(root: &SyntaxNode) -> String {
    match parse_tabulate(root) {
        Ok(_) => panic!("expected an error"),
        Err(e) => e.message,
    }
}

#[test]
fn unquote_handles_escapes() {
    assert_eq!(unquote_string("'hello'"), "hello");
    assert_eq!(unquote_string("'a\\nb'"), "a\nb");
    assert_eq!(unquote_string("'tab\\there'"), "tab\there");
    assert_eq!(unquote_string("'it\\'s'"), "it's");
    assert_eq!(unquote_string("'q\\\"q'"), "q\"q");
    assert_eq!(unquote_string("'back\\\\slash'"), "back\\slash");
    assert_eq!(unquote_string("'keep\\x'"), "keep\\x");
    assert_eq!(unquote_string("'end\\'"), "end\\");
    assert_eq!(unquote_string("bare"), "bare");
    assert_eq!(unquote_string("''"), "");
}

#[test]
fn column_list_and_from() {
    let root = query(vec![
        node(
            "tab_col_list",
            "a, b",
            vec![ident("a"), punct(","), ident("b")],
        ),
        node("tab_from_clause", "FROM cars", vec![punct("FROM"), ident("cars")]),
    ]);
    let st = parse_ok(&root);
    assert_eq!(st.columns, vec!["a".to_string(), "b".to_string()]);
    assert_eq!(st.from_source, Some("cars".to_string()));
    assert!(st.format_clauses.is_empty());
    assert!(st.label.is_none());
    assert!(st.scale_clauses.is_empty());
    assert!(st.highlight_clauses.is_empty());
    assert!(st.facet.is_none());
}

#[test]
fn star_selects_every_column() {
    let root = query(vec![node("tab_col_list", " * ", vec![punct("*")])]);
    let st = parse_ok(&root);
    assert!(st.columns.is_empty());
    assert!(st.from_source.is_none());
}

#[test]
fn missing_statement_is_an_error() {
    let root = node("query", "", vec![node("sql_portion", "SELECT 1", vec![])]);
    assert_eq!(parse_err(&root), "No TABULATE statement found in query");
}

#[test]
fn visualise_and_tabulate_exclude_each_other() {
    let root = node(
        "query",
        "",
        vec![
            node("visualise_statement", "", vec![]),
            node("tabulate_statement", "", vec![]),
        ],
    );
    assert_eq!(
        parse_err(&root),
        "VISUALISE and TABULATE are mutually exclusive in a single query; use separate queries for each output mode."
    );
}

fn assignment(key: &str, value: SyntaxNode) -> SyntaxNode {
    node("label_assignment", "", vec![ident(key), punct("=>"), value])
}

#[test]
fn label_clause_sorts_keys() {
    let root = query(vec![node(
        "label_clause",
        "",
        vec![
            assignment("TITLE", string("'It\\'s'")),
            assignment("subtitle", string("'Sub'")),
            assignment("caption", string("'Source'")),
            assignment("mpg", string("'Miles'")),
            assignment("hp", leaf("null_literal", "NULL")),
        ],
    )]);
    let st = parse_ok(&root);
    let l = st.label.unwrap();
    assert_eq!(l.title, Some("It's".to_string()));
    assert_eq!(l.subtitle, Some("Sub".to_string()));
    assert_eq!(l.caption, Some("Source".to_string()));
    assert_eq!(l.renames, vec![("mpg".to_string(), "Miles".to_string())]);
}

#[test]
fn two_label_clauses_are_refused() {
    let root = query(vec![
        node("label_clause", "", vec![]),
        node("label_clause", "", vec![]),
    ]);
    assert_eq!(parse_err(&root), "TABULATE allows at most one LABEL clause");
}

#[test]
fn label_without_key_is_refused() {
    let root = query(vec![node(
        "label_clause",
        "",
        vec![node("label_assignment", "", vec![punct("=>"), string("'x'")])],
    )]);
    assert_eq!(parse_err(&root), "LABEL key missing");
}

fn setting(key: &str, value: SyntaxNode) -> SyntaxNode {
    node("format_setting_pair", "", vec![ident(key), punct("=>"), value])
}

fn renaming(lhs: SyntaxNode, rhs: &str) -> SyntaxNode {
    node("format_renaming_pair", "", vec![lhs, punct("=>"), string(rhs)])
}

#[test]
fn format_span_clause() {
    let fc = node(
        "format_clause",
        "",
        vec![
            punct("FORMAT"),
            leaf("format_mode", "span"),
            ident("a"),
            punct(","),
            ident("b"),
            punct("AS"),
            field("span_id", ident("grp")),
            node(
                "format_setting_block",
                "",
                vec![
                    setting("decimals", number("3")),
                    setting("sep", leaf("boolean", "true")),
                    setting("pattern", string("'#,##0'")),
                ],
            ),
            node(
                "format_renaming_block",
                "",
                vec![
                    renaming(ident("NULL"), "'-'"),
                    renaming(number("0.0"), "'zero'"),
                    renaming(number("1.5"), "'one and a half'"),
                    renaming(string("'x'"), "'ex'"),
                    renaming(punct("*"), "'{} units'"),
                    renaming(ident("other"), "'o'"),
                ],
            ),
        ],
    );
    let st = parse_ok(&query(vec![fc]));
    assert_eq!(st.format_clauses.len(), 1);
    let f = &st.format_clauses[0];
    assert_eq!(f.mode, FormatMode::Span);
    assert_eq!(f.columns, vec!["a".to_string(), "b".to_string()]);
    assert_eq!(f.span_id, Some("grp".to_string()));
    assert_eq!(f.settings.len(), 3);
    assert_eq!(f.settings[0].key, "decimals");
    assert!(matches!(&f.settings[0].value, SettingValue::Number(n) if n == "3"));
    assert!(matches!(f.settings[1].value, SettingValue::Bool(true)));
    assert!(matches!(&f.settings[2].value, SettingValue::String(t) if t == "#,##0"));
    assert_eq!(f.renamings.len(), 6);
    assert!(matches!(f.renamings[0].lhs, RenamingLhs::Null));
    assert_eq!(f.renamings[0].rhs, "-");
    assert!(matches!(f.renamings[1].lhs, RenamingLhs::Zero));
    assert!(matches!(&f.renamings[2].lhs, RenamingLhs::Number(n) if n == "1.5"));
    assert!(matches!(&f.renamings[3].lhs, RenamingLhs::Literal(t) if t == "x"));
    assert!(matches!(f.renamings[4].lhs, RenamingLhs::Wildcard));
    assert_eq!(f.renamings[4].rhs, "{} units");
    assert!(matches!(&f.renamings[5].lhs, RenamingLhs::Identifier(t) if t == "other"));
}

#[test]
fn format_wildcard_and_stub_modes() {
    let wild = node(
        "format_clause",
        "",
        vec![punct("FORMAT"), leaf("format_wildcard", "*")],
    );
    let stub = node(
        "format_clause",
        "",
        vec![punct("FORMAT"), leaf("format_mode", "STUB"), ident("name")],
    );
    let st = parse_ok(&query(vec![wild, stub]));
    assert_eq!(st.format_clauses[0].mode, FormatMode::Plain);
    assert_eq!(st.format_clauses[0].columns, vec!["*".to_string()]);
    assert_eq!(st.format_clauses[1].mode, FormatMode::Stub);
    assert_eq!(st.format_clauses[1].columns, vec!["name".to_string()]);
    assert!(st.format_clauses[1].span_id.is_none());
}

#[test]
fn units_setting_was_removed() {
    let fc = node(
        "format_clause",
        "",
        vec![
            ident("area"),
            node(
                "format_setting_block",
                "",
                vec![setting("UNITS", string("'km'"))],
            ),
        ],
    );
    assert_eq!(
        parse_err(&query(vec![fc])),
        "FORMAT SETTING `units` was removed; put units in the LABEL text instead, e.g. LABEL land_area => 'Land Area (km\u{b2})'"
    );
}

#[test]
fn setting_without_value_is_refused() {
    let fc = node(
        "format_clause",
        "",
        vec![
            ident("a"),
            node(
                "format_setting_block",
                "",
                vec![node("format_setting_pair", "", vec![ident("k"), punct("=>")])],
            ),
        ],
    );
    assert_eq!(parse_err(&query(vec![fc])), "Missing value in FORMAT SETTING");
}

fn scale(children: Vec<SyntaxNode>) -> SyntaxNode {
    node("tab_scale_clause", "", children)
}

#[test]
fn scale_clause_with_stops() {
    let sc = scale(vec![
        field("aesthetic", ident("background")),
        node("tab_scale_from", "", vec![number("0"), number("100")]),
        node("tab_scale_to", "", vec![string("'white'"), string("'darkgreen'")]),
        node(
            "tab_scale_via",
            "",
            vec![field("transform", ident("log10"))],
        ),
        node(
            "tab_scale_setting",
            "",
            vec![
                field("key", ident("target")),
                punct("=>"),
                punct("("),
                ident("x"),
                punct(","),
                ident("y"),
                punct(")"),
            ],
        ),
    ]);
    let st = parse_ok(&query(vec![sc]));
    let s = &st.scale_clauses[0];
    assert_eq!(s.aesthetic, "background");
    assert_eq!(s.domain, Some(("0".to_string(), "100".to_string())));
    assert!(matches!(&s.palette, ScalePalette::Stops(v) if v == &vec!["white".to_string(), "darkgreen".to_string()]));
    assert_eq!(s.transform, Some("log10".to_string()));
    assert_eq!(s.target_cols, vec!["x".to_string(), "y".to_string()]);
}

#[test]
fn scale_clause_with_named_palette() {
    let sc = scale(vec![
        field("aesthetic", ident("foreground")),
        node("tab_scale_to", "", vec![field("palette", ident("viridis"))]),
    ]);
    let st = parse_ok(&query(vec![sc]));
    let s = &st.scale_clauses[0];
    assert!(s.domain.is_none());
    assert!(matches!(&s.palette, ScalePalette::Named(n) if n == "viridis"));
    assert!(s.transform.is_none());
    assert!(s.target_cols.is_empty());
}

#[test]
fn scale_errors() {
    let no_aes = scale(vec![node("tab_scale_to", "", vec![string("'red'")])]);
    assert_eq!(parse_err(&query(vec![no_aes])), "SCALE missing aesthetic");
    let no_to = scale(vec![field("aesthetic", ident("size"))]);
    assert_eq!(parse_err(&query(vec![no_to])), "SCALE missing TO clause");
    let bare = scale(vec![
        field("aesthetic", ident("size")),
        node("tab_scale_to", "", vec![string("'1px'"), string("'2px'")]),
        node(
            "tab_scale_setting",
            "",
            vec![field("key", ident("target")), punct("=>"), ident("x")],
        ),
    ]);
    assert_eq!(
        parse_err(&query(vec![bare])),
        "SCALE target requires a parenthesized list, e.g. `target => (col)` or `target => (col1, col2)`"
    );
}

#[test]
fn highlight_clause() {
    let hc = node(
        "tab_highlight_clause",
        "",
        vec![
            at(0, punct("HIGHLIGHT")),
            at(10, ident("a")),
            at(12, ident("b")),
            at(
                14,
                node(
                    "filter_clause",
                    "",
                    vec![leaf("filter_expression", "  mpg > 20  ")],
                ),
            ),
            at(40, ident("after")),
            at(
                50,
                node(
                    "tab_highlight_setting",
                    "",
                    vec![node(
                        "tab_highlight_pair",
                        "",
                        vec![
                            field("key", ident("background")),
                            punct("=>"),
                            string("'yellow'"),
                        ],
                    )],
                ),
            ),
        ],
    );
    let st = parse_ok(&query(vec![hc]));
    let h = &st.highlight_clauses[0];
    assert_eq!(h.columns, vec!["a".to_string(), "b".to_string()]);
    assert_eq!(h.filter, "mpg > 20");
    assert_eq!(h.settings.len(), 1);
    assert_eq!(h.settings[0].key, "background");
    assert!(matches!(&h.settings[0].value, SettingValue::String(t) if t == "yellow"));
}

#[test]
fn highlight_errors() {
    let no_filter = node("tab_highlight_clause", "", vec![ident("a")]);
    assert_eq!(parse_err(&query(vec![no_filter])), "HIGHLIGHT missing FILTER clause");
    let no_cols = node(
        "tab_highlight_clause",
        "",
        vec![node(
            "filter_clause",
            "",
            vec![leaf("filter_expression", "x")],
        )],
    );
    assert_eq!(
        parse_err(&query(vec![no_cols])),
        "HIGHLIGHT requires at least one column"
    );
    let no_expr = node(
        "tab_highlight_clause",
        "",
        vec![ident("a"), at(5, node("filter_clause", "", vec![]))],
    );
    assert_eq!(
        parse_err(&query(vec![no_expr])),
        "HIGHLIGHT FILTER missing expression"
    );
}

fn facet_pair(key: &str, value: SyntaxNode) -> SyntaxNode {
    node(
        "tab_facet_pair",
        "",
        vec![field("key", ident(key)), punct("=>"), field("value", value)],
    )
}

fn facet(pairs: Vec<SyntaxNode>) -> SyntaxNode {
    node(
        "tab_facet_clause",
        "",
        vec![
            field("group", ident("region")),
            node("tab_facet_setting_block", "", pairs),
        ],
    )
}

#[test]
fn facet_clause_values() {
    let fc = facet(vec![
        facet_pair("side", string("'top'")),
        facet_pair("limit", number("5")),
        facet_pair("show", leaf("boolean", "false")),
        facet_pair("aggregate", ident("sum")),
        facet_pair(
            "target",
            node(
                "tab_facet_id_list",
                "",
                vec![punct("("), ident("x"), punct(","), ident("y"), punct(")")],
            ),
        ),
        facet_pair(
            "groups",
            node(
                "tab_facet_str_list",
                "",
                vec![punct("["), string("'North'"), string("'South'"), punct("]")],
            ),
        ),
    ]);
    let st = parse_ok(&query(vec![fc]));
    let f = st.facet.unwrap();
    assert_eq!(f.group_col, "region");
    assert_eq!(f.settings.len(), 6);
    assert!(matches!(&f.settings[0].value, FacetValue::String(t) if t == "top"));
    assert!(matches!(&f.settings[1].value, FacetValue::Number(t) if t == "5"));
    assert!(matches!(f.settings[2].value, FacetValue::Bool(false)));
    assert!(matches!(&f.settings[3].value, FacetValue::Identifier(t) if t == "sum"));
    assert!(matches!(&f.settings[4].value, FacetValue::IdentList(v) if v == &vec!["x".to_string(), "y".to_string()]));
    assert!(matches!(&f.settings[5].value, FacetValue::StrList(v) if v == &vec!["North".to_string(), "South".to_string()]));
}

#[test]
fn facet_errors() {
    let mean = facet(vec![facet_pair("aggregate", string("'Mean'"))]);
    assert_eq!(
        parse_err(&query(vec![mean])),
        "FACET aggregate 'Mean' is not accepted; use 'avg' instead"
    );
    let avg_list = facet(vec![facet_pair(
        "AGGREGATE",
        node(
            "tab_facet_id_list",
            "",
            vec![ident("sum"), ident("average")],
        ),
    )]);
    assert_eq!(
        parse_err(&query(vec![avg_list])),
        "FACET aggregate 'average' is not accepted; use 'avg' instead"
    );
    let bare_target = facet(vec![facet_pair("target", ident("x"))]);
    assert_eq!(
        parse_err(&query(vec![bare_target])),
        "FACET target requires a parenthesized list, e.g. `target => (col)` or `target => (col1, col2)`"
    );
    let odd = facet(vec![facet_pair("side", leaf("array", "[1]"))]);
    assert_eq!(
        parse_err(&query(vec![odd])),
        "Unsupported FACET value kind 'array'"
    );
    let no_group = node("tab_facet_clause", "", vec![]);
    assert_eq!(parse_err(&query(vec![no_group])), "FACET missing group column");
    let two = query(vec![facet(vec![]), facet(vec![])]);
    assert_eq!(parse_err(&two), "TABULATE allows at most one FACET clause");
}

fn sql_from(table: &str, text: &str) -> SyntaxNode {
    node(
        "sql_portion",
        text,
        vec![node(
            "sql_statement",
            text,
            vec![node(
                "select_statement",
                text,
                vec![node(
                    "from_clause",
                    "",
                    vec![
                        punct("FROM"),
                        node(
                            "table_ref",
                            "",
                            vec![field(
                                "table",
                                node("qualified_name", table, vec![ident(table)]),
                            )],
                        ),
                    ],
                )],
            )],
        )],
    )
}

#[test]
fn sql_table_is_the_first_from() {
    let root = node(
        "query",
        "",
        vec![
            sql_from("gtcars", "SELECT * FROM gtcars"),
            node("tabulate_statement", "", vec![]),
        ],
    );
    assert_eq!(extract_sql_from_table(&root), Some("gtcars".to_string()));
    let bare = query(vec![]);
    assert_eq!(extract_sql_from_table(&bare), None);
}

#[test]
fn table_name_falls_back_to_from_source_then_data() {
    let with_sql = node(
        "query",
        "",
        vec![
            sql_from("t1", "SELECT * FROM t1"),
            node(
                "tabulate_statement",
                "",
                vec![node("tab_from_clause", "", vec![ident("t2")])],
            ),
        ],
    );
    let st = parse_ok(&with_sql);
    assert_eq!(determine_table_name(&with_sql, &st), "t1");

    let from_only = query(vec![node("tab_from_clause", "", vec![ident("t2")])]);
    let st = parse_ok(&from_only);
    assert_eq!(determine_table_name(&from_only, &st), "t2");

    let nothing = query(vec![]);
    let st = parse_ok(&nothing);
    assert_eq!(determine_table_name(&nothing, &st), "__data__");
}

#[test]
fn sql_for_plain_and_highlighted_queries() {
    let root = node(
        "query",
        "",
        vec![
            sql_from("cars", "  SELECT * FROM cars;; "),
            node("tabulate_statement", "", vec![]),
        ],
    );
    let mut st = parse_ok(&root);
    assert_eq!(build_sql(&root, &st, "cars"), "SELECT * FROM cars");
    st.highlight_clauses.push(HighlightClause {
        columns: vec!["a".to_string()],
        filter: "a > 1".to_string(),
        settings: vec![],
    });
    st.highlight_clauses.push(HighlightClause {
        columns: vec!["b".to_string()],
        filter: "b = 'x'".to_string(),
        settings: vec![],
    });
    assert_eq!(
        build_sql(&root, &st, "cars"),
        "SELECT __t.*, (a > 1) AS __hl_0__match, (b = 'x') AS __hl_1__match FROM (SELECT * FROM cars) __t"
    );

    let bare = query(vec![]);
    let st = parse_ok(&bare);
    assert_eq!(build_sql(&bare, &st, "__data__"), "SELECT * FROM __data__");
}

fn cte_only_sql() -> SyntaxNode {
    node(
        "sql_portion",
        "WITH t AS (SELECT 1 AS x);",
        vec![node(
            "sql_statement",
            "",
            vec![node(
                "with_statement",
                "",
                vec![punct("WITH"), node("cte_definition", "", vec![])],
            )],
        )],
    )
}

#[test]
fn cte_only_sql_prefixes_the_select() {
    assert!(sql_portion_is_cte_only(&cte_only_sql()));
    let root = node(
        "query",
        "",
        vec![cte_only_sql(), node("tabulate_statement", "", vec![])],
    );
    let st = parse_ok(&root);
    assert_eq!(
        build_sql(&root, &st, "t"),
        "WITH t AS (SELECT 1 AS x) SELECT * FROM t"
    );
    let with_body = node(
        "sql_portion",
        "",
        vec![node(
            "sql_statement",
            "",
            vec![node(
                "with_statement",
                "",
                vec![node("cte_definition", "", vec![]), node("select_statement", "", vec![])],
            )],
        )],
    );
    assert!(!sql_portion_is_cte_only(&with_body));
}
