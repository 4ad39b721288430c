use ggsql::tabulate::ast::{
    FacetClause, FacetSetting, FacetValue, FormatClause, FormatMode, FormatRenaming, FormatSetting,
    HighlightClause, HighlightSetting, LabelClause, RenamingLhs, ScaleClause, ScalePalette,
    SettingValue, TabulateStmt,
};
use ggsql::tabulate::execute::{
    build_cell_style, build_row_groups, build_table_ir, determine_alignment,
    detect_string_alignment, is_date_or_time_string, partition_rows, resolve_cell, smart_text,
    assemble_scales, blank_scale_grid, paint_column, scale_kind, scale_targets, CellInput, ColAlign,
    ColMeta, ColumnType, FacetView, HeaderNode, ScaleKind, ScalePaint,
};
use ggsql::tabulate::format::NumValue;
use ggsql::tabulate::layout::{plan_table, BatchColumn, TableError, TablePlan};

fn s(x: &str) -> String {
    x.to_string()
}

fn stmt() -> TabulateStmt {
    TabulateStmt {
        columns: vec![],
        from_source: None,
        format_clauses: vec![],
        label: None,
        scale_clauses: vec![],
        highlight_clauses: vec![],
        facet: None,
    }
}

fn fmt(mode: FormatMode, cols: &[&str]) -> FormatClause {
    FormatClause {
        mode,
        columns: cols.iter().map(|c| s(c)).collect(),
        span_id: None,
        settings: vec![],
        renamings: vec![],
    }
}

fn setting(k: &str, v: SettingValue) -> FormatSetting {
    FormatSetting { key: s(k), value: v }
}

fn renaming(lhs: RenamingLhs, rhs: &str) -> FormatRenaming {
    FormatRenaming { lhs, rhs: s(rhs) }
}

fn text_col(name: &str, vals: &[Option<&str>]) -> BatchColumn {
    BatchColumn {
        name: s(name),
        batch_type: ColumnType::Utf8,
        is_float64: false,
        strings: vals.iter().map(|v| v.map(|x| x.to_string())).collect(),
    }
}

fn num_col(name: &str, float: bool) -> BatchColumn {
    BatchColumn { name: s(name), batch_type: ColumnType::Numeric, is_float64: float, strings: vec![] }
}

fn plan(st: &TabulateStmt, batch: &Vec<BatchColumn>) -> TablePlan {
    match plan_table(st, batch, &vec![]) {
        Ok(p) => p,
        Err(e) => panic!("{}", e.message()),
    }
}

fn names(p: &TablePlan) -> Vec<String> {
    p.columns.iter().map(|c| c.name.clone()).collect()
}

fn cell(text: Option<&str>) -> CellInput {
    CellInput {
        is_null: text.is_none(),
        string: text.map(|t| t.to_string()),
        display: text.map(|t| t.to_string()),
        numeric: false,
        is_zero: false,
        number_matches: vec![],
        num_value: None,
        auto_text: None,
    }
}

fn number(display: &str, zero: bool, matches: Vec<bool>, v: Option<NumValue>) -> CellInput {
    CellInput {
        is_null: false,
        string: None,
        display: Some(s(display)),
        numeric: true,
        is_zero: zero,
        number_matches: matches,
        num_value: v,
        auto_text: None,
    }
}

#[test]
fn all_columns_in_result_order_with_auto_alignment() {
    let batch = vec![
        text_col("name", &[Some("x"), None]),
        num_col("n", false),
        text_col("__hl_0__match", &[]),
        text_col("when", &[Some("2015-01-15"), None]),
    ];
    let p = plan(&stmt(), &batch);
    assert_eq!(names(&p), vec!["name", "n", "when"]);
    assert_eq!(p.columns[0].align, ColAlign::Left);
    assert_eq!(p.columns[1].align, ColAlign::Right);
    assert_eq!(p.columns[2].align, ColAlign::Right);
    assert_eq!(p.columns[0].label, "name");
    assert!(!p.columns[0].label_is_user);
    assert!(p.stub_col.is_none());
    assert!(!p.synthetic_stub);
    assert_eq!(p.header_forest.len(), 3);
}

#[test]
fn requested_columns_take_the_result_spelling() {
    let mut st = stmt();
    st.columns = vec![s("N"), s("Name"), s("missing")];
    let batch = vec![text_col("name", &[]), num_col("n", false)];
    let p = plan(&st, &batch);
    assert_eq!(names(&p), vec!["n", "name", "missing"]);
    assert_eq!(p.rules[2].source, None);
    assert_eq!(p.rules[0].source, Some(1));
}

#[test]
fn hidden_and_group_columns_do_not_show() {
    let mut st = stmt();
    let mut hide = fmt(FormatMode::Plain, &["B"]);
    hide.settings.push(setting("HIDE", SettingValue::Bool(true)));
    st.format_clauses.push(hide);
    st.facet = Some(FacetClause { group_col: s("g"), settings: vec![] });
    let batch = vec![text_col("a", &[]), num_col("b", false), text_col("G", &[])];
    let p = plan(&st, &batch);
    // A FACET without FORMAT STUB adds an empty stub column first.
    assert_eq!(names(&p), vec!["", "a"]);
    assert!(p.synthetic_stub);
    assert_eq!(p.stub_col, Some(0));
}

#[test]
fn stub_moves_first_with_empty_or_span_label() {
    let mut st = stmt();
    let mut stub = fmt(FormatMode::Stub, &["model"]);
    stub.span_id = Some(s("head"));
    st.format_clauses.push(stub);
    let batch = vec![num_col("hp", false), text_col("model", &[])];
    let p = plan(&st, &batch);
    assert_eq!(names(&p), vec!["model", "hp"]);
    assert_eq!(p.stub_col, Some(0));
    assert_eq!(p.columns[0].label, "");
    st.label = Some(LabelClause {
        title: Some(s("Cars")),
        subtitle: None,
        caption: None,
        renames: vec![(s("HEAD"), s("Model")), (s("hp"), s("Horsepower"))],
    });
    let p = plan(&st, &batch);
    assert_eq!(p.columns[0].label, "Model");
    assert!(p.columns[0].label_is_user);
    assert_eq!(p.columns[1].label, "Horsepower");
    assert_eq!(p.title.as_deref(), Some("Cars"));
}

#[test]
fn width_align_and_formats_follow_the_last_clause() {
    let mut st = stmt();
    let mut a = fmt(FormatMode::Plain, &["*"]);
    a.settings.push(setting("width", SettingValue::String(s("10px"))));
    a.settings.push(setting("align", SettingValue::String(s("CENTER"))));
    let mut b = fmt(FormatMode::Plain, &["x"]);
    b.settings.push(setting("width", SettingValue::String(s("20px"))));
    b.settings.push(setting("align", SettingValue::String(s("sideways"))));
    b.renamings.push(renaming(RenamingLhs::Wildcard, "{:num %.2e}"));
    st.format_clauses.push(a);
    st.format_clauses.push(b);
    let batch = vec![num_col("x", true), num_col("y", true)];
    let p = plan(&st, &batch);
    assert_eq!(p.columns[0].width.as_deref(), Some("20px"));
    assert_eq!(p.columns[1].width.as_deref(), Some("10px"));
    assert_eq!(p.columns[0].align, ColAlign::Center);
    assert!(p.columns[0].raw_html);
    assert!(!p.columns[1].raw_html);
}

#[test]
fn time_template_aligns_right() {
    let mut st = stmt();
    let mut a = fmt(FormatMode::Plain, &["d"]);
    a.settings.push(setting("align", SettingValue::String(s("left"))));
    a.renamings.push(renaming(RenamingLhs::Wildcard, "{:time %Y}"));
    st.format_clauses.push(a);
    let p = plan(&st, &vec![text_col("d", &[Some("2024-06-23")])]);
    assert_eq!(p.columns[0].align, ColAlign::Right);
    let c = cell(Some("2024-06-23"));
    assert_eq!(resolve_cell(&p.rules[0], &c), "2024");
}

#[test]
fn spanner_ids_must_be_new() {
    let mut st = stmt();
    let mut sp = fmt(FormatMode::Span, &["a"]);
    sp.span_id = Some(s("A"));
    st.format_clauses.push(sp);
    let batch = vec![text_col("a", &[])];
    match plan_table(&st, &batch, &vec![]) {
        Err(TableError::SpannerCollides(id)) => assert_eq!(id, "A"),
        _ => panic!("expected a collision"),
    }
    let mut st = stmt();
    for _ in 0..2 {
        let mut sp = fmt(FormatMode::Span, &["a"]);
        sp.span_id = Some(s("grp"));
        st.format_clauses.push(sp);
    }
    match plan_table(&st, &batch, &vec![]) {
        Err(e) => {
            assert!(matches!(e, TableError::DuplicateSpanner(_)));
            assert_eq!(e.message(), "duplicate spanner ID 'grp'");
        },
        _ => panic!("expected a duplicate"),
    }
}

#[test]
fn spanners_nest_and_keep_listing_order() {
    let mut st = stmt();
    let mut inner = fmt(FormatMode::Span, &["c", "b"]);
    inner.span_id = Some(s("inner"));
    let mut outer = fmt(FormatMode::Span, &["a", "INNER"]);
    outer.span_id = Some(s("outer"));
    st.format_clauses.push(inner);
    st.format_clauses.push(outer);
    st.label = Some(LabelClause { title: None, subtitle: None, caption: None, renames: vec![(s("outer"), s("Top"))] });
    let batch = vec![text_col("a", &[]), text_col("b", &[]), text_col("c", &[]), text_col("d", &[])];
    let p = plan(&st, &batch);
    assert_eq!(p.header_forest.len(), 2);
    match &p.header_forest[0] {
        HeaderNode::Spanner { id, label, label_is_user, children } => {
            assert_eq!(id, "outer");
            assert_eq!(label, "Top");
            assert!(*label_is_user);
            assert_eq!(children.len(), 2);
            assert!(matches!(children[0], HeaderNode::Column { col_idx: 0 }));
            match &children[1] {
                HeaderNode::Spanner { children: kids, label, .. } => {
                    assert_eq!(label, "inner");
                    assert!(matches!(kids[0], HeaderNode::Column { col_idx: 2 }));
                    assert!(matches!(kids[1], HeaderNode::Column { col_idx: 1 }));
                },
                _ => panic!("expected the inner spanner"),
            }
        },
        _ => panic!("expected a spanner"),
    }
    assert!(matches!(p.header_forest[1], HeaderNode::Column { col_idx: 3 }));
    assert_eq!(p.header_forest[0].leaf_count(), 3);
    assert_eq!(p.header_forest[0].height(), 2);
    assert_eq!(p.header_forest[1].height(), 0);
}

#[test]
fn substitution_precedence() {
    let mut st = stmt();
    let mut a = fmt(FormatMode::Plain, &["v"]);
    a.renamings.push(renaming(RenamingLhs::Literal(s("x")), "ex--tra"));
    a.renamings.push(renaming(RenamingLhs::Null, "---"));
    a.renamings.push(renaming(RenamingLhs::Zero, "zero..."));
    a.renamings.push(renaming(RenamingLhs::Number(s("5")), "five"));
    a.renamings.push(renaming(RenamingLhs::Wildcard, "{:num %.1f}"));
    st.format_clauses.push(a);
    let p = plan(&st, &vec![num_col("v", true)]);
    let r = &p.rules[0];
    assert_eq!(resolve_cell(r, &cell(None)), "\u{2014}");
    assert_eq!(resolve_cell(r, &number("0", true, vec![false], None)), "zero\u{2026}");
    assert_eq!(resolve_cell(r, &number("5", false, vec![true], None)), "five");
    let v = NumValue::Fixed { negative: false, text: s("2.5") };
    assert_eq!(resolve_cell(r, &number("2.5", false, vec![false], Some(v))), "2.5");
    // NaN under a numeric template reads NA.
    assert_eq!(resolve_cell(r, &number("NaN", false, vec![false], None)), "NA");
}

#[test]
fn literal_substitution_needs_a_string_value() {
    let mut st = stmt();
    let mut a = fmt(FormatMode::Plain, &["t"]);
    a.renamings.push(renaming(RenamingLhs::Literal(s("x")), "ex"));
    a.renamings.push(renaming(RenamingLhs::Literal(s("x")), "second"));
    st.format_clauses.push(a);
    let p = plan(&st, &vec![text_col("t", &[])]);
    assert_eq!(resolve_cell(&p.rules[0], &cell(Some("x"))), "ex");
    assert_eq!(resolve_cell(&p.rules[0], &cell(Some("y"))), "y");
    assert_eq!(resolve_cell(&p.rules[0], &cell(None)), "NA");
}

#[test]
fn missing_column_reads_na() {
    let mut st = stmt();
    st.columns = vec![s("ghost")];
    let p = plan(&st, &vec![text_col("a", &[])]);
    assert_eq!(resolve_cell(&p.rules[0], &cell(Some("anything"))), "NA");
}

#[test]
fn float_columns_use_the_automatic_text() {
    let p = plan(&stmt(), &vec![num_col("f", true), num_col("i", false)]);
    let mut c = number("1.5", false, vec![], None);
    c.auto_text = Some(s("1.50"));
    assert_eq!(resolve_cell(&p.rules[0], &c), "1.50");
    assert_eq!(resolve_cell(&p.rules[1], &c), "1.5");
}

#[test]
fn later_highlight_wins() {
    let cols = vec![
        ColMeta { name: s("a"), label: s("a"), label_is_user: false, align: ColAlign::Left, width: None, raw_html: false },
        ColMeta { name: s("b"), label: s("b"), label_is_user: false, align: ColAlign::Left, width: None, raw_html: false },
    ];
    let hl = |cols: &[&str], bg: &str, face: Option<&str>| {
        let mut settings = vec![HighlightSetting { key: s("Background"), value: SettingValue::String(s(bg)) }];
        if let Some(f) = face {
            settings.push(HighlightSetting { key: s("face"), value: SettingValue::String(s(f)) });
        }
        HighlightClause { columns: cols.iter().map(|c| s(c)).collect(), filter: s("x > 1"), settings }
    };
    let hls = vec![hl(&["a", "B"], "white", Some("bold")), hl(&["a"], "#ff0000", None)];
    let matches = vec![Some(vec![true, true]), Some(vec![false, true])];
    let st = build_cell_style(&hls, &cols, &matches, 2);
    assert_eq!(st[0][0].background.as_deref(), Some("#FFFFFF"));
    assert_eq!(st[1][0].background.as_deref(), Some("#FF0000"));
    assert_eq!(st[1][0].face.as_deref(), Some("bold"));
    assert_eq!(st[1][1].background.as_deref(), Some("#FFFFFF"));
    // A predicate column the result lacks matches nothing.
    let st = build_cell_style(&hls, &cols, &vec![None, None], 2);
    assert!(st[0][0].is_empty() && st[1][1].is_empty());
}

fn facet(settings: Vec<(&str, FacetValue)>) -> Option<FacetClause> {
    Some(FacetClause {
        group_col: s("grp"),
        settings: settings.into_iter().map(|(k, v)| FacetSetting { key: s(k), value: v }).collect(),
    })
}

#[test]
fn groups_in_discovery_order_with_summaries() {
    let vals = vec![s("b"), s("a"), s("b"), s("c")];
    let (order, rows) = partition_rows(&vals);
    assert_eq!(order, vec!["b", "a", "c"]);
    assert_eq!(rows, vec![vec![0, 2], vec![1], vec![3]]);
    let cols = vec![
        ColMeta { name: s(""), label: s(""), label_is_user: false, align: ColAlign::Left, width: None, raw_html: false },
        ColMeta { name: s("v"), label: s("v"), label_is_user: false, align: ColAlign::Right, width: None, raw_html: false },
        ColMeta { name: s("w"), label: s("w"), label_is_user: false, align: ColAlign::Right, width: None, raw_html: false },
    ];
    let f = facet(vec![
        ("target", FacetValue::IdentList(vec![s("V")])),
        ("aggregate", FacetValue::StrList(vec![s("sum"), s("max")])),
        ("label", FacetValue::StrList(vec![s("Total")])),
        ("groups", FacetValue::StrList(vec![s("A"), s("b")])),
    ]);
    let sums: Vec<Vec<Vec<Option<String>>>> = (0..3)
        .map(|g| (0..2).map(|a| vec![Some(s("x")), Some(format!("{}-{}", g, a)), Some(s("y"))]).collect())
        .collect();
    let groups = match build_row_groups(&f, &cols, Some(0), &Some(vals.clone()), &sums) {
        Ok(g) => g,
        Err(e) => panic!("{}", e.message()),
    };
    assert_eq!(groups.len(), 3);
    assert_eq!(groups[0].name, "b");
    assert_eq!(groups[0].row_indices, vec![0, 2]);
    assert_eq!(groups[0].summary_side, "bottom");
    assert_eq!(groups[0].summary_rows.len(), 2);
    assert_eq!(groups[0].summary_rows[0].label, "Total");
    assert_eq!(groups[0].summary_rows[1].label, "max");
    assert_eq!(groups[0].summary_rows[1].cells, vec![None, Some(s("0-1")), None]);
    assert_eq!(groups[1].summary_rows.len(), 2);
    assert_eq!(groups[2].summary_rows.len(), 0);
}

#[test]
fn unknown_facet_group_is_an_error() {
    let f = facet(vec![("groups", FacetValue::StrList(vec![s("a"), s("zz")]))]);
    match build_row_groups(&f, &vec![], None, &Some(vec![s("a")]), &vec![]) {
        Err(e) => assert_eq!(e.message(), "FACET groups: 'zz' is not a value of grouping column 'grp'"),
        Ok(_) => panic!("expected an error"),
    }
    // Without FACET, or without the grouping column, there are no groups.
    assert!(build_row_groups(&None, &vec![], None, &Some(vec![s("a")]), &vec![]).unwrap().is_empty());
    assert!(build_row_groups(&f, &vec![], None, &None, &vec![]).unwrap().is_empty());
}

#[test]
fn facet_view_defaults_and_last_values() {
    let v = FacetView::from_settings(&vec![
        FacetSetting { key: s("side"), value: FacetValue::String(s("top")) },
        FacetSetting { key: s("SIDE"), value: FacetValue::Number(s("3")) },
        FacetSetting { key: s("fmt"), value: FacetValue::String(s("{:num %d}")) },
        FacetSetting { key: s("aggregate"), value: FacetValue::Identifier(s("sum")) },
    ]);
    assert_eq!(v.side, "top");
    assert_eq!(v.fmt.as_deref(), Some("{:num %d}"));
    assert_eq!(v.aggregates, vec!["sum"]);
    assert!(v.groups_filter.is_none());
    assert!(v.target_cols.is_empty());
}

#[test]
fn whole_table_rows_styles_and_groups() {
    let mut st = stmt();
    st.facet = Some(FacetClause { group_col: s("g"), settings: vec![] });
    let batch = vec![text_col("g", &[Some("p"), Some("q")]), text_col("t", &[Some("x"), None])];
    let p = plan(&st, &batch);
    let cells = vec![vec![cell(Some("x"))], vec![cell(None)]];
    let t = match build_table_ir(&st, p, &cells, &vec![], &vec![], &Some(vec![s("p"), s("q")]), &vec![]) {
        Ok(t) => t,
        Err(e) => panic!("{}", e.message()),
    };
    assert_eq!(t.rows, vec![vec![s(""), s("x")], vec![s(""), s("NA")]]);
    assert_eq!(t.cell_style.len(), 2);
    assert_eq!(t.cell_style[0].len(), 2);
    assert_eq!(t.groups.len(), 2);
    assert_eq!(t.groups[1].row_indices, vec![1]);
    assert_eq!(t.cell_bg.len(), 2);
    assert!(t.cell_bg.iter().all(|r| r.len() == t.columns.len()));
}

#[test]
fn date_and_time_strings() {
    assert!(is_date_or_time_string("2024-06-23"));
    assert!(is_date_or_time_string("13:35"));
    assert!(is_date_or_time_string("13:35:07"));
    assert!(is_date_or_time_string("2024-06-23 13:35"));
    assert!(!is_date_or_time_string("2024/06/23"));
    assert!(!is_date_or_time_string("1335"));
    assert!(!is_date_or_time_string("é4-06-23"));
    assert_eq!(detect_string_alignment(&vec![None, Some(s("2024-06-23"))]), Some(ColAlign::Right));
    assert_eq!(detect_string_alignment(&vec![None]), None);
    assert_eq!(detect_string_alignment(&vec![Some(s("2024-06-23")), Some(s("x"))]), None);
}

#[test]
fn alignment_prefers_the_source_type() {
    let none: Vec<Option<String>> = vec![];
    assert_eq!(determine_alignment(Some(ColumnType::Dictionary), Some(ColumnType::Numeric), &none), ColAlign::Center);
    assert_eq!(determine_alignment(Some(ColumnType::Other), Some(ColumnType::Temporal), &none), ColAlign::Right);
    assert_eq!(determine_alignment(None, Some(ColumnType::Other), &none), ColAlign::Left);
    assert_eq!(determine_alignment(None, None, &none), ColAlign::Left);
}

#[test]
fn smart_text_dashes_and_ellipsis() {
    assert_eq!(smart_text("a---b--c...d"), "a\u{2014}b\u{2013}c\u{2026}d");
    assert_eq!(smart_text("----"), "\u{2014}-");
    assert_eq!(smart_text("plain"), "plain");
}

#[test]
fn col_align_classes() {
    assert_eq!(ColAlign::Left.gt_class(), "gt_left");
    assert_eq!(ColAlign::Center.gt_class(), "gt_center");
    assert!(ColAlign::Right.tabular_nums());
    assert!(!ColAlign::Left.tabular_nums());
}

fn meta(name: &str) -> ColMeta {
    ColMeta {
        name: s(name),
        label: s(name),
        label_is_user: false,
        align: ColAlign::Left,
        width: None,
        raw_html: false,
    }
}

fn scale(aes: &str, targets: &[&str]) -> ScaleClause {
    ScaleClause {
        aesthetic: s(aes),
        domain: None,
        palette: ScalePalette::Stops(vec![s("white"), s("red")]),
        transform: None,
        target_cols: targets.iter().map(|t| s(t)).collect(),
    }
}

#[test]
fn scale_kinds_by_name() {
    assert_eq!(scale_kind("Background"), Some(ScaleKind::Background));
    assert_eq!(scale_kind("COLOR"), Some(ScaleKind::Foreground));
    assert_eq!(scale_kind("foreground"), Some(ScaleKind::Foreground));
    assert_eq!(scale_kind("size"), Some(ScaleKind::Size));
    assert_eq!(scale_kind("opacity"), Some(ScaleKind::Opacity));
    assert_eq!(scale_kind("shape"), None);
}

#[test]
fn scale_targets_resolve_columns_and_data() {
    let mut st = stmt();
    st.scale_clauses = vec![
        scale("background", &["MPG", "missing", "hp"]),
        scale("shape", &["mpg"]),
        scale("size", &["hp"]),
    ];
    let columns = vec![meta(""), meta("mpg"), meta("hp")];
    let data = vec![s("hp"), s("mpg")];
    let ts = scale_targets(&st, &columns, &data);
    let got: Vec<(usize, ScaleKind, usize, usize)> =
        ts.iter().map(|t| (t.clause, t.kind, t.col_idx, t.data_idx)).collect();
    assert_eq!(
        got,
        vec![
            (0, ScaleKind::Background, 1, 1),
            (0, ScaleKind::Background, 2, 0),
            (2, ScaleKind::Size, 2, 0),
        ]
    );
}

#[test]
fn scale_target_needs_fetched_data() {
    let mut st = stmt();
    st.scale_clauses = vec![scale("background", &["a"])];
    let columns = vec![meta("a")];
    assert!(scale_targets(&st, &columns, &vec![s("A")]).is_empty());
}

#[test]
fn painting_columns_later_wins() {
    let g = blank_scale_grid(2, 3);
    assert_eq!(g, vec![vec![None, None, None], vec![None, None, None]]);
    let g = paint_column(&g, 1, &vec![Some(s("#FFFFFF")), Some(s("#FF0000"))]);
    let g = paint_column(&g, 1, &vec![None, Some(s("#00FF00"))]);
    let g = paint_column(&g, 2, &vec![Some(s("12.00px")), None]);
    assert_eq!(
        g,
        vec![
            vec![None, Some(s("#FFFFFF")), Some(s("12.00px"))],
            vec![None, Some(s("#00FF00")), None],
        ]
    );
}

fn leaves(n: &HeaderNode, out: &mut Vec<usize>) {
    match n {
        HeaderNode::Column { col_idx } => out.push(*col_idx),
        HeaderNode::Spanner { children, .. } => {
            for c in children {
                leaves(c, out);
            }
        },
    }
}

#[test]
fn header_leaves_carry_each_column_once() {
    let mut st = stmt();
    let mut inner = fmt(FormatMode::Span, &["e", "b"]);
    inner.span_id = Some(s("inner"));
    let mut outer = fmt(FormatMode::Span, &["Inner", "d"]);
    outer.span_id = Some(s("outer"));
    st.format_clauses.push(inner);
    st.format_clauses.push(outer);
    let batch = vec![
        text_col("a", &[]),
        text_col("b", &[]),
        text_col("c", &[]),
        text_col("d", &[]),
        text_col("e", &[]),
    ];
    let p = plan(&st, &batch);
    let mut got = vec![];
    for n in &p.header_forest {
        leaves(n, &mut got);
    }
    assert_eq!(got.len(), 5);
    let mut sorted = got.clone();
    sorted.sort();
    assert_eq!(sorted, vec![0, 1, 2, 3, 4]);
    let total: usize = p.header_forest.iter().map(|n| n.leaf_count()).sum();
    assert_eq!(total, 5);
}

#[test]
fn assembled_scales_keep_the_table_shape() {
    let paints = vec![
        ScalePaint { kind: ScaleKind::Background, col: 1, values: vec![Some(s("#FFFFFF")), Some(s("#FF0000"))] },
        ScalePaint { kind: ScaleKind::Foreground, col: 0, values: vec![None, Some(s("#000000"))] },
        ScalePaint { kind: ScaleKind::Background, col: 1, values: vec![None, Some(s("#00FF00"))] },
        ScalePaint { kind: ScaleKind::Size, col: 2, values: vec![Some(s("12.00px")), None] },
        ScalePaint { kind: ScaleKind::Opacity, col: 2, values: vec![Some(s("0.5")), None] },
    ];
    let sc = assemble_scales(2, 3, &paints);
    assert_eq!(sc.bg, vec![vec![None, Some(s("#FFFFFF")), None], vec![None, Some(s("#00FF00")), None]]);
    assert_eq!(sc.fg, vec![vec![None, None, None], vec![Some(s("#000000")), None, None]]);
    assert_eq!(sc.size, vec![vec![None, None, Some(s("12.00px"))], vec![None, None, None]]);
}
