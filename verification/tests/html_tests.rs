use ggsql::tabulate::execute::{
    CellStyle, ColAlign, ColMeta, HeaderNode, RowGroup, SummaryRow, TableIr,
};
use ggsql::tabulate::html::{
    generate_id, html_escape, render, render_css, render_th, render_with, DIV_STYLE, TABLE_STYLE,
    TABLE_STYLE_FIXED, TH_BASE_STYLE,
};
use ggsql::tabulate::GT_DEFAULT_CSS;

fn s(x: &str) -> String {
    x.to_string()
}

fn col(name: &str, align: ColAlign) -> ColMeta {
    ColMeta {
        name: s(name),
        label: s(name),
        label_is_user: false,
        align,
        width: None,
        raw_html: false,
    }
}

fn one_column_table(value: &str) -> TableIr {
    TableIr {
        columns: vec![col("a", ColAlign::Left)],
        rows: vec![vec![s(value)]],
        cell_bg: vec![],
        cell_fg: vec![],
        cell_size: vec![],
        cell_style: vec![],
        groups: vec![],
        title: None,
        subtitle: None,
        caption: None,
        stub_col: None,
        header_forest: vec![HeaderNode::Column { col_idx: 0 }],
    }
}

#[test]
fn escape_replaces_markup_characters() {
    assert_eq!(html_escape("a<b & c>"), "a&lt;b &amp; c&gt;");
    assert_eq!(html_escape("plain text"), "plain text");
    assert_eq!(html_escape(""), "");
    assert_eq!(html_escape("&amp;"), "&amp;amp;");
}

#[test]
fn th_for_a_right_aligned_column() {
    let mut c = col("x", ColAlign::Right);
    c.label = s("X<1");
    let expected = format!(
        "      <th class=\"gt_col_heading gt_columns_bottom_border gt_right\" rowspan=\"1\" colspan=\"1\" scope=\"col\" id=\"x\" style=\"{} text-align: right; font-variant-numeric: tabular-nums;\" bgcolor=\"#FFFFFF\" valign=\"bottom\" align=\"right\">X&lt;1</th>\n",
        TH_BASE_STYLE
    );
    assert_eq!(render_th(&c, false, 1), expected);
}

#[test]
fn th_for_the_stub_is_left_aligned_with_stub_id() {
    let c = col("name", ColAlign::Right);
    let expected = format!(
        "      <th class=\"gt_col_heading gt_columns_bottom_border gt_left\" rowspan=\"2\" colspan=\"1\" scope=\"col\" id=\"a::stub\" style=\"{} text-align: left;\" bgcolor=\"#FFFFFF\" valign=\"bottom\" align=\"left\">name</th>\n",
        TH_BASE_STYLE
    );
    assert_eq!(render_th(&c, true, 2), expected);
}

#[test]
fn css_block_only_with_rules() {
    assert_eq!(render_css(""), "");
    assert_eq!(render_css("   \n  "), "");
    assert_eq!(render_css("/* a comment */\n* more comment\n// note"), "");
    assert_eq!(
        render_css("  .gt_table { color: red; }  "),
        "<style>.gt_table { color: red; }</style>\n  "
    );
    assert_eq!(render_css(GT_DEFAULT_CSS), "");
}

#[test]
fn id_is_ten_lowercase_hex_digits() {
    let id = generate_id();
    assert_eq!(id.len(), 10);
    assert!(id.chars().all(|c| c.is_ascii_digit() || ('a'..='f').contains(&c)));
    let other = generate_id();
    assert_eq!(other.len(), 10);
}

#[test]
fn whole_table_shape() {
    let t = one_column_table("x<y");
    let html = render_with(&t, "abc", "");
    let head = format!(
        "<div id=\"abc\" style=\"{}\">\n  \n  <table class=\"gt_table\" data-quarto-disable-processing=\"false\" data-quarto-bootstrap=\"false\" style=\"{}\" bgcolor=\"#FFFFFF\">\n",
        DIV_STYLE, TABLE_STYLE
    );
    assert!(html.starts_with(&head));
    assert!(html.contains("x&lt;y</td>"));
    assert!(html.contains("<tbody class=\"gt_table_body\""));
    assert!(html.ends_with("  </tbody>\n  </table></div>"));
    assert!(!html.contains("<colgroup>"));
    assert!(!html.contains("gt_heading"));
}

#[test]
fn widths_bring_a_colgroup() {
    let mut t = one_column_table("1");
    t.columns[0].width = Some(s("120px"));
    let html = render_with(&t, "w", "");
    assert!(html.contains(TABLE_STYLE_FIXED));
    assert!(html.contains(" width=\"0\" bgcolor=\"#FFFFFF\">\n  <colgroup>\n    <col style=\"width:120px;\">\n  </colgroup>\n"));
}

#[test]
fn title_subtitle_and_caption() {
    let mut t = one_column_table("v");
    t.title = Some(s("T & T"));
    t.subtitle = Some(s("Sub"));
    t.caption = Some(s("Source: <x>"));
    let html = render_with(&t, "id", "");
    assert!(html.contains("class=\"gt_heading gt_title gt_font_normal\""));
    assert!(html.contains(">T &amp; T</td>"));
    assert!(html.contains("gt_subtitle"));
    assert!(html.contains(">Sub</td>"));
    assert!(html.contains("<td class=\"gt_sourcenote\" colspan=\"1\""));
    assert!(html.contains(">Source: &lt;x&gt;</td>"));
    assert!(html.contains("<tfoot"));
}

#[test]
fn title_alone_takes_the_bottom_border() {
    let mut t = one_column_table("v");
    t.title = Some(s("Only"));
    let html = render_with(&t, "id", "");
    assert!(html.contains("class=\"gt_heading gt_title gt_font_normal gt_bottom_border\""));
    assert!(!html.contains("gt_subtitle"));
}

#[test]
fn raw_html_cells_are_not_escaped() {
    let mut t = one_column_table("1.00 &times; 10<sup>3</sup>");
    t.columns[0].raw_html = true;
    let html = render_with(&t, "id", "");
    assert!(html.contains(">1.00 &times; 10<sup>3</sup></td>"));
}

#[test]
fn grouped_rows_with_summary() {
    let t = TableIr {
        columns: vec![col("g", ColAlign::Left), col("n", ColAlign::Right)],
        rows: vec![vec![s("a"), s("1")], vec![s("b"), s("2")]],
        cell_bg: vec![],
        cell_fg: vec![],
        cell_size: vec![],
        cell_style: vec![vec![CellStyle::new(), CellStyle::new()]],
        groups: vec![
            RowGroup {
                name: s("G1"),
                row_indices: vec![1],
                summary_rows: vec![SummaryRow {
                    label: s("sum"),
                    cells: vec![None, Some(s("2"))],
                }],
                summary_side: s("bottom"),
            },
            RowGroup {
                name: s("G2"),
                row_indices: vec![0],
                summary_rows: vec![],
                summary_side: s("TOP"),
            },
        ],
        title: None,
        subtitle: None,
        caption: None,
        stub_col: Some(0),
        header_forest: vec![
            HeaderNode::Column { col_idx: 0 },
            HeaderNode::Column { col_idx: 1 },
        ],
    };
    let html = render_with(&t, "id", "");
    let g1 = html.find("gt_group_heading\" scope=\"colgroup\" id=\"G1\"").unwrap();
    let g2 = html.find("gt_group_heading\" scope=\"colgroup\" id=\"G2\"").unwrap();
    assert!(g1 < g2);
    // Stub ids count rows across groups.
    assert!(html.contains("<th id=\"stub_1_1\""));
    assert!(html.contains("<th id=\"stub_1_2\""));
    assert!(html.contains("gt_first_summary_row thick gt_last_summary_row"));
    assert!(html.contains(">sum</th>"));
    // The summary row follows G1's body row and precedes G2's heading.
    let sum = html.find(">sum</th>").unwrap();
    assert!(g1 < sum && sum < g2);
}

#[test]
fn render_uses_a_fresh_ten_digit_id() {
    let t = one_column_table("x");
    let html = render(&t);
    assert!(html.starts_with("<div id=\""));
    let id = &html[9..19];
    assert!(id.chars().all(|c| c.is_ascii_digit() || ('a'..='f').contains(&c)));
    assert_eq!(html, render_with(&t, id, GT_DEFAULT_CSS));
}

#[test]
fn spanner_heading_rows() {
    let t = TableIr {
        columns: vec![col("a", ColAlign::Left), col("b", ColAlign::Right)],
        rows: vec![],
        cell_bg: vec![],
        cell_fg: vec![],
        cell_size: vec![],
        cell_style: vec![],
        groups: vec![],
        title: None,
        subtitle: None,
        caption: None,
        stub_col: None,
        header_forest: vec![HeaderNode::Spanner {
            id: s("grp"),
            label: s("Group"),
            label_is_user: true,
            children: vec![
                HeaderNode::Column { col_idx: 0 },
                HeaderNode::Column { col_idx: 1 },
            ],
        }],
    };
    let html = render_with(&t, "id", "");
    assert!(html.contains("<tr class=\"gt_col_headings gt_spanner_row\""));
    assert!(html.contains("<tr class=\"gt_col_headings\""));
    assert!(html.contains("scope=\"colgroup\" id=\"Group\""));
    assert!(html.contains("Group"));
    assert!(html.find("gt_spanner_row").unwrap() < html.find("id=\"a\"").unwrap());
}

#[test]
fn user_labels_get_markup() {
    let mut c = col("c", ColAlign::Left);
    c.label = s("a -- b");
    c.label_is_user = true;
    assert!(render_th(&c, false, 1).ends_with(">a \u{2013} b</th>\n"));
    c.label = s("Area km^2 <x> H_{2}O...");
    assert!(render_th(&c, false, 1).ends_with(
        ">Area km<span style=\"white-space:nowrap;\"><sup style=\"line-height:0;\">2</sup></span> &lt;x&gt; H<span style=\"white-space:nowrap;\"><sub style=\"line-height:0;\">2</sub></span>O\u{2026}</th>\n"
    ));
    c.label = s("x^y_");
    assert!(render_th(&c, false, 1).ends_with(">x^y_</th>\n"));
}

#[test]
fn default_labels_are_only_escaped() {
    let mut c = col("c", ColAlign::Left);
    c.label = s("a -- b^2");
    assert!(render_th(&c, false, 1).ends_with(">a -- b^2</th>\n"));
}

#[test]
fn highlight_colour_replaces_scale_contrast() {
    let mut t = one_column_table("v");
    t.cell_bg = vec![vec![Some(s("#000000"))]];
    let plain = render_with(&t, "id", "");
    assert!(plain.contains("background-color: #000000; color: #FFFFFF;"));
    let mut style = CellStyle::new();
    style.color = Some(s("#FF0000"));
    t.cell_style = vec![vec![style]];
    let html = render_with(&t, "id", "");
    assert!(html.contains("background-color: #000000; color: #FF0000;"));
    assert!(!html.contains("#000000; color: #FFFFFF;"));
}
