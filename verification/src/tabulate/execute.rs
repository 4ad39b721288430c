//! Table assembly: from a parsed TABULATE statement and the fetched data to
//! the in-memory table the HTML writer renders.
//!
//! Reading the data (SQL execution, Arrow arrays, floating-point values)
//! happens where the data is read; this module receives each column's type
//! and each cell's facts as plain values and decides everything else:
//! which columns show and in what order, their labels, alignment, widths
//! and formatters, each cell's text, the header tree, highlights and row
//! groups.

use crate::tabulate::ast::{
    FacetClause, FacetSetting, FacetValue, FormatClause, FormatMode, HighlightClause, HighlightSetting,
    LabelClause, RenamingLhs, ScaleClause, SettingValue, TabulateStmt, seqs,
};
use crate::parser::tabulate::{extract_sql_from_table, sql_table_spec};
use crate::parser::{find_first, first_found, SyntaxNode};
use crate::tabulate::scale::{hex_rgb, parse_to_hex_upper, resolve_rgb8};
use crate::tabulate::format::{
    apply_transform, build_format, render_value_spec, time_cell_spec, CellFmt, NumFormat,
    NumValue, StringFormat, TimeFormat,
};
use crate::tabulate::layout::{
    clone_opt, eq_ic, find_eq_ic, find_exact, first_exact, first_eq_ic, or_else, formatter_view, opt_str, pair_seqs, rules_view, CellRules, ColumnFormatter, FormatterModel,
    RulesModel, TableError, TablePlan,
};
use crate::text::{
    decimal, trim_spec, u64_to_decimal, chars_of, eq_ignore_ascii_case, lower_seq, owned, replace_all, replace_spec, str_eq,
    to_ascii_lowercase,
};
use vstd::prelude::*;
use vstd::string::StringSliceAdditionalSpecFns;

verus! {

// ============================================================================
// Column alignment
// ============================================================================

#[derive(Copy, Clone, PartialEq, Eq, Structural, Debug)]
pub enum ColAlign {
    Left,
    Right,
    Center,
}

pub open spec fn gt_class_spec(a: ColAlign) -> Seq<char> {
    match a {
        ColAlign::Left => "gt_left"@,
        ColAlign::Right => "gt_right"@,
        ColAlign::Center => "gt_center"@,
    }
}

impl ColAlign {
    pub fn gt_class(self) -> (r: &'static str)
        ensures
            r@ == gt_class_spec(self),
    {
        match self {
            ColAlign::Left => "gt_left",
            ColAlign::Right => "gt_right",
            ColAlign::Center => "gt_center",
        }
    }

    /// Whether to add `font-variant-numeric: tabular-nums` to header/cell style.
    pub fn tabular_nums(self) -> (r: bool)
        ensures
            r == (self == ColAlign::Right),
    {
        self == ColAlign::Right
    }
}

// ============================================================================
// Table IR
// ============================================================================

/// In-memory representation of a rendered TABULATE table, ready for HTML output.
pub struct TableIr {
    /// Column descriptors in display order (hidden columns excluded).
    pub columns: Vec<ColMeta>,
    /// Row data: one entry per row, values in same order as `columns`.
    pub rows: Vec<Vec<String>>,
    /// Per-cell background colour from `SCALE background` (uppercase
    /// `#RRGGBB`), same shape as [`Self::rows`]; the HTML writer derives
    /// the contrasting foreground colour.
    pub cell_bg: Vec<Vec<Option<String>>>,
    /// Per-cell text colour from `SCALE foreground`.
    pub cell_fg: Vec<Vec<Option<String>>>,
    /// Per-cell font-size from `SCALE size` (e.g. `"14.50px"`).
    pub cell_size: Vec<Vec<Option<String>>>,
    /// Per-cell style overrides from `HIGHLIGHT` clauses. When several
    /// `HIGHLIGHT`s target the same cell, the later clause's settings win.
    pub cell_style: Vec<Vec<CellStyle>>,
    /// Row-groups from a `FACET` clause, in display order. Empty when the
    /// query has no `FACET`.
    pub groups: Vec<RowGroup>,
    /// Table title (gt's `tab_header(title=)`).
    pub title: Option<String>,
    /// Table subtitle (gt's `tab_header(subtitle=)`).
    pub subtitle: Option<String>,
    /// Source-note caption (gt's `tab_source_note()`).
    pub caption: Option<String>,
    /// Index into `columns` of the stub column, if any.
    pub stub_col: Option<usize>,
    /// Header tree forest. Leaves point into `columns` by index; interior
    /// nodes are spanners introduced by `FORMAT SPAN ... AS <id>`.
    pub header_forest: Vec<HeaderNode>,
}

pub struct ColMeta {
    /// Column name (used as `id=` attribute and `headers=` reference).
    pub name: String,
    /// Display label shown in `<th>` (defaults to `name`).
    pub label: String,
    /// True when [`Self::label`] came from a user-supplied `LABEL` clause.
    pub label_is_user: bool,
    /// Alignment.
    pub align: ColAlign,
    /// Explicit column width from `FORMAT <col> SETTING width => '<css>'`.
    pub width: Option<String>,
    /// True when the cell values are already HTML (the scientific-notation
    /// formatter) and must not be escaped.
    pub raw_html: bool,
}

/// Per-cell style overrides from `HIGHLIGHT` clauses. `None` means "not
/// set by any HIGHLIGHT matching this cell".
pub struct CellStyle {
    /// `background => '<css colour>'` → uppercase `#RRGGBB`.
    pub background: Option<String>,
    /// `color => '<css colour>'` → uppercase `#RRGGBB`.
    pub color: Option<String>,
    /// `face => 'bold' | 'italic' | 'normal'` (rendered verbatim).
    pub face: Option<String>,
    /// `size => '<css length>'` (rendered verbatim into `font-size`).
    pub size: Option<String>,
    /// `transform => ...` (rendered verbatim into `text-transform`).
    pub transform: Option<String>,
    /// `decoration => ...` (rendered verbatim into `text-decoration`).
    pub decoration: Option<String>,
}

impl CellStyle {
    pub fn new() -> (r: CellStyle)
        ensures
            r.is_empty_spec(),
    {
        CellStyle {
            background: None,
            color: None,
            face: None,
            size: None,
            transform: None,
            decoration: None,
        }
    }

    pub open spec fn is_empty_spec(&self) -> bool {
        self.background is None && self.color is None && self.face is None && self.size is None
            && self.transform is None && self.decoration is None
    }

    pub fn is_empty(&self) -> (r: bool)
        ensures
            r == self.is_empty_spec(),
    {
        self.background.is_none() && self.color.is_none() && self.face.is_none()
            && self.size.is_none() && self.transform.is_none() && self.decoration.is_none()
    }
}

/// A contiguous row-group in a `FACET`-ed table.
pub struct RowGroup {
    /// Group label rendered in the group heading row.
    pub name: String,
    /// Indices into [`TableIr::rows`] for the body rows of this group.
    pub row_indices: Vec<usize>,
    /// Summary rows emitted after (or, for `side = 'top'`, before) the body rows.
    pub summary_rows: Vec<SummaryRow>,
    /// `"bottom"` (default) or `"top"`.
    pub summary_side: String,
}

/// A single summary row computed by an aggregate function over a group.
pub struct SummaryRow {
    /// Text rendered in the stub `<th>` (e.g. `"sum"`, `"Min"`).
    pub label: String,
    /// One entry per column; `None` renders as an em-dash.
    pub cells: Vec<Option<String>>,
}

/// Node in the header tree. Spanners group child nodes (which may be
/// columns or further spanners) under a parent label.
pub enum HeaderNode {
    /// Leaf node: an actual data column, by its index into [`TableIr::columns`].
    Column { col_idx: usize },
    /// Spanner cell grouping one or more children.
    Spanner {
        /// HTML `id=` attribute (the bareword from `AS <id>`).
        id: String,
        /// Display text rendered inside the spanner cell.
        label: String,
        /// True when [`Self::Spanner::label`] came from a `LABEL` clause.
        label_is_user: bool,
        /// Child nodes in display order.
        children: Vec<HeaderNode>,
    },
}

/// Number of leaf columns under a node.
pub open spec fn leaf_count_spec(n: HeaderNode) -> nat
    decreases n,
{
    match n {
        HeaderNode::Column { .. } => 1,
        HeaderNode::Spanner { children, .. } => leaves_of_seq(children@),
    }
}

pub open spec fn leaves_of_seq(s: Seq<HeaderNode>) -> nat
    decreases s,
{
    if s.len() == 0 {
        0
    } else {
        leaves_of_seq(s.drop_last()) + leaf_count_spec(s.last())
    }
}

/// Height of a subtree: 0 for a column, 1 + the tallest child for a spanner.
pub open spec fn height_spec(n: HeaderNode) -> nat
    decreases n,
{
    match n {
        HeaderNode::Column { .. } => 0,
        HeaderNode::Spanner { children, .. } => 1 + max_height_of_seq(children@),
    }
}

pub open spec fn max_height_of_seq(s: Seq<HeaderNode>) -> nat
    decreases s,
{
    if s.len() == 0 {
        0
    } else {
        let a = max_height_of_seq(s.drop_last());
        let b = height_spec(s.last());
        if a >= b {
            a
        } else {
            b
        }
    }
}

impl HeaderNode {
    /// Number of leaf columns under this node (1 for a column).
    #[verifier::loop_isolation(false)]
    pub fn leaf_count(&self) -> (r: usize)
        requires
            leaf_count_spec(*self) <= usize::MAX,
        ensures
            r == leaf_count_spec(*self),
        decreases self,
    {
        match self {
            HeaderNode::Column { .. } => 1,
            HeaderNode::Spanner { children, .. } => {
                let mut total: usize = 0;
                let mut i: usize = 0;
                while i < children.len()
                    invariant
                        i <= children@.len(),
                        leaf_count_spec(*self) == leaves_of_seq(children@),
                        leaf_count_spec(*self) <= usize::MAX,
                        total == leaves_of_seq(children@.take(i as int)),
                    decreases children.len() - i,
                {
                    proof {
                        lemma_leaves_prefix_le(children@, i + 1);
                        lemma_leaf_child_le(children@, i as int);
                        assert(children@.take(i + 1).drop_last() =~= children@.take(i as int));
                        assert(decreases_to!(*self => (*self)->children));
                    }
                    let c = children[i].leaf_count();
                    total = total + c;
                    i += 1;
                }
                proof {
                    assert(children@.take(i as int) =~= children@);
                }
                total
            },
        }
    }

    /// Height of the subtree: 0 for a column, 1 + max(child heights) for a
    /// spanner.
    #[verifier::loop_isolation(false)]
    pub fn height(&self) -> (r: usize)
        requires
            height_spec(*self) <= usize::MAX,
        ensures
            r == height_spec(*self),
        decreases self,
    {
        match self {
            HeaderNode::Column { .. } => 0,
            HeaderNode::Spanner { children, .. } => {
                let mut best: usize = 0;
                let mut i: usize = 0;
                while i < children.len()
                    invariant
                        i <= children@.len(),
                        height_spec(*self) == 1 + max_height_of_seq(children@),
                        height_spec(*self) <= usize::MAX,
                        best == max_height_of_seq(children@.take(i as int)),
                        best <= max_height_of_seq(children@),
                    decreases children.len() - i,
                {
                    proof {
                        assert(children@.take(i + 1).drop_last() =~= children@.take(i as int));
                        lemma_max_height_prefix_le(children@, i + 1);
                        lemma_height_child_le(children@, i as int);
                        assert(decreases_to!(*self => (*self)->children));
                    }
                    let h = children[i].height();
                    if h > best {
                        best = h;
                    }
                    i += 1;
                }
                proof {
                    assert(children@.take(i as int) =~= children@);
                }
                1 + best
            },
        }
    }
}

pub proof fn lemma_leaf_child_le(s: Seq<HeaderNode>, i: int)
    requires
        0 <= i < s.len(),
    ensures
        leaf_count_spec(s[i]) <= leaves_of_seq(s),
    decreases s.len(),
{
    if i < s.len() - 1 {
        lemma_leaf_child_le(s.drop_last(), i);
    }
}

pub proof fn lemma_height_child_le(s: Seq<HeaderNode>, i: int)
    requires
        0 <= i < s.len(),
    ensures
        height_spec(s[i]) <= max_height_of_seq(s),
    decreases s.len(),
{
    if i < s.len() - 1 {
        lemma_height_child_le(s.drop_last(), i);
    }
}

pub proof fn lemma_leaves_prefix_le(s: Seq<HeaderNode>, k: int)
    requires
        0 <= k <= s.len(),
    ensures
        leaves_of_seq(s.take(k)) <= leaves_of_seq(s),
    decreases s.len() - k,
{
    if k < s.len() {
        lemma_leaves_prefix_le(s, k + 1);
        assert(s.take(k + 1).drop_last() =~= s.take(k));
    } else {
        assert(s.take(k) =~= s);
    }
}

pub proof fn lemma_max_height_prefix_le(s: Seq<HeaderNode>, k: int)
    requires
        0 <= k <= s.len(),
    ensures
        max_height_of_seq(s.take(k)) <= max_height_of_seq(s),
    decreases s.len() - k,
{
    if k < s.len() {
        lemma_max_height_prefix_le(s, k + 1);
        assert(s.take(k + 1).drop_last() =~= s.take(k));
    } else {
        assert(s.take(k) =~= s);
    }
}

} // verus!

verus! {

// ============================================================================
// Alignment from column types
// ============================================================================

/// What a column's Arrow type says about its alignment.
#[derive(Copy, Clone, PartialEq, Eq, Structural, Debug)]
pub enum ColumnType {
    /// Dictionary-encoded (categorical) data.
    Dictionary,
    /// Integer, float or decimal data.
    Numeric,
    /// Date, time or timestamp data.
    Temporal,
    /// `Utf8` strings.
    Utf8,
    /// Anything else (booleans, `LargeUtf8`, ...).
    Other,
}

pub open spec fn is_digit_byte(b: u8) -> bool {
    48 <= b <= 57
}

pub open spec fn digit_bytes(b: Seq<u8>, lo: int, hi: int) -> bool {
    forall|i: int| lo <= i < hi ==> is_digit_byte(#[trigger] b[i])
}

/// `YYYY-MM-DD`, `HH:MM`, `HH:MM:SS`, or `YYYY-MM-DD HH:MM[...]`, judged on
/// the UTF-8 bytes.
pub open spec fn date_or_time_bytes(b: Seq<u8>) -> bool {
    let n = b.len();
    ||| (n == 10 && b[4] == 45 && b[7] == 45 && digit_bytes(b, 0, 4) && digit_bytes(b, 5, 7)
        && digit_bytes(b, 8, 10))
    ||| ((n == 5 || n == 8) && b[2] == 58 && digit_bytes(b, 0, 2) && digit_bytes(b, 3, 5))
    ||| (n >= 16 && b[4] == 45 && b[7] == 45 && b[10] == 32 && b[13] == 58 && digit_bytes(b, 0, 4)
        && digit_bytes(b, 5, 7) && digit_bytes(b, 8, 10) && digit_bytes(b, 11, 13) && digit_bytes(
        b,
        14,
        16,
    ))
}

fn digits_in(b: &[u8], lo: usize, hi: usize) -> (r: bool)
    requires
        lo <= hi <= b@.len(),
    ensures
        r == digit_bytes(b@, lo as int, hi as int),
{
    let mut i = lo;
    while i < hi
        invariant
            lo <= i <= hi <= b@.len(),
            digit_bytes(b@, lo as int, i as int),
        decreases hi - i,
    {
        if !(48 <= b[i] && b[i] <= 57) {
            return false;
        }
        i += 1;
    }
    true
}

/// Check if a string value looks like a date, time, or datetime.
pub fn is_date_or_time_string(s: &str) -> (r: bool)
    ensures
        r == date_or_time_bytes(s.spec_bytes()),
{
    let b = s.as_bytes();
    let n = b.len();
    if n == 10 && b[4] == 45 && b[7] == 45 && digits_in(b, 0, 4) && digits_in(b, 5, 7)
        && digits_in(b, 8, 10) {
        return true;
    }
    if (n == 5 || n == 8) && b[2] == 58 && digits_in(b, 0, 2) && digits_in(b, 3, 5) {
        return true;
    }
    if n >= 16 && b[4] == 45 && b[7] == 45 && b[10] == 32 && b[13] == 58 && digits_in(b, 0, 4)
        && digits_in(b, 5, 7) && digits_in(b, 8, 10) && digits_in(b, 11, 13) && digits_in(
        b,
        14,
        16,
    ) {
        return true;
    }
    false
}

/// Right alignment for a string column all of whose non-null values look
/// like dates or times (and which has at least one).
pub open spec fn string_alignment_spec(values: Seq<Option<String>>) -> Option<ColAlign> {
    if (exists|i: int| 0 <= i < values.len() && values[i] is Some) && (forall|i: int|
        0 <= i < values.len() && values[i] is Some ==> date_or_time_bytes(
            vstd::utf8::encode_utf8((#[trigger] values[i])->0@),
        )) {
        Some(ColAlign::Right)
    } else {
        None
    }
}

/// Inspect a string column's values to detect date/time-like patterns.
pub fn detect_string_alignment(values: &Vec<Option<String>>) -> (r: Option<ColAlign>)
    ensures
        r == string_alignment_spec(values@),
{
    let mut seen_any = false;
    let mut i: usize = 0;
    while i < values.len()
        invariant
            i <= values@.len(),
            seen_any == exists|j: int| 0 <= j < i && values@[j] is Some,
            forall|j: int|
                0 <= j < i && values@[j] is Some ==> date_or_time_bytes(
                    vstd::utf8::encode_utf8((#[trigger] values@[j])->0@),
                ),
        decreases values.len() - i,
    {
        match &values[i] {
            None => {},
            Some(v) => {
                seen_any = true;
                if !is_date_or_time_string(v.as_str()) {
                    return None;
                }
            },
        }
        i += 1;
    }
    if seen_any {
        Some(ColAlign::Right)
    } else {
        None
    }
}

/// gt's automatic alignment: by the source type when known (categorical
/// centred; numbers, dates and times right), else by the result type, a
/// `Utf8` column of date/time strings right, everything else left.
pub open spec fn alignment_spec(
    orig: Option<ColumnType>,
    batch: Option<ColumnType>,
    values: Seq<Option<String>>,
) -> ColAlign {
    if orig == Some(ColumnType::Dictionary) {
        ColAlign::Center
    } else if orig == Some(ColumnType::Numeric) || orig == Some(ColumnType::Temporal) {
        ColAlign::Right
    } else if batch == Some(ColumnType::Numeric) || batch == Some(ColumnType::Temporal) {
        ColAlign::Right
    } else if batch == Some(ColumnType::Utf8) && string_alignment_spec(values) is Some {
        ColAlign::Right
    } else {
        ColAlign::Left
    }
}

/// Determine alignment for a column from its type in the source (when
/// known), its type in the query result (when present) and, for strings,
/// its values.
pub fn determine_alignment(
    orig: Option<ColumnType>,
    batch: Option<ColumnType>,
    values: &Vec<Option<String>>,
) -> (r: ColAlign)
    ensures
        r == alignment_spec(orig, batch, values@),
{
    match orig {
        Some(ColumnType::Dictionary) => return ColAlign::Center,
        Some(ColumnType::Numeric) | Some(ColumnType::Temporal) => return ColAlign::Right,
        _ => {},
    }
    match batch {
        Some(ColumnType::Numeric) | Some(ColumnType::Temporal) => return ColAlign::Right,
        Some(ColumnType::Utf8) => {
            if let Some(a) = detect_string_alignment(values) {
                return a;
            }
        },
        _ => {},
    }
    ColAlign::Left
}

/// Automatic alignment: a categorical source column is centred and only
/// it; any other column whose source type, or whose result type, is
/// numeric or temporal is right-aligned; a left-aligned column has
/// neither. Values only matter for a string result column, and one with
/// no value at all is left-aligned.
pub proof fn law_alignment(
    orig: Option<ColumnType>,
    batch: Option<ColumnType>,
    values: Seq<Option<String>>,
    others: Seq<Option<String>>,
)
    ensures
        batch != Some(ColumnType::Utf8) ==> alignment_spec(orig, batch, values) == alignment_spec(
            orig,
            batch,
            others,
        ),
        (forall|i: int| 0 <= i < values.len() ==> #[trigger] values[i] is None) && orig != Some(
            ColumnType::Dictionary,
        ) && orig != Some(ColumnType::Numeric) && orig != Some(ColumnType::Temporal) && batch == Some(
            ColumnType::Utf8,
        ) ==> alignment_spec(orig, batch, values) == ColAlign::Left,
        (alignment_spec(orig, batch, values) == ColAlign::Center) <==> orig == Some(ColumnType::Dictionary),
        orig == Some(ColumnType::Numeric) || orig == Some(ColumnType::Temporal) ==> alignment_spec(
            orig,
            batch,
            values,
        ) == ColAlign::Right,
        orig != Some(ColumnType::Dictionary) && (batch == Some(ColumnType::Numeric) || batch == Some(
            ColumnType::Temporal,
        )) ==> alignment_spec(orig, batch, values) == ColAlign::Right,
        alignment_spec(orig, batch, values) == ColAlign::Left ==> orig != Some(ColumnType::Numeric)
            && orig != Some(ColumnType::Temporal) && batch != Some(ColumnType::Numeric) && batch != Some(
            ColumnType::Temporal,
        ),
{
}

// ============================================================================
// Text substitutions
// ============================================================================

/// gt's markdown-style substitutions: `---` → em-dash, then `--` → en-dash,
/// then `...` → ellipsis.
pub open spec fn smart_text_spec(s: Seq<char>) -> Seq<char> {
    replace_spec(
        replace_spec(replace_spec(s, "---"@, "\u{2014}"@), "--"@, "\u{2013}"@),
        "..."@,
        "\u{2026}"@,
    )
}

pub fn smart_text(s: &str) -> (r: String)
    ensures
        r@ == smart_text_spec(s@),
{
    proof {
        reveal_strlit("---");
        reveal_strlit("--");
        reveal_strlit("...");
    }
    let a = replace_all(s, "---", "\u{2014}");
    let b = replace_all(&a, "--", "\u{2013}");
    replace_all(&b, "...", "\u{2026}")
}

// ============================================================================
// FACET settings
// ============================================================================

/// Resolved view of a FACET clause's `SETTING` pairs.
pub struct FacetView {
    pub target_cols: Vec<String>,
    pub aggregates: Vec<String>,
    pub labels: Vec<String>,
    pub side: String,
    /// Optional summary-cell format template.
    pub fmt: Option<String>,
    /// Optional restriction on which group values get summary rows.
    pub groups_filter: Option<Vec<String>>,
}

/// The strings a setting value lists: a list as is, a single string or
/// identifier as a one-element list, anything else as empty.
pub open spec fn value_list(v: FacetValue) -> Seq<Seq<char>> {
    match v {
        FacetValue::IdentList(l) => seqs(l@),
        FacetValue::StrList(l) => seqs(l@),
        FacetValue::String(x) => seq![x@],
        FacetValue::Identifier(x) => seq![x@],
        _ => Seq::empty(),
    }
}

/// The last setting whose key is `key` (ASCII-case-insensitively).
pub open spec fn last_setting(s: Seq<FacetSetting>, key: Seq<char>) -> Option<FacetValue>
    decreases s.len(),
{
    if s.len() == 0 {
        None
    } else if lower_seq(s.last().key@) == key {
        Some(s.last().value)
    } else {
        last_setting(s.drop_last(), key)
    }
}

/// The FACET view the settings resolve to: each key takes its last value;
/// `side` defaults to `bottom` and keeps its previous value for a
/// non-string; `fmt` and `groups` are cleared by a value of the wrong kind.
pub open spec fn facet_targets(s: Seq<FacetSetting>) -> Seq<Seq<char>> {
    match last_setting(s, "target"@) {
        Some(v) => value_list(v),
        None => Seq::empty(),
    }
}

pub open spec fn facet_aggregates(s: Seq<FacetSetting>) -> Seq<Seq<char>> {
    match last_setting(s, "aggregate"@) {
        Some(v) => value_list(v),
        None => Seq::empty(),
    }
}

pub open spec fn facet_labels(s: Seq<FacetSetting>) -> Seq<Seq<char>> {
    match last_setting(s, "label"@) {
        Some(v) => value_list(v),
        None => Seq::empty(),
    }
}

/// The last `side` whose value is a string or identifier; `bottom` if none.
pub open spec fn facet_side(s: Seq<FacetSetting>) -> Seq<char>
    decreases s.len(),
{
    if s.len() == 0 {
        "bottom"@
    } else if lower_seq(s.last().key@) == "side"@ && (s.last().value is String || s.last().value is Identifier) {
        match s.last().value {
            FacetValue::String(x) => x@,
            FacetValue::Identifier(x) => x@,
            _ => Seq::empty(),
        }
    } else {
        facet_side(s.drop_last())
    }
}

pub open spec fn facet_fmt(s: Seq<FacetSetting>) -> Option<Seq<char>> {
    match last_setting(s, "fmt"@) {
        Some(FacetValue::String(x)) => Some(x@),
        _ => None,
    }
}

pub open spec fn facet_groups(s: Seq<FacetSetting>) -> Option<Seq<Seq<char>>> {
    match last_setting(s, "groups"@) {
        Some(v) => if v is IdentList || v is StrList || v is String || v is Identifier {
            Some(value_list(v))
        } else {
            None
        },
        None => None,
    }
}

fn strings_clone(v: &Vec<String>) -> (r: Vec<String>)
    ensures
        seqs(r@) == seqs(v@),
{
    let mut r: Vec<String> = Vec::new();
    let mut i: usize = 0;
    while i < v.len()
        invariant
            i <= v@.len(),
            r@.len() == i,
            forall|j: int| 0 <= j < i ==> #[trigger] r@[j]@ == v@[j]@,
        decreases v.len() - i,
    {
        r.push(owned(&v[i]));
        i += 1;
    }
    proof {
        assert(seqs(r@) =~= seqs(v@));
    }
    r
}

fn value_list_exec(v: &FacetValue) -> (r: Vec<String>)
    ensures
        seqs(r@) == value_list(*v),
{
    match v {
        FacetValue::IdentList(l) => strings_clone(l),
        FacetValue::StrList(l) => strings_clone(l),
        FacetValue::String(x) | FacetValue::Identifier(x) => {
            let mut r = Vec::new();
            r.push(owned(x));
            proof {
                assert(seqs(r@) =~= seq![x@]);
            }
            r
        },
        _ => {
            let r = Vec::new();
            proof {
                assert(seqs(r@) =~= Seq::<Seq<char>>::empty());
            }
            r
        },
    }
}

/// The last setting whose key is `key` (ASCII-case-insensitively).
fn find_last_setting<'a>(settings: &'a Vec<FacetSetting>, key: &str) -> (r: Option<&'a FacetValue>)
    requires
        lower_seq(key@) == key@,
    ensures
        match last_setting(settings@, key@) {
            Some(v) => r matches Some(x) && *x == v,
            None => r is None,
        },
{
    let mut i = settings.len();
    proof {
        assert(settings@.take(i as int) =~= settings@);
    }
    while i > 0
        invariant
            i <= settings@.len(),
            lower_seq(key@) == key@,
            last_setting(settings@, key@) == last_setting(settings@.take(i as int), key@),
        decreases i,
    {
        let s = &settings[i - 1];
        proof {
            let t = settings@.take(i as int);
            assert(t.drop_last() =~= settings@.take(i - 1));
            assert(t.last() == *s);
        }
        if eq_ignore_ascii_case(&s.key, key) {
            return Some(&s.value);
        }
        i -= 1;
    }
    None
}

/// `side`: the last one whose value is a string or identifier.
fn find_side(settings: &Vec<FacetSetting>) -> (r: String)
    ensures
        r@ == facet_side(settings@),
{
    proof {
        reveal_strlit("side");
    }
    let mut i = settings.len();
    proof {
        assert(settings@.take(i as int) =~= settings@);
    }
    while i > 0
        invariant
            i <= settings@.len(),
            facet_side(settings@) == facet_side(settings@.take(i as int)),
        decreases i,
    {
        let s = &settings[i - 1];
        proof {
            reveal_strlit("side");
            let t = settings@.take(i as int);
            assert(t.drop_last() =~= settings@.take(i - 1));
            assert(t.last() == *s);
        }
        if eq_ignore_ascii_case(&s.key, "side") {
            proof {
                assert(lower_seq("side"@) =~= "side"@);
            }
            match &s.value {
                FacetValue::String(v) | FacetValue::Identifier(v) => return owned(v),
                _ => {},
            }
        } else {
            proof {
                assert(lower_seq("side"@) =~= "side"@);
            }
        }
        i -= 1;
    }
    proof {
        assert(settings@.take(0) =~= Seq::<FacetSetting>::empty());
    }
    String::from_str("bottom")
}

fn list_setting(settings: &Vec<FacetSetting>, key: &str) -> (r: Vec<String>)
    requires
        lower_seq(key@) == key@,
    ensures
        seqs(r@) == match last_setting(settings@, key@) {
            Some(v) => value_list(v),
            None => Seq::empty(),
        },
{
    match find_last_setting(settings, key) {
        Some(v) => value_list_exec(v),
        None => {
            let r = Vec::new();
            proof {
                assert(seqs(r@) =~= Seq::<Seq<char>>::empty());
            }
            r
        },
    }
}

impl FacetView {
    pub fn from_settings(settings: &Vec<FacetSetting>) -> (r: FacetView)
        ensures
            seqs(r.target_cols@) == facet_targets(settings@),
            seqs(r.aggregates@) == facet_aggregates(settings@),
            seqs(r.labels@) == facet_labels(settings@),
            r.side@ == facet_side(settings@),
            match facet_fmt(settings@) {
                Some(f) => r.fmt matches Some(x) && x@ == f,
                None => r.fmt is None,
            },
            match facet_groups(settings@) {
                Some(g) => r.groups_filter matches Some(x) && seqs(x@) == g,
                None => r.groups_filter is None,
            },
    {
        proof {
            reveal_strlit("target");
            reveal_strlit("aggregate");
            reveal_strlit("label");
            reveal_strlit("fmt");
            reveal_strlit("groups");
            assert(lower_seq("target"@) =~= "target"@);
            assert(lower_seq("aggregate"@) =~= "aggregate"@);
            assert(lower_seq("label"@) =~= "label"@);
            assert(lower_seq("fmt"@) =~= "fmt"@);
            assert(lower_seq("groups"@) =~= "groups"@);
        }
        let target_cols = list_setting(settings, "target");
        let aggregates = list_setting(settings, "aggregate");
        let labels = list_setting(settings, "label");
        let side = find_side(settings);
        let fmt = match find_last_setting(settings, "fmt") {
            Some(FacetValue::String(v)) => Some(owned(v)),
            _ => None,
        };
        let groups_filter = match find_last_setting(settings, "groups") {
            Some(v) => match v {
                FacetValue::StrList(_) | FacetValue::IdentList(_) | FacetValue::String(_)
                | FacetValue::Identifier(_) => Some(value_list_exec(v)),
                _ => None,
            },
            None => None,
        };
        FacetView { target_cols, aggregates, labels, side, fmt, groups_filter }
    }
}

} // verus!

verus! {

// ============================================================================
// Header forest
// ============================================================================

/// The mathematical value of a header node.
pub enum HeaderModel {
    Column(nat),
    Spanner { id: Seq<char>, label: Seq<char>, user: bool, children: Seq<HeaderModel> },
}

pub open spec fn node_view(n: HeaderNode) -> HeaderModel
    decreases n,
{
    match n {
        HeaderNode::Column { col_idx } => HeaderModel::Column(col_idx as nat),
        HeaderNode::Spanner { id, label, label_is_user, children } => HeaderModel::Spanner {
            id: id@,
            label: label@,
            user: label_is_user,
            children: nodes_view(children@),
        },
    }
}

pub open spec fn nodes_view(s: Seq<HeaderNode>) -> Seq<HeaderModel>
    decreases s,
{
    if s.len() == 0 {
        Seq::empty()
    } else {
        nodes_view(s.drop_last()).push(node_view(s.last()))
    }
}

pub proof fn lemma_nodes_view_index(s: Seq<HeaderNode>)
    ensures
        nodes_view(s).len() == s.len(),
        forall|i: int| 0 <= i < s.len() ==> #[trigger] nodes_view(s)[i] == node_view(s[i]),
    decreases s.len(),
{
    if s.len() > 0 {
        lemma_nodes_view_index(s.drop_last());
        assert forall|i: int| 0 <= i < s.len() implies #[trigger] nodes_view(s)[i] == node_view(
            s[i],
        ) by {
            if i < s.len() - 1 {
                assert(s.drop_last()[i] == s[i]);
            }
        }
    }
}

pub proof fn lemma_nodes_view_ext(a: Seq<HeaderNode>, b: Seq<HeaderModel>)
    requires
        a.len() == b.len(),
        forall|i: int| 0 <= i < a.len() ==> #[trigger] node_view(a[i]) == b[i],
    ensures
        nodes_view(a) == b,
{
    lemma_nodes_view_index(a);
    assert(nodes_view(a) =~= b);
}

/// A copy of a header node.
pub fn clone_node(n: &HeaderNode) -> (r: HeaderNode)
    ensures
        node_view(r) == node_view(*n),
    decreases n,
{
    match n {
        HeaderNode::Column { col_idx } => HeaderNode::Column { col_idx: *col_idx },
        HeaderNode::Spanner { id, label, label_is_user, children } => {
            let mut kids: Vec<HeaderNode> = Vec::new();
            let mut i: usize = 0;
            while i < children.len()
                invariant
                    i <= children@.len(),
                    kids@.len() == i,
                    forall|j: int| 0 <= j < i ==> #[trigger] node_view(kids@[j]) == node_view(children@[j]),
                    *n == (HeaderNode::Spanner {
                        id: *id,
                        label: *label,
                        label_is_user: *label_is_user,
                        children: *children,
                    }),
                decreases children.len() - i,
            {
                proof {
                    assert(decreases_to!(*n => (*n)->children));
                }
                kids.push(clone_node(&children[i]));
                i += 1;
            }
            proof {
                lemma_nodes_view_index(children@);
                lemma_nodes_view_ext(kids@, nodes_view(children@));
            }
            HeaderNode::Spanner {
                id: owned(id),
                label: owned(label),
                label_is_user: *label_is_user,
                children: kids,
            }
        },
    }
}

/// The renames of a LABEL clause (none without one).
pub open spec fn label_renames(label: Option<LabelClause>) -> Seq<(String, String)> {
    match label {
        Some(l) => l.renames@,
        None => Seq::empty(),
    }
}

/// The label the last `LABEL <id> => '...'` whose id lower-cases to `key`
/// gives.
pub open spec fn label_lookup(renames: Seq<(String, String)>, key: Seq<char>) -> Option<Seq<char>>
    decreases renames.len(),
{
    if renames.len() == 0 {
        None
    } else if lower_seq(renames.last().0@) == key {
        Some(renames.last().1@)
    } else {
        label_lookup(renames.drop_last(), key)
    }
}

/// The label for `key` (already lower-cased), from the last matching rename.
pub fn lookup_label<'a>(renames: &'a Vec<(String, String)>, key: &str) -> (r: Option<&'a String>)
    ensures
        match label_lookup(renames@, key@) {
            Some(l) => r matches Some(x) && x@ == l,
            None => r is None,
        },
{
    let mut i = renames.len();
    proof {
        assert(renames@.take(i as int) =~= renames@);
    }
    while i > 0
        invariant
            i <= renames@.len(),
            label_lookup(renames@, key@) == label_lookup(renames@.take(i as int), key@),
        decreases i,
    {
        let p = &renames[i - 1];
        proof {
            let t = renames@.take(i as int);
            assert(t.drop_last() =~= renames@.take(i - 1));
            assert(t.last() == *p);
        }
        let k = to_ascii_lowercase(&p.0);
        if str_eq(&k, key) {
            return Some(&p.1);
        }
        i -= 1;
    }
    None
}

/// The id by which a node can be referenced in a later FORMAT SPAN: a
/// column's name or a spanner's bareword id.
pub open spec fn model_id(m: HeaderModel, names: Seq<Seq<char>>) -> Seq<char> {
    match m {
        HeaderModel::Column(i) => if i < names.len() {
            names[i as int]
        } else {
            Seq::empty()
        },
        HeaderModel::Spanner { id, .. } => id,
    }
}

/// `id` is one of `cols`, ASCII-case-insensitively.
pub open spec fn id_listed(cols: Seq<Seq<char>>, id: Seq<char>) -> bool {
    exists|j: int| 0 <= j < cols.len() && lower_seq(#[trigger] cols[j]) == lower_seq(id)
}

/// Position of the first node a span lists.
pub open spec fn first_listed(nodes: Seq<HeaderModel>, names: Seq<Seq<char>>, cols: Seq<Seq<char>>) -> Option<int>
    decreases nodes.len(),
{
    if nodes.len() == 0 {
        None
    } else if id_listed(cols, model_id(nodes[0], names)) {
        Some(0)
    } else {
        match first_listed(nodes.drop_first(), names, cols) {
            Some(k) => Some(k + 1),
            None => None,
        }
    }
}

/// The nodes a span does not list, in order.
pub open spec fn unlisted(nodes: Seq<HeaderModel>, names: Seq<Seq<char>>, cols: Seq<Seq<char>>) -> Seq<HeaderModel>
    decreases nodes.len(),
{
    if nodes.len() == 0 {
        nodes
    } else {
        let r = unlisted(nodes.drop_last(), names, cols);
        if id_listed(cols, model_id(nodes.last(), names)) {
            r
        } else {
            r.push(nodes.last())
        }
    }
}

/// The first node whose id is `want`, ASCII-case-insensitively.
pub open spec fn first_with_id(nodes: Seq<HeaderModel>, names: Seq<Seq<char>>, want: Seq<char>) -> Option<HeaderModel>
    decreases nodes.len(),
{
    if nodes.len() == 0 {
        None
    } else if lower_seq(model_id(nodes[0], names)) == lower_seq(want) {
        Some(nodes[0])
    } else {
        first_with_id(nodes.drop_first(), names, want)
    }
}

/// A span's children: for each listed id, in listing order, the first
/// node with that id (ids naming no node are dropped).
pub open spec fn span_children(nodes: Seq<HeaderModel>, names: Seq<Seq<char>>, cols: Seq<Seq<char>>) -> Seq<HeaderModel>
    decreases cols.len(),
{
    if cols.len() == 0 {
        Seq::empty()
    } else {
        let r = span_children(nodes, names, cols.drop_last());
        match first_with_id(nodes, names, cols.last()) {
            Some(n) => r.push(n),
            None => r,
        }
    }
}

/// One `FORMAT SPAN <cols> AS <id>`: the listed nodes leave the forest and
/// a spanner holding them takes the place of the first of them. A span
/// that lists no node changes nothing. The spanner's label comes from
/// `LABEL <id>` when there is one, else it is the id.
pub open spec fn span_step(
    nodes: Seq<HeaderModel>,
    names: Seq<Seq<char>>,
    cols: Seq<Seq<char>>,
    id: Seq<char>,
    renames: Seq<(String, String)>,
) -> Seq<HeaderModel> {
    match first_listed(nodes, names, cols) {
        None => nodes,
        Some(i0) => {
            let rem = unlisted(nodes, names, cols);
            let (label, user) = match label_lookup(renames, lower_seq(id)) {
                Some(l) => (l, true),
                None => (id, false),
            };
            let sp = HeaderModel::Spanner {
                id,
                label,
                user,
                children: span_children(nodes, names, cols),
            };
            rem.insert(if i0 <= rem.len() { i0 } else { rem.len() as int }, sp)
        },
    }
}

/// The header forest: one leaf per column, then each `FORMAT SPAN ... AS
/// <id>` folded over it in clause order.
pub open spec fn forest_from(
    clauses: Seq<FormatClause>,
    names: Seq<Seq<char>>,
    renames: Seq<(String, String)>,
) -> Seq<HeaderModel>
    decreases clauses.len(),
{
    if clauses.len() == 0 {
        Seq::new(names.len(), |i: int| HeaderModel::Column(i as nat))
    } else {
        let prev = forest_from(clauses.drop_last(), names, renames);
        let fc = clauses.last();
        if fc.mode == FormatMode::Span && fc.span_id is Some {
            span_step(prev, names, seqs(fc.columns@), fc.span_id->0@, renames)
        } else {
            prev
        }
    }
}

fn node_id<'a>(n: &'a HeaderNode, names: &'a Vec<String>) -> (r: &'a str)
    ensures
        r@ == model_id(node_view(*n), seqs(names@)),
{
    match n {
        HeaderNode::Column { col_idx } => {
            if *col_idx < names.len() {
                names[*col_idx].as_str()
            } else {
                proof {
                    reveal_strlit("");
                }
                ""
            }
        },
        HeaderNode::Spanner { id, .. } => id.as_str(),
    }
}

fn listed(cols: &Vec<String>, id: &str) -> (r: bool)
    ensures
        r == id_listed(seqs(cols@), id@),
{
    let mut j: usize = 0;
    while j < cols.len()
        invariant
            j <= cols@.len(),
            forall|q: int| 0 <= q < j ==> lower_seq(#[trigger] seqs(cols@)[q]) != lower_seq(id@),
        decreases cols.len() - j,
    {
        if eq_ignore_ascii_case(&cols[j], id) {
            proof {
                assert(seqs(cols@)[j as int] == cols@[j as int]@);
            }
            return true;
        }
        proof {
            assert(seqs(cols@)[j as int] == cols@[j as int]@);
        }
        j += 1;
    }
    false
}

/// Position of the first node that `cols` lists.
fn find_first_listed(nodes: &Vec<HeaderNode>, names: &Vec<String>, cols: &Vec<String>) -> (r: Option<usize>)
    ensures
        match first_listed(nodes_view(nodes@), seqs(names@), seqs(cols@)) {
            Some(i) => r is Some && r->0 == i,
            None => r is None,
        },
{
    let ghost nv = nodes_view(nodes@);
    let ghost nm = seqs(names@);
    let ghost cs = seqs(cols@);
    proof {
        lemma_nodes_view_index(nodes@);
    }
    let mut i: usize = 0;
    while i < nodes.len()
        invariant
            i <= nodes@.len(),
            nv == nodes_view(nodes@),
            nm == seqs(names@),
            cs == seqs(cols@),
            nv.len() == nodes@.len(),
            forall|q: int| 0 <= q < nodes@.len() ==> #[trigger] nv[q] == node_view(nodes@[q]),
            forall|q: int| 0 <= q < i ==> !id_listed(cs, #[trigger] model_id(nv[q], nm)),
        decreases nodes.len() - i,
    {
        if listed(cols, node_id(&nodes[i], names)) {
            proof {
                lemma_first_listed(nv, nm, cs, i as int);
            }
            return Some(i);
        }
        i += 1;
    }
    proof {
        lemma_first_listed(nv, nm, cs, i as int);
    }
    None
}

proof fn lemma_first_with_id(nv: Seq<HeaderModel>, nm: Seq<Seq<char>>, want: Seq<char>, i: int)
    requires
        0 <= i <= nv.len(),
        forall|q: int| 0 <= q < i ==> lower_seq(#[trigger] model_id(nv[q], nm)) != lower_seq(want),
    ensures
        i == nv.len() ==> first_with_id(nv, nm, want) is None,
        i < nv.len() && lower_seq(model_id(nv[i], nm)) == lower_seq(want) ==> first_with_id(
            nv,
            nm,
            want,
        ) == Some(nv[i]),
    decreases i,
{
    if i > 0 {
        let t = nv.drop_first();
        assert forall|q: int| 0 <= q < i - 1 implies lower_seq(#[trigger] model_id(t[q], nm))
            != lower_seq(want) by {
            assert(t[q] == nv[q + 1]);
        }
        lemma_first_with_id(t, nm, want, i - 1);
        assert(lower_seq(model_id(nv[0], nm)) != lower_seq(want));
        if i < nv.len() {
            assert(t[i - 1] == nv[i]);
        }
    }
}

/// Position of the first node whose id is `want`.
fn find_with_id(nodes: &Vec<HeaderNode>, names: &Vec<String>, want: &str) -> (r: Option<usize>)
    ensures
        match first_with_id(nodes_view(nodes@), seqs(names@), want@) {
            Some(n) => r matches Some(i) && i < nodes@.len() && node_view(nodes@[i as int]) == n,
            None => r is None,
        },
{
    let ghost nv = nodes_view(nodes@);
    let ghost nm = seqs(names@);
    proof {
        lemma_nodes_view_index(nodes@);
    }
    let mut i: usize = 0;
    while i < nodes.len()
        invariant
            i <= nodes@.len(),
            nv == nodes_view(nodes@),
            nm == seqs(names@),
            nv.len() == nodes@.len(),
            forall|q: int| 0 <= q < nodes@.len() ==> #[trigger] nv[q] == node_view(nodes@[q]),
            forall|q: int| 0 <= q < i ==> lower_seq(#[trigger] model_id(nv[q], nm)) != lower_seq(want@),
        decreases nodes.len() - i,
    {
        if eq_ignore_ascii_case(node_id(&nodes[i], names), want) {
            proof {
                lemma_first_with_id(nv, nm, want@, i as int);
            }
            return Some(i);
        }
        i += 1;
    }
    proof {
        lemma_first_with_id(nv, nm, want@, i as int);
    }
    None
}

/// Apply one `FORMAT SPAN` to the forest.
fn apply_span(
    nodes: &Vec<HeaderNode>,
    names: &Vec<String>,
    cols: &Vec<String>,
    id: &String,
    renames: &Vec<(String, String)>,
) -> (r: Vec<HeaderNode>)
    ensures
        nodes_view(r@) == span_step(nodes_view(nodes@), seqs(names@), seqs(cols@), id@, renames@),
{
    let ghost nv = nodes_view(nodes@);
    let ghost nm = seqs(names@);
    let ghost cs = seqs(cols@);
    proof {
        lemma_nodes_view_index(nodes@);
    }
    let first = find_first_listed(nodes, names, cols);
    let i0 = match first {
        None => {
            let mut out: Vec<HeaderNode> = Vec::new();
            let mut k: usize = 0;
            while k < nodes.len()
                invariant
                    k <= nodes@.len(),
                    out@.len() == k,
                    forall|q: int| 0 <= q < k ==> #[trigger] node_view(out@[q]) == node_view(nodes@[q]),
                decreases nodes.len() - k,
            {
                out.push(clone_node(&nodes[k]));
                k += 1;
            }
            proof {
                lemma_nodes_view_ext(out@, nv);
            }
            return out;
        },
        Some(i0) => i0,
    };
    // Nodes the span does not list, in order.
    let mut rem: Vec<HeaderNode> = Vec::new();
    let mut k: usize = 0;
    proof {
        assert(nv.take(0) =~= Seq::<HeaderModel>::empty());
    }
    while k < nodes.len()
        invariant
            k <= nodes@.len(),
            nm == seqs(names@),
            cs == seqs(cols@),
            nv.len() == nodes@.len(),
            forall|q: int| 0 <= q < nodes@.len() ==> #[trigger] nv[q] == node_view(nodes@[q]),
            nodes_view(rem@) == unlisted(nv.take(k as int), nm, cs),
        decreases nodes.len() - k,
    {
        let ghost before = rem@;
        proof {
            assert(nv.take(k + 1).drop_last() =~= nv.take(k as int));
            assert(nv.take(k + 1).last() == nv[k as int]);
        }
        if !listed(cols, node_id(&nodes[k], names)) {
            let c = clone_node(&nodes[k]);
            rem.push(c);
            proof {
                assert(rem@.drop_last() =~= before);
                assert(rem@.last() == c);
            }
        }
        k += 1;
    }
    proof {
        assert(nv.take(k as int) =~= nv);
    }
    // Children, in listing order.
    let mut kids: Vec<HeaderNode> = Vec::new();
    let mut w: usize = 0;
    proof {
        assert(cs.take(0) =~= Seq::<Seq<char>>::empty());
    }
    while w < cols.len()
        invariant
            w <= cols@.len(),
            cs == seqs(cols@),
            nm == seqs(names@),
            nv == nodes_view(nodes@),
            nodes_view(kids@) == span_children(nv, nm, cs.take(w as int)),
        decreases cols.len() - w,
    {
        let ghost before = kids@;
        proof {
            assert(cs.take(w + 1).drop_last() =~= cs.take(w as int));
            assert(cs.take(w + 1).last() == cols@[w as int]@);
        }
        if let Some(j) = find_with_id(nodes, names, &cols[w]) {
            let c = clone_node(&nodes[j]);
            kids.push(c);
            proof {
                assert(kids@.drop_last() =~= before);
                assert(kids@.last() == c);
            }
        }
        w += 1;
    }
    proof {
        assert(cs.take(w as int) =~= cs);
    }
    let key = to_ascii_lowercase(id);
    let (label, user) = match lookup_label(renames, &key) {
        Some(l) => (owned(l), true),
        None => (owned(id), false),
    };
    let sp = HeaderNode::Spanner { id: owned(id), label, label_is_user: user, children: kids };
    let at = if i0 <= rem.len() {
        i0
    } else {
        rem.len()
    };
    let ghost rem_before = rem@;
    rem.insert(at, sp);
    proof {
        lemma_nodes_view_index(rem_before);
        lemma_nodes_view_index(rem@);
        let target = span_step(nv, nm, cs, id@, renames@);
        assert(first_listed(nv, nm, cs) == Some(i0 as int));
        assert(nodes_view(rem_before) == unlisted(nv, nm, cs));
        assert(node_view(sp) == HeaderModel::Spanner {
            id: id@,
            label: match label_lookup(renames@, lower_seq(id@)) {
                Some(l) => l,
                None => id@,
            },
            user: label_lookup(renames@, lower_seq(id@)) is Some,
            children: span_children(nv, nm, cs),
        });
        assert(target == nodes_view(rem_before).insert(at as int, node_view(sp)));
        assert forall|q: int| 0 <= q < rem@.len() implies #[trigger] node_view(rem@[q]) == target[q] by {
            if q < at {
                assert(rem@[q] == rem_before[q]);
            } else if q > at {
                assert(rem@[q] == rem_before[q - 1]);
            }
        }
        lemma_nodes_view_ext(rem@, target);
    }
    rem
}

proof fn lemma_first_listed(nv: Seq<HeaderModel>, nm: Seq<Seq<char>>, cs: Seq<Seq<char>>, i: int)
    requires
        0 <= i <= nv.len(),
        forall|q: int| 0 <= q < i ==> !id_listed(cs, #[trigger] model_id(nv[q], nm)),
    ensures
        i == nv.len() ==> first_listed(nv, nm, cs) is None,
        i < nv.len() && id_listed(cs, model_id(nv[i], nm)) ==> first_listed(nv, nm, cs) == Some(i),
    decreases i,
{
    if i > 0 {
        let t = nv.drop_first();
        assert forall|q: int| 0 <= q < i - 1 implies !id_listed(cs, #[trigger] model_id(t[q], nm)) by {
            assert(t[q] == nv[q + 1]);
        }
        lemma_first_listed(t, nm, cs, i - 1);
        assert(!id_listed(cs, model_id(nv[0], nm)));
        if i < nv.len() {
            assert(t[i - 1] == nv[i]);
        }
    } else if nv.len() > 0 {
    }
}

/// Build the header tree from `FORMAT SPAN <cols> AS <id>` clauses, starting
/// from a flat sequence of columns and folding each span over the current
/// forest. Children of a `FORMAT SPAN` are matched by name (case-insensitive)
/// against either column names or previously-introduced spanner ids.
pub fn build_header_forest(
    clauses: &Vec<FormatClause>,
    names: &Vec<String>,
    renames: &Vec<(String, String)>,
) -> (r: Vec<HeaderNode>)
    ensures
        nodes_view(r@) == forest_from(clauses@, seqs(names@), renames@),
{
    let mut nodes: Vec<HeaderNode> = Vec::new();
    let mut i: usize = 0;
    while i < names.len()
        invariant
            i <= names@.len(),
            nodes@.len() == i,
            forall|q: int| 0 <= q < i ==> #[trigger] node_view(nodes@[q]) == HeaderModel::Column(q as nat),
        decreases names.len() - i,
    {
        nodes.push(HeaderNode::Column { col_idx: i });
        i += 1;
    }
    proof {
        lemma_nodes_view_ext(nodes@, Seq::new(seqs(names@).len(), |q: int| HeaderModel::Column(q as nat)));
        assert(clauses@.take(0) =~= Seq::<FormatClause>::empty());
    }
    let mut c: usize = 0;
    while c < clauses.len()
        invariant
            c <= clauses@.len(),
            nodes_view(nodes@) == forest_from(clauses@.take(c as int), seqs(names@), renames@),
        decreases clauses.len() - c,
    {
        let fc = &clauses[c];
        proof {
            assert(clauses@.take(c + 1).drop_last() =~= clauses@.take(c as int));
            assert(clauses@.take(c + 1).last() == *fc);
        }
        if fc.mode == FormatMode::Span {
            if let Some(sid) = &fc.span_id {
                nodes = apply_span(&nodes, names, &fc.columns, sid, renames);
            }
        }
        c += 1;
    }
    proof {
        assert(clauses@.take(c as int) =~= clauses@);
    }
    nodes
}

} // verus!

verus! {

// ============================================================================
// Cell text
// ============================================================================

/// What the fetched data says about one cell, as plain values. Reading a
/// number, comparing it with a `RENAMING` number and rendering it under a
/// conversion happen where the data is read.
pub struct CellInput {
    pub is_null: bool,
    /// The value, when the column holds `Utf8` strings.
    pub string: Option<String>,
    /// How the value displays; `None` when it cannot be displayed.
    pub display: Option<String>,
    /// Whether the value reads as a number.
    pub numeric: bool,
    /// Whether that number is zero.
    pub is_zero: bool,
    /// For each `RENAMING <number>` of the column, in order, whether the
    /// value equals that number.
    pub number_matches: Vec<bool>,
    /// The number reduced under the column's `{:num}` conversion; `None`
    /// for NaN.
    pub num_value: Option<NumValue>,
    /// The automatic formatter's text for the number.
    pub auto_text: Option<String>,
}

/// A cell shown as it reads: `NA` for a null, the string, else its display.
pub open spec fn plain_text(c: CellInput) -> Seq<char> {
    if c.is_null {
        "NA"@
    } else {
        match c.string {
            Some(s) => s@,
            None => match c.display {
                Some(d) => d@,
                None => "NA"@,
            },
        }
    }
}

/// The replacement of the first pair whose key is `v`.
pub open spec fn first_literal(subs: Seq<(Seq<char>, Seq<char>)>, v: Seq<char>) -> Option<Seq<char>>
    decreases subs.len(),
{
    if subs.len() == 0 {
        None
    } else if subs[0].0 == v {
        Some(subs[0].1)
    } else {
        first_literal(subs.drop_first(), v)
    }
}

/// The replacement of the first pair whose number the value equals.
pub open spec fn first_number(m: Seq<bool>, subs: Seq<(Seq<char>, Seq<char>)>) -> Option<Seq<char>>
    decreases subs.len(),
{
    if subs.len() == 0 || m.len() == 0 {
        None
    } else if m[0] {
        Some(subs[0].1)
    } else {
        first_number(m.drop_first(), subs.drop_first())
    }
}

/// The value a time or string template sees: the string, else the display.
pub open spec fn template_input(c: CellInput) -> Option<Seq<char>> {
    match c.string {
        Some(s) => Some(s@),
        None => match c.display {
            Some(d) => Some(d@),
            None => None,
        },
    }
}

/// A cell under its column's formatter.
pub open spec fn formatted(f: FormatterModel, c: CellInput) -> Seq<char> {
    match f {
        FormatterModel::Num(p, ns, s) => if c.is_null {
            "NA"@
        } else if c.numeric {
            match c.num_value {
                Some(n) => p + render_value_spec(ns, n) + s,
                None => "NA"@,
            }
        } else {
            plain_text(c)
        },
        FormatterModel::Auto => if !c.is_null && c.numeric && c.auto_text is Some {
            c.auto_text->0@
        } else {
            plain_text(c)
        },
        FormatterModel::Time(p, fm, s, lang) => if c.is_null {
            "NA"@
        } else {
            match template_input(c) {
                Some(v) => time_cell_spec(p, fm, s, lang, Some(v)),
                None => "NA"@,
            }
        },
        FormatterModel::Str(p, k, s) => if c.is_null {
            "NA"@
        } else {
            match template_input(c) {
                Some(v) => p + apply_transform(k, v) + s,
                None => "NA"@,
            }
        },
        FormatterModel::Plain => plain_text(c),
    }
}

/// A cell's text. A column the result lacks reads `NA`; otherwise a
/// matching literal substitution comes first, then a matching number,
/// then `null`, then `0`, then the formatter.
pub open spec fn cell_text(r: RulesModel, c: CellInput) -> Seq<char> {
    if r.source is None {
        "NA"@
    } else if !c.is_null && c.string is Some && first_literal(r.literals, c.string->0@) is Some {
        first_literal(r.literals, c.string->0@)->0
    } else if !c.is_null && c.numeric && first_number(c.number_matches@, r.numbers) is Some {
        first_number(c.number_matches@, r.numbers)->0
    } else if c.is_null && r.null_text is Some {
        r.null_text->0
    } else if !c.is_null && c.numeric && c.is_zero && r.zero_text is Some {
        r.zero_text->0
    } else {
        formatted(r.formatter, c)
    }
}

fn na() -> (r: String)
    ensures
        r@ == "NA"@,
{
    String::from_str("NA")
}

fn plain_text_exec(c: &CellInput) -> (r: String)
    ensures
        r@ == plain_text(*c),
{
    if c.is_null {
        return na();
    }
    match &c.string {
        Some(s) => owned(s),
        None => match &c.display {
            Some(d) => owned(d),
            None => na(),
        },
    }
}

fn first_literal_exec(subs: &Vec<(String, String)>, v: &str) -> (r: Option<String>)
    ensures
        opt_str(r) == first_literal(pair_seqs(subs@), v@),
{
    let ghost ps = pair_seqs(subs@);
    let mut i: usize = 0;
    proof {
        assert(ps.skip(0) =~= ps);
    }
    while i < subs.len()
        invariant
            i <= subs@.len(),
            ps == pair_seqs(subs@),
            first_literal(ps, v@) == first_literal(ps.skip(i as int), v@),
        decreases subs.len() - i,
    {
        proof {
            assert(ps.skip(i as int)[0] == (subs@[i as int].0@, subs@[i as int].1@));
            assert(ps.skip(i as int).drop_first() =~= ps.skip(i + 1));
        }
        if str_eq(&subs[i].0, v) {
            return Some(owned(&subs[i].1));
        }
        i += 1;
    }
    None
}

fn first_number_exec(m: &Vec<bool>, subs: &Vec<(String, String)>) -> (r: Option<String>)
    ensures
        opt_str(r) == first_number(m@, pair_seqs(subs@)),
{
    let ghost ps = pair_seqs(subs@);
    let mut i: usize = 0;
    proof {
        assert(ps.skip(0) =~= ps);
        assert(m@.skip(0) =~= m@);
    }
    while i < subs.len() && i < m.len()
        invariant
            i <= subs@.len(),
            i <= m@.len(),
            ps == pair_seqs(subs@),
            first_number(m@, ps) == first_number(m@.skip(i as int), ps.skip(i as int)),
        decreases subs.len() - i,
    {
        proof {
            assert(ps.skip(i as int)[0] == (subs@[i as int].0@, subs@[i as int].1@));
            assert(ps.skip(i as int).drop_first() =~= ps.skip(i + 1));
            assert(m@.skip(i as int)[0] == m@[i as int]);
            assert(m@.skip(i as int).drop_first() =~= m@.skip(i + 1));
        }
        if m[i] {
            return Some(owned(&subs[i].1));
        }
        i += 1;
    }
    None
}

fn template_input_exec(c: &CellInput) -> (r: Option<&str>)
    ensures
        match template_input(*c) {
            Some(v) => r matches Some(x) && x@ == v,
            None => r is None,
        },
{
    match &c.string {
        Some(s) => Some(s.as_str()),
        None => match &c.display {
            Some(d) => Some(d.as_str()),
            None => None,
        },
    }
}

fn formatted_exec(f: &ColumnFormatter, c: &CellInput) -> (r: String)
    ensures
        r@ == formatted(formatter_view(*f), *c),
{
    match f {
        ColumnFormatter::Num(nf) => {
            if c.is_null {
                na()
            } else if c.numeric {
                match &c.num_value {
                    Some(n) => nf.render(Some(n)),
                    None => na(),
                }
            } else {
                plain_text_exec(c)
            }
        },
        ColumnFormatter::Auto => {
            if !c.is_null && c.numeric {
                if let Some(t) = &c.auto_text {
                    return owned(t);
                }
            }
            plain_text_exec(c)
        },
        ColumnFormatter::Time(tf) => {
            if c.is_null {
                na()
            } else {
                match template_input_exec(c) {
                    Some(v) => tf.apply(Some(v)),
                    None => na(),
                }
            }
        },
        ColumnFormatter::Str(sf) => {
            if c.is_null {
                na()
            } else {
                match template_input_exec(c) {
                    Some(v) => sf.apply(Some(v)),
                    None => na(),
                }
            }
        },
        ColumnFormatter::Plain => plain_text_exec(c),
    }
}

/// The text of one cell under its column's rules.
pub fn resolve_cell(rules: &CellRules, c: &CellInput) -> (r: String)
    ensures
        r@ == cell_text(rules_view(*rules), *c),
{
    if rules.source.is_none() {
        return na();
    }
    if !c.is_null {
        if let Some(s) = &c.string {
            if let Some(sub) = first_literal_exec(&rules.literals, s) {
                return sub;
            }
        }
        if c.numeric {
            if let Some(sub) = first_number_exec(&c.number_matches, &rules.numbers) {
                return sub;
            }
        }
    }
    if c.is_null {
        if let Some(t) = &rules.null_text {
            return owned(t);
        }
    } else if c.numeric && c.is_zero {
        if let Some(t) = &rules.zero_text {
            return owned(t);
        }
    }
    formatted_exec(&rules.formatter, c)
}

} // verus!

verus! {

// ============================================================================
// HIGHLIGHT styles
// ============================================================================

/// A cell's style, as values.
pub struct StyleModel {
    pub background: Option<Seq<char>>,
    pub color: Option<Seq<char>>,
    pub face: Option<Seq<char>>,
    pub size: Option<Seq<char>>,
    pub transform: Option<Seq<char>>,
    pub decoration: Option<Seq<char>>,
}

pub open spec fn style_view(s: CellStyle) -> StyleModel {
    StyleModel {
        background: opt_str(s.background),
        color: opt_str(s.color),
        face: opt_str(s.face),
        size: opt_str(s.size),
        transform: opt_str(s.transform),
        decoration: opt_str(s.decoration),
    }
}

pub open spec fn no_style() -> StyleModel {
    StyleModel {
        background: None,
        color: None,
        face: None,
        size: None,
        transform: None,
        decoration: None,
    }
}

/// A setting's value as text: a string as written, a number literal as
/// written, a boolean as `true` / `false`.
pub open spec fn setting_text(v: SettingValue) -> Seq<char> {
    match v {
        SettingValue::String(s) => s@,
        SettingValue::Number(n) => n@,
        SettingValue::Bool(b) => if b {
            "true"@
        } else {
            "false"@
        },
    }
}

/// The value of the last setting whose lower-cased key is `key`.
pub open spec fn last_hl_setting(s: Seq<HighlightSetting>, key: Seq<char>) -> Option<Seq<char>>
    decreases s.len(),
{
    if s.len() == 0 {
        None
    } else if lower_seq(s.last().key@) == key {
        Some(setting_text(s.last().value))
    } else {
        last_hl_setting(s.drop_last(), key)
    }
}

pub open spec fn hex_opt(o: Option<Seq<char>>) -> Option<Seq<char>> {
    match o {
        Some(v) => Some(hex_rgb(resolve_rgb8(v))),
        None => None,
    }
}

/// What one HIGHLIGHT sets: colours as uppercase `#RRGGBB`, the rest
/// verbatim.
pub open spec fn hl_style(hl: HighlightClause) -> StyleModel {
    StyleModel {
        background: hex_opt(last_hl_setting(hl.settings@, "background"@)),
        color: hex_opt(last_hl_setting(hl.settings@, "color"@)),
        face: last_hl_setting(hl.settings@, "face"@),
        size: last_hl_setting(hl.settings@, "size"@),
        transform: last_hl_setting(hl.settings@, "transform"@),
        decoration: last_hl_setting(hl.settings@, "decoration"@),
    }
}

/// A later highlight's settings override an earlier one's.
pub open spec fn overlay(prev: StyleModel, s: StyleModel) -> StyleModel {
    StyleModel {
        background: or_else(s.background, prev.background),
        color: or_else(s.color, prev.color),
        face: or_else(s.face, prev.face),
        size: or_else(s.size, prev.size),
        transform: or_else(s.transform, prev.transform),
        decoration: or_else(s.decoration, prev.decoration),
    }
}

/// Column `c` is the first column named (up to ASCII case) by one of the
/// highlight's columns.
pub open spec fn hl_targets(hl: HighlightClause, names: Seq<Seq<char>>, c: int) -> bool {
    first_of_listed(seqs(hl.columns@), names, c)
}

/// Column `c` is the first column named (up to ASCII case) by one of
/// `list`.
pub open spec fn first_of_listed(list: Seq<Seq<char>>, names: Seq<Seq<char>>, c: int) -> bool {
    exists|j: int| 0 <= j < list.len() && first_eq_ic(names, #[trigger] list[j]) == Some(c)
}

/// The highlight's predicate holds on row `r`.
pub open spec fn hl_hits(m: Option<Vec<bool>>, r: int) -> bool {
    m matches Some(v) && 0 <= r < v@.len() && v@[r]
}

/// The style of cell (`r`, `c`): each highlight whose predicate holds on
/// the row and which targets the column applies its settings, in order.
pub open spec fn cell_style_spec(
    hls: Seq<HighlightClause>,
    ms: Seq<Option<Vec<bool>>>,
    names: Seq<Seq<char>>,
    r: int,
    c: int,
) -> StyleModel
    decreases hls.len(),
{
    if hls.len() == 0 {
        no_style()
    } else {
        let p = cell_style_spec(hls.drop_last(), ms, names, r, c);
        let i = hls.len() - 1;
        if i < ms.len() && hl_hits(ms[i], r) && hl_targets(hls[i], names, c) {
            overlay(p, hl_style(hls[i]))
        } else {
            p
        }
    }
}

fn setting_text_exec(v: &SettingValue) -> (r: String)
    ensures
        r@ == setting_text(*v),
{
    match v {
        SettingValue::String(s) => owned(s),
        SettingValue::Number(n) => owned(n),
        SettingValue::Bool(b) => if *b {
            String::from_str("true")
        } else {
            String::from_str("false")
        },
    }
}

fn last_hl_setting_exec(s: &Vec<HighlightSetting>, key: &str) -> (r: Option<String>)
    ensures
        opt_str(r) == last_hl_setting(s@, key@),
{
    let mut i = s.len();
    proof {
        assert(s@.take(i as int) =~= s@);
    }
    while i > 0
        invariant
            i <= s@.len(),
            last_hl_setting(s@, key@) == last_hl_setting(s@.take(i as int), key@),
        decreases i,
    {
        proof {
            let t = s@.take(i as int);
            assert(t.drop_last() =~= s@.take(i - 1));
            assert(t.last() == s@[i - 1]);
        }
        let st = &s[i - 1];
        let k = to_ascii_lowercase(&st.key);
        if str_eq(&k, key) {
            return Some(setting_text_exec(&st.value));
        }
        i -= 1;
    }
    None
}

fn hex_opt_exec(o: Option<String>) -> (r: Option<String>)
    ensures
        opt_str(r) == hex_opt(opt_str(o)),
{
    match o {
        Some(v) => Some(parse_to_hex_upper(&v)),
        None => None,
    }
}

fn hl_style_exec(hl: &HighlightClause) -> (r: CellStyle)
    ensures
        style_view(r) == hl_style(*hl),
{
    CellStyle {
        background: hex_opt_exec(last_hl_setting_exec(&hl.settings, "background")),
        color: hex_opt_exec(last_hl_setting_exec(&hl.settings, "color")),
        face: last_hl_setting_exec(&hl.settings, "face"),
        size: last_hl_setting_exec(&hl.settings, "size"),
        transform: last_hl_setting_exec(&hl.settings, "transform"),
        decoration: last_hl_setting_exec(&hl.settings, "decoration"),
    }
}

fn overlay_opt(prev: Option<String>, s: &Option<String>) -> (r: Option<String>)
    ensures
        opt_str(r) == or_else(opt_str(*s), opt_str(prev)),
{
    match s {
        Some(x) => Some(owned(x)),
        None => prev,
    }
}

fn overlay_exec(prev: CellStyle, s: &CellStyle) -> (r: CellStyle)
    ensures
        style_view(r) == overlay(style_view(prev), style_view(*s)),
{
    CellStyle {
        background: overlay_opt(prev.background, &s.background),
        color: overlay_opt(prev.color, &s.color),
        face: overlay_opt(prev.face, &s.face),
        size: overlay_opt(prev.size, &s.size),
        transform: overlay_opt(prev.transform, &s.transform),
        decoration: overlay_opt(prev.decoration, &s.decoration),
    }
}

/// For each of `names`, whether it is the first match of one of `list`.
fn first_of_listed_flags(list: &Vec<String>, names: &Vec<String>) -> (r: Vec<bool>)
    ensures
        r@.len() == names@.len(),
        forall|c: int| 0 <= c < names@.len() ==> #[trigger] r@[c] == first_of_listed(seqs(list@), seqs(names@), c),
{
    let mut r: Vec<bool> = Vec::new();
    let mut c: usize = 0;
    while c < names.len()
        invariant
            c <= names@.len(),
            r@.len() == c,
            forall|q: int| 0 <= q < c ==> !#[trigger] r@[q],
        decreases names.len() - c,
    {
        r.push(false);
        c += 1;
    }
    let ghost ls = seqs(list@);
    let mut j: usize = 0;
    while j < list.len()
        invariant
            j <= list@.len(),
            ls == seqs(list@),
            r@.len() == names@.len(),
            forall|q: int|
                0 <= q < names@.len() ==> #[trigger] r@[q] == exists|k: int|
                    0 <= k < j && first_eq_ic(seqs(names@), #[trigger] ls[k]) == Some(q),
        decreases list.len() - j,
    {
        proof {
            assert(ls[j as int] == list@[j as int]@);
        }
        if let Some(p) = crate::tabulate::layout::find_eq_ic(names, &list[j]) {
            r.set(p, true);
        }
        proof {
            assert forall|q: int| 0 <= q < names@.len() implies #[trigger] r@[q] == exists|k: int|
                0 <= k < j + 1 && first_eq_ic(seqs(names@), #[trigger] ls[k]) == Some(q) by {
                if first_eq_ic(seqs(names@), ls[j as int]) == Some(q) {
                    assert(r@[q]);
                }
            }
        }
        j += 1;
    }
    r
}

/// For each column, whether the highlight targets it.
fn hl_target_flags(hl: &HighlightClause, names: &Vec<String>) -> (r: Vec<bool>)
    ensures
        r@.len() == names@.len(),
        forall|c: int| 0 <= c < names@.len() ==> #[trigger] r@[c] == hl_targets(*hl, seqs(names@), c),
{
    first_of_listed_flags(&hl.columns, names)
}

/// The per-cell style matrix: for each of `nrows` rows, one style per
/// column. `matches[i]` says on which rows the `i`-th HIGHLIGHT's
/// predicate holds (`None` when the result lacks its predicate column).
pub fn build_cell_style(
    hls: &Vec<HighlightClause>,
    columns: &Vec<ColMeta>,
    matches: &Vec<Option<Vec<bool>>>,
    nrows: usize,
) -> (r: Vec<Vec<CellStyle>>)
    ensures
        r@.len() == nrows,
        forall|i: int| 0 <= i < nrows ==> (#[trigger] r@[i])@.len() == columns@.len(),
        forall|i: int, c: int|
            0 <= i < nrows && 0 <= c < columns@.len() ==> style_view(#[trigger] r@[i]@[c])
                == cell_style_spec(hls@, matches@, col_names(columns@), i, c),
{
    let mut names: Vec<String> = Vec::new();
    let mut k: usize = 0;
    while k < columns.len()
        invariant
            k <= columns@.len(),
            names@.len() == k,
            forall|q: int| 0 <= q < k ==> #[trigger] names@[q]@ == columns@[q].name@,
        decreases columns.len() - k,
    {
        names.push(owned(&columns[k].name));
        k += 1;
    }
    proof {
        assert(seqs(names@) =~= col_names(columns@));
    }
    let ghost nm = col_names(columns@);
    // Each clause's settings and targets, resolved once.
    let mut styles: Vec<CellStyle> = Vec::new();
    let mut targets: Vec<Vec<bool>> = Vec::new();
    let mut h: usize = 0;
    while h < hls.len()
        invariant
            h <= hls@.len(),
            nm == seqs(names@),
            names@.len() == columns@.len(),
            styles@.len() == h,
            targets@.len() == h,
            forall|q: int| 0 <= q < h ==> style_view(#[trigger] styles@[q]) == hl_style(hls@[q]),
            forall|q: int|
                0 <= q < h ==> (#[trigger] targets@[q])@.len() == names@.len() && forall|c: int|
                    0 <= c < names@.len() ==> #[trigger] targets@[q]@[c] == hl_targets(hls@[q], nm, c),
        decreases hls.len() - h,
    {
        styles.push(hl_style_exec(&hls[h]));
        targets.push(hl_target_flags(&hls[h], &names));
        h += 1;
    }
    let mut out: Vec<Vec<CellStyle>> = Vec::new();
    let mut i: usize = 0;
    while i < nrows
        invariant
            i <= nrows,
            out@.len() == i,
            nm == col_names(columns@),
            styles@.len() == hls@.len(),
            targets@.len() == hls@.len(),
            forall|q: int| 0 <= q < hls@.len() ==> style_view(#[trigger] styles@[q]) == hl_style(hls@[q]),
            forall|q: int|
                0 <= q < hls@.len() ==> (#[trigger] targets@[q])@.len() == columns@.len() && forall|c: int|
                    0 <= c < columns@.len() ==> #[trigger] targets@[q]@[c] == hl_targets(hls@[q], nm, c),
            forall|p: int| 0 <= p < i ==> (#[trigger] out@[p])@.len() == columns@.len(),
            forall|p: int, c: int|
                0 <= p < i && 0 <= c < columns@.len() ==> style_view(#[trigger] out@[p]@[c])
                    == cell_style_spec(hls@, matches@, nm, p, c),
        decreases nrows - i,
    {
        let mut row: Vec<CellStyle> = Vec::new();
        let mut c: usize = 0;
        while c < columns.len()
            invariant
                c <= columns@.len(),
                row@.len() == c,
                i < nrows,
                nm == col_names(columns@),
                styles@.len() == hls@.len(),
                targets@.len() == hls@.len(),
                forall|q: int| 0 <= q < hls@.len() ==> style_view(#[trigger] styles@[q]) == hl_style(hls@[q]),
                forall|q: int|
                    0 <= q < hls@.len() ==> (#[trigger] targets@[q])@.len() == columns@.len() && forall|cc: int|
                        0 <= cc < columns@.len() ==> #[trigger] targets@[q]@[cc] == hl_targets(hls@[q], nm, cc),
                forall|q: int|
                    0 <= q < c ==> style_view(#[trigger] row@[q]) == cell_style_spec(
                        hls@,
                        matches@,
                        nm,
                        i as int,
                        q,
                    ),
            decreases columns.len() - c,
        {
            let mut st = CellStyle::new();
            let mut h: usize = 0;
            proof {
                assert(hls@.take(0) =~= Seq::<HighlightClause>::empty());
            }
            while h < hls.len()
                invariant
                    h <= hls@.len(),
                    c < columns@.len(),
                    styles@.len() == hls@.len(),
                    targets@.len() == hls@.len(),
                    forall|q: int| 0 <= q < hls@.len() ==> style_view(#[trigger] styles@[q]) == hl_style(hls@[q]),
                    forall|q: int|
                        0 <= q < hls@.len() ==> (#[trigger] targets@[q])@.len() == columns@.len() && forall|cc: int|
                            0 <= cc < columns@.len() ==> #[trigger] targets@[q]@[cc] == hl_targets(hls@[q], nm, cc),
                    style_view(st) == cell_style_spec(hls@.take(h as int), matches@, nm, i as int, c as int),
                decreases hls.len() - h,
            {
                proof {
                    let t = hls@.take(h + 1);
                    assert(t.drop_last() =~= hls@.take(h as int));
                    assert(t.last() == hls@[h as int]);
                }
                let hit = if h < matches.len() {
                    match &matches[h] {
                        Some(v) => i < v.len() && v[i],
                        None => false,
                    }
                } else {
                    false
                };
                if hit && targets[h][c] {
                    st = overlay_exec(st, &styles[h]);
                }
                h += 1;
            }
            proof {
                assert(hls@.take(h as int) =~= hls@);
            }
            row.push(st);
            c += 1;
        }
        out.push(row);
        i += 1;
    }
    out
}

/// The columns' names.
pub open spec fn col_names(cols: Seq<ColMeta>) -> Seq<Seq<char>> {
    cols.map_values(|c: ColMeta| c.name@)
}

} // verus!

verus! {

// ============================================================================
// FACET row groups
// ============================================================================

/// The distinct group values, in the order their first row comes.
pub open spec fn group_order(vals: Seq<Seq<char>>) -> Seq<Seq<char>>
    decreases vals.len(),
{
    if vals.len() == 0 {
        Seq::empty()
    } else {
        let p = group_order(vals.drop_last());
        if p.contains(vals.last()) {
            p
        } else {
            p.push(vals.last())
        }
    }
}

/// The rows whose group value is `name`, ascending.
pub open spec fn rows_of(vals: Seq<Seq<char>>, name: Seq<char>) -> Seq<usize>
    decreases vals.len(),
{
    if vals.len() == 0 {
        Seq::empty()
    } else {
        let p = rows_of(vals.drop_last(), name);
        if vals.last() == name {
            p.push((vals.len() - 1) as usize)
        } else {
            p
        }
    }
}

pub proof fn lemma_group_order_distinct(vals: Seq<Seq<char>>)
    ensures
        forall|a: int, b: int|
            0 <= a < b < group_order(vals).len() ==> group_order(vals)[a] != group_order(vals)[b],
    decreases vals.len(),
{
    if vals.len() > 0 {
        lemma_group_order_distinct(vals.drop_last());
        let p = group_order(vals.drop_last());
        if !p.contains(vals.last()) {
            let g = group_order(vals);
            assert forall|a: int, b: int| 0 <= a < b < g.len() implies g[a] != g[b] by {
                if b == g.len() - 1 {
                    assert(g[b] == vals.last());
                    assert(g[a] == p[a]);
                }
            }
        }
    }
}

pub proof fn lemma_rows_of_absent(vals: Seq<Seq<char>>, name: Seq<char>)
    requires
        !group_order(vals).contains(name),
    ensures
        rows_of(vals, name) == Seq::<usize>::empty(),
    decreases vals.len(),
{
    if vals.len() > 0 {
        let p = group_order(vals.drop_last());
        if p.contains(name) {
            assert(group_order(vals) == p || group_order(vals) == p.push(vals.last()));
            if group_order(vals) == p.push(vals.last()) {
                let k = choose|k: int| 0 <= k < p.len() && p[k] == name;
                assert(group_order(vals)[k] == name);
            }
        }
        lemma_rows_of_absent(vals.drop_last(), name);
        if vals.last() == name {
            if !p.contains(name) {
                assert(group_order(vals).last() == name);
            }
        }
    }
}

/// Split the rows by their group value: the distinct values in discovery
/// order, and for each the rows that carry it.
pub fn partition_rows(vals: &Vec<String>) -> (r: (Vec<String>, Vec<Vec<usize>>))
    ensures
        seqs(r.0@) == group_order(seqs(vals@)),
        r.1@.len() == r.0@.len(),
        forall|k: int| 0 <= k < r.0@.len() ==> (#[trigger] r.1@[k])@ == rows_of(seqs(vals@), r.0@[k]@),
{
    let ghost vs = seqs(vals@);
    let mut order: Vec<String> = Vec::new();
    let mut rows: Vec<Vec<usize>> = Vec::new();
    let mut i: usize = 0;
    proof {
        assert(vs.take(0) =~= Seq::<Seq<char>>::empty());
        assert(seqs(order@) =~= Seq::<Seq<char>>::empty());
    }
    while i < vals.len()
        invariant
            i <= vals@.len(),
            vs == seqs(vals@),
            seqs(order@) == group_order(vs.take(i as int)),
            rows@.len() == order@.len(),
            forall|k: int| 0 <= k < order@.len() ==> (#[trigger] rows@[k])@ == rows_of(vs.take(i as int), order@[k]@),
        decreases vals.len() - i,
    {
        let ghost pre = vs.take(i as int);
        let ghost cur = vs.take(i + 1);
        proof {
            assert(cur.drop_last() =~= pre);
            assert(cur.last() == vals@[i as int]@);
            lemma_group_order_distinct(pre);
        }
        let v = &vals[i];
        match crate::tabulate::layout::find_exact(&order, v) {
            Some(k) => {
                proof {
                    assert(seqs(order@)[k as int] == order@[k as int]@);
                    assert(group_order(pre).contains(v@));
                }
                let mut row = rows.remove(k);
                row.push(i);
                rows.insert(k, row);
                proof {
                    assert forall|q: int| 0 <= q < order@.len() implies (#[trigger] rows@[q])@ == rows_of(
                        cur,
                        order@[q]@,
                    ) by {
                        if q != k {
                            assert(seqs(order@)[q] == order@[q]@);
                            assert(order@[q]@ != v@);
                        }
                    }
                }
            },
            None => {
                proof {
                    assert forall|q: int| 0 <= q < order@.len() implies seqs(order@)[q] != v@ by {
                        assert(seqs(order@)[q] == order@[q]@);
                    }
                    lemma_rows_of_absent(pre, v@);
                }
                let ghost before = order@;
                order.push(owned(v));
                let mut row: Vec<usize> = Vec::new();
                row.push(i);
                rows.push(row);
                proof {
                    assert(seqs(order@) =~= seqs(before).push(v@));
                    assert forall|q: int| 0 <= q < order@.len() implies (#[trigger] rows@[q])@ == rows_of(
                        cur,
                        order@[q]@,
                    ) by {
                        if q < before.len() {
                            assert(seqs(before)[q] == order@[q]@);
                            assert(order@[q]@ != v@);
                        } else {
                            assert(rows@[q]@ =~= Seq::<usize>::empty().push(i));
                        }
                    }
                }
            },
        }
        i += 1;
    }
    proof {
        assert(vs.take(i as int) =~= vs);
    }
    (order, rows)
}

} // verus!

verus! {

/// `x` is one of `list`, ASCII-case-insensitively.
pub open spec fn listed_ic(list: Seq<Seq<char>>, x: Seq<char>) -> bool {
    exists|j: int| 0 <= j < list.len() && lower_seq(#[trigger] list[j]) == lower_seq(x)
}

/// The first `groups => [...]` entry that is no group value.
pub open spec fn first_unknown(filter: Seq<Seq<char>>, order: Seq<Seq<char>>) -> Option<Seq<char>>
    decreases filter.len(),
{
    if filter.len() == 0 {
        None
    } else if !listed_ic(order, filter[0]) {
        Some(filter[0])
    } else {
        first_unknown(filter.drop_first(), order)
    }
}

/// The aggregate texts handed in for group `g` and aggregate `a`, one per
/// column (empty when none were).
pub open spec fn agg_cells(sums: Seq<Vec<Vec<Option<String>>>>, g: int, a: int) -> Seq<Option<String>> {
    if 0 <= g < sums.len() && 0 <= a < sums[g]@.len() {
        sums[g]@[a]@
    } else {
        Seq::empty()
    }
}

/// A summary cell: none (an em-dash) in the stub and in columns no
/// `target` names, else the aggregate's text.
pub open spec fn summary_cell(
    s: Seq<FacetSetting>,
    names: Seq<Seq<char>>,
    stub: Option<usize>,
    vals: Seq<Option<String>>,
    c: int,
) -> Option<Seq<char>> {
    if stub == Some(c as usize) {
        None
    } else if !first_of_listed(facet_targets(s), names, c) {
        None
    } else if c < vals.len() {
        opt_str(vals[c])
    } else {
        None
    }
}

/// A summary row's stub text: its `label`, else the aggregate's name.
pub open spec fn summary_label(s: Seq<FacetSetting>, a: int) -> Seq<char> {
    if a < facet_labels(s).len() {
        facet_labels(s)[a]
    } else {
        facet_aggregates(s)[a]
    }
}

/// Group `g` gets one summary row per aggregate when `groups => [...]` is
/// absent or names it, none otherwise.
pub open spec fn summary_rows_ok(
    rows: Seq<SummaryRow>,
    s: Seq<FacetSetting>,
    names: Seq<Seq<char>>,
    stub: Option<usize>,
    sums: Seq<Vec<Vec<Option<String>>>>,
    g: int,
    in_filter: bool,
) -> bool {
    if !in_filter {
        rows.len() == 0
    } else {
        &&& rows.len() == facet_aggregates(s).len()
        &&& forall|a: int|
            0 <= a < rows.len() ==> (#[trigger] rows[a]).label@ == summary_label(s, a)
                && rows[a].cells@.len() == names.len() && forall|c: int|
                0 <= c < names.len() ==> opt_str(#[trigger] rows[a].cells@[c]) == summary_cell(
                    s,
                    names,
                    stub,
                    agg_cells(sums, g, a),
                    c,
                )
    }
}

pub open spec fn group_in_filter(s: Seq<FacetSetting>, name: Seq<char>) -> bool {
    match facet_groups(s) {
        Some(fl) => listed_ic(fl, name),
        None => true,
    }
}

/// The `g`-th row group: its value, its rows, its summaries.
pub open spec fn group_ok(
    rg: RowGroup,
    f: FacetClause,
    vals: Seq<Seq<char>>,
    names: Seq<Seq<char>>,
    stub: Option<usize>,
    sums: Seq<Vec<Vec<Option<String>>>>,
    g: int,
) -> bool {
    let order = group_order(vals);
    &&& rg.name@ == order[g]
    &&& rg.row_indices@ == rows_of(vals, order[g])
    &&& rg.summary_side@ == facet_side(f.settings@)
    &&& summary_rows_ok(
        rg.summary_rows@,
        f.settings@,
        names,
        stub,
        sums,
        g,
        group_in_filter(f.settings@, order[g]),
    )
}

fn listed_ic_exec(list: &Vec<String>, x: &str) -> (r: bool)
    ensures
        r == listed_ic(seqs(list@), x@),
{
    let ghost ls = seqs(list@);
    let mut j: usize = 0;
    while j < list.len()
        invariant
            j <= list@.len(),
            ls == seqs(list@),
            forall|q: int| 0 <= q < j ==> lower_seq(#[trigger] ls[q]) != lower_seq(x@),
        decreases list.len() - j,
    {
        proof {
            assert(ls[j as int] == list@[j as int]@);
        }
        if eq_ignore_ascii_case(&list[j], x) {
            return true;
        }
        j += 1;
    }
    false
}

fn first_unknown_exec(filter: &Vec<String>, order: &Vec<String>) -> (r: Option<String>)
    ensures
        opt_str(r) == first_unknown(seqs(filter@), seqs(order@)),
{
    let ghost fs = seqs(filter@);
    let mut i: usize = 0;
    proof {
        assert(fs.skip(0) =~= fs);
    }
    while i < filter.len()
        invariant
            i <= filter@.len(),
            fs == seqs(filter@),
            first_unknown(fs, seqs(order@)) == first_unknown(fs.skip(i as int), seqs(order@)),
        decreases filter.len() - i,
    {
        proof {
            assert(fs.skip(i as int)[0] == filter@[i as int]@);
            assert(fs.skip(i as int).drop_first() =~= fs.skip(i + 1));
        }
        if !listed_ic_exec(order, &filter[i]) {
            return Some(owned(&filter[i]));
        }
        i += 1;
    }
    None
}

fn summary_row(
    view: &FacetView,
    names: &Vec<String>,
    targets: &Vec<bool>,
    stub: Option<usize>,
    sums: &Vec<Vec<Vec<Option<String>>>>,
    g: usize,
    a: usize,
    settings: Ghost<Seq<FacetSetting>>,
) -> (r: SummaryRow)
    requires
        a < view.aggregates@.len(),
        seqs(view.aggregates@) == facet_aggregates(settings@),
        seqs(view.labels@) == facet_labels(settings@),
        seqs(view.target_cols@) == facet_targets(settings@),
        targets@.len() == names@.len(),
        forall|c: int|
            0 <= c < names@.len() ==> #[trigger] targets@[c] == first_of_listed(
                facet_targets(settings@),
                seqs(names@),
                c,
            ),
    ensures
        r.label@ == summary_label(settings@, a as int),
        r.cells@.len() == names@.len(),
        forall|c: int|
            0 <= c < names@.len() ==> opt_str(#[trigger] r.cells@[c]) == summary_cell(
                settings@,
                seqs(names@),
                stub,
                agg_cells(sums@, g as int, a as int),
                c,
            ),
{
    let label = if a < view.labels.len() {
        proof {
            assert(seqs(view.labels@)[a as int] == view.labels@[a as int]@);
        }
        owned(&view.labels[a])
    } else {
        proof {
            assert(seqs(view.aggregates@)[a as int] == view.aggregates@[a as int]@);
        }
        owned(&view.aggregates[a])
    };
    let empty: Vec<Option<String>> = Vec::new();
    let vals: &Vec<Option<String>> = if g < sums.len() && a < sums[g].len() {
        &sums[g][a]
    } else {
        &empty
    };
    proof {
        assert(vals@ =~= agg_cells(sums@, g as int, a as int));
    }
    let mut cells: Vec<Option<String>> = Vec::new();
    let mut c: usize = 0;
    while c < names.len()
        invariant
            c <= names@.len(),
            cells@.len() == c,
            targets@.len() == names@.len(),
            vals@ == agg_cells(sums@, g as int, a as int),
            forall|q: int|
                0 <= q < names@.len() ==> #[trigger] targets@[q] == first_of_listed(
                    facet_targets(settings@),
                    seqs(names@),
                    q,
                ),
            forall|q: int|
                0 <= q < c ==> opt_str(#[trigger] cells@[q]) == summary_cell(
                    settings@,
                    seqs(names@),
                    stub,
                    vals@,
                    q,
                ),
        decreases names.len() - c,
    {
        let cell = if stub == Some(c) {
            None
        } else if !targets[c] {
            None
        } else if c < vals.len() {
            match &vals[c] {
                Some(t) => Some(owned(t)),
                None => None,
            }
        } else {
            None
        };
        cells.push(cell);
        c += 1;
    }
    SummaryRow { label, cells }
}

/// What partitioning the rows into FACET groups gives: no groups without a
/// FACET or without the grouping column; the first `groups => [...]`
/// entry that is no group value as an error; else one group per distinct
/// value, in the order of its first row.
pub open spec fn row_groups_ok(
    facet: Option<FacetClause>,
    columns: Seq<ColMeta>,
    stub_col: Option<usize>,
    group_values: Option<Vec<String>>,
    summaries: Seq<Vec<Vec<Option<String>>>>,
    r: Result<Vec<RowGroup>, TableError>,
) -> bool {
    match (facet, group_values) {
        (Some(f), Some(vals)) => match facet_groups(f.settings@) {
            Some(fl) if first_unknown(fl, group_order(seqs(vals@))) is Some => r matches Err(
                TableError::UnknownFacetGroup { group, column },
            ) && group@ == first_unknown(fl, group_order(seqs(vals@)))->0 && column@
                == f.group_col@,
            _ => r matches Ok(v) && v@.len() == group_order(seqs(vals@)).len() && forall|g: int|
                0 <= g < v@.len() ==> group_ok(
                    #[trigger] v@[g],
                    f,
                    seqs(vals@),
                    col_names(columns),
                    stub_col,
                    summaries,
                    g,
                ),
        },
        _ => r matches Ok(v) && v@.len() == 0,
    }
}

/// Partition the rows into FACET groups and attach their summary rows.
///
/// `group_values` is each row's grouping value as text (`None` when the
/// result lacks the grouping column). `summaries[g][a][c]` is the text of
/// aggregate `a` over group `g` (in discovery order) in column `c`, when
/// there is one. Fails when `groups => [...]` names a value no row has.
pub fn build_row_groups(
    facet: &Option<FacetClause>,
    columns: &Vec<ColMeta>,
    stub_col: Option<usize>,
    group_values: &Option<Vec<String>>,
    summaries: &Vec<Vec<Vec<Option<String>>>>,
) -> (r: Result<Vec<RowGroup>, TableError>)
    ensures
        row_groups_ok(*facet, columns@, stub_col, *group_values, summaries@, r),
{
    let f = match facet {
        Some(f) => f,
        None => return Ok(Vec::new()),
    };
    let vals = match group_values {
        Some(v) => v,
        None => return Ok(Vec::new()),
    };
    let (order, rows) = partition_rows(vals);
    let view = FacetView::from_settings(&f.settings);
    if let Some(filter) = &view.groups_filter {
        if let Some(g) = first_unknown_exec(filter, &order) {
            return Err(TableError::UnknownFacetGroup { group: g, column: owned(&f.group_col) });
        }
    }
    let mut names: Vec<String> = Vec::new();
    let mut k: usize = 0;
    while k < columns.len()
        invariant
            k <= columns@.len(),
            names@.len() == k,
            forall|q: int| 0 <= q < k ==> #[trigger] names@[q]@ == columns@[q].name@,
        decreases columns.len() - k,
    {
        names.push(owned(&columns[k].name));
        k += 1;
    }
    proof {
        assert(seqs(names@) =~= col_names(columns@));
    }
    let targets = first_of_listed_flags(&view.target_cols, &names);
    let ghost st = f.settings@;
    let ghost vs = seqs(vals@);
    let mut out: Vec<RowGroup> = Vec::new();
    let mut g: usize = 0;
    while g < order.len()
        invariant
            g <= order@.len(),
            seqs(order@) == group_order(vs),
            vs == seqs(vals@),
            st == f.settings@,
            rows@.len() == order@.len(),
            forall|q: int| 0 <= q < order@.len() ==> (#[trigger] rows@[q])@ == rows_of(vs, order@[q]@),
            seqs(view.aggregates@) == facet_aggregates(st),
            seqs(view.labels@) == facet_labels(st),
            seqs(view.target_cols@) == facet_targets(st),
            view.side@ == facet_side(st),
            match facet_groups(st) {
                Some(fl) => view.groups_filter matches Some(x) && seqs(x@) == fl,
                None => view.groups_filter is None,
            },
            seqs(names@) == col_names(columns@),
            targets@.len() == names@.len(),
            forall|c: int|
                0 <= c < names@.len() ==> #[trigger] targets@[c] == first_of_listed(
                    seqs(view.target_cols@),
                    seqs(names@),
                    c,
                ),
            out@.len() == g,
            forall|q: int|
                0 <= q < g ==> group_ok(
                    #[trigger] out@[q],
                    *f,
                    vs,
                    col_names(columns@),
                    stub_col,
                    summaries@,
                    q,
                ),
        decreases order.len() - g,
    {
        let name = &order[g];
        proof {
            assert(seqs(order@)[g as int] == name@);
        }
        let in_filter = match &view.groups_filter {
            Some(fl) => listed_ic_exec(fl, name),
            None => true,
        };
        let mut srows: Vec<SummaryRow> = Vec::new();
        if in_filter {
            let mut a: usize = 0;
            while a < view.aggregates.len()
                invariant
                    a <= view.aggregates@.len(),
                    srows@.len() == a,
                    seqs(view.aggregates@) == facet_aggregates(st),
                    seqs(view.labels@) == facet_labels(st),
                    seqs(view.target_cols@) == facet_targets(st),
                    targets@.len() == names@.len(),
                    forall|c: int|
                        0 <= c < names@.len() ==> #[trigger] targets@[c] == first_of_listed(
                            facet_targets(st),
                            seqs(names@),
                            c,
                        ),
                    forall|q: int|
                        0 <= q < a ==> (#[trigger] srows@[q]).label@ == summary_label(st, q)
                            && srows@[q].cells@.len() == names@.len() && forall|c: int|
                            0 <= c < names@.len() ==> opt_str(#[trigger] srows@[q].cells@[c])
                                == summary_cell(
                                st,
                                seqs(names@),
                                stub_col,
                                agg_cells(summaries@, g as int, q),
                                c,
                            ),
                decreases view.aggregates.len() - a,
            {
                srows.push(summary_row(&view, &names, &targets, stub_col, summaries, g, a, Ghost(st)));
                a += 1;
            }
        }
        let rg = RowGroup {
            name: owned(name),
            row_indices: rows[g].clone(),
            summary_rows: srows,
            summary_side: owned(&view.side),
        };
        proof {
            assert(rg.row_indices@ == rows@[g as int]@);
        }
        out.push(rg);
        g += 1;
    }
    Ok(out)
}

} // verus!

verus! {

// ============================================================================
// The table
// ============================================================================

/// The aesthetic a SCALE clause paints.
#[derive(Copy, Clone, PartialEq, Eq, Structural, Debug)]
pub enum ScaleKind {
    /// `background`: the cell's background colour.
    Background,
    /// `foreground` or `color`: the text colour.
    Foreground,
    /// `size`: the font size.
    Size,
    /// `opacity`: the cell's opacity.
    Opacity,
}

/// The aesthetic an aesthetic name names, up to ASCII case; `None` for a
/// name that paints nothing.
pub open spec fn scale_kind_spec(a: Seq<char>) -> Option<ScaleKind> {
    if eq_ic(a, "background"@) {
        Some(ScaleKind::Background)
    } else if eq_ic(a, "foreground"@) || eq_ic(a, "color"@) {
        Some(ScaleKind::Foreground)
    } else if eq_ic(a, "size"@) {
        Some(ScaleKind::Size)
    } else if eq_ic(a, "opacity"@) {
        Some(ScaleKind::Opacity)
    } else {
        None
    }
}

pub fn scale_kind(a: &str) -> (r: Option<ScaleKind>)
    ensures
        r == scale_kind_spec(a@),
{
    if eq_ignore_ascii_case(a, "background") {
        Some(ScaleKind::Background)
    } else if eq_ignore_ascii_case(a, "foreground") || eq_ignore_ascii_case(a, "color") {
        Some(ScaleKind::Foreground)
    } else if eq_ignore_ascii_case(a, "size") {
        Some(ScaleKind::Size)
    } else if eq_ignore_ascii_case(a, "opacity") {
        Some(ScaleKind::Opacity)
    } else {
        None
    }
}

/// One column a SCALE clause paints.
pub struct ScaleTarget {
    /// Index of the clause among the statement's SCALE clauses.
    pub clause: usize,
    pub kind: ScaleKind,
    /// Index of the painted column among the table's columns.
    pub col_idx: usize,
    /// Index of the column's data among the fetched columns.
    pub data_idx: usize,
}

pub open spec fn target_view(t: ScaleTarget) -> (int, ScaleKind, int, int) {
    (t.clause as int, t.kind, t.col_idx as int, t.data_idx as int)
}

/// The painted columns of targets `ts` of clause `k`: each target names the
/// first table column equal to it up to ASCII case, whose data is the first
/// fetched column of that exact name; a target without either paints
/// nothing.
pub open spec fn clause_targets(
    k: int,
    kind: ScaleKind,
    ts: Seq<Seq<char>>,
    cols: Seq<Seq<char>>,
    data: Seq<Seq<char>>,
) -> Seq<(int, ScaleKind, int, int)>
    decreases ts.len(),
{
    if ts.len() == 0 {
        Seq::empty()
    } else {
        clause_targets(k, kind, ts.drop_last(), cols, data) + match first_eq_ic(cols, ts.last()) {
            None => Seq::empty(),
            Some(ci) => match first_exact(data, cols[ci]) {
                None => Seq::empty(),
                Some(di) => seq![(k, kind, ci, di)],
            },
        }
    }
}

/// The painted columns of the first `n` SCALE clauses, clause by clause.
pub open spec fn scale_targets_spec(
    scs: Seq<ScaleClause>,
    n: nat,
    cols: Seq<Seq<char>>,
    data: Seq<Seq<char>>,
) -> Seq<(int, ScaleKind, int, int)>
    decreases n,
{
    if n == 0 {
        Seq::empty()
    } else {
        let k = n - 1;
        scale_targets_spec(scs, (n - 1) as nat, cols, data) + match scale_kind_spec(
            scs[k].aesthetic@,
        ) {
            None => Seq::empty(),
            Some(kind) => clause_targets(k, kind, seqs(scs[k].target_cols@), cols, data),
        }
    }
}

fn column_names(cols: &Vec<ColMeta>) -> (r: Vec<String>)
    ensures
        seqs(r@) == col_names(cols@),
{
    let mut r: Vec<String> = Vec::new();
    let mut i: usize = 0;
    while i < cols.len()
        invariant
            i <= cols@.len(),
            seqs(r@) == col_names(cols@).take(i as int),
        decreases cols.len() - i,
    {
        let ghost before = r@;
        r.push(owned(&cols[i].name));
        proof {
            assert(seqs(r@) =~= seqs(before).push(cols@[i as int].name@));
            assert(col_names(cols@).take(i + 1) =~= col_names(cols@).take(i as int).push(
                cols@[i as int].name@,
            ));
        }
        i += 1;
    }
    proof {
        assert(col_names(cols@).take(i as int) =~= col_names(cols@));
    }
    r
}

fn push_clause_targets(
    out: &mut Vec<ScaleTarget>,
    k: usize,
    kind: ScaleKind,
    ts: &Vec<String>,
    names: &Vec<String>,
    data: &Vec<String>,
)
    ensures
        final(out)@.map_values(|t: ScaleTarget| target_view(t)) == old(out)@.map_values(
            |t: ScaleTarget| target_view(t),
        ) + clause_targets(k as int, kind, seqs(ts@), seqs(names@), seqs(data@)),
{
    let ghost start = out@.map_values(|t: ScaleTarget| target_view(t));
    let mut j: usize = 0;
    proof {
        assert(seqs(ts@).take(0) =~= Seq::<Seq<char>>::empty());
        assert(out@.map_values(|t: ScaleTarget| target_view(t)) =~= start + clause_targets(
            k as int,
            kind,
            seqs(ts@).take(0),
            seqs(names@),
            seqs(data@),
        ));
    }
    while j < ts.len()
        invariant
            j <= ts@.len(),
            out@.map_values(|t: ScaleTarget| target_view(t)) == start + clause_targets(
                k as int,
                kind,
                seqs(ts@).take(j as int),
                seqs(names@),
                seqs(data@),
            ),
        decreases ts.len() - j,
    {
        proof {
            let t = seqs(ts@).take(j + 1);
            assert(t.drop_last() =~= seqs(ts@).take(j as int));
            assert(t.last() == ts@[j as int]@);
        }
        let ghost before = out@.map_values(|t: ScaleTarget| target_view(t));
        match find_eq_ic(names, &ts[j]) {
            None => {
                proof {
                    assert(out@.map_values(|t: ScaleTarget| target_view(t)) =~= start
                        + clause_targets(
                        k as int,
                        kind,
                        seqs(ts@).take(j + 1),
                        seqs(names@),
                        seqs(data@),
                    ));
                }
            },
            Some(ci) => {
                proof {
                    assert(seqs(names@)[ci as int] == names@[ci as int]@);
                }
                match find_exact(data, &names[ci]) {
                    None => {
                        proof {
                            assert(out@.map_values(|t: ScaleTarget| target_view(t)) =~= start
                                + clause_targets(
                                k as int,
                                kind,
                                seqs(ts@).take(j + 1),
                                seqs(names@),
                                seqs(data@),
                            ));
                        }
                    },
                    Some(di) => {
                        out.push(ScaleTarget { clause: k, kind, col_idx: ci, data_idx: di });
                        proof {
                            assert(out@.map_values(|t: ScaleTarget| target_view(t)) =~= before.push(
                                (k as int, kind, ci as int, di as int),
                            ));
                            assert(out@.map_values(|t: ScaleTarget| target_view(t)) =~= start
                                + clause_targets(
                                k as int,
                                kind,
                                seqs(ts@).take(j + 1),
                                seqs(names@),
                                seqs(data@),
                            ));
                        }
                    },
                }
            },
        }
        j += 1;
    }
    proof {
        assert(seqs(ts@).take(j as int) =~= seqs(ts@));
    }
}

/// The columns the SCALE clauses paint, clause by clause and, within a
/// clause, in the order of its targets. `data_names` are the fetched
/// columns' names.
pub fn scale_targets(stmt: &TabulateStmt, columns: &Vec<ColMeta>, data_names: &Vec<String>) -> (r: Vec<
    ScaleTarget,
>)
    ensures
        r@.map_values(|t: ScaleTarget| target_view(t)) == scale_targets_spec(
            stmt.scale_clauses@,
            stmt.scale_clauses@.len(),
            col_names(columns@),
            seqs(data_names@),
        ),
{
    let names = column_names(columns);
    let mut out: Vec<ScaleTarget> = Vec::new();
    let mut k: usize = 0;
    proof {
        assert(out@.map_values(|t: ScaleTarget| target_view(t)) =~= Seq::<
            (int, ScaleKind, int, int),
        >::empty());
    }
    while k < stmt.scale_clauses.len()
        invariant
            k <= stmt.scale_clauses@.len(),
            seqs(names@) == col_names(columns@),
            out@.map_values(|t: ScaleTarget| target_view(t)) == scale_targets_spec(
                stmt.scale_clauses@,
                k as nat,
                col_names(columns@),
                seqs(data_names@),
            ),
        decreases stmt.scale_clauses.len() - k,
    {
        let sc = &stmt.scale_clauses[k];
        match scale_kind(&sc.aesthetic) {
            None => {},
            Some(kind) => {
                push_clause_targets(&mut out, k, kind, &sc.target_cols, &names, data_names);
            },
        }
        k += 1;
    }
    out
}

/// A SCALE matrix with no cell painted.
pub fn blank_scale_grid(nrows: usize, ncols: usize) -> (r: Vec<Vec<Option<String>>>)
    ensures
        r@.len() == nrows,
        forall|i: int| 0 <= i < nrows ==> (#[trigger] r@[i])@.len() == ncols,
        forall|i: int, c: int| 0 <= i < nrows && 0 <= c < ncols ==> (#[trigger] r@[i]@[c]) is None,
{
    let mut r: Vec<Vec<Option<String>>> = Vec::new();
    let mut i: usize = 0;
    while i < nrows
        invariant
            i <= nrows,
            r@.len() == i,
            forall|q: int| 0 <= q < i ==> (#[trigger] r@[q])@.len() == ncols,
            forall|q: int, c: int| 0 <= q < i && 0 <= c < ncols ==> (#[trigger] r@[q]@[c]) is None,
        decreases nrows - i,
    {
        let mut row: Vec<Option<String>> = Vec::new();
        let mut c: usize = 0;
        while c < ncols
            invariant
                c <= ncols,
                row@.len() == c,
                forall|q: int| 0 <= q < c ==> (#[trigger] row@[q]) is None,
            decreases ncols - c,
        {
            row.push(None);
            c += 1;
        }
        r.push(row);
        i += 1;
    }
    r
}

/// A SCALE matrix, as values.
pub open spec fn grid_view(g: Seq<Vec<Option<String>>>) -> Seq<Seq<Option<Seq<char>>>> {
    g.map_values(|row: Vec<Option<String>>| row@.map_values(|o: Option<String>| opt_str(o)))
}

/// `g` with column `col` of row `i` set to `v[i]` wherever that is a value.
pub open spec fn paint_spec(
    g: Seq<Seq<Option<Seq<char>>>>,
    col: int,
    v: Seq<Option<Seq<char>>>,
) -> Seq<Seq<Option<Seq<char>>>> {
    Seq::new(
        g.len(),
        |i: int|
            Seq::new(
                g[i].len(),
                |c: int|
                    if c == col && v[i] is Some {
                        v[i]
                    } else {
                        g[i][c]
                    },
            ),
    )
}

/// Paint one column of a SCALE matrix: row `i`'s cell in column `col`
/// takes `values[i]` where that is a value, and every other cell keeps its
/// own.
pub fn paint_column(grid: &Vec<Vec<Option<String>>>, col: usize, values: &Vec<Option<String>>) -> (r:
    Vec<Vec<Option<String>>>)
    requires
        values@.len() == grid@.len(),
    ensures
        r@.len() == grid@.len(),
        forall|i: int| 0 <= i < grid@.len() ==> (#[trigger] r@[i])@.len() == grid@[i]@.len(),
        grid_view(r@) == paint_spec(
            grid_view(grid@),
            col as int,
            values@.map_values(|o: Option<String>| opt_str(o)),
        ),
{
    let ghost vs = values@.map_values(|o: Option<String>| opt_str(o));
    let ghost want = paint_spec(grid_view(grid@), col as int, vs);
    let mut r: Vec<Vec<Option<String>>> = Vec::new();
    let mut i: usize = 0;
    while i < grid.len()
        invariant
            i <= grid@.len(),
            values@.len() == grid@.len(),
            vs == values@.map_values(|o: Option<String>| opt_str(o)),
            want == paint_spec(grid_view(grid@), col as int, vs),
            grid_view(r@) == want.take(i as int),
        decreases grid.len() - i,
    {
        let src = &grid[i];
        let mut row: Vec<Option<String>> = Vec::new();
        let mut c: usize = 0;
        while c < src.len()
            invariant
                c <= src@.len(),
                i < grid@.len(),
                *src == grid@[i as int],
                values@.len() == grid@.len(),
                vs == values@.map_values(|o: Option<String>| opt_str(o)),
                want == paint_spec(grid_view(grid@), col as int, vs),
                row@.map_values(|o: Option<String>| opt_str(o)) == want[i as int].take(c as int),
            decreases src.len() - c,
        {
            let cell = if c == col && values[i].is_some() {
                clone_opt(&values[i])
            } else {
                clone_opt(&src[c])
            };
            let ghost before = row@;
            row.push(cell);
            proof {
                let w = want[i as int];
                assert(grid_view(grid@)[i as int] =~= src@.map_values(|o: Option<String>| opt_str(o)));
                assert(w.len() == src@.len());
                assert(w[c as int] == opt_str(cell));
                assert(row@.map_values(|o: Option<String>| opt_str(o)) =~= before.map_values(
                    |o: Option<String>| opt_str(o),
                ).push(opt_str(cell)));
                assert(w.take(c + 1) =~= w.take(c as int).push(w[c as int]));
            }
            c += 1;
        }
        proof {
            assert(want[i as int].take(c as int) =~= want[i as int]);
        }
        let ghost rbefore = r@;
        r.push(row);
        proof {
            assert(grid_view(r@) =~= grid_view(rbefore).push(
                row@.map_values(|o: Option<String>| opt_str(o)),
            ));
            assert(want.take(i + 1) =~= want.take(i as int).push(want[i as int]));
        }
        i += 1;
    }
    proof {
        assert(want.take(i as int) =~= want);
        assert forall|q: int| 0 <= q < grid@.len() implies (#[trigger] r@[q])@.len() == grid@[q]@.len() by {
            assert(grid_view(r@)[q] == r@[q]@.map_values(|o: Option<String>| opt_str(o)));
            assert(grid_view(grid@)[q] == grid@[q]@.map_values(|o: Option<String>| opt_str(o)));
        }
    }
    r
}

/// `g` has `nrows` rows of `ncols` entries each.
pub open spec fn grid_shape(g: Seq<Vec<Option<String>>>, nrows: nat, ncols: nat) -> bool {
    &&& g.len() == nrows
    &&& forall|i: int| 0 <= i < nrows ==> (#[trigger] g[i])@.len() == ncols
}

/// The SCALE colour and size matrices, one entry per cell.
pub struct CellScales {
    pub bg: Vec<Vec<Option<String>>>,
    pub fg: Vec<Vec<Option<String>>>,
    pub size: Vec<Vec<Option<String>>>,
}

/// One SCALE clause's values for one column: the matrix it paints, the
/// column, and per row the value, or none where the cell keeps what it has.
pub struct ScalePaint {
    pub kind: ScaleKind,
    pub col: usize,
    pub values: Vec<Option<String>>,
}

/// An `nrows` by `ncols` matrix with no value anywhere.
pub open spec fn blank_spec(nrows: nat, ncols: nat) -> Seq<Seq<Option<Seq<char>>>> {
    Seq::new(nrows, |i: int| Seq::new(ncols, |c: int| None::<Seq<char>>))
}

/// `g` after each paint of `kind` in `paints`, in order, later paints over
/// earlier ones.
pub open spec fn paints_spec(
    g: Seq<Seq<Option<Seq<char>>>>,
    paints: Seq<ScalePaint>,
    kind: ScaleKind,
) -> Seq<Seq<Option<Seq<char>>>>
    decreases paints.len(),
{
    if paints.len() == 0 {
        g
    } else {
        let prev = paints_spec(g, paints.drop_last(), kind);
        let p = paints.last();
        if p.kind == kind {
            paint_spec(prev, p.col as int, p.values@.map_values(|o: Option<String>| opt_str(o)))
        } else {
            prev
        }
    }
}

/// Every paint has one entry per row.
pub open spec fn paints_fit(paints: Seq<ScalePaint>, nrows: nat) -> bool {
    forall|p: int| 0 <= p < paints.len() ==> (#[trigger] paints[p]).values@.len() == nrows
}

fn paint_matrix(nrows: usize, ncols: usize, paints: &Vec<ScalePaint>, kind: ScaleKind) -> (r: Vec<
    Vec<Option<String>>,
>)
    requires
        paints_fit(paints@, nrows as nat),
    ensures
        grid_shape(r@, nrows as nat, ncols as nat),
        grid_view(r@) == paints_spec(blank_spec(nrows as nat, ncols as nat), paints@, kind),
{
    let mut g = blank_scale_grid(nrows, ncols);
    proof {
        assert forall|i: int| 0 <= i < nrows implies #[trigger] grid_view(g@)[i] == blank_spec(
            nrows as nat,
            ncols as nat,
        )[i] by {
            assert(grid_view(g@)[i] =~= blank_spec(nrows as nat, ncols as nat)[i]);
        }
        assert(grid_view(g@) =~= blank_spec(nrows as nat, ncols as nat));
        assert(paints@.take(0) =~= Seq::<ScalePaint>::empty());
    }
    let mut k: usize = 0;
    while k < paints.len()
        invariant
            k <= paints@.len(),
            paints_fit(paints@, nrows as nat),
            grid_shape(g@, nrows as nat, ncols as nat),
            grid_view(g@) == paints_spec(blank_spec(nrows as nat, ncols as nat), paints@.take(k as int), kind),
        decreases paints.len() - k,
    {
        let p = &paints[k];
        proof {
            assert(paints@.take(k + 1).drop_last() =~= paints@.take(k as int));
            assert(paints@.take(k + 1).last() == paints@[k as int]);
        }
        if p.kind == kind {
            assert(p.values@.len() == nrows);
            g = paint_column(&g, p.col, &p.values);
        }
        k += 1;
    }
    proof {
        assert(paints@.take(k as int) =~= paints@);
    }
    g
}

/// The SCALE matrices of an `nrows` by `ncols` table: each starts with no
/// value anywhere, and each paint of its kind is laid over it in order.
/// Opacity paints leave all three alone.
pub fn assemble_scales(nrows: usize, ncols: usize, paints: &Vec<ScalePaint>) -> (r: CellScales)
    requires
        paints_fit(paints@, nrows as nat),
    ensures
        grid_shape(r.bg@, nrows as nat, ncols as nat),
        grid_shape(r.fg@, nrows as nat, ncols as nat),
        grid_shape(r.size@, nrows as nat, ncols as nat),
        grid_view(r.bg@) == paints_spec(blank_spec(nrows as nat, ncols as nat), paints@, ScaleKind::Background),
        grid_view(r.fg@) == paints_spec(blank_spec(nrows as nat, ncols as nat), paints@, ScaleKind::Foreground),
        grid_view(r.size@) == paints_spec(blank_spec(nrows as nat, ncols as nat), paints@, ScaleKind::Size),
{
    let bg = paint_matrix(nrows, ncols, paints, ScaleKind::Background);
    let fg = paint_matrix(nrows, ncols, paints, ScaleKind::Foreground);
    let size = paint_matrix(nrows, ncols, paints, ScaleKind::Size);
    CellScales { bg, fg, size }
}

/// A body row: the empty synthetic stub cell when there is one, then each
/// visible column's cell text.
pub open spec fn row_text(rules: Seq<CellRules>, cells: Seq<CellInput>, syn: bool) -> Seq<Seq<char>> {
    let data = Seq::new(rules.len(), |j: int| cell_text(rules_view(rules[j]), cells[j]));
    if syn {
        seq![Seq::<char>::empty()] + data
    } else {
        data
    }
}

fn build_row(rules: &Vec<CellRules>, cells: &Vec<CellInput>, syn: bool) -> (r: Vec<String>)
    requires
        cells@.len() == rules@.len(),
    ensures
        seqs(r@) == row_text(rules@, cells@, syn),
{
    let mut r: Vec<String> = Vec::new();
    if syn {
        r.push(String::new());
    }
    let ghost off: int = if syn {
        1
    } else {
        0
    };
    let mut j: usize = 0;
    while j < rules.len()
        invariant
            j <= rules@.len(),
            cells@.len() == rules@.len(),
            off == (if syn {
                1int
            } else {
                0int
            }),
            r@.len() == j + off,
            syn ==> r@[0]@ == Seq::<char>::empty(),
            forall|q: int|
                off <= q < r@.len() ==> (#[trigger] r@[q])@ == cell_text(
                    rules_view(rules@[q - off]),
                    cells@[q - off],
                ),
        decreases rules.len() - j,
    {
        r.push(resolve_cell(&rules[j], &cells[j]));
        j += 1;
    }
    proof {
        assert(seqs(r@) =~= row_text(rules@, cells@, syn));
    }
    r
}

/// Assemble the table: each cell's text under its column's rules, the
/// SCALE matrices, the HIGHLIGHT styles and the FACET groups over the
/// layout `plan`.
///
/// `cells[i][j]` describes row `i` of the `j`-th visible data column;
/// `paints` are the SCALE clauses' values, as for [`assemble_scales`];
/// `hl_matches`, `group_values` and `summaries` are as for
/// [`build_cell_style`] and [`build_row_groups`]. Fails exactly when the
/// row groups do.
pub fn build_table_ir(
    stmt: &TabulateStmt,
    plan: TablePlan,
    cells: &Vec<Vec<CellInput>>,
    paints: &Vec<ScalePaint>,
    hl_matches: &Vec<Option<Vec<bool>>>,
    group_values: &Option<Vec<String>>,
    summaries: &Vec<Vec<Vec<Option<String>>>>,
) -> (r: Result<TableIr, TableError>)
    requires
        forall|i: int| 0 <= i < cells@.len() ==> (#[trigger] cells@[i])@.len() == plan.rules@.len(),
        plan.columns@.len() == plan.rules@.len() + if plan.synthetic_stub {
            1int
        } else {
            0int
        },
        paints_fit(paints@, cells@.len()),
    ensures
        match r {
            Err(e) => row_groups_ok(
                stmt.facet,
                plan.columns@,
                plan.stub_col,
                *group_values,
                summaries@,
                Err(e),
            ),
            Ok(t) => {
                &&& row_groups_ok(
                    stmt.facet,
                    plan.columns@,
                    plan.stub_col,
                    *group_values,
                    summaries@,
                    Ok(t.groups),
                )
                &&& t.columns@ == plan.columns@
                &&& t.rows@.len() == cells@.len()
                &&& forall|i: int| 0 <= i < t.rows@.len() ==> (#[trigger] t.rows@[i])@.len() == t.columns@.len()
                &&& grid_shape(t.cell_bg@, t.rows@.len(), t.columns@.len())
                &&& grid_shape(t.cell_fg@, t.rows@.len(), t.columns@.len())
                &&& grid_shape(t.cell_size@, t.rows@.len(), t.columns@.len())
                &&& forall|i: int|
                    0 <= i < cells@.len() ==> seqs((#[trigger] t.rows@[i])@) == row_text(
                        plan.rules@,
                        cells@[i]@,
                        plan.synthetic_stub,
                    )
                &&& t.cell_style@.len() == cells@.len()
                &&& forall|i: int|
                    0 <= i < cells@.len() ==> (#[trigger] t.cell_style@[i])@.len()
                        == plan.columns@.len()
                &&& forall|i: int, c: int|
                    0 <= i < cells@.len() && 0 <= c < plan.columns@.len() ==> style_view(
                        #[trigger] t.cell_style@[i]@[c],
                    ) == cell_style_spec(
                        stmt.highlight_clauses@,
                        hl_matches@,
                        col_names(plan.columns@),
                        i,
                        c,
                    )
                &&& grid_view(t.cell_bg@) == paints_spec(
                    blank_spec(cells@.len(), plan.columns@.len()),
                    paints@,
                    ScaleKind::Background,
                )
                &&& grid_view(t.cell_fg@) == paints_spec(
                    blank_spec(cells@.len(), plan.columns@.len()),
                    paints@,
                    ScaleKind::Foreground,
                )
                &&& grid_view(t.cell_size@) == paints_spec(
                    blank_spec(cells@.len(), plan.columns@.len()),
                    paints@,
                    ScaleKind::Size,
                )
                &&& t.title == plan.title
                &&& t.subtitle == plan.subtitle
                &&& t.caption == plan.caption
                &&& t.stub_col == plan.stub_col
                &&& t.header_forest == plan.header_forest
            },
        },
{
    let mut rows: Vec<Vec<String>> = Vec::new();
    let mut i: usize = 0;
    while i < cells.len()
        invariant
            i <= cells@.len(),
            rows@.len() == i,
            forall|q: int| 0 <= q < cells@.len() ==> (#[trigger] cells@[q])@.len() == plan.rules@.len(),
            forall|q: int|
                0 <= q < i ==> seqs((#[trigger] rows@[q])@) == row_text(
                    plan.rules@,
                    cells@[q]@,
                    plan.synthetic_stub,
                ),
        decreases cells.len() - i,
    {
        rows.push(build_row(&plan.rules, &cells[i], plan.synthetic_stub));
        i += 1;
    }
    let cell_style = build_cell_style(&stmt.highlight_clauses, &plan.columns, hl_matches, cells.len());
    let scales = assemble_scales(cells.len(), plan.columns.len(), paints);
    let groups = match build_row_groups(
        &stmt.facet,
        &plan.columns,
        plan.stub_col,
        group_values,
        summaries,
    ) {
        Ok(g) => g,
        Err(e) => return Err(e),
    };
    Ok(
        TableIr {
            columns: plan.columns,
            rows,
            cell_bg: scales.bg,
            cell_fg: scales.fg,
            cell_size: scales.size,
            cell_style,
            groups,
            title: plan.title,
            subtitle: plan.subtitle,
            caption: plan.caption,
            stub_col: plan.stub_col,
            header_forest: plan.header_forest,
        },
    )
}

} // verus!

verus! {

// ============================================================================
// Laws
// ============================================================================

/// Substitutions take precedence in the order the FORMAT documentation
/// gives: a matching string literal first, then `null`, then `0`, and only
/// then the `*` template.
pub proof fn law_substitution_precedence(r: RulesModel, c: CellInput)
    requires
        r.source is Some,
    ensures
        !c.is_null && c.string is Some && first_literal(r.literals, c.string->0@) is Some
            ==> cell_text(r, c) == first_literal(r.literals, c.string->0@)->0,
        c.is_null && r.null_text is Some ==> cell_text(r, c) == r.null_text->0,
        !c.is_null && c.numeric && c.is_zero && r.zero_text is Some && (c.string is None
            || first_literal(r.literals, c.string->0@) is None) && first_number(
            c.number_matches@,
            r.numbers,
        ) is None ==> cell_text(r, c) == r.zero_text->0,
        (c.is_null ==> r.null_text is None) && (!c.is_null ==> (c.string is None || first_literal(
            r.literals,
            c.string->0@,
        ) is None) && (!c.numeric || first_number(c.number_matches@, r.numbers) is None) && (
        !c.numeric || !c.is_zero || r.zero_text is None)) ==> cell_text(r, c) == formatted(
            r.formatter,
            c,
        ),
{
}

/// The group values are distinct, each row lies in the group of its value
/// and in no other.
pub proof fn law_each_row_in_its_group(vals: Seq<Seq<char>>, i: int, name: Seq<char>)
    requires
        0 <= i < vals.len(),
        vals.len() <= usize::MAX,
    ensures
        group_order(vals).contains(vals[i]),
        rows_of(vals, name).contains(i as usize) <==> vals[i] == name,
        forall|a: int, b: int|
            0 <= a < b < group_order(vals).len() ==> group_order(vals)[a] != group_order(vals)[b],
{
    lemma_group_order_distinct(vals);
    lemma_group_order_covers(vals, i);
    lemma_rows_of_members(vals, name, i);
}

proof fn lemma_group_order_covers(vals: Seq<Seq<char>>, i: int)
    requires
        0 <= i < vals.len(),
    ensures
        group_order(vals).contains(vals[i]),
    decreases vals.len(),
{
    let p = group_order(vals.drop_last());
    if i < vals.len() - 1 {
        lemma_group_order_covers(vals.drop_last(), i);
        assert(vals.drop_last()[i] == vals[i]);
        let k = choose|k: int| 0 <= k < p.len() && p[k] == vals[i];
        assert(group_order(vals)[k] == vals[i]);
    } else if p.contains(vals.last()) {
        let k = choose|k: int| 0 <= k < p.len() && p[k] == vals.last();
        assert(group_order(vals)[k] == vals.last());
    } else {
        assert(group_order(vals).last() == vals.last());
    }
}

proof fn lemma_rows_of_bound(vals: Seq<Seq<char>>, name: Seq<char>)
    ensures
        forall|q: int| 0 <= q < rows_of(vals, name).len() ==> (#[trigger] rows_of(vals, name)[q]) < vals.len(),
    decreases vals.len(),
{
    if vals.len() > 0 {
        lemma_rows_of_bound(vals.drop_last(), name);
        let p = rows_of(vals.drop_last(), name);
        let r = rows_of(vals, name);
        assert forall|q: int| 0 <= q < r.len() implies (#[trigger] r[q]) < vals.len() by {
            if q < p.len() {
                assert(r[q] == p[q]);
            }
        }
    }
}

proof fn lemma_rows_of_members(vals: Seq<Seq<char>>, name: Seq<char>, i: int)
    requires
        0 <= i < vals.len(),
        vals.len() <= usize::MAX,
    ensures
        rows_of(vals, name).contains(i as usize) <==> vals[i] == name,
    decreases vals.len(),
{
    let n = vals.len() - 1;
    let d = vals.drop_last();
    let p = rows_of(d, name);
    lemma_rows_of_bound(d, name);
    let r = rows_of(vals, name);
    if vals.last() == name {
        assert(r == p.push(n as usize));
    } else {
        assert(r == p);
    }
    if i < n {
        lemma_rows_of_members(d, name, i);
        assert(d[i] == vals[i]);
        if r.contains(i as usize) {
            let q = choose|q: int| 0 <= q < r.len() && r[q] == i as usize;
            if q < p.len() {
                assert(r[q] == p[q]);
                assert(p.contains(i as usize));
            }
        }
        if vals[i] == name {
            let q = choose|q: int| 0 <= q < p.len() && p[q] == i as usize;
            assert(r[q] == p[q]);
            assert(r.contains(i as usize));
        }
    } else {
        if vals[i] == name {
            assert(r.last() == i as usize);
        } else if r.contains(i as usize) {
            let q = choose|q: int| 0 <= q < r.len() && r[q] == i as usize;
            assert(p[q] == i as usize);
        }
    }
}

proof fn lemma_flat_unlisted(nodes: Seq<HeaderModel>, names: Seq<Seq<char>>, cols: Seq<Seq<char>>)
    requires
        forall|i: int| 0 <= i < nodes.len() ==> !id_listed(cols, model_id(#[trigger] nodes[i], names)),
    ensures
        first_listed(nodes, names, cols) is None,
    decreases nodes.len(),
{
    if nodes.len() > 0 {
        let t = nodes.drop_first();
        assert forall|i: int| 0 <= i < t.len() implies !id_listed(cols, model_id(#[trigger] t[i], names)) by {
            assert(t[i] == nodes[i + 1]);
        }
        assert(!id_listed(cols, model_id(nodes[0], names)));
        lemma_flat_unlisted(t, names, cols);
    }
}

/// A FORMAT SPAN clause that lists none of the columns changes nothing:
/// when no span lists a column, the header is one leaf per column, in
/// order.
pub proof fn law_unmatched_spans_keep_flat_header(
    clauses: Seq<FormatClause>,
    names: Seq<Seq<char>>,
    renames: Seq<(String, String)>,
)
    requires
        forall|k: int, c: int|
            0 <= k < clauses.len() && 0 <= c < names.len() && (#[trigger] clauses[k]).mode
                == FormatMode::Span ==> !id_listed(seqs(clauses[k].columns@), #[trigger] names[c]),
    ensures
        forest_from(clauses, names, renames) == Seq::new(
            names.len(),
            |i: int| HeaderModel::Column(i as nat),
        ),
    decreases clauses.len(),
{
    if clauses.len() > 0 {
        let init = clauses.drop_last();
        assert forall|k: int, c: int|
            0 <= k < init.len() && 0 <= c < names.len() && (#[trigger] init[k]).mode
                == FormatMode::Span implies !id_listed(seqs(init[k].columns@), #[trigger] names[c]) by {
            assert(init[k] == clauses[k]);
        }
        law_unmatched_spans_keep_flat_header(init, names, renames);
        let prev = forest_from(init, names, renames);
        let fc = clauses.last();
        if fc.mode == FormatMode::Span && fc.span_id is Some {
            assert forall|i: int| 0 <= i < prev.len() implies !id_listed(
                seqs(fc.columns@),
                model_id(#[trigger] prev[i], names),
            ) by {
                assert(prev[i] == HeaderModel::Column(i as nat));
                assert(model_id(prev[i], names) == names[i]);
                assert(clauses[clauses.len() - 1] == fc);
            }
            lemma_flat_unlisted(prev, names, seqs(fc.columns@));
        }
    }
}

/// The column indices at the leaves of a header node, left to right.
pub open spec fn model_leaves(m: HeaderModel) -> Seq<nat>
    decreases m,
{
    match m {
        HeaderModel::Column(i) => seq![i],
        HeaderModel::Spanner { children, .. } => leaves_all(children),
    }
}

pub open spec fn leaves_all(s: Seq<HeaderModel>) -> Seq<nat>
    decreases s,
{
    if s.len() == 0 {
        Seq::empty()
    } else {
        leaves_all(s.drop_last()) + model_leaves(s.last())
    }
}

/// A node's id as matched: ASCII lower case.
pub open spec fn id_key(m: HeaderModel, names: Seq<Seq<char>>) -> Seq<char> {
    lower_seq(model_id(m, names))
}

pub open spec fn id_keys(s: Seq<HeaderModel>, names: Seq<Seq<char>>) -> Seq<Seq<char>> {
    s.map_values(|m: HeaderModel| id_key(m, names))
}

proof fn lemma_leaves_concat(a: Seq<HeaderModel>, b: Seq<HeaderModel>)
    ensures
        leaves_all(a + b) == leaves_all(a) + leaves_all(b),
    decreases b.len(),
{
    if b.len() == 0 {
        assert(a + b =~= a);
        assert(leaves_all(a) + leaves_all(b) =~= leaves_all(a));
    } else {
        lemma_leaves_concat(a, b.drop_last());
        assert((a + b).drop_last() =~= a + b.drop_last());
        assert((a + b).last() == b.last());
        assert(leaves_all(a + b) =~= leaves_all(a) + leaves_all(b));
    }
}

proof fn lemma_leaves_front(s: Seq<HeaderModel>)
    requires
        s.len() > 0,
    ensures
        leaves_all(s) == model_leaves(s[0]) + leaves_all(s.drop_first()),
{
    lemma_leaves_concat(seq![s[0]], s.drop_first());
    assert(seq![s[0]] + s.drop_first() =~= s);
    let one = seq![s[0]];
    assert(one.drop_last() =~= Seq::<HeaderModel>::empty());
    assert(one.last() == s[0]);
    assert(leaves_all(one.drop_last()) == Seq::<nat>::empty());
    assert(leaves_all(one) == leaves_all(one.drop_last()) + model_leaves(one.last()));
    assert(leaves_all(one) =~= model_leaves(s[0]));
}

/// The column indices `0, 1, .., n - 1` in order.
pub open spec fn col_range(n: nat) -> Seq<nat> {
    Seq::new(n, |i: int| i as nat)
}

proof fn lemma_leaves_flat(n: nat)
    ensures
        leaves_all(Seq::new(n, |i: int| HeaderModel::Column(i as nat))) == col_range(n),
    decreases n,
{
    if n > 0 {
        lemma_leaves_flat((n - 1) as nat);
        let f = Seq::new(n, |i: int| HeaderModel::Column(i as nat));
        assert(f.drop_last() =~= Seq::new((n - 1) as nat, |i: int| HeaderModel::Column(i as nat)));
        assert(f.last() == HeaderModel::Column((n - 1) as nat));
        assert(model_leaves(f.last()) == seq![(n - 1) as nat]);
        assert(leaves_all(f) == leaves_all(f.drop_last()) + model_leaves(f.last()));
        assert(leaves_all(f) =~= col_range(n));
    }
}

proof fn lemma_unlisted_concat(
    a: Seq<HeaderModel>,
    b: Seq<HeaderModel>,
    names: Seq<Seq<char>>,
    cols: Seq<Seq<char>>,
)
    ensures
        unlisted(a + b, names, cols) == unlisted(a, names, cols) + unlisted(b, names, cols),
    decreases b.len(),
{
    if b.len() == 0 {
        assert(a + b =~= a);
        assert(unlisted(a, names, cols) + unlisted(b, names, cols) =~= unlisted(a, names, cols));
    } else {
        lemma_unlisted_concat(a, b.drop_last(), names, cols);
        assert((a + b).drop_last() =~= a + b.drop_last());
        assert((a + b).last() == b.last());
        assert(unlisted(a + b, names, cols) =~= unlisted(a, names, cols) + unlisted(b, names, cols));
    }
}

/// The leaves of the nodes a span lists, front to back.
pub open spec fn listed_leaves(f: Seq<HeaderModel>, names: Seq<Seq<char>>, cols: Seq<Seq<char>>) -> Seq<nat>
    decreases f.len(),
{
    if f.len() == 0 {
        Seq::empty()
    } else {
        (if id_listed(cols, model_id(f[0], names)) {
            model_leaves(f[0])
        } else {
            Seq::empty()
        }) + listed_leaves(f.drop_first(), names, cols)
    }
}

/// The leaves of the nodes whose id is `c`, ASCII-case-insensitively.
pub open spec fn matching_leaves(f: Seq<HeaderModel>, names: Seq<Seq<char>>, c: Seq<char>) -> Seq<nat>
    decreases f.len(),
{
    if f.len() == 0 {
        Seq::empty()
    } else {
        (if id_key(f[0], names) == lower_seq(c) {
            model_leaves(f[0])
        } else {
            Seq::empty()
        }) + matching_leaves(f.drop_first(), names, c)
    }
}

/// No two nodes of `s` share an id, ASCII-case-insensitively.
pub open spec fn keys_distinct(s: Seq<HeaderModel>, names: Seq<Seq<char>>) -> bool {
    forall|a: int, b: int| 0 <= a < b < s.len() ==> id_key(#[trigger] s[a], names) != id_key(#[trigger] s[b], names)
}

proof fn lemma_empty_multiset(e: Seq<nat>)
    requires
        e.len() == 0,
    ensures
        e.to_multiset().add(e.to_multiset()) == e.to_multiset(),
        e.to_multiset() == vstd::multiset::Multiset::<nat>::empty(),
{
    broadcast use vstd::seq_lib::group_to_multiset_ensures;
    broadcast use vstd::multiset::group_multiset_axioms;

    assert forall|x: nat| e.to_multiset().count(x) == 0 by {
        if e.to_multiset().count(x) > 0 {
            assert(e.contains(x));
        }
    }
    assert(e.to_multiset() =~= vstd::multiset::Multiset::<nat>::empty());
    assert(e.to_multiset().add(e.to_multiset()) =~= e.to_multiset());
}

proof fn lemma_split_leaves(f: Seq<HeaderModel>, names: Seq<Seq<char>>, cols: Seq<Seq<char>>)
    ensures
        leaves_all(f).to_multiset() == listed_leaves(f, names, cols).to_multiset().add(
            leaves_all(unlisted(f, names, cols)).to_multiset(),
        ),
    decreases f.len(),
{
    broadcast use vstd::seq_lib::lemma_multiset_commutative;
    broadcast use vstd::multiset::group_multiset_axioms;

    if f.len() == 0 {
        let e = Seq::<nat>::empty();
        assert(listed_leaves(f, names, cols) =~= e);
        assert(leaves_all(unlisted(f, names, cols)) =~= e);
        assert(leaves_all(f) =~= e);
        lemma_empty_multiset(e);
    } else {
        let r = f.drop_first();
        let one = seq![f[0]];
        lemma_split_leaves(r, names, cols);
        lemma_leaves_front(f);
        assert(one + r =~= f);
        lemma_unlisted_concat(one, r, names, cols);
        lemma_leaves_concat(unlisted(one, names, cols), unlisted(r, names, cols));
        assert(one.drop_last() =~= Seq::<HeaderModel>::empty());
        assert(one.last() == f[0]);
        let u1 = unlisted(one, names, cols);
        assert(unlisted(one.drop_last(), names, cols) =~= Seq::<HeaderModel>::empty());
        if id_listed(cols, model_id(f[0], names)) {
            assert(u1 =~= Seq::<HeaderModel>::empty());
        } else {
            assert(u1 =~= one);
            lemma_leaves_front(one);
            assert(one.drop_first() =~= Seq::<HeaderModel>::empty());
            assert(leaves_all(u1) =~= model_leaves(f[0]));
        }
        assert(leaves_all(f).to_multiset() =~= listed_leaves(f, names, cols).to_multiset().add(
            leaves_all(unlisted(f, names, cols)).to_multiset(),
        ));
    }
}

proof fn lemma_listed_push(cols: Seq<Seq<char>>, c: Seq<char>, id: Seq<char>)
    ensures
        id_listed(cols.push(c), id) == (id_listed(cols, id) || lower_seq(c) == lower_seq(id)),
{
    let d = cols.push(c);
    if id_listed(cols, id) {
        let j = choose|j: int| 0 <= j < cols.len() && lower_seq(#[trigger] cols[j]) == lower_seq(id);
        assert(d[j] == cols[j]);
    }
    if lower_seq(c) == lower_seq(id) {
        assert(d[cols.len() as int] == c);
    }
    if id_listed(d, id) {
        let j = choose|j: int| 0 <= j < d.len() && lower_seq(#[trigger] d[j]) == lower_seq(id);
        if j < cols.len() {
            assert(d[j] == cols[j]);
        }
    }
}

proof fn lemma_listed_step(
    f: Seq<HeaderModel>,
    names: Seq<Seq<char>>,
    cols: Seq<Seq<char>>,
    c: Seq<char>,
)
    requires
        forall|j: int| 0 <= j < cols.len() ==> lower_seq(#[trigger] cols[j]) != lower_seq(c),
    ensures
        listed_leaves(f, names, cols.push(c)).to_multiset() == listed_leaves(f, names, cols).to_multiset().add(
            matching_leaves(f, names, c).to_multiset(),
        ),
    decreases f.len(),
{
    broadcast use vstd::seq_lib::lemma_multiset_commutative;
    broadcast use vstd::multiset::group_multiset_axioms;

    if f.len() == 0 {
        let e = Seq::<nat>::empty();
        assert(listed_leaves(f, names, cols.push(c)) =~= e);
        assert(listed_leaves(f, names, cols) =~= e);
        assert(matching_leaves(f, names, c) =~= e);
        lemma_empty_multiset(e);
    } else {
        lemma_listed_step(f.drop_first(), names, cols, c);
        let id = model_id(f[0], names);
        lemma_listed_push(cols, c, id);
        if lower_seq(c) == lower_seq(id) && id_listed(cols, id) {
            let j = choose|j: int| 0 <= j < cols.len() && lower_seq(#[trigger] cols[j]) == lower_seq(id);
            assert(false);
        }
        assert(listed_leaves(f, names, cols.push(c)).to_multiset() =~= listed_leaves(
            f,
            names,
            cols,
        ).to_multiset().add(matching_leaves(f, names, c).to_multiset()));
    }
}

proof fn lemma_no_match(f: Seq<HeaderModel>, names: Seq<Seq<char>>, c: Seq<char>)
    requires
        forall|j: int| 0 <= j < f.len() ==> id_key(#[trigger] f[j], names) != lower_seq(c),
    ensures
        matching_leaves(f, names, c) == Seq::<nat>::empty(),
        first_with_id(f, names, c) is None,
    decreases f.len(),
{
    if f.len() > 0 {
        let r = f.drop_first();
        assert forall|j: int| 0 <= j < r.len() implies id_key(#[trigger] r[j], names) != lower_seq(c) by {
            assert(r[j] == f[j + 1]);
        }
        assert(id_key(f[0], names) != lower_seq(c));
        lemma_no_match(r, names, c);
        assert(matching_leaves(f, names, c) =~= Seq::<nat>::empty());
    }
}

proof fn lemma_first_match(f: Seq<HeaderModel>, names: Seq<Seq<char>>, c: Seq<char>)
    requires
        keys_distinct(f, names),
    ensures
        match first_with_id(f, names, c) {
            Some(x) => matching_leaves(f, names, c) == model_leaves(x),
            None => matching_leaves(f, names, c) == Seq::<nat>::empty(),
        },
    decreases f.len(),
{
    if f.len() > 0 {
        let r = f.drop_first();
        assert forall|a: int, b: int| 0 <= a < b < r.len() implies id_key(#[trigger] r[a], names)
            != id_key(#[trigger] r[b], names) by {
            assert(r[a] == f[a + 1] && r[b] == f[b + 1]);
        }
        if id_key(f[0], names) == lower_seq(c) {
            assert forall|j: int| 0 <= j < r.len() implies id_key(#[trigger] r[j], names) != lower_seq(c) by {
                assert(r[j] == f[j + 1]);
            }
            lemma_no_match(r, names, c);
            assert(matching_leaves(f, names, c) =~= model_leaves(f[0]));
        } else {
            lemma_first_match(r, names, c);
            assert(matching_leaves(f, names, c) =~= matching_leaves(r, names, c));
        }
    }
}

proof fn lemma_listed_none(f: Seq<HeaderModel>, names: Seq<Seq<char>>, cols: Seq<Seq<char>>)
    requires
        cols.len() == 0,
    ensures
        listed_leaves(f, names, cols) == Seq::<nat>::empty(),
    decreases f.len(),
{
    if f.len() > 0 {
        lemma_listed_none(f.drop_first(), names, cols);
        assert(!id_listed(cols, model_id(f[0], names)));
        assert(listed_leaves(f, names, cols) =~= Seq::<nat>::empty());
    }
}

/// No two of `cols` name the same id, ASCII-case-insensitively.
pub open spec fn cols_distinct(cols: Seq<Seq<char>>) -> bool {
    forall|a: int, b: int| 0 <= a < b < cols.len() ==> lower_seq(#[trigger] cols[a]) != lower_seq(#[trigger] cols[b])
}

proof fn lemma_children_leaves(f: Seq<HeaderModel>, names: Seq<Seq<char>>, cols: Seq<Seq<char>>)
    requires
        keys_distinct(f, names),
        cols_distinct(cols),
    ensures
        leaves_all(span_children(f, names, cols)).to_multiset() == listed_leaves(f, names, cols).to_multiset(),
    decreases cols.len(),
{
    broadcast use vstd::seq_lib::lemma_multiset_commutative;
    broadcast use vstd::multiset::group_multiset_axioms;

    if cols.len() == 0 {
        lemma_listed_none(f, names, cols);
        let e = Seq::<nat>::empty();
        assert(span_children(f, names, cols) =~= Seq::<HeaderModel>::empty());
        assert(leaves_all(span_children(f, names, cols)) =~= e);
    } else {
        let init = cols.drop_last();
        let c = cols.last();
        assert forall|a: int, b: int| 0 <= a < b < init.len() implies lower_seq(#[trigger] init[a])
            != lower_seq(#[trigger] init[b]) by {
            assert(init[a] == cols[a] && init[b] == cols[b]);
        }
        assert forall|j: int| 0 <= j < init.len() implies lower_seq(#[trigger] init[j]) != lower_seq(c) by {
            assert(init[j] == cols[j]);
        }
        lemma_children_leaves(f, names, init);
        assert(init.push(c) =~= cols);
        lemma_listed_step(f, names, init, c);
        lemma_first_match(f, names, c);
        let r = span_children(f, names, init);
        match first_with_id(f, names, c) {
            Some(x) => {
                assert(r.push(x).drop_last() =~= r);
                assert(leaves_all(r.push(x)) == leaves_all(r) + model_leaves(x));
            },
            None => {
                lemma_empty_multiset(matching_leaves(f, names, c));
            },
        }
    }
}

proof fn lemma_first_listed_range(nodes: Seq<HeaderModel>, names: Seq<Seq<char>>, cols: Seq<Seq<char>>)
    ensures
        first_listed(nodes, names, cols) matches Some(i) ==> 0 <= i < nodes.len(),
    decreases nodes.len(),
{
    if nodes.len() > 0 {
        lemma_first_listed_range(nodes.drop_first(), names, cols);
    }
}

proof fn lemma_span_step_leaves(
    f: Seq<HeaderModel>,
    names: Seq<Seq<char>>,
    cols: Seq<Seq<char>>,
    id: Seq<char>,
    renames: Seq<(String, String)>,
)
    requires
        keys_distinct(f, names),
        cols_distinct(cols),
    ensures
        leaves_all(span_step(f, names, cols, id, renames)).to_multiset() == leaves_all(f).to_multiset(),
{
    broadcast use vstd::seq_lib::lemma_multiset_commutative;
    broadcast use vstd::multiset::group_multiset_axioms;

    match first_listed(f, names, cols) {
        None => {},
        Some(i0) => {
            lemma_first_listed_range(f, names, cols);
            let rem = unlisted(f, names, cols);
            let (label, user) = match label_lookup(renames, lower_seq(id)) {
                Some(l) => (l, true),
                None => (id, false),
            };
            let sp = HeaderModel::Spanner { id, label, user, children: span_children(f, names, cols) };
            let pos = if i0 <= rem.len() {
                i0
            } else {
                rem.len() as int
            };
            let out = rem.insert(pos, sp);
            assert(out == span_step(f, names, cols, id, renames));
            assert(out =~= rem.take(pos) + seq![sp] + rem.skip(pos));
            assert(rem =~= rem.take(pos) + rem.skip(pos));
            lemma_leaves_concat(rem.take(pos) + seq![sp], rem.skip(pos));
            lemma_leaves_concat(rem.take(pos), seq![sp]);
            lemma_leaves_concat(rem.take(pos), rem.skip(pos));
            lemma_leaves_front(seq![sp]);
            assert(seq![sp].drop_first() =~= Seq::<HeaderModel>::empty());
            assert(leaves_all(seq![sp]) =~= model_leaves(sp));
            lemma_children_leaves(f, names, cols);
            lemma_split_leaves(f, names, cols);
            assert(leaves_all(out).to_multiset() =~= leaves_all(f).to_multiset());
        },
    }
}

/// Clause `q` makes a spanner: a `FORMAT SPAN` with an `AS` id.
pub open spec fn makes_spanner(clauses: Seq<FormatClause>, q: int) -> bool {
    clauses[q].mode == FormatMode::Span && clauses[q].span_id is Some
}

pub open spec fn span_key(clauses: Seq<FormatClause>, q: int) -> Seq<char> {
    lower_seq(clauses[q].span_id->0@)
}

/// Every node is a column in range or a spanner of one of the first `k`
/// clauses.
pub open spec fn nodes_from(f: Seq<HeaderModel>, names: Seq<Seq<char>>, clauses: Seq<FormatClause>, k: int) -> bool {
    forall|j: int|
        0 <= j < f.len() ==> match #[trigger] f[j] {
            HeaderModel::Column(i) => i < names.len(),
            HeaderModel::Spanner { id, .. } => exists|q: int|
                0 <= q < k && makes_spanner(clauses, q) && clauses[q].span_id->0@ == id,
        }
}

/// Distinct ids: the columns' names among themselves, the spanner ids
/// among themselves and against the names, and within each span's list,
/// all ASCII-case-insensitively.
pub open spec fn header_ids_distinct(clauses: Seq<FormatClause>, names: Seq<Seq<char>>) -> bool {
    &&& forall|a: int, b: int|
        0 <= a < b < names.len() ==> lower_seq(#[trigger] names[a]) != lower_seq(#[trigger] names[b])
    &&& forall|q: int, i: int|
        0 <= q < clauses.len() && 0 <= i < names.len() && makes_spanner(clauses, q) ==> #[trigger] span_key(
            clauses,
            q,
        ) != lower_seq(#[trigger] names[i])
    &&& forall|q: int, r: int|
        0 <= q < r < clauses.len() && makes_spanner(clauses, q) && makes_spanner(clauses, r) ==> #[trigger] span_key(
            clauses,
            q,
        ) != #[trigger] span_key(clauses, r)
    &&& forall|q: int|
        0 <= q < clauses.len() && (#[trigger] clauses[q]).mode == FormatMode::Span ==> cols_distinct(
            seqs(clauses[q].columns@),
        )
}

proof fn lemma_unlisted_sub(f: Seq<HeaderModel>, names: Seq<Seq<char>>, cols: Seq<Seq<char>>)
    requires
        keys_distinct(f, names),
    ensures
        keys_distinct(unlisted(f, names, cols), names),
        forall|j: int|
            0 <= j < unlisted(f, names, cols).len() ==> exists|i: int|
                0 <= i < f.len() && f[i] == #[trigger] unlisted(f, names, cols)[j],
    decreases f.len(),
{
    if f.len() > 0 {
        let g = f.drop_last();
        assert forall|a: int, b: int| 0 <= a < b < g.len() implies id_key(#[trigger] g[a], names) != id_key(
            #[trigger] g[b],
            names,
        ) by {
            assert(g[a] == f[a] && g[b] == f[b]);
        }
        lemma_unlisted_sub(g, names, cols);
        let r = unlisted(g, names, cols);
        assert forall|j: int| 0 <= j < r.len() implies exists|i: int| 0 <= i < f.len() && f[i] == #[trigger] r[j] by {
            let i = choose|i: int| 0 <= i < g.len() && g[i] == r[j];
            assert(f[i] == g[i]);
        }
        if !id_listed(cols, model_id(f.last(), names)) {
            let u = r.push(f.last());
            assert forall|j: int| 0 <= j < u.len() implies exists|i: int| 0 <= i < f.len() && f[i] == #[trigger] u[j] by {
                if j < r.len() {
                    assert(u[j] == r[j]);
                } else {
                    assert(f[f.len() - 1] == u[j]);
                }
            }
            assert forall|a: int, b: int| 0 <= a < b < u.len() implies id_key(#[trigger] u[a], names) != id_key(
                #[trigger] u[b],
                names,
            ) by {
                if b == r.len() {
                    let i = choose|i: int| 0 <= i < g.len() && g[i] == r[a];
                    assert(f[i] == u[a]);
                    assert(f[f.len() - 1] == u[b]);
                } else {
                    assert(u[a] == r[a] && u[b] == r[b]);
                }
            }
        }
    }
}

proof fn lemma_span_step_ids(
    f: Seq<HeaderModel>,
    clauses: Seq<FormatClause>,
    names: Seq<Seq<char>>,
    renames: Seq<(String, String)>,
    k: int,
)
    requires
        0 <= k < clauses.len(),
        makes_spanner(clauses, k),
        header_ids_distinct(clauses, names),
        keys_distinct(f, names),
        nodes_from(f, names, clauses, k),
    ensures
        ({
            let g = span_step(f, names, seqs(clauses[k].columns@), clauses[k].span_id->0@, renames);
            keys_distinct(g, names) && nodes_from(g, names, clauses, k + 1)
        }),
{
    let cols = seqs(clauses[k].columns@);
    let id = clauses[k].span_id->0@;
    let g = span_step(f, names, cols, id, renames);
    match first_listed(f, names, cols) {
        None => {
            assert forall|j: int| 0 <= j < g.len() implies match #[trigger] g[j] {
                HeaderModel::Column(i) => i < names.len(),
                HeaderModel::Spanner { id, .. } => exists|q: int|
                    0 <= q < k + 1 && makes_spanner(clauses, q) && clauses[q].span_id->0@ == id,
            } by {
                assert(g[j] == f[j]);
            }
        },
        Some(i0) => {
            lemma_first_listed_range(f, names, cols);
            lemma_unlisted_sub(f, names, cols);
            let rem = unlisted(f, names, cols);
            let (label, user) = match label_lookup(renames, lower_seq(id)) {
                Some(l) => (l, true),
                None => (id, false),
            };
            let sp = HeaderModel::Spanner { id, label, user, children: span_children(f, names, cols) };
            let pos = if i0 <= rem.len() {
                i0
            } else {
                rem.len() as int
            };
            assert(g == rem.insert(pos, sp));
            assert(id_key(sp, names) == span_key(clauses, k));
            assert forall|j: int| 0 <= j < rem.len() implies id_key(#[trigger] rem[j], names) != id_key(sp, names)
                && match rem[j] {
                HeaderModel::Column(i) => i < names.len(),
                HeaderModel::Spanner { id, .. } => exists|q: int|
                    0 <= q < k && makes_spanner(clauses, q) && clauses[q].span_id->0@ == id,
            } by {
                let i = choose|i: int| 0 <= i < f.len() && f[i] == rem[j];
                match f[i] {
                    HeaderModel::Column(c) => {
                        assert(id_key(rem[j], names) == lower_seq(names[c as int]));
                        assert(span_key(clauses, k) != lower_seq(names[c as int]));
                    },
                    HeaderModel::Spanner { id: sid, .. } => {
                        let q = choose|q: int|
                            0 <= q < k && makes_spanner(clauses, q) && clauses[q].span_id->0@ == sid;
                        assert(id_key(rem[j], names) == span_key(clauses, q));
                        assert(span_key(clauses, q) != span_key(clauses, k));
                    },
                }
            }
            assert forall|a: int, b: int| 0 <= a < b < g.len() implies id_key(#[trigger] g[a], names) != id_key(
                #[trigger] g[b],
                names,
            ) by {
                if a < pos && b < pos {
                    assert(g[a] == rem[a] && g[b] == rem[b]);
                } else if a < pos && b == pos {
                    assert(g[a] == rem[a] && g[b] == sp);
                } else if a < pos {
                    assert(g[a] == rem[a] && g[b] == rem[b - 1]);
                } else if a == pos {
                    assert(g[a] == sp && g[b] == rem[b - 1]);
                } else {
                    assert(g[a] == rem[a - 1] && g[b] == rem[b - 1]);
                }
            }
            assert forall|j: int| 0 <= j < g.len() implies match #[trigger] g[j] {
                HeaderModel::Column(i) => i < names.len(),
                HeaderModel::Spanner { id, .. } => exists|q: int|
                    0 <= q < k + 1 && makes_spanner(clauses, q) && clauses[q].span_id->0@ == id,
            } by {
                if j < pos {
                    assert(g[j] == rem[j]);
                } else if j > pos {
                    assert(g[j] == rem[j - 1]);
                } else {
                    assert(g[j] == sp);
                }
            }
        },
    }
}

proof fn lemma_range_counts(n: nat)
    ensures
        forall|x: nat| #[trigger] col_range(n).to_multiset().count(x) == if x < n {
            1nat
        } else {
            0nat
        },
    decreases n,
{
    broadcast use vstd::seq_lib::group_to_multiset_ensures;
    broadcast use vstd::multiset::group_multiset_axioms;

    let s = col_range(n);
    if n == 0 {
        lemma_empty_multiset(s);
    } else {
        lemma_range_counts((n - 1) as nat);
        let t = col_range((n - 1) as nat);
        assert(t.push((n - 1) as nat) =~= s);
    }
}

proof fn lemma_forest_invariant(clauses: Seq<FormatClause>, names: Seq<Seq<char>>, renames: Seq<(String, String)>)
    requires
        header_ids_distinct(clauses, names),
    ensures
        keys_distinct(forest_from(clauses, names, renames), names),
        nodes_from(forest_from(clauses, names, renames), names, clauses, clauses.len() as int),
        leaves_all(forest_from(clauses, names, renames)).to_multiset() == col_range(
            names.len(),
        ).to_multiset(),
    decreases clauses.len(),
{
    let f = forest_from(clauses, names, renames);
    if clauses.len() == 0 {
        lemma_leaves_flat(names.len());
        assert forall|a: int, b: int| 0 <= a < b < f.len() implies id_key(#[trigger] f[a], names) != id_key(
            #[trigger] f[b],
            names,
        ) by {
            assert(id_key(f[a], names) == lower_seq(names[a]));
            assert(id_key(f[b], names) == lower_seq(names[b]));
        }
    } else {
        let init = clauses.drop_last();
        let k = clauses.len() - 1;
        assert forall|q: int| 0 <= q < init.len() implies #[trigger] init[q] == clauses[q] by {}
        assert(header_ids_distinct(init, names)) by {
            assert forall|q: int, i: int|
                0 <= q < init.len() && 0 <= i < names.len() && makes_spanner(init, q) implies #[trigger] span_key(
                init,
                q,
            ) != lower_seq(#[trigger] names[i]) by {
                assert(init[q] == clauses[q]);
                assert(makes_spanner(clauses, q));
                assert(span_key(init, q) == span_key(clauses, q));
            }
            assert forall|q: int, r: int|
                0 <= q < r < init.len() && makes_spanner(init, q) && makes_spanner(init, r) implies #[trigger] span_key(
                init,
                q,
            ) != #[trigger] span_key(init, r) by {
                assert(init[q] == clauses[q] && init[r] == clauses[r]);
                assert(makes_spanner(clauses, q) && makes_spanner(clauses, r));
                assert(span_key(init, q) == span_key(clauses, q));
                assert(span_key(init, r) == span_key(clauses, r));
            }
            assert forall|q: int|
                0 <= q < init.len() && (#[trigger] init[q]).mode == FormatMode::Span implies cols_distinct(
                seqs(init[q].columns@),
            ) by {
                assert(init[q] == clauses[q]);
            }
        }
        lemma_forest_invariant(init, names, renames);
        let prev = forest_from(init, names, renames);
        assert(nodes_from(prev, names, clauses, k)) by {
            assert forall|j: int| 0 <= j < prev.len() implies match #[trigger] prev[j] {
                HeaderModel::Column(i) => i < names.len(),
                HeaderModel::Spanner { id, .. } => exists|q: int|
                    0 <= q < k && makes_spanner(clauses, q) && clauses[q].span_id->0@ == id,
            } by {
                match prev[j] {
                    HeaderModel::Column(i) => {},
                    HeaderModel::Spanner { id, .. } => {
                        assert(nodes_from(prev, names, init, init.len() as int));
                        assert(exists|q: int|
                            0 <= q < init.len() && makes_spanner(init, q) && init[q].span_id->0@ == id);
                        let q = choose|q: int|
                            0 <= q < init.len() && makes_spanner(init, q) && init[q].span_id->0@ == id;
                        assert(init[q] == clauses[q]);
                        assert(0 <= q < k && makes_spanner(clauses, q) && clauses[q].span_id->0@ == id);
                    },
                }
            }
        }
        assert(clauses.last() == clauses[k]);
        if makes_spanner(clauses, k) {
            lemma_span_step_ids(prev, clauses, names, renames, k);
            lemma_span_step_leaves(
                prev,
                names,
                seqs(clauses[k].columns@),
                clauses[k].span_id->0@,
                renames,
            );
        } else {
            assert(f == prev);
            assert forall|j: int| 0 <= j < f.len() implies match #[trigger] f[j] {
                HeaderModel::Column(i) => i < names.len(),
                HeaderModel::Spanner { id, .. } => exists|q: int|
                    0 <= q < k + 1 && makes_spanner(clauses, q) && clauses[q].span_id->0@ == id,
            } by {
                match f[j] {
                    HeaderModel::Column(i) => {},
                    HeaderModel::Spanner { id, .. } => {
                        let q = choose|q: int|
                            0 <= q < k && makes_spanner(clauses, q) && clauses[q].span_id->0@ == id;
                    },
                }
            }
        }
    }
}

/// With distinct column names, spanner ids distinct from each other and
/// from the names, and no span listing one id twice (all ASCII-case-
/// insensitively), the header's leaves carry every column index exactly
/// once.
pub proof fn law_header_leaves_cover_columns(
    clauses: Seq<FormatClause>,
    names: Seq<Seq<char>>,
    renames: Seq<(String, String)>,
)
    requires
        header_ids_distinct(clauses, names),
    ensures
        leaves_all(forest_from(clauses, names, renames)).to_multiset() == col_range(
            names.len(),
        ).to_multiset(),
        forall|x: nat| #[trigger] leaves_all(forest_from(clauses, names, renames)).to_multiset().count(x)
            == if x < names.len() {
            1nat
        } else {
            0nat
        },
        leaves_all(forest_from(clauses, names, renames)).len() == names.len(),
{
    lemma_forest_invariant(clauses, names, renames);
    lemma_range_counts(names.len());
    vstd::seq_lib::to_multiset_len(leaves_all(forest_from(clauses, names, renames)));
    vstd::seq_lib::to_multiset_len(col_range(names.len()));
}

proof fn lemma_leaf_count_view(n: HeaderNode)
    ensures
        leaf_count_spec(n) == model_leaves(node_view(n)).len(),
    decreases n,
{
    match n {
        HeaderNode::Column { .. } => {},
        HeaderNode::Spanner { children, .. } => {
            lemma_leaves_of_seq_view(children@);
        },
    }
}

proof fn lemma_leaves_of_seq_view(s: Seq<HeaderNode>)
    ensures
        leaves_of_seq(s) == leaves_all(nodes_view(s)).len(),
    decreases s,
{
    if s.len() > 0 {
        lemma_leaves_of_seq_view(s.drop_last());
        lemma_leaf_count_view(s[s.len() - 1]);
        let v = nodes_view(s);
        assert(v.drop_last() == nodes_view(s.drop_last()));
        assert(v.last() == node_view(s.last()));
    }
}

/// Under the same conditions, the leaf counts of a header built by
/// [`build_header_forest`] add up to the number of columns.
pub proof fn law_header_leaf_counts_sum(
    forest: Seq<HeaderNode>,
    clauses: Seq<FormatClause>,
    names: Seq<Seq<char>>,
    renames: Seq<(String, String)>,
)
    requires
        header_ids_distinct(clauses, names),
        nodes_view(forest) == forest_from(clauses, names, renames),
    ensures
        leaves_of_seq(forest) == names.len(),
{
    law_header_leaves_cover_columns(clauses, names, renames);
    lemma_leaves_of_seq_view(forest);
}

/// Two SCALE clauses painting the same column: where the later one has a
/// value for a cell, the cell shows it; where it has none, the earlier
/// one's value, or what was there before, remains. Other columns are left
/// alone.
pub proof fn law_later_scale_wins(
    g: Seq<Seq<Option<Seq<char>>>>,
    col: int,
    first: Seq<Option<Seq<char>>>,
    second: Seq<Option<Seq<char>>>,
    i: int,
    c: int,
)
    requires
        first.len() == g.len(),
        second.len() == g.len(),
        0 <= i < g.len(),
        0 <= c < g[i].len(),
    ensures
        paint_spec(paint_spec(g, col, first), col, second)[i][c] == (if c == col && second[i] is Some {
            second[i]
        } else if c == col && first[i] is Some {
            first[i]
        } else {
            g[i][c]
        }),
{
}

/// When several HIGHLIGHTs set a cell's background, the last one that
/// matches the row and targets the column wins.
pub proof fn law_later_highlight_wins(
    hls: Seq<HighlightClause>,
    ms: Seq<Option<Vec<bool>>>,
    names: Seq<Seq<char>>,
    r: int,
    c: int,
)
    requires
        hls.len() > 0,
        hls.len() - 1 < ms.len(),
        hl_hits(ms[hls.len() - 1], r),
        hl_targets(hls.last(), names, c),
        hl_style(hls.last()).background is Some,
    ensures
        cell_style_spec(hls, ms, names, r, c).background == hl_style(hls.last()).background,
{
}

} // verus!

verus! {

// ============================================================================
// The SQL to run
// ============================================================================

/// Prefix of the boolean projection columns that carry HIGHLIGHT
/// predicates.
pub const HL_COL_PREFIX: &'static str = "__hl_";

/// The last named child of kind `k`.
pub open spec fn last_named_of(s: Seq<SyntaxNode>, k: Seq<char>) -> Option<SyntaxNode>
    decreases s.len(),
{
    if s.len() == 0 {
        None
    } else if s.last().named && s.last().kind@ == k {
        Some(s.last())
    } else {
        last_named_of(s.drop_last(), k)
    }
}

/// The first named child of kind `k`.
pub open spec fn first_named_of(s: Seq<SyntaxNode>, k: Seq<char>) -> Option<SyntaxNode>
    decreases s.len(),
{
    if s.len() == 0 {
        None
    } else if s[0].named && s[0].kind@ == k {
        Some(s[0])
    } else {
        first_named_of(s.drop_first(), k)
    }
}

pub open spec fn has_query_body(s: Seq<SyntaxNode>) -> bool {
    exists|i: int|
        0 <= i < s.len() && (#[trigger] s[i]).named && (s[i].kind@ == "select_statement"@
            || s[i].kind@ == "from_statement"@)
}

/// The SQL part's last statement is a `WITH ...` without a SELECT or FROM
/// body: CTE definitions only.
pub open spec fn cte_only_spec(sql: SyntaxNode) -> bool {
    match last_named_of(sql.children@, "sql_statement"@) {
        None => false,
        Some(st) => match first_named_of(st.children@, "with_statement"@) {
            None => false,
            Some(w) => !has_query_body(w.children@),
        },
    }
}

fn last_named_exec<'a>(s: &'a Vec<SyntaxNode>, k: &str) -> (r: Option<&'a SyntaxNode>)
    ensures
        match last_named_of(s@, k@) {
            Some(x) => r matches Some(y) && *y == x,
            None => r is None,
        },
{
    let mut i = s.len();
    proof {
        assert(s@.take(i as int) =~= s@);
    }
    while i > 0
        invariant
            i <= s@.len(),
            last_named_of(s@, k@) == last_named_of(s@.take(i as int), k@),
        decreases i,
    {
        proof {
            let t = s@.take(i as int);
            assert(t.drop_last() =~= s@.take(i - 1));
            assert(t.last() == s@[i - 1]);
        }
        if s[i - 1].named && str_eq(&s[i - 1].kind, k) {
            return Some(&s[i - 1]);
        }
        i -= 1;
    }
    None
}

fn first_named_exec<'a>(s: &'a Vec<SyntaxNode>, k: &str) -> (r: Option<&'a SyntaxNode>)
    ensures
        match first_named_of(s@, k@) {
            Some(x) => r matches Some(y) && *y == x,
            None => r is None,
        },
{
    let mut i: usize = 0;
    proof {
        assert(s@.skip(0) =~= s@);
    }
    while i < s.len()
        invariant
            i <= s@.len(),
            first_named_of(s@, k@) == first_named_of(s@.skip(i as int), k@),
        decreases s.len() - i,
    {
        proof {
            assert(s@.skip(i as int)[0] == s@[i as int]);
            assert(s@.skip(i as int).drop_first() =~= s@.skip(i + 1));
        }
        if s[i].named && str_eq(&s[i].kind, k) {
            return Some(&s[i]);
        }
        i += 1;
    }
    None
}

/// True when the SQL part's last statement is a `WITH` that has no trailing
/// `SELECT`/`FROM` body: the user wrote only CTE definitions and expects
/// TABULATE to drive the final SELECT.
pub fn sql_portion_is_cte_only(sql: &SyntaxNode) -> (r: bool)
    ensures
        r == cte_only_spec(*sql),
{
    let st = match last_named_exec(&sql.children, "sql_statement") {
        Some(st) => st,
        None => return false,
    };
    let w = match first_named_exec(&st.children, "with_statement") {
        Some(w) => w,
        None => return false,
    };
    let mut i: usize = 0;
    while i < w.children.len()
        invariant
            i <= w.children@.len(),
            last_named_of(sql.children@, "sql_statement"@) == Some(*st),
            first_named_of(st.children@, "with_statement"@) == Some(*w),
            forall|q: int|
                0 <= q < i ==> !((#[trigger] w.children@[q]).named && (w.children@[q].kind@
                    == "select_statement"@ || w.children@[q].kind@ == "from_statement"@)),
        decreases w.children.len() - i,
    {
        let c = &w.children[i];
        if c.named && (str_eq(&c.kind, "select_statement") || str_eq(&c.kind, "from_statement")) {
            proof {
                assert(has_query_body(w.children@));
            }
            return false;
        }
        i += 1;
    }
    true
}

/// The table to read from: the SQL part's first table, else the TABULATE
/// `FROM` source, else `__data__`.
pub open spec fn table_name_spec(root: SyntaxNode, stmt: TabulateStmt) -> Seq<char> {
    match sql_table_spec(root) {
        Some(t) => t,
        None => match stmt.from_source {
            Some(s) => s@,
            None => "__data__"@,
        },
    }
}

pub fn determine_table_name(root: &SyntaxNode, stmt: &TabulateStmt) -> (r: String)
    ensures
        r@ == table_name_spec(*root, *stmt),
{
    if let Some(name) = extract_sql_from_table(root) {
        return name;
    }
    if let Some(s) = &stmt.from_source {
        return owned(s);
    }
    String::from_str("__data__")
}

/// `s` without its trailing semicolons.
pub open spec fn strip_semis(s: Seq<char>) -> Seq<char>
    decreases s.len(),
{
    if s.len() > 0 && s.last() == ';' {
        strip_semis(s.drop_last())
    } else {
        s
    }
}

/// The `, (<filter>) AS __hl_<i>__match` projections of the first `k`
/// highlights.
pub open spec fn hl_projections(hls: Seq<HighlightClause>, k: nat) -> Seq<char>
    decreases k,
{
    if k == 0 {
        Seq::empty()
    } else {
        hl_projections(hls, (k - 1) as nat) + ", ("@ + hls[k - 1].filter@ + ") AS "@
            + HL_COL_PREFIX@ + decimal((k - 1) as nat) + "__match"@
    }
}

/// The SQL to execute. The SQL part as written (trimmed, trailing
/// semicolons dropped), or `SELECT * FROM <table>` without one; a SQL part
/// of CTE definitions only is kept as a prefix before that SELECT. With
/// HIGHLIGHT clauses the query is wrapped and one boolean column per
/// highlight, `__hl_<i>__match`, is projected.
pub open spec fn build_sql_spec(root: SyntaxNode, stmt: TabulateStmt, table: Seq<char>) -> Seq<char> {
    let select_all = "SELECT * FROM "@ + table;
    let (prefix, body) = match first_found(root, "sql_portion"@) {
        Some(sql) => {
            let t = trim_spec(strip_semis(trim_spec(sql.text@)));
            if cte_only_spec(sql) {
                (t, select_all)
            } else {
                (Seq::<char>::empty(), t)
            }
        },
        None => (Seq::<char>::empty(), select_all),
    };
    let query = if stmt.highlight_clauses@.len() == 0 {
        body
    } else {
        "SELECT __t.*"@ + hl_projections(stmt.highlight_clauses@, stmt.highlight_clauses@.len())
            + " FROM ("@ + body + ") __t"@
    };
    if prefix.len() == 0 {
        query
    } else {
        prefix + " "@ + query
    }
}

fn strip_semis_exec(s: &str) -> (r: String)
    ensures
        r@ == strip_semis(s@),
{
    let v = chars_of(s);
    let mut n = v.len();
    proof {
        assert(v@.take(n as int) =~= s@);
    }
    while n > 0 && v[n - 1] == ';'
        invariant
            n <= v@.len(),
            v@ == s@,
            strip_semis(s@) == strip_semis(v@.take(n as int)),
        decreases n,
    {
        proof {
            assert(v@.take(n as int).drop_last() =~= v@.take(n - 1));
        }
        n -= 1;
    }
    crate::text::string_of(&v, 0, n)
}

pub fn build_sql(root: &SyntaxNode, stmt: &TabulateStmt, table_name: &str) -> (r: String)
    ensures
        r@ == build_sql_spec(*root, *stmt, table_name@),
{
    let mut select_all = String::from_str("SELECT * FROM ");
    select_all.push_str(table_name);
    let (prefix, body) = match find_first(root, "sql_portion") {
        Some(sql) => {
            let t = crate::text::trim(&strip_semis_exec(&crate::text::trim(&sql.text)));
            if sql_portion_is_cte_only(sql) {
                (t, select_all)
            } else {
                (String::new(), t)
            }
        },
        None => (String::new(), select_all),
    };
    let query = if stmt.highlight_clauses.len() == 0 {
        body
    } else {
        let mut q = String::from_str("SELECT __t.*");
        let ghost start = q@;
        let mut i: usize = 0;
        while i < stmt.highlight_clauses.len()
            invariant
                i <= stmt.highlight_clauses@.len(),
                q@ == start + hl_projections(stmt.highlight_clauses@, i as nat),
            decreases stmt.highlight_clauses.len() - i,
        {
            q.push_str(", (");
            q.push_str(&stmt.highlight_clauses[i].filter);
            q.push_str(") AS ");
            q.push_str(HL_COL_PREFIX);
            q.push_str(&u64_to_decimal(i as u64));
            q.push_str("__match");
            proof {
                assert(q@ =~= start + hl_projections(stmt.highlight_clauses@, (i + 1) as nat));
            }
            i += 1;
        }
        q.push_str(" FROM (");
        q.push_str(&body);
        q.push_str(") __t");
        q
    };
    let plen = chars_of(&prefix).len();
    if plen == 0 {
        query
    } else {
        let mut out = prefix;
        out.push_str(" ");
        out.push_str(&query);
        out
    }
}

} // verus!
