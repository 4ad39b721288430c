//! Typed AST nodes for TABULATE statements.
//!
//! Numeric literals are kept as the text the query wrote; whoever needs
//! their value reads it from there.

use vstd::prelude::*;

verus! {

/// A complete TABULATE statement parsed from a ggsql query.
pub struct TabulateStmt {
    /// Column selection: empty means `*` (all columns from source).
    pub columns: Vec<String>,
    /// `FROM <source>` override; None when the preceding SELECT provides data.
    pub from_source: Option<String>,
    /// Zero or more FORMAT clauses.
    pub format_clauses: Vec<FormatClause>,
    /// Single LABEL clause (collapsed across the at-most-one allowed clause).
    pub label: Option<LabelClause>,
    /// Zero or more SCALE clauses.
    pub scale_clauses: Vec<ScaleClause>,
    /// Zero or more HIGHLIGHT clauses.
    pub highlight_clauses: Vec<HighlightClause>,
    /// At most one FACET clause.
    pub facet: Option<FacetClause>,
}

/// A `SCALE <aesthetic> [FROM (min, max)] TO <palette>|(c1, c2, ...) [VIA <id>]
///   SETTING target => (col, ...)` clause.
pub struct ScaleClause {
    /// `background`, `foreground`, `size` or `opacity`.
    pub aesthetic: String,
    /// Explicit domain `FROM (min, max)`, as the two number literals.
    /// When `None`, the domain is inferred from the target columns' data.
    pub domain: Option<(String, String)>,
    /// Output spec from `TO ...`.
    pub palette: ScalePalette,
    /// Optional transform from `VIA <id>` (only `log10` is recognised).
    pub transform: Option<String>,
    /// Target columns the scale applies to (from `SETTING target => ...`).
    pub target_cols: Vec<String>,
}

pub enum ScalePalette {
    /// Explicit list of stops as parsed string literals (e.g.
    /// `('white', 'darkgreen')` or `('12px', '28px')`).
    Stops(Vec<String>),
    /// Named built-in palette (`viridis`, `RdYlGn`, ...).
    Named(String),
}

/// A `LABEL key => '...', ...` clause.
pub struct LabelClause {
    /// `title => '...'`
    pub title: Option<String>,
    /// `subtitle => '...'`
    pub subtitle: Option<String>,
    /// `caption => '...'` (rendered as gt's sourcenote).
    pub caption: Option<String>,
    /// All other `<id> => '...'` pairs (column or spanner labels, in source order).
    pub renames: Vec<(String, String)>,
}

/// A `FORMAT [SPAN|STUB] col [, col] [AS id] [SETTING ...] [RENAMING ...]` clause.
pub struct FormatClause {
    /// Modifier keyword (`SPAN`, `STUB`, or neither).
    pub mode: FormatMode,
    /// Columns this clause targets (`*` for every visible column).
    pub columns: Vec<String>,
    /// Spanner id from `AS <id>` (only relevant for `SPAN` and `STUB`).
    pub span_id: Option<String>,
    /// Key → value settings from `SETTING key => value, ...`.
    pub settings: Vec<FormatSetting>,
    /// Rename rules from `RENAMING lhs => rhs, ...`.
    pub renamings: Vec<FormatRenaming>,
}

#[derive(Copy, Clone, PartialEq, Eq, Structural, Debug)]
pub enum FormatMode {
    /// Default (no keyword): apply column-level settings directly.
    Plain,
    /// `FORMAT SPAN ...` — group columns under a spanner.
    Span,
    /// `FORMAT STUB ...` — designate stub / row-label column.
    Stub,
}

/// A single `key => value` pair from `SETTING`.
pub struct FormatSetting {
    pub key: String,
    pub value: SettingValue,
}

pub enum SettingValue {
    String(String),
    /// A number literal, as written.
    Number(String),
    Bool(bool),
}

/// A single renaming rule from `RENAMING`.
pub struct FormatRenaming {
    pub lhs: RenamingLhs,
    pub rhs: String,
}

pub enum RenamingLhs {
    /// `*` — all values (formatter).
    Wildcard,
    /// `null` — NA / missing.
    Null,
    /// `0` — zero.
    Zero,
    /// Exact numeric literal, as written.
    Number(String),
    /// Exact string literal.
    Literal(String),
    /// Bare identifier (column name or custom lhs).
    Identifier(String),
}

/// A `HIGHLIGHT <cols> FILTER <expr> [SETTING ...]` clause.
pub struct HighlightClause {
    pub columns: Vec<String>,
    /// The FILTER expression, forwarded verbatim to the SQL backend.
    pub filter: String,
    pub settings: Vec<HighlightSetting>,
}

pub struct HighlightSetting {
    pub key: String,
    pub value: SettingValue,
}

/// A `FACET <group_col> [SETTING ...]` clause.
pub struct FacetClause {
    pub group_col: String,
    pub settings: Vec<FacetSetting>,
}

pub struct FacetSetting {
    pub key: String,
    pub value: FacetValue,
}

pub enum FacetValue {
    String(String),
    /// A number literal, as written.
    Number(String),
    Bool(bool),
    Identifier(String),
    IdentList(Vec<String>),
    StrList(Vec<String>),
}

/// The characters of each string.
pub open spec fn seqs(v: Seq<String>) -> Seq<Seq<char>> {
    v.map_values(|s: String| s@)
}

} // verus!
