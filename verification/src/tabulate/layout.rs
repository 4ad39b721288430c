//! Column layout: which columns a TABULATE statement shows, in what order,
//! under which labels, alignment and widths, and the rules that turn each
//! of their cells into text.

use crate::tabulate::ast::{
    FormatClause, FormatMode, FormatRenaming, FormatSetting, LabelClause, RenamingLhs,
    SettingValue, TabulateStmt, seqs,
};
use crate::tabulate::execute::{
    alignment_spec, build_header_forest, determine_alignment, forest_from, label_lookup,
    label_renames, lookup_label, nodes_view, smart_text, smart_text_spec, ColAlign, ColMeta,
    ColumnType, HeaderModel, HeaderNode,
};
use crate::tabulate::format::{
    build_format, num_format_spec, string_format_spec, time_format_spec, lang_of, CellFmt, Lang,
    NumFormat, NumSpec, StringFormat, StringTransform, TimeFormat,
};
use crate::text::{eq_ignore_ascii_case, lower_seq, owned, str_eq, to_ascii_lowercase};
use vstd::prelude::*;

verus! {

// ============================================================================
// What the fetched data says about its columns
// ============================================================================

/// One column of the query result, reduced to what the layout reads.
pub struct BatchColumn {
    /// The column's name in the result schema.
    pub name: String,
    /// What its type in the result says about alignment.
    pub batch_type: ColumnType,
    /// Whether it holds 64-bit floats (those get gt's automatic number
    /// formatter when no template applies).
    pub is_float64: bool,
    /// Its values, when it is a `Utf8` column (`None` for a null); empty
    /// otherwise.
    pub strings: Vec<Option<String>>,
}

/// `a` and `b` are equal up to ASCII case.
pub open spec fn eq_ic(a: Seq<char>, b: Seq<char>) -> bool {
    lower_seq(a) == lower_seq(b)
}

/// The first position of a name equal to `c` up to ASCII case.
pub open spec fn first_eq_ic(names: Seq<Seq<char>>, c: Seq<char>) -> Option<int>
    decreases names.len(),
{
    if names.len() == 0 {
        None
    } else if eq_ic(names[0], c) {
        Some(0)
    } else {
        match first_eq_ic(names.drop_first(), c) {
            Some(k) => Some(k + 1),
            None => None,
        }
    }
}

/// The first position of a name equal to `c`.
pub open spec fn first_exact(names: Seq<Seq<char>>, c: Seq<char>) -> Option<int>
    decreases names.len(),
{
    if names.len() == 0 {
        None
    } else if names[0] == c {
        Some(0)
    } else {
        match first_exact(names.drop_first(), c) {
            Some(k) => Some(k + 1),
            None => None,
        }
    }
}

/// Names of the synthetic highlight-predicate columns start with `__hl_`.
pub open spec fn is_predicate_name(s: Seq<char>) -> bool {
    s.len() >= 5 && s[0] == '_' && s[1] == '_' && s[2] == 'h' && s[3] == 'l' && s[4] == '_'
}

pub open spec fn batch_names(b: Seq<BatchColumn>) -> Seq<Seq<char>> {
    b.map_values(|c: BatchColumn| c.name@)
}

/// The result's user-visible column names, in order.
pub open spec fn schema_names(names: Seq<Seq<char>>) -> Seq<Seq<char>>
    decreases names.len(),
{
    if names.len() == 0 {
        names
    } else {
        let r = schema_names(names.drop_last());
        if is_predicate_name(names.last()) {
            r
        } else {
            r.push(names.last())
        }
    }
}

/// A requested column resolves to the result's spelling of its name when
/// the result has it, else stays as written.
pub open spec fn resolve_name(schema: Seq<Seq<char>>, c: Seq<char>) -> Seq<char> {
    match first_eq_ic(schema, c) {
        Some(j) => schema[j],
        None => c,
    }
}

/// The columns on display before hiding: every visible result column for
/// `TABULATE *`, else the requested ones.
pub open spec fn display_cols(req: Seq<Seq<char>>, schema: Seq<Seq<char>>) -> Seq<Seq<char>> {
    if req.len() == 0 {
        schema
    } else {
        req.map_values(|c: Seq<char>| resolve_name(schema, c))
    }
}

/// `FORMAT ... SETTING hide => true`.
pub open spec fn clause_hides(fc: FormatClause) -> bool {
    fc.mode == FormatMode::Plain && exists|k: int|
        0 <= k < fc.settings@.len() && eq_ic(#[trigger] fc.settings@[k].key@, "hide"@)
            && fc.settings@[k].value == SettingValue::Bool(true)
}

/// `c` is listed by a hiding clause.
pub open spec fn is_hidden(clauses: Seq<FormatClause>, c: Seq<char>) -> bool {
    exists|i: int, j: int|
        0 <= i < clauses.len() && clause_hides(#[trigger] clauses[i]) && 0 <= j
            < clauses[i].columns@.len() && eq_ic(#[trigger] clauses[i].columns@[j]@, c)
}

/// `c` is the FACET grouping column.
pub open spec fn is_group_col(stmt: TabulateStmt, c: Seq<char>) -> bool {
    stmt.facet matches Some(f) && eq_ic(f.group_col@, c)
}

/// The displayed columns that stay visible, in order.
pub open spec fn shown(stmt: TabulateStmt, d: Seq<Seq<char>>) -> Seq<Seq<char>>
    decreases d.len(),
{
    if d.len() == 0 {
        d
    } else {
        let r = shown(stmt, d.drop_last());
        if is_hidden(stmt.format_clauses@, d.last()) || is_group_col(stmt, d.last()) {
            r
        } else {
            r.push(d.last())
        }
    }
}

/// The first `FORMAT STUB` clause.
pub open spec fn first_stub(clauses: Seq<FormatClause>) -> Option<FormatClause>
    decreases clauses.len(),
{
    if clauses.len() == 0 {
        None
    } else if clauses[0].mode == FormatMode::Stub {
        Some(clauses[0])
    } else {
        first_stub(clauses.drop_first())
    }
}

/// The stub column named by the first `FORMAT STUB <col> [AS <id>]`, with
/// its span id.
pub open spec fn stub_info(clauses: Seq<FormatClause>) -> Option<(Seq<char>, Option<Seq<char>>)> {
    match first_stub(clauses) {
        Some(fc) => if fc.columns@.len() > 0 {
            Some(
                (
                    fc.columns@[0]@,
                    match fc.span_id {
                        Some(s) => Some(s@),
                        None => None,
                    },
                ),
            )
        } else {
            None
        },
        None => None,
    }
}

/// The stub column moves to the front.
pub open spec fn stub_first(v: Seq<Seq<char>>, stub: Option<(Seq<char>, Option<Seq<char>>)>) -> Seq<
    Seq<char>,
> {
    match stub {
        Some((name, _)) => match first_eq_ic(v, name) {
            Some(p) => if p != 0 {
                seq![v[p]] + v.remove(p)
            } else {
                v
            },
            None => v,
        },
        None => v,
    }
}

/// The visible data columns, in display order.
pub open spec fn visible_cols(stmt: TabulateStmt, names: Seq<Seq<char>>) -> Seq<Seq<char>> {
    stub_first(
        shown(stmt, display_cols(seqs(stmt.columns@), schema_names(names))),
        stub_info(stmt.format_clauses@),
    )
}

// ============================================================================
// Per-column overrides from plain FORMAT clauses
// ============================================================================

/// What plain `FORMAT` clauses say about one column.
pub struct Overrides {
    pub width: Option<Seq<char>>,
    pub align: Option<ColAlign>,
    pub locale: Option<Seq<char>>,
    /// The `RENAMING * => '<template>'` template.
    pub template: Option<Seq<char>>,
    pub null_text: Option<Seq<char>>,
    pub zero_text: Option<Seq<char>>,
    /// `RENAMING <number> => '...'`, in clause order: the number as written
    /// and the replacement.
    pub numbers: Seq<(Seq<char>, Seq<char>)>,
    /// `RENAMING '<literal>' => '...'`, in clause order.
    pub literals: Seq<(Seq<char>, Seq<char>)>,
}

pub open spec fn no_overrides() -> Overrides {
    Overrides {
        width: None,
        align: None,
        locale: None,
        template: None,
        null_text: None,
        zero_text: None,
        numbers: Seq::empty(),
        literals: Seq::empty(),
    }
}

/// The last `key => '<string>'` setting.
pub open spec fn last_string_setting(s: Seq<FormatSetting>, key: Seq<char>) -> Option<Seq<char>>
    decreases s.len(),
{
    if s.len() == 0 {
        None
    } else if eq_ic(s.last().key@, key) && s.last().value is String {
        Some(s.last().value->String_0@)
    } else {
        last_string_setting(s.drop_last(), key)
    }
}

/// `left`, `right` or `center`, ASCII-case-insensitively.
pub open spec fn align_of(v: Seq<char>) -> Option<ColAlign> {
    if lower_seq(v) == "left"@ {
        Some(ColAlign::Left)
    } else if lower_seq(v) == "right"@ {
        Some(ColAlign::Right)
    } else if lower_seq(v) == "center"@ {
        Some(ColAlign::Center)
    } else {
        None
    }
}

/// The last `align => '<alignment>'` setting that names an alignment.
pub open spec fn last_align_setting(s: Seq<FormatSetting>) -> Option<ColAlign>
    decreases s.len(),
{
    if s.len() == 0 {
        None
    } else if eq_ic(s.last().key@, "align"@) && s.last().value is String && align_of(
        s.last().value->String_0@,
    ) is Some {
        align_of(s.last().value->String_0@)
    } else {
        last_align_setting(s.drop_last())
    }
}

/// The replacement of the last renaming whose left side is `*` (kind 0),
/// `null` (kind 1) or `0` (kind 2).
pub open spec fn last_renaming(r: Seq<FormatRenaming>, kind: int) -> Option<Seq<char>>
    decreases r.len(),
{
    if r.len() == 0 {
        None
    } else if (kind == 0 && r.last().lhs is Wildcard) || (kind == 1 && r.last().lhs is Null) || (
    kind == 2 && r.last().lhs is Zero) {
        Some(r.last().rhs@)
    } else {
        last_renaming(r.drop_last(), kind)
    }
}

/// `RENAMING <number> => '...'` pairs, replacement smartened.
pub open spec fn number_renamings(r: Seq<FormatRenaming>) -> Seq<(Seq<char>, Seq<char>)>
    decreases r.len(),
{
    if r.len() == 0 {
        Seq::empty()
    } else {
        let p = number_renamings(r.drop_last());
        match r.last().lhs {
            RenamingLhs::Number(n) => p.push((n@, smart_text_spec(r.last().rhs@))),
            _ => p,
        }
    }
}

/// `RENAMING '<literal>' => '...'` pairs, replacement smartened.
pub open spec fn literal_renamings(r: Seq<FormatRenaming>) -> Seq<(Seq<char>, Seq<char>)>
    decreases r.len(),
{
    if r.len() == 0 {
        Seq::empty()
    } else {
        let p = literal_renamings(r.drop_last());
        match r.last().lhs {
            RenamingLhs::Literal(l) => p.push((l@, smart_text_spec(r.last().rhs@))),
            _ => p,
        }
    }
}

pub open spec fn smart_opt(o: Option<Seq<char>>) -> Option<Seq<char>> {
    match o {
        Some(s) => Some(smart_text_spec(s)),
        None => None,
    }
}

/// What one plain clause says, whichever columns it lists.
pub open spec fn clause_overrides(fc: FormatClause) -> Overrides {
    Overrides {
        width: last_string_setting(fc.settings@, "width"@),
        align: last_align_setting(fc.settings@),
        locale: last_string_setting(fc.settings@, "locale"@),
        template: last_renaming(fc.renamings@, 0),
        null_text: smart_opt(last_renaming(fc.renamings@, 1)),
        zero_text: smart_opt(last_renaming(fc.renamings@, 2)),
        numbers: number_renamings(fc.renamings@),
        literals: literal_renamings(fc.renamings@),
    }
}

pub open spec fn or_else<T>(a: Option<T>, b: Option<T>) -> Option<T> {
    match a {
        Some(x) => Some(x),
        None => b,
    }
}

/// A later clause's settings override an earlier one's; substitution
/// lists accumulate.
pub open spec fn merge(prev: Overrides, c: Overrides) -> Overrides {
    Overrides {
        width: or_else(c.width, prev.width),
        align: or_else(c.align, prev.align),
        locale: or_else(c.locale, prev.locale),
        template: or_else(c.template, prev.template),
        null_text: or_else(c.null_text, prev.null_text),
        zero_text: or_else(c.zero_text, prev.zero_text),
        numbers: prev.numbers + c.numbers,
        literals: prev.literals + c.literals,
    }
}

/// The column list holds the wildcard `*`.
pub open spec fn has_star(cols: Seq<Seq<char>>) -> bool {
    exists|j: int| 0 <= j < cols.len() && cols[j] == "*"@
}

/// A plain clause applies to column `n`: `FORMAT *` to every visible
/// column, otherwise to the columns it lists (ASCII-case-insensitively).
pub open spec fn clause_applies(fc: FormatClause, vis: Seq<Seq<char>>, n: Seq<char>) -> bool {
    fc.mode == FormatMode::Plain && if has_star(seqs(fc.columns@)) {
        exists|j: int| 0 <= j < vis.len() && eq_ic(#[trigger] vis[j], n)
    } else {
        exists|j: int| 0 <= j < fc.columns@.len() && eq_ic(#[trigger] fc.columns@[j]@, n)
    }
}

/// Everything the plain clauses say about column `n`.
pub open spec fn overrides_for(clauses: Seq<FormatClause>, vis: Seq<Seq<char>>, n: Seq<char>) -> Overrides
    decreases clauses.len(),
{
    if clauses.len() == 0 {
        no_overrides()
    } else {
        let p = overrides_for(clauses.drop_last(), vis, n);
        if clause_applies(clauses.last(), vis, n) {
            merge(p, clause_overrides(clauses.last()))
        } else {
            p
        }
    }
}

} // verus!

verus! {

// ============================================================================
// Finding columns by name
// ============================================================================

proof fn lemma_first_eq_ic(names: Seq<Seq<char>>, c: Seq<char>, i: int)
    requires
        0 <= i <= names.len(),
        forall|q: int| 0 <= q < i ==> !eq_ic(#[trigger] names[q], c),
    ensures
        i == names.len() ==> first_eq_ic(names, c) is None,
        i < names.len() && eq_ic(names[i], c) ==> first_eq_ic(names, c) == Some(i),
    decreases i,
{
    if i > 0 {
        let t = names.drop_first();
        assert forall|q: int| 0 <= q < i - 1 implies !eq_ic(#[trigger] t[q], c) by {
            assert(t[q] == names[q + 1]);
        }
        lemma_first_eq_ic(t, c, i - 1);
        assert(!eq_ic(names[0], c));
        if i < names.len() {
            assert(t[i - 1] == names[i]);
        }
    }
}

proof fn lemma_first_exact(names: Seq<Seq<char>>, c: Seq<char>, i: int)
    requires
        0 <= i <= names.len(),
        forall|q: int| 0 <= q < i ==> #[trigger] names[q] != c,
    ensures
        i == names.len() ==> first_exact(names, c) is None,
        i < names.len() && names[i] == c ==> first_exact(names, c) == Some(i),
    decreases i,
{
    if i > 0 {
        let t = names.drop_first();
        assert forall|q: int| 0 <= q < i - 1 implies #[trigger] t[q] != c by {
            assert(t[q] == names[q + 1]);
        }
        lemma_first_exact(t, c, i - 1);
        assert(names[0] != c);
        if i < names.len() {
            assert(t[i - 1] == names[i]);
        }
    }
}

/// Position of the first name equal to `c` up to ASCII case.
pub fn find_eq_ic(names: &Vec<String>, c: &str) -> (r: Option<usize>)
    ensures
        match first_eq_ic(seqs(names@), c@) {
            Some(i) => r is Some && r->0 == i && i < names@.len(),
            None => r is None,
        },
        r matches Some(i) ==> eq_ic(names@[i as int]@, c@),
        r is None ==> forall|k: int| 0 <= k < names@.len() ==> !eq_ic(#[trigger] names@[k]@, c@),
{
    let ghost s = seqs(names@);
    let mut i: usize = 0;
    while i < names.len()
        invariant
            i <= names@.len(),
            s == seqs(names@),
            forall|q: int| 0 <= q < i ==> !eq_ic(#[trigger] s[q], c@),
        decreases names.len() - i,
    {
        if eq_ignore_ascii_case(&names[i], c) {
            proof {
                assert(s[i as int] == names@[i as int]@);
                lemma_first_eq_ic(s, c@, i as int);
            }
            return Some(i);
        }
        proof {
            assert(s[i as int] == names@[i as int]@);
        }
        i += 1;
    }
    proof {
        lemma_first_eq_ic(s, c@, i as int);
        assert forall|k: int| 0 <= k < names@.len() implies !eq_ic(#[trigger] names@[k]@, c@) by {
            assert(s[k] == names@[k]@);
        }
    }
    None
}

/// Position of the first name equal to `c`.
pub fn find_exact(names: &Vec<String>, c: &str) -> (r: Option<usize>)
    ensures
        match first_exact(seqs(names@), c@) {
            Some(i) => r is Some && r->0 == i && i < names@.len(),
            None => r is None,
        },
        r matches Some(i) ==> names@[i as int]@ == c@,
        r is None ==> forall|k: int| 0 <= k < names@.len() ==> #[trigger] names@[k]@ != c@,
{
    let ghost s = seqs(names@);
    let mut i: usize = 0;
    while i < names.len()
        invariant
            i <= names@.len(),
            s == seqs(names@),
            forall|q: int| 0 <= q < i ==> #[trigger] s[q] != c@,
        decreases names.len() - i,
    {
        if str_eq(&names[i], c) {
            proof {
                assert(s[i as int] == names@[i as int]@);
                lemma_first_exact(s, c@, i as int);
            }
            return Some(i);
        }
        proof {
            assert(s[i as int] == names@[i as int]@);
        }
        i += 1;
    }
    proof {
        lemma_first_exact(s, c@, i as int);
        assert forall|k: int| 0 <= k < names@.len() implies #[trigger] names@[k]@ != c@ by {
            assert(s[k] == names@[k]@);
        }
    }
    None
}

/// A copy of each string.
pub fn clone_strings(v: &Vec<String>) -> (r: Vec<String>)
    ensures
        seqs(r@) == seqs(v@),
{
    let mut r: Vec<String> = Vec::new();
    let mut i: usize = 0;
    while i < v.len()
        invariant
            i <= v@.len(),
            r@.len() == i,
            forall|j: int| 0 <= j < i ==> #[trigger] r@[j]@ == v@[j]@,
        decreases v.len() - i,
    {
        r.push(owned(&v[i]));
        i += 1;
    }
    proof {
        assert(seqs(r@) =~= seqs(v@));
    }
    r
}

fn predicate_name(s: &str) -> (r: bool)
    ensures
        r == is_predicate_name(s@),
{
    let v = crate::text::chars_of(s);
    v.len() >= 5 && v[0] == '_' && v[1] == '_' && v[2] == 'h' && v[3] == 'l' && v[4] == '_'
}

/// The result's user-visible column names.
fn schema_name_list(batch: &Vec<BatchColumn>) -> (r: Vec<String>)
    ensures
        seqs(r@) == schema_names(batch_names(batch@)),
{
    let ghost all = batch_names(batch@);
    let mut r: Vec<String> = Vec::new();
    let mut i: usize = 0;
    proof {
        assert(all.take(0) =~= Seq::<Seq<char>>::empty());
        assert(seqs(r@) =~= Seq::<Seq<char>>::empty());
    }
    while i < batch.len()
        invariant
            i <= batch@.len(),
            all == batch_names(batch@),
            seqs(r@) == schema_names(all.take(i as int)),
        decreases batch.len() - i,
    {
        let ghost before = r@;
        proof {
            assert(all.take(i + 1).drop_last() =~= all.take(i as int));
            assert(all.take(i + 1).last() == batch@[i as int].name@);
        }
        if !predicate_name(&batch[i].name) {
            r.push(owned(&batch[i].name));
            proof {
                assert(seqs(r@) =~= seqs(before).push(batch@[i as int].name@));
            }
        }
        i += 1;
    }
    proof {
        assert(all.take(i as int) =~= all);
    }
    r
}

} // verus!

verus! {

// ============================================================================
// Visible columns
// ============================================================================

fn display_col_list(req: &Vec<String>, schema: &Vec<String>) -> (r: Vec<String>)
    ensures
        seqs(r@) == display_cols(seqs(req@), seqs(schema@)),
{
    if req.len() == 0 {
        return clone_strings(schema);
    }
    let ghost sn = seqs(schema@);
    let mut r: Vec<String> = Vec::new();
    let mut i: usize = 0;
    while i < req.len()
        invariant
            i <= req@.len(),
            sn == seqs(schema@),
            r@.len() == i,
            forall|j: int| 0 <= j < i ==> #[trigger] r@[j]@ == resolve_name(sn, req@[j]@),
        decreases req.len() - i,
    {
        match find_eq_ic(schema, &req[i]) {
            Some(j) => r.push(owned(&schema[j])),
            None => r.push(owned(&req[i])),
        }
        i += 1;
    }
    proof {
        assert(seqs(r@) =~= display_cols(seqs(req@), sn));
    }
    r
}

fn clause_hides_exec(fc: &FormatClause) -> (r: bool)
    ensures
        r == clause_hides(*fc),
{
    if fc.mode != FormatMode::Plain {
        return false;
    }
    let mut k: usize = 0;
    while k < fc.settings.len()
        invariant
            k <= fc.settings@.len(),
            fc.mode == FormatMode::Plain,
            forall|q: int|
                0 <= q < k ==> !(eq_ic(#[trigger] fc.settings@[q].key@, "hide"@)
                    && fc.settings@[q].value == SettingValue::Bool(true)),
        decreases fc.settings.len() - k,
    {
        let s = &fc.settings[k];
        if eq_ignore_ascii_case(&s.key, "hide") {
            if let SettingValue::Bool(true) = s.value {
                return true;
            }
        }
        k += 1;
    }
    false
}

fn is_hidden_exec(clauses: &Vec<FormatClause>, c: &str) -> (r: bool)
    ensures
        r == is_hidden(clauses@, c@),
{
    let mut i: usize = 0;
    while i < clauses.len()
        invariant
            i <= clauses@.len(),
            forall|p: int, j: int|
                0 <= p < i && clause_hides(#[trigger] clauses@[p]) && 0 <= j
                    < clauses@[p].columns@.len() ==> !eq_ic(#[trigger] clauses@[p].columns@[j]@, c@),
        decreases clauses.len() - i,
    {
        let fc = &clauses[i];
        if clause_hides_exec(fc) {
            let mut j: usize = 0;
            while j < fc.columns.len()
                invariant
                    j <= fc.columns@.len(),
                    i < clauses@.len(),
                    *fc == clauses@[i as int],
                    clause_hides(*fc),
                    forall|q: int| 0 <= q < j ==> !eq_ic(#[trigger] fc.columns@[q]@, c@),
                decreases fc.columns.len() - j,
            {
                if eq_ignore_ascii_case(&fc.columns[j], c) {
                    proof {
                        assert(clause_hides(clauses@[i as int]));
                        assert(eq_ic(clauses@[i as int].columns@[j as int]@, c@));
                    }
                    return true;
                }
                j += 1;
            }
        }
        i += 1;
    }
    false
}

fn shown_list(stmt: &TabulateStmt, d: &Vec<String>) -> (r: Vec<String>)
    ensures
        seqs(r@) == shown(*stmt, seqs(d@)),
{
    let ghost ds = seqs(d@);
    let mut r: Vec<String> = Vec::new();
    let mut i: usize = 0;
    proof {
        assert(ds.take(0) =~= Seq::<Seq<char>>::empty());
        assert(seqs(r@) =~= Seq::<Seq<char>>::empty());
    }
    while i < d.len()
        invariant
            i <= d@.len(),
            ds == seqs(d@),
            seqs(r@) == shown(*stmt, ds.take(i as int)),
        decreases d.len() - i,
    {
        let ghost before = r@;
        proof {
            assert(ds.take(i + 1).drop_last() =~= ds.take(i as int));
            assert(ds.take(i + 1).last() == d@[i as int]@);
        }
        let c = &d[i];
        let hidden = is_hidden_exec(&stmt.format_clauses, c);
        let grouped = match &stmt.facet {
            Some(f) => eq_ignore_ascii_case(&f.group_col, c),
            None => false,
        };
        if !hidden && !grouped {
            r.push(owned(c));
            proof {
                assert(seqs(r@) =~= seqs(before).push(c@));
            }
        }
        i += 1;
    }
    proof {
        assert(ds.take(i as int) =~= ds);
    }
    r
}

proof fn lemma_first_stub(clauses: Seq<FormatClause>, i: int)
    requires
        0 <= i <= clauses.len(),
        forall|q: int| 0 <= q < i ==> (#[trigger] clauses[q]).mode != FormatMode::Stub,
    ensures
        i == clauses.len() ==> first_stub(clauses) is None,
        i < clauses.len() && clauses[i].mode == FormatMode::Stub ==> first_stub(clauses) == Some(
            clauses[i],
        ),
    decreases i,
{
    if i > 0 {
        let t = clauses.drop_first();
        assert forall|q: int| 0 <= q < i - 1 implies (#[trigger] t[q]).mode != FormatMode::Stub by {
            assert(t[q] == clauses[q + 1]);
        }
        lemma_first_stub(t, i - 1);
        assert(clauses[0].mode != FormatMode::Stub);
        if i < clauses.len() {
            assert(t[i - 1] == clauses[i]);
        }
    }
}

/// The stub column and its span id, from the first `FORMAT STUB` clause.
fn stub_info_exec(clauses: &Vec<FormatClause>) -> (r: Option<(String, Option<String>)>)
    ensures
        match stub_info(clauses@) {
            Some((n, sid)) => r matches Some((rn, rs)) && rn@ == n && match sid {
                Some(x) => rs matches Some(y) && y@ == x,
                None => rs is None,
            },
            None => r is None,
        },
{
    let mut i: usize = 0;
    while i < clauses.len()
        invariant
            i <= clauses@.len(),
            forall|q: int| 0 <= q < i ==> (#[trigger] clauses@[q]).mode != FormatMode::Stub,
        decreases clauses.len() - i,
    {
        let fc = &clauses[i];
        if fc.mode == FormatMode::Stub {
            proof {
                lemma_first_stub(clauses@, i as int);
            }
            if fc.columns.len() == 0 {
                return None;
            }
            let sid = match &fc.span_id {
                Some(s) => Some(owned(s)),
                None => None,
            };
            return Some((owned(&fc.columns[0]), sid));
        }
        i += 1;
    }
    proof {
        lemma_first_stub(clauses@, i as int);
    }
    None
}

fn stub_first_list(v: Vec<String>, stub: &Option<(String, Option<String>)>) -> (r: Vec<String>)
    ensures
        seqs(r@) == stub_first(
            seqs(v@),
            match stub {
                Some((n, sid)) => Some(
                    (
                        n@,
                        match sid {
                            Some(x) => Some(x@),
                            None => None,
                        },
                    ),
                ),
                None => None,
            },
        ),
{
    let ghost vs = seqs(v@);
    match stub {
        None => v,
        Some((name, _)) => match find_eq_ic(&v, name) {
            None => v,
            Some(p) => {
                if p == 0 {
                    return v;
                }
                let mut r: Vec<String> = Vec::new();
                r.push(owned(&v[p]));
                let mut i: usize = 0;
                while i < v.len()
                    invariant
                        i <= v@.len(),
                        0 < p < v@.len(),
                        vs == seqs(v@),
                        seqs(r@) == seq![vs[p as int]] + if i <= p {
                            vs.take(i as int)
                        } else {
                            vs.take(i as int).remove(p as int)
                        },
                    decreases v.len() - i,
                {
                    let ghost before = r@;
                    if i != p {
                        r.push(owned(&v[i]));
                        proof {
                            assert(seqs(r@) =~= seqs(before).push(vs[i as int]));
                            if i < p {
                                assert(vs.take(i + 1) =~= vs.take(i as int).push(vs[i as int]));
                            } else {
                                assert(vs.take(i + 1).remove(p as int) =~= vs.take(i as int).remove(
                                    p as int,
                                ).push(vs[i as int]));
                            }
                        }
                    } else {
                        proof {
                            assert(vs.take(i + 1).remove(p as int) =~= vs.take(i as int));
                        }
                    }
                    i += 1;
                }
                proof {
                    assert(vs.take(i as int) =~= vs);
                }
                r
            },
        },
    }
}

} // verus!

verus! {

// ============================================================================
// Overrides, computed
// ============================================================================

pub open spec fn opt_str(o: Option<String>) -> Option<Seq<char>> {
    match o {
        Some(s) => Some(s@),
        None => None,
    }
}

pub open spec fn pair_seqs(v: Seq<(String, String)>) -> Seq<(Seq<char>, Seq<char>)> {
    v.map_values(|p: (String, String)| (p.0@, p.1@))
}

/// [`Overrides`], as values.
pub struct ColumnOverrides {
    pub width: Option<String>,
    pub align: Option<ColAlign>,
    pub locale: Option<String>,
    pub template: Option<String>,
    pub null_text: Option<String>,
    pub zero_text: Option<String>,
    pub numbers: Vec<(String, String)>,
    pub literals: Vec<(String, String)>,
}

pub open spec fn ov_view(o: ColumnOverrides) -> Overrides {
    Overrides {
        width: opt_str(o.width),
        align: o.align,
        locale: opt_str(o.locale),
        template: opt_str(o.template),
        null_text: opt_str(o.null_text),
        zero_text: opt_str(o.zero_text),
        numbers: pair_seqs(o.numbers@),
        literals: pair_seqs(o.literals@),
    }
}

pub fn clone_opt(o: &Option<String>) -> (r: Option<String>)
    ensures
        opt_str(r) == opt_str(*o),
{
    match o {
        Some(s) => Some(owned(s)),
        None => None,
    }
}

fn clone_pairs(v: &Vec<(String, String)>) -> (r: Vec<(String, String)>)
    ensures
        pair_seqs(r@) == pair_seqs(v@),
{
    let mut r: Vec<(String, String)> = Vec::new();
    let mut i: usize = 0;
    while i < v.len()
        invariant
            i <= v@.len(),
            r@.len() == i,
            forall|j: int| 0 <= j < i ==> #[trigger] r@[j].0@ == v@[j].0@ && r@[j].1@ == v@[j].1@,
        decreases v.len() - i,
    {
        r.push((owned(&v[i].0), owned(&v[i].1)));
        i += 1;
    }
    proof {
        assert(pair_seqs(r@) =~= pair_seqs(v@));
    }
    r
}

fn last_string_setting_exec(s: &Vec<FormatSetting>, key: &str) -> (r: Option<String>)
    ensures
        opt_str(r) == last_string_setting(s@, key@),
{
    let mut i = s.len();
    proof {
        assert(s@.take(i as int) =~= s@);
    }
    while i > 0
        invariant
            i <= s@.len(),
            last_string_setting(s@, key@) == last_string_setting(s@.take(i as int), key@),
        decreases i,
    {
        proof {
            let t = s@.take(i as int);
            assert(t.drop_last() =~= s@.take(i - 1));
            assert(t.last() == s@[i - 1]);
        }
        let st = &s[i - 1];
        if eq_ignore_ascii_case(&st.key, key) {
            if let SettingValue::String(v) = &st.value {
                return Some(owned(v));
            }
        }
        i -= 1;
    }
    None
}

fn align_of_exec(v: &str) -> (r: Option<ColAlign>)
    ensures
        r == align_of(v@),
{
    let l = to_ascii_lowercase(v);
    proof {
        reveal_strlit("left");
        reveal_strlit("right");
        reveal_strlit("center");
    }
    if str_eq(&l, "left") {
        Some(ColAlign::Left)
    } else if str_eq(&l, "right") {
        Some(ColAlign::Right)
    } else if str_eq(&l, "center") {
        Some(ColAlign::Center)
    } else {
        None
    }
}

fn last_align_setting_exec(s: &Vec<FormatSetting>) -> (r: Option<ColAlign>)
    ensures
        r == last_align_setting(s@),
{
    let mut i = s.len();
    proof {
        assert(s@.take(i as int) =~= s@);
    }
    while i > 0
        invariant
            i <= s@.len(),
            last_align_setting(s@) == last_align_setting(s@.take(i as int)),
        decreases i,
    {
        proof {
            let t = s@.take(i as int);
            assert(t.drop_last() =~= s@.take(i - 1));
            assert(t.last() == s@[i - 1]);
        }
        let st = &s[i - 1];
        if eq_ignore_ascii_case(&st.key, "align") {
            if let SettingValue::String(v) = &st.value {
                let a = align_of_exec(v);
                if a.is_some() {
                    return a;
                }
            }
        }
        i -= 1;
    }
    None
}

fn last_renaming_exec(r: &Vec<FormatRenaming>, kind: u8) -> (o: Option<String>)
    requires
        kind <= 2,
    ensures
        opt_str(o) == last_renaming(r@, kind as int),
{
    let mut i = r.len();
    proof {
        assert(r@.take(i as int) =~= r@);
    }
    while i > 0
        invariant
            i <= r@.len(),
            last_renaming(r@, kind as int) == last_renaming(r@.take(i as int), kind as int),
        decreases i,
    {
        proof {
            let t = r@.take(i as int);
            assert(t.drop_last() =~= r@.take(i - 1));
            assert(t.last() == r@[i - 1]);
        }
        let x = &r[i - 1];
        let hit = match x.lhs {
            RenamingLhs::Wildcard => kind == 0,
            RenamingLhs::Null => kind == 1,
            RenamingLhs::Zero => kind == 2,
            _ => false,
        };
        if hit {
            return Some(owned(&x.rhs));
        }
        i -= 1;
    }
    None
}

/// `RENAMING <number>` pairs (`numbers`) or `RENAMING '<literal>'` pairs.
fn value_renamings_exec(r: &Vec<FormatRenaming>, numbers: bool) -> (o: Vec<(String, String)>)
    ensures
        pair_seqs(o@) == if numbers {
            number_renamings(r@)
        } else {
            literal_renamings(r@)
        },
{
    let mut o: Vec<(String, String)> = Vec::new();
    let mut i: usize = 0;
    proof {
        assert(r@.take(0) =~= Seq::<FormatRenaming>::empty());
        assert(pair_seqs(o@) =~= Seq::<(Seq<char>, Seq<char>)>::empty());
    }
    while i < r.len()
        invariant
            i <= r@.len(),
            pair_seqs(o@) == if numbers {
                number_renamings(r@.take(i as int))
            } else {
                literal_renamings(r@.take(i as int))
            },
        decreases r.len() - i,
    {
        proof {
            let t = r@.take(i + 1);
            assert(t.drop_last() =~= r@.take(i as int));
            assert(t.last() == r@[i as int]);
        }
        let ghost before = o@;
        let x = &r[i];
        match &x.lhs {
            RenamingLhs::Number(n) => {
                if numbers {
                    o.push((owned(n), smart_text(&x.rhs)));
                    proof {
                        assert(pair_seqs(o@) =~= pair_seqs(before).push(
                            (n@, smart_text_spec(x.rhs@)),
                        ));
                    }
                }
            },
            RenamingLhs::Literal(l) => {
                if !numbers {
                    o.push((owned(l), smart_text(&x.rhs)));
                    proof {
                        assert(pair_seqs(o@) =~= pair_seqs(before).push(
                            (l@, smart_text_spec(x.rhs@)),
                        ));
                    }
                }
            },
            _ => {},
        }
        i += 1;
    }
    proof {
        assert(r@.take(i as int) =~= r@);
    }
    o
}

fn smart_opt_exec(o: Option<String>) -> (r: Option<String>)
    ensures
        opt_str(r) == smart_opt(opt_str(o)),
{
    match o {
        Some(s) => Some(smart_text(&s)),
        None => None,
    }
}

fn clause_overrides_exec(fc: &FormatClause) -> (r: ColumnOverrides)
    ensures
        ov_view(r) == clause_overrides(*fc),
{
    ColumnOverrides {
        width: last_string_setting_exec(&fc.settings, "width"),
        align: last_align_setting_exec(&fc.settings),
        locale: last_string_setting_exec(&fc.settings, "locale"),
        template: last_renaming_exec(&fc.renamings, 0),
        null_text: smart_opt_exec(last_renaming_exec(&fc.renamings, 1)),
        zero_text: smart_opt_exec(last_renaming_exec(&fc.renamings, 2)),
        numbers: value_renamings_exec(&fc.renamings, true),
        literals: value_renamings_exec(&fc.renamings, false),
    }
}

fn pick(a: Option<String>, b: Option<String>) -> (r: Option<String>)
    ensures
        opt_str(r) == or_else(opt_str(a), opt_str(b)),
{
    match a {
        Some(x) => Some(x),
        None => b,
    }
}

fn append_pairs(a: &mut Vec<(String, String)>, b: &Vec<(String, String)>)
    ensures
        pair_seqs(final(a)@) == pair_seqs(old(a)@) + pair_seqs(b@),
{
    let mut i: usize = 0;
    let ghost start = pair_seqs(a@);
    while i < b.len()
        invariant
            i <= b@.len(),
            pair_seqs(a@) == start + pair_seqs(b@).take(i as int),
        decreases b.len() - i,
    {
        let ghost before = a@;
        a.push((owned(&b[i].0), owned(&b[i].1)));
        proof {
            assert(pair_seqs(a@) =~= pair_seqs(before).push((b@[i as int].0@, b@[i as int].1@)));
            assert(pair_seqs(b@).take(i + 1) =~= pair_seqs(b@).take(i as int).push(
                (b@[i as int].0@, b@[i as int].1@),
            ));
        }
        i += 1;
    }
    proof {
        assert(pair_seqs(b@).take(i as int) =~= pair_seqs(b@));
    }
}

fn merge_exec(prev: ColumnOverrides, c: ColumnOverrides) -> (r: ColumnOverrides)
    ensures
        ov_view(r) == merge(ov_view(prev), ov_view(c)),
{
    let mut numbers = prev.numbers;
    append_pairs(&mut numbers, &c.numbers);
    let mut literals = prev.literals;
    append_pairs(&mut literals, &c.literals);
    ColumnOverrides {
        width: pick(c.width, prev.width),
        align: match c.align {
            Some(a) => Some(a),
            None => prev.align,
        },
        locale: pick(c.locale, prev.locale),
        template: pick(c.template, prev.template),
        null_text: pick(c.null_text, prev.null_text),
        zero_text: pick(c.zero_text, prev.zero_text),
        numbers,
        literals,
    }
}

fn clause_applies_exec(fc: &FormatClause, vis: &Vec<String>, n: &str) -> (r: bool)
    ensures
        r == clause_applies(*fc, seqs(vis@), n@),
{
    if fc.mode != FormatMode::Plain {
        return false;
    }
    let ghost cs = seqs(fc.columns@);
    let mut star = false;
    let mut j: usize = 0;
    while j < fc.columns.len()
        invariant
            j <= fc.columns@.len(),
            cs == seqs(fc.columns@),
            star == exists|q: int| 0 <= q < j && cs[q] == "*"@,
        decreases fc.columns.len() - j,
    {
        if str_eq(&fc.columns[j], "*") {
            proof {
                assert(cs[j as int] == "*"@);
            }
            star = true;
        }
        proof {
            assert(cs[j as int] == fc.columns@[j as int]@);
        }
        j += 1;
    }
    let list = if star {
        vis
    } else {
        &fc.columns
    };
    let found = find_eq_ic(list, n);
    proof {
        let ls = seqs(list@);
        match first_eq_ic(ls, n@) {
            Some(k) => {
                assert(eq_ic(ls[k], n@)) by {
                    lemma_first_eq_ic_found(ls, n@);
                }
                assert(ls[k] == list@[k]@);
            },
            None => {
                lemma_first_eq_ic_none(ls, n@);
                assert forall|k: int| 0 <= k < list@.len() implies !eq_ic(#[trigger] list@[k]@, n@) by {
                    assert(ls[k] == list@[k]@);
                }
            },
        }
    }
    found.is_some()
}

proof fn lemma_first_eq_ic_found(names: Seq<Seq<char>>, c: Seq<char>)
    ensures
        first_eq_ic(names, c) matches Some(k) ==> 0 <= k < names.len() && eq_ic(names[k], c),
    decreases names.len(),
{
    if names.len() > 0 && !eq_ic(names[0], c) {
        lemma_first_eq_ic_found(names.drop_first(), c);
        if let Some(k) = first_eq_ic(names.drop_first(), c) {
            assert(names.drop_first()[k] == names[k + 1]);
        }
    }
}

proof fn lemma_first_eq_ic_none(names: Seq<Seq<char>>, c: Seq<char>)
    ensures
        first_eq_ic(names, c) is None ==> forall|k: int| 0 <= k < names.len() ==> !eq_ic(#[trigger] names[k], c),
    decreases names.len(),
{
    if names.len() > 0 && !eq_ic(names[0], c) {
        lemma_first_eq_ic_none(names.drop_first(), c);
        if first_eq_ic(names, c) is None {
            assert forall|k: int| 0 <= k < names.len() implies !eq_ic(#[trigger] names[k], c) by {
                if k > 0 {
                    assert(names[k] == names.drop_first()[k - 1]);
                }
            }
        }
    }
}

fn no_overrides_exec() -> (r: ColumnOverrides)
    ensures
        ov_view(r) == no_overrides(),
{
    let r = ColumnOverrides {
        width: None,
        align: None,
        locale: None,
        template: None,
        null_text: None,
        zero_text: None,
        numbers: Vec::new(),
        literals: Vec::new(),
    };
    proof {
        assert(pair_seqs(r.numbers@) =~= Seq::<(Seq<char>, Seq<char>)>::empty());
        assert(pair_seqs(r.literals@) =~= Seq::<(Seq<char>, Seq<char>)>::empty());
    }
    r
}

/// Everything the plain clauses say about the column named `n`.
pub fn overrides_for_exec(clauses: &Vec<FormatClause>, vis: &Vec<String>, n: &str) -> (r: ColumnOverrides)
    ensures
        ov_view(r) == overrides_for(clauses@, seqs(vis@), n@),
{
    let mut acc = no_overrides_exec();
    let mut i: usize = 0;
    proof {
        assert(clauses@.take(0) =~= Seq::<FormatClause>::empty());
    }
    while i < clauses.len()
        invariant
            i <= clauses@.len(),
            ov_view(acc) == overrides_for(clauses@.take(i as int), seqs(vis@), n@),
        decreases clauses.len() - i,
    {
        proof {
            let t = clauses@.take(i + 1);
            assert(t.drop_last() =~= clauses@.take(i as int));
            assert(t.last() == clauses@[i as int]);
        }
        let fc = &clauses[i];
        if clause_applies_exec(fc, vis, n) {
            let c = clause_overrides_exec(fc);
            acc = merge_exec(acc, c);
        }
        i += 1;
    }
    proof {
        assert(clauses@.take(i as int) =~= clauses@);
    }
    acc
}

} // verus!

verus! {

// ============================================================================
// Formatters and column metadata
// ============================================================================

/// What a column's cells are formatted with.
pub enum FormatterModel {
    /// `{:num ...}`: prefix, conversion, suffix.
    Num(Seq<char>, NumSpec, Seq<char>),
    /// `{:time ...}`: prefix, strftime pattern, suffix, month/day-name language.
    Time(Seq<char>, Seq<char>, Seq<char>, Lang),
    /// `{}`, `{:upper}`, ...: prefix, transform, suffix.
    Str(Seq<char>, StringTransform, Seq<char>),
    /// gt's automatic number formatting (64-bit float columns).
    Auto,
    /// The value as it reads.
    Plain,
}

/// The formatter a `RENAMING * => '<rhs>'` template selects.
pub open spec fn template_model(rhs: Seq<char>, loc: Option<Seq<char>>) -> Option<FormatterModel> {
    match num_format_spec(rhs) {
        Some((p, ns, s)) => Some(FormatterModel::Num(p, ns, s)),
        None => match time_format_spec(rhs) {
            Some((p, f, s)) => Some(FormatterModel::Time(p, f, s, lang_of(loc))),
            None => match string_format_spec(rhs) {
                Some((p, k, s)) => Some(FormatterModel::Str(p, k, s)),
                None => None,
            },
        },
    }
}

/// A template that parses wins; otherwise float columns get the automatic
/// formatter and other columns none.
pub open spec fn formatter_model(ov: Overrides, is_float64: bool) -> FormatterModel {
    let fallback = if is_float64 {
        FormatterModel::Auto
    } else {
        FormatterModel::Plain
    };
    match ov.template {
        Some(t) => match template_model(t, ov.locale) {
            Some(m) => m,
            None => fallback,
        },
        None => fallback,
    }
}

/// A column's formatter.
pub enum ColumnFormatter {
    Num(NumFormat),
    Time(TimeFormat),
    Str(StringFormat),
    Auto,
    Plain,
}

pub open spec fn formatter_view(f: ColumnFormatter) -> FormatterModel {
    match f {
        ColumnFormatter::Num(n) => FormatterModel::Num(n.prefix@, n.spec, n.suffix@),
        ColumnFormatter::Time(t) => FormatterModel::Time(t.prefix@, t.fmt@, t.suffix@, t.lang),
        ColumnFormatter::Str(s) => FormatterModel::Str(s.prefix@, s.kind, s.suffix@),
        ColumnFormatter::Auto => FormatterModel::Auto,
        ColumnFormatter::Plain => FormatterModel::Plain,
    }
}

/// Position of the column named `n` in the result.
pub open spec fn batch_index(batch: Seq<BatchColumn>, n: Seq<char>) -> Option<int> {
    first_exact(batch_names(batch), n)
}

pub open spec fn orig_names(orig: Seq<(String, ColumnType)>) -> Seq<Seq<char>> {
    orig.map_values(|p: (String, ColumnType)| p.0@)
}

/// The column's type in the source schema, when the source has it.
pub open spec fn orig_type(orig: Seq<(String, ColumnType)>, n: Seq<char>) -> Option<ColumnType> {
    match first_exact(orig_names(orig), n) {
        Some(k) => Some(orig[k].1),
        None => None,
    }
}

/// gt's automatic alignment for the column named `n`.
pub open spec fn auto_align(batch: Seq<BatchColumn>, orig: Seq<(String, ColumnType)>, n: Seq<char>) -> ColAlign {
    match batch_index(batch, n) {
        Some(i) => alignment_spec(orig_type(orig, n), Some(batch[i].batch_type), batch[i].strings@),
        None => alignment_spec(orig_type(orig, n), None, Seq::empty()),
    }
}

/// The formatter of the column named `n` (none for a column the result
/// lacks).
pub open spec fn column_formatter(
    stmt: TabulateStmt,
    batch: Seq<BatchColumn>,
    vis: Seq<Seq<char>>,
    n: Seq<char>,
) -> FormatterModel {
    match batch_index(batch, n) {
        Some(i) => formatter_model(overrides_for(stmt.format_clauses@, vis, n), batch[i].is_float64),
        None => FormatterModel::Plain,
    }
}

/// A column's metadata, as values.
pub struct MetaModel {
    pub name: Seq<char>,
    pub label: Seq<char>,
    pub user: bool,
    pub align: ColAlign,
    pub width: Option<Seq<char>>,
    pub raw: bool,
}

pub open spec fn meta_view(c: ColMeta) -> MetaModel {
    MetaModel {
        name: c.name@,
        label: c.label@,
        user: c.label_is_user,
        align: c.align,
        width: opt_str(c.width),
        raw: c.raw_html,
    }
}

/// Time-formatted columns align right; scientific numbers are HTML.
pub open spec fn adjusted(m: MetaModel, f: FormatterModel) -> MetaModel {
    match f {
        FormatterModel::Num(_, ns, _) => MetaModel { raw: ns.conv == 'e', ..m },
        FormatterModel::Time(..) => MetaModel { align: ColAlign::Right, ..m },
        _ => m,
    }
}

/// `n` is the stub column.
pub open spec fn is_stub_col(stmt: TabulateStmt, n: Seq<char>) -> bool {
    stub_info(stmt.format_clauses@) matches Some((s, _)) && eq_ic(s, n)
}

/// A column's header text and whether a LABEL gave it: the label of its
/// own name, else empty for the stub and the name otherwise; a stub with
/// `AS <id>` takes the label of `<id>` when there is one.
pub open spec fn label_of(stmt: TabulateStmt, n: Seq<char>) -> (Seq<char>, bool) {
    let renames = label_renames(stmt.label);
    let own = match label_lookup(renames, lower_seq(n)) {
        Some(l) => (l, true),
        None => (
            if is_stub_col(stmt, n) {
                Seq::empty()
            } else {
                n
            },
            false,
        ),
    };
    match stub_info(stmt.format_clauses@) {
        Some((s, Some(sid))) => if eq_ic(s, n) {
            match label_lookup(renames, lower_seq(sid)) {
                Some(l) => (l, true),
                None => own,
            }
        } else {
            own
        },
        _ => own,
    }
}

/// Metadata of the visible data column named `n`.
pub open spec fn data_meta(
    stmt: TabulateStmt,
    batch: Seq<BatchColumn>,
    orig: Seq<(String, ColumnType)>,
    vis: Seq<Seq<char>>,
    n: Seq<char>,
) -> MetaModel {
    let ov = overrides_for(stmt.format_clauses@, vis, n);
    let base = MetaModel {
        name: n,
        label: label_of(stmt, n).0,
        user: label_of(stmt, n).1,
        align: match ov.align {
            Some(a) => a,
            None => auto_align(batch, orig, n),
        },
        width: ov.width,
        raw: false,
    };
    adjusted(base, column_formatter(stmt, batch, vis, n))
}

/// The empty stub column a FACET without `FORMAT STUB` gets.
pub open spec fn synthetic_meta(stmt: TabulateStmt, batch: Seq<BatchColumn>, vis: Seq<Seq<char>>) -> MetaModel {
    adjusted(
        MetaModel {
            name: Seq::empty(),
            label: Seq::empty(),
            user: false,
            align: ColAlign::Left,
            width: None,
            raw: false,
        },
        column_formatter(stmt, batch, vis, Seq::empty()),
    )
}

/// What turns the cells of the visible column named `n` into text.
pub struct RulesModel {
    pub source: Option<int>,
    pub literals: Seq<(Seq<char>, Seq<char>)>,
    pub numbers: Seq<(Seq<char>, Seq<char>)>,
    pub null_text: Option<Seq<char>>,
    pub zero_text: Option<Seq<char>>,
    pub formatter: FormatterModel,
}

pub open spec fn rules_model(stmt: TabulateStmt, batch: Seq<BatchColumn>, vis: Seq<Seq<char>>, n: Seq<char>) -> RulesModel {
    let ov = overrides_for(stmt.format_clauses@, vis, n);
    RulesModel {
        source: batch_index(batch, n),
        literals: ov.literals,
        numbers: ov.numbers,
        null_text: ov.null_text,
        zero_text: ov.zero_text,
        formatter: column_formatter(stmt, batch, vis, n),
    }
}

/// The cell rules of one visible column.
pub struct CellRules {
    /// Position of the column in the result; `None` when the result lacks it.
    pub source: Option<usize>,
    /// `RENAMING '<literal>' => '...'`, first match wins.
    pub literals: Vec<(String, String)>,
    /// `RENAMING <number> => '...'`, first match wins.
    pub numbers: Vec<(String, String)>,
    /// `RENAMING null => '...'`.
    pub null_text: Option<String>,
    /// `RENAMING 0 => '...'`.
    pub zero_text: Option<String>,
    pub formatter: ColumnFormatter,
}

pub open spec fn rules_view(r: CellRules) -> RulesModel {
    RulesModel {
        source: match r.source {
            Some(i) => Some(i as int),
            None => None,
        },
        literals: pair_seqs(r.literals@),
        numbers: pair_seqs(r.numbers@),
        null_text: opt_str(r.null_text),
        zero_text: opt_str(r.zero_text),
        formatter: formatter_view(r.formatter),
    }
}

/// The formatter a template selects, with the column's locale.
fn template_formatter(rhs: &str, loc: &Option<String>) -> (r: Option<ColumnFormatter>)
    ensures
        match template_model(rhs@, opt_str(*loc)) {
            Some(m) => r matches Some(f) && formatter_view(f) == m,
            None => r is None,
        },
{
    let l = match loc {
        Some(s) => Some(s.as_str()),
        None => None,
    };
    match build_format(rhs, l) {
        Some((CellFmt::Numeric(f), _)) => Some(ColumnFormatter::Num(f)),
        Some((CellFmt::Time(f), _)) => Some(ColumnFormatter::Time(f)),
        Some((CellFmt::Str(f), _)) => Some(ColumnFormatter::Str(f)),
        None => None,
    }
}

fn batch_name_list(batch: &Vec<BatchColumn>) -> (r: Vec<String>)
    ensures
        seqs(r@) == batch_names(batch@),
{
    let mut r: Vec<String> = Vec::new();
    let mut i: usize = 0;
    while i < batch.len()
        invariant
            i <= batch@.len(),
            r@.len() == i,
            forall|j: int| 0 <= j < i ==> #[trigger] r@[j]@ == batch@[j].name@,
        decreases batch.len() - i,
    {
        r.push(owned(&batch[i].name));
        i += 1;
    }
    proof {
        assert(seqs(r@) =~= batch_names(batch@));
    }
    r
}

fn orig_type_exec(orig: &Vec<(String, ColumnType)>, n: &str) -> (r: Option<ColumnType>)
    ensures
        r == orig_type(orig@, n@),
{
    let mut names: Vec<String> = Vec::new();
    let mut i: usize = 0;
    while i < orig.len()
        invariant
            i <= orig@.len(),
            names@.len() == i,
            forall|j: int| 0 <= j < i ==> #[trigger] names@[j]@ == orig@[j].0@,
        decreases orig.len() - i,
    {
        names.push(owned(&orig[i].0));
        i += 1;
    }
    proof {
        assert(seqs(names@) =~= orig_names(orig@));
    }
    match find_exact(&names, n) {
        Some(k) => Some(orig[k].1),
        None => None,
    }
}

fn formatter_for(
    ov: &ColumnOverrides,
    batch: &Vec<BatchColumn>,
    names: &Vec<String>,
    n: &str,
) -> (r: ColumnFormatter)
    requires
        seqs(names@) == batch_names(batch@),
    ensures
        formatter_view(r) == match batch_index(batch@, n@) {
            Some(i) => formatter_model(ov_view(*ov), batch@[i].is_float64),
            None => FormatterModel::Plain,
        },
{
    match find_exact(names, n) {
        None => ColumnFormatter::Plain,
        Some(i) => {
            let fallback = if batch[i].is_float64 {
                ColumnFormatter::Auto
            } else {
                ColumnFormatter::Plain
            };
            match &ov.template {
                Some(t) => match template_formatter(t, &ov.locale) {
                    Some(f) => f,
                    None => fallback,
                },
                None => fallback,
            }
        },
    }
}

fn adjust_meta(m: &mut ColMeta, f: &ColumnFormatter)
    ensures
        meta_view(*final(m)) == adjusted(meta_view(*old(m)), formatter_view(*f)),
{
    match f {
        ColumnFormatter::Num(nf) => {
            m.raw_html = nf.spec.conv == 'e';
        },
        ColumnFormatter::Time(_) => {
            m.align = ColAlign::Right;
        },
        _ => {},
    }
}

fn label_for(stmt: &TabulateStmt, stub: &Option<(String, Option<String>)>, n: &str) -> (r: (String, bool))
    requires
        match stub_info(stmt.format_clauses@) {
            Some((s, sid)) => *stub matches Some((rn, rs)) && rn@ == s && opt_str(rs) == sid,
            None => stub is None,
        },
    ensures
        r.0@ == label_of(*stmt, n@).0,
        r.1 == label_of(*stmt, n@).1,
{
    let empty: Vec<(String, String)> = Vec::new();
    let renames = match &stmt.label {
        Some(l) => &l.renames,
        None => &empty,
    };
    let is_stub = match stub {
        Some((s, _)) => eq_ignore_ascii_case(s, n),
        None => false,
    };
    let key = to_ascii_lowercase(n);
    let own = match lookup_label(renames, &key) {
        Some(l) => (owned(l), true),
        None => (
            if is_stub {
                String::new()
            } else {
                owned(n)
            },
            false,
        ),
    };
    match stub {
        Some((s, Some(sid))) => {
            if eq_ignore_ascii_case(s, n) {
                let k2 = to_ascii_lowercase(sid);
                match lookup_label(renames, &k2) {
                    Some(l) => (owned(l), true),
                    None => own,
                }
            } else {
                own
            }
        },
        _ => own,
    }
}

} // verus!

verus! {

// ============================================================================
// The plan
// ============================================================================

/// Why a TABULATE statement cannot be laid out over its data.
#[derive(Debug, PartialEq, Eq)]
pub enum TableError {
    /// A `FORMAT SPAN ... AS <id>` whose id is a column's name.
    SpannerCollides(String),
    /// Two `FORMAT SPAN` clauses with the same id.
    DuplicateSpanner(String),
    /// A FACET `groups => [...]` entry that is no value of the grouping column.
    UnknownFacetGroup { group: String, column: String },
}

impl TableError {
    /// The error's text.
    pub fn message(&self) -> (r: String)
        ensures
            r@ == match *self {
                TableError::SpannerCollides(id) => "spanner ID '"@ + id@ + "' collides with column '"@
                    + id@ + "'"@,
                TableError::DuplicateSpanner(id) => "duplicate spanner ID '"@ + id@ + "'"@,
                TableError::UnknownFacetGroup { group, column } => "FACET groups: '"@ + group@
                    + "' is not a value of grouping column '"@ + column@ + "'"@,
            },
    {
        let mut out = String::new();
        match self {
            TableError::SpannerCollides(id) => {
                out.push_str("spanner ID '");
                out.push_str(id);
                out.push_str("' collides with column '");
                out.push_str(id);
                out.push_str("'");
            },
            TableError::DuplicateSpanner(id) => {
                out.push_str("duplicate spanner ID '");
                out.push_str(id);
                out.push_str("'");
            },
            TableError::UnknownFacetGroup { group, column } => {
                out.push_str("FACET groups: '");
                out.push_str(group);
                out.push_str("' is not a value of grouping column '");
                out.push_str(column);
                out.push_str("'");
            },
        }
        proof {
            assert(Seq::<char>::empty() + "spanner ID '"@ =~= "spanner ID '"@);
            assert(Seq::<char>::empty() + "duplicate spanner ID '"@ =~= "duplicate spanner ID '"@);
            assert(Seq::<char>::empty() + "FACET groups: '"@ =~= "FACET groups: '"@);
        }
        out
    }
}

/// The first offending `FORMAT SPAN ... AS <id>`: `(true, id)` when the id
/// names a column, `(false, id)` when an earlier span used it.
pub open spec fn span_check(clauses: Seq<FormatClause>, names: Seq<Seq<char>>, seen: Seq<Seq<char>>) -> Option<
    (bool, Seq<char>),
>
    decreases clauses.len(),
{
    if clauses.len() == 0 {
        None
    } else {
        let fc = clauses[0];
        if fc.mode == FormatMode::Span && fc.span_id is Some {
            let id = fc.span_id->0@;
            if exists|j: int| 0 <= j < names.len() && eq_ic(#[trigger] names[j], id) {
                Some((true, id))
            } else if seen.contains(lower_seq(id)) {
                Some((false, id))
            } else {
                span_check(clauses.drop_first(), names, seen.push(lower_seq(id)))
            }
        } else {
            span_check(clauses.drop_first(), names, seen)
        }
    }
}

/// A FACET without `FORMAT STUB` gets an empty stub column.
pub open spec fn synthetic(stmt: TabulateStmt) -> bool {
    stmt.facet is Some && stub_info(stmt.format_clauses@) is None
}

/// The names of the table's columns: the synthetic stub's (empty) first
/// when there is one, then the visible data columns.
pub open spec fn column_names_model(stmt: TabulateStmt, batch: Seq<BatchColumn>) -> Seq<Seq<char>> {
    let vis = visible_cols(stmt, batch_names(batch));
    if synthetic(stmt) {
        seq![Seq::<char>::empty()] + vis
    } else {
        vis
    }
}

/// The table's layout: its columns, their cell rules, the stub, the header
/// tree and the headings.
pub struct TablePlan {
    /// Column descriptors in display order (hidden columns excluded).
    pub columns: Vec<ColMeta>,
    /// One entry per visible data column (the synthetic stub has none).
    pub rules: Vec<CellRules>,
    /// Whether `columns[0]` is the empty stub a FACET adds.
    pub synthetic_stub: bool,
    /// Index into `columns` of the stub column, if any.
    pub stub_col: Option<usize>,
    pub header_forest: Vec<HeaderNode>,
    pub title: Option<String>,
    pub subtitle: Option<String>,
    pub caption: Option<String>,
}

pub open spec fn label_part(label: Option<LabelClause>, k: int) -> Option<Seq<char>> {
    match label {
        Some(l) => opt_str(
            if k == 0 {
                l.title
            } else if k == 1 {
                l.subtitle
            } else {
                l.caption
            },
        ),
        None => None,
    }
}

/// What the layout of `stmt` over a result with columns `batch` (and
/// source types `orig`) is.
pub open spec fn plan_spec(
    stmt: TabulateStmt,
    batch: Seq<BatchColumn>,
    orig: Seq<(String, ColumnType)>,
    p: TablePlan,
) -> bool {
    let vis = visible_cols(stmt, batch_names(batch));
    let syn = synthetic(stmt);
    let off: int = if syn {
        1
    } else {
        0
    };
    &&& p.synthetic_stub == syn
    &&& p.columns@.len() == vis.len() + off
    &&& p.rules@.len() == vis.len()
    &&& syn ==> meta_view(p.columns@[0]) == synthetic_meta(stmt, batch, vis)
    &&& forall|j: int|
        off <= j < p.columns@.len() ==> meta_view(#[trigger] p.columns@[j]) == data_meta(
            stmt,
            batch,
            orig,
            vis,
            vis[j - off],
        )
    &&& forall|j: int|
        0 <= j < vis.len() ==> rules_view(#[trigger] p.rules@[j]) == rules_model(
            stmt,
            batch,
            vis,
            vis[j],
        )
    &&& p.stub_col == if syn {
        Some(0usize)
    } else {
        match stub_info(stmt.format_clauses@) {
            Some((s, _)) => match first_eq_ic(vis, s) {
                Some(k) => Some(k as usize),
                None => None,
            },
            None => None,
        }
    }
    &&& nodes_view(p.header_forest@) == forest_from(
        stmt.format_clauses@,
        column_names_model(stmt, batch),
        label_renames(stmt.label),
    )
    &&& opt_str(p.title) == label_part(stmt.label, 0)
    &&& opt_str(p.subtitle) == label_part(stmt.label, 1)
    &&& opt_str(p.caption) == label_part(stmt.label, 2)
}

fn span_check_exec(clauses: &Vec<FormatClause>, names: &Vec<String>) -> (r: Option<TableError>)
    ensures
        match span_check(clauses@, seqs(names@), Seq::empty()) {
            Some((true, id)) => r matches Some(TableError::SpannerCollides(x)) && x@ == id,
            Some((false, id)) => r matches Some(TableError::DuplicateSpanner(x)) && x@ == id,
            None => r is None,
        },
{
    let mut seen: Vec<String> = Vec::new();
    let mut i: usize = 0;
    proof {
        assert(clauses@.skip(0) =~= clauses@);
        assert(seqs(seen@) =~= Seq::<Seq<char>>::empty());
    }
    while i < clauses.len()
        invariant
            i <= clauses@.len(),
            span_check(clauses@, seqs(names@), Seq::empty()) == span_check(
                clauses@.skip(i as int),
                seqs(names@),
                seqs(seen@),
            ),
        decreases clauses.len() - i,
    {
        let fc = &clauses[i];
        proof {
            assert(clauses@.skip(i as int)[0] == *fc);
            assert(clauses@.skip(i as int).drop_first() =~= clauses@.skip(i + 1));
        }
        if fc.mode == FormatMode::Span {
            if let Some(id) = &fc.span_id {
                let key = to_ascii_lowercase(id);
                let ghost nm = seqs(names@);
                match find_eq_ic(names, id) {
                    Some(j) => {
                        proof {
                            lemma_first_eq_ic_found(nm, id@);
                        }
                        return Some(TableError::SpannerCollides(owned(id)));
                    },
                    None => {
                        proof {
                            lemma_first_eq_ic_none(nm, id@);
                        }
                    },
                }
                match find_exact(&seen, &key) {
                    Some(_) => {
                        proof {
                            lemma_first_exact_found(seqs(seen@), key@);
                        }
                        return Some(TableError::DuplicateSpanner(owned(id)));
                    },
                    None => {
                        proof {
                            lemma_first_exact_none(seqs(seen@), key@);
                        }
                    },
                }
                let ghost before = seen@;
                seen.push(key);
                proof {
                    assert(seqs(seen@) =~= seqs(before).push(lower_seq(id@)));
                }
            }
        }
        i += 1;
    }
    None
}

proof fn lemma_first_exact_found(names: Seq<Seq<char>>, c: Seq<char>)
    ensures
        first_exact(names, c) matches Some(k) ==> 0 <= k < names.len() && names[k] == c,
    decreases names.len(),
{
    if names.len() > 0 && names[0] != c {
        lemma_first_exact_found(names.drop_first(), c);
        if let Some(k) = first_exact(names.drop_first(), c) {
            assert(names.drop_first()[k] == names[k + 1]);
        }
    }
}

proof fn lemma_first_exact_none(names: Seq<Seq<char>>, c: Seq<char>)
    ensures
        first_exact(names, c) is None ==> !names.contains(c),
    decreases names.len(),
{
    if names.len() > 0 && names[0] != c {
        lemma_first_exact_none(names.drop_first(), c);
        if first_exact(names, c) is None {
            assert forall|k: int| 0 <= k < names.len() implies names[k] != c by {
                if k > 0 {
                    assert(names[k] == names.drop_first()[k - 1]);
                }
            }
        }
    }
}

} // verus!

verus! {

fn auto_align_exec(
    batch: &Vec<BatchColumn>,
    names: &Vec<String>,
    orig: &Vec<(String, ColumnType)>,
    n: &str,
) -> (r: ColAlign)
    requires
        seqs(names@) == batch_names(batch@),
    ensures
        r == auto_align(batch@, orig@, n@),
{
    let ot = orig_type_exec(orig, n);
    match find_exact(names, n) {
        Some(i) => determine_alignment(ot, Some(batch[i].batch_type), &batch[i].strings),
        None => {
            let none: Vec<Option<String>> = Vec::new();
            proof {
                assert(none@ =~= Seq::<Option<String>>::empty());
            }
            determine_alignment(ot, None, &none)
        },
    }
}

/// Metadata and cell rules of the visible data column named `n`.
fn data_column(
    stmt: &TabulateStmt,
    batch: &Vec<BatchColumn>,
    names: &Vec<String>,
    orig: &Vec<(String, ColumnType)>,
    vis: &Vec<String>,
    stub: &Option<(String, Option<String>)>,
    n: &str,
) -> (r: (ColMeta, CellRules))
    requires
        seqs(names@) == batch_names(batch@),
        match stub_info(stmt.format_clauses@) {
            Some((s, sid)) => *stub matches Some((rn, rs)) && rn@ == s && opt_str(rs) == sid,
            None => stub is None,
        },
    ensures
        meta_view(r.0) == data_meta(*stmt, batch@, orig@, seqs(vis@), n@),
        rules_view(r.1) == rules_model(*stmt, batch@, seqs(vis@), n@),
{
    let ov = overrides_for_exec(&stmt.format_clauses, vis, n);
    let f = formatter_for(&ov, batch, names, n);
    let (label, user) = label_for(stmt, stub, n);
    let align = match ov.align {
        Some(a) => a,
        None => auto_align_exec(batch, names, orig, n),
    };
    let mut meta = ColMeta {
        name: owned(n),
        label,
        label_is_user: user,
        align,
        width: clone_opt(&ov.width),
        raw_html: false,
    };
    adjust_meta(&mut meta, &f);
    let source = find_exact(names, n);
    let rules = CellRules {
        source,
        literals: ov.literals,
        numbers: ov.numbers,
        null_text: ov.null_text,
        zero_text: ov.zero_text,
        formatter: f,
    };
    (meta, rules)
}

/// Lay out `stmt` over a query result whose columns are `batch`. `orig`
/// lists the source's column types when the data came straight from a
/// file (empty otherwise). Fails when a `FORMAT SPAN` id names a column or
/// repeats an earlier span's.
pub fn plan_table(
    stmt: &TabulateStmt,
    batch: &Vec<BatchColumn>,
    orig: &Vec<(String, ColumnType)>,
) -> (r: Result<TablePlan, TableError>)
    ensures
        match span_check(stmt.format_clauses@, column_names_model(*stmt, batch@), Seq::empty()) {
            Some((true, id)) => r matches Err(TableError::SpannerCollides(x)) && x@ == id,
            Some((false, id)) => r matches Err(TableError::DuplicateSpanner(x)) && x@ == id,
            None => r matches Ok(p) && plan_spec(*stmt, batch@, orig@, p),
        },
{
    let names = batch_name_list(batch);
    let schema = schema_name_list(batch);
    let disp = display_col_list(&stmt.columns, &schema);
    let sh = shown_list(stmt, &disp);
    let stub = stub_info_exec(&stmt.format_clauses);
    let vis = stub_first_list(sh, &stub);
    let ghost vs = seqs(vis@);
    proof {
        assert(vs == visible_cols(*stmt, batch_names(batch@)));
    }
    let syn = stmt.facet.is_some() && stub.is_none();
    let mut columns: Vec<ColMeta> = Vec::new();
    let mut rules: Vec<CellRules> = Vec::new();
    if syn {
        let ov = overrides_for_exec(&stmt.format_clauses, &vis, "");
        let f = formatter_for(&ov, batch, &names, "");
        let mut m = ColMeta {
            name: String::new(),
            label: String::new(),
            label_is_user: false,
            align: ColAlign::Left,
            width: None,
            raw_html: false,
        };
        proof {
            reveal_strlit("");
            assert(""@ =~= Seq::<char>::empty());
            assert(m.name@ =~= Seq::<char>::empty());
            assert(m.label@ =~= Seq::<char>::empty());
        }
        adjust_meta(&mut m, &f);
        columns.push(m);
    }
    let ghost off: int = if syn {
        1
    } else {
        0
    };
    let mut j: usize = 0;
    while j < vis.len()
        invariant
            j <= vis@.len(),
            vs == seqs(vis@),
            seqs(names@) == batch_names(batch@),
            match stub_info(stmt.format_clauses@) {
                Some((s, sid)) => stub matches Some((rn, rs)) && rn@ == s && opt_str(rs) == sid,
                None => stub is None,
            },
            syn == synthetic(*stmt),
            off == (if syn {
                1int
            } else {
                0int
            }),
            columns@.len() == j + off,
            rules@.len() == j,
            syn ==> meta_view(columns@[0]) == synthetic_meta(*stmt, batch@, vs),
            forall|q: int|
                off <= q < columns@.len() ==> meta_view(#[trigger] columns@[q]) == data_meta(
                    *stmt,
                    batch@,
                    orig@,
                    vs,
                    vs[q - off],
                ),
            forall|q: int|
                0 <= q < j ==> rules_view(#[trigger] rules@[q]) == rules_model(
                    *stmt,
                    batch@,
                    vs,
                    vs[q],
                ),
        decreases vis.len() - j,
    {
        let (m, r) = data_column(stmt, batch, &names, orig, &vis, &stub, &vis[j]);
        columns.push(m);
        rules.push(r);
        j += 1;
    }
    // The stub's position among the data columns.
    let stub_col = if syn {
        Some(0usize)
    } else {
        match &stub {
            Some((s, _)) => find_eq_ic(&vis, s),
            None => None,
        }
    };
    // Header tree over the table's column names.
    let mut col_names: Vec<String> = Vec::new();
    let mut k: usize = 0;
    while k < columns.len()
        invariant
            k <= columns@.len(),
            col_names@.len() == k,
            forall|q: int| 0 <= q < k ==> #[trigger] col_names@[q]@ == columns@[q].name@,
        decreases columns.len() - k,
    {
        col_names.push(owned(&columns[k].name));
        k += 1;
    }
    proof {
        let cn = column_names_model(*stmt, batch@);
        assert forall|q: int| 0 <= q < cn.len() implies #[trigger] cn[q] == seqs(col_names@)[q] by {
            assert(seqs(col_names@)[q] == columns@[q].name@);
            assert(meta_view(columns@[q]).name == columns@[q].name@);
            if syn && q == 0 {
            } else {
                assert(data_meta(*stmt, batch@, orig@, vs, vs[q - off]).name == vs[q - off]);
            }
        }
        assert(seqs(col_names@) =~= cn);
    }
    let empty: Vec<(String, String)> = Vec::new();
    let renames = match &stmt.label {
        Some(l) => &l.renames,
        None => &empty,
    };
    proof {
        assert(renames@ == label_renames(stmt.label));
    }
    let header_forest = build_header_forest(&stmt.format_clauses, &col_names, renames);
    if let Some(e) = span_check_exec(&stmt.format_clauses, &col_names) {
        return Err(e);
    }
    let (title, subtitle, caption) = match &stmt.label {
        Some(l) => (clone_opt(&l.title), clone_opt(&l.subtitle), clone_opt(&l.caption)),
        None => (None, None, None),
    };
    Ok(
        TablePlan {
            columns,
            rules,
            synthetic_stub: syn,
            stub_col,
            header_forest,
            title,
            subtitle,
            caption,
        },
    )
}

} // verus!

verus! {

// ============================================================================
// Laws
// ============================================================================

proof fn lemma_shown_members(stmt: TabulateStmt, d: Seq<Seq<char>>, k: int)
    requires
        0 <= k < shown(stmt, d).len(),
    ensures
        !is_hidden(stmt.format_clauses@, shown(stmt, d)[k]),
        !is_group_col(stmt, shown(stmt, d)[k]),
    decreases d.len(),
{
    if d.len() > 0 {
        let r = shown(stmt, d.drop_last());
        if k < r.len() {
            lemma_shown_members(stmt, d.drop_last(), k);
        }
    }
}

proof fn lemma_stub_first_members(v: Seq<Seq<char>>, stub: Option<(Seq<char>, Option<Seq<char>>)>, k: int)
    requires
        0 <= k < stub_first(v, stub).len(),
    ensures
        exists|m: int| 0 <= m < v.len() && v[m] == stub_first(v, stub)[k],
{
    if let Some((name, _)) = stub {
        if let Some(p) = first_eq_ic(v, name) {
            lemma_first_eq_ic_found(v, name);
            if p != 0 {
                let w = stub_first(v, stub);
                if k == 0 {
                    assert(v[p] == w[k]);
                } else if k - 1 < p {
                    assert(v[k - 1] == w[k]);
                } else {
                    assert(v[k] == w[k]);
                }
            } else {
                assert(v[k] == stub_first(v, stub)[k]);
            }
        } else {
            assert(v[k] == stub_first(v, stub)[k]);
        }
    } else {
        assert(v[k] == stub_first(v, stub)[k]);
    }
}

/// A column that a `FORMAT ... SETTING hide => true` lists, or the FACET
/// grouping column, is never on display.
pub proof fn law_hidden_columns_never_show(stmt: TabulateStmt, names: Seq<Seq<char>>, j: int)
    requires
        0 <= j < visible_cols(stmt, names).len(),
    ensures
        !is_hidden(stmt.format_clauses@, visible_cols(stmt, names)[j]),
        !is_group_col(stmt, visible_cols(stmt, names)[j]),
{
    let d = shown(stmt, display_cols(seqs(stmt.columns@), schema_names(names)));
    lemma_stub_first_members(d, stub_info(stmt.format_clauses@), j);
    let m = choose|m: int| 0 <= m < d.len() && d[m] == visible_cols(stmt, names)[j];
    lemma_shown_members(stmt, display_cols(seqs(stmt.columns@), schema_names(names)), m);
}

/// The `FORMAT STUB` column, when it is on display, is the first column.
pub proof fn law_stub_leads(stmt: TabulateStmt, names: Seq<Seq<char>>, s: Seq<char>, sid: Option<Seq<char>>)
    requires
        stub_info(stmt.format_clauses@) == Some((s, sid)),
        exists|j: int|
            0 <= j < visible_cols(stmt, names).len() && eq_ic(#[trigger] visible_cols(stmt, names)[j], s),
    ensures
        first_eq_ic(visible_cols(stmt, names), s) == Some(0int),
{
    let d = shown(stmt, display_cols(seqs(stmt.columns@), schema_names(names)));
    let v = visible_cols(stmt, names);
    lemma_first_eq_ic_found(d, s);
    lemma_first_eq_ic_none(d, s);
    if first_eq_ic(d, s) is None {
        assert(v == d);
        let j = choose|j: int| 0 <= j < v.len() && eq_ic(#[trigger] v[j], s);
        assert(false);
    }
    let p = first_eq_ic(d, s)->0;
    assert(eq_ic(v[0], s));
    lemma_first_eq_ic(v, s, 0);
}

/// A plan has one column per cell rule, and one more for the synthetic
/// stub: the shape [`crate::tabulate::execute::build_table_ir`] asks of it,
/// and with which its table has as many cells in every row, and in every
/// row of its SCALE matrices, as it has columns.
pub proof fn law_plan_fits_table(
    stmt: TabulateStmt,
    batch: Seq<BatchColumn>,
    orig: Seq<(String, ColumnType)>,
    p: TablePlan,
)
    requires
        plan_spec(stmt, batch, orig, p),
    ensures
        p.columns@.len() == p.rules@.len() + if p.synthetic_stub {
            1int
        } else {
            0int
        },
{
}

/// Every body row has one cell per column, the synthetic stub's included.
pub proof fn law_rows_fit_columns(
    stmt: TabulateStmt,
    batch: Seq<BatchColumn>,
    orig: Seq<(String, ColumnType)>,
    p: TablePlan,
    cells: Seq<crate::tabulate::execute::CellInput>,
)
    requires
        plan_spec(stmt, batch, orig, p),
        cells.len() == p.rules@.len(),
    ensures
        crate::tabulate::execute::row_text(p.rules@, cells, p.synthetic_stub).len()
            == p.columns@.len(),
{
}

} // verus!
