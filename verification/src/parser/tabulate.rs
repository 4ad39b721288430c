//! Syntax tree → [`TabulateStmt`] lowering for the TABULATE sub-language.

use crate::parser::{
    child_by_field, field_child, field_index, field_index_in, find_first, find_nodes, find_spec,
    first_found, SyntaxNode,
};
use crate::tabulate::ast::{
    FacetClause, FacetSetting, FacetValue, FormatClause, FormatMode, FormatRenaming, FormatSetting,
    HighlightClause, HighlightSetting, LabelClause, RenamingLhs, ScaleClause, ScalePalette,
    SettingValue, TabulateStmt, seqs,
};
use crate::text::{eq_ignore_ascii_case, lower_seq, owned, str_eq, to_ascii_lowercase, trim, trim_spec};
use vstd::prelude::*;

verus! {

// ============================================================================
// String literals
// ============================================================================

/// What `\<c>` stands for: `\n`, `\t`, `\r`, `\\`, `\'` and `\"` their
/// character, any other escape itself.
pub open spec fn escape_value(c: char) -> Seq<char> {
    if c == 'n' {
        seq!['\n']
    } else if c == 't' {
        seq!['\t']
    } else if c == 'r' {
        seq!['\r']
    } else if c == '\\' {
        seq!['\\']
    } else if c == '\'' {
        seq!['\'']
    } else if c == '"' {
        seq!['"']
    } else {
        seq!['\\', c]
    }
}

/// A literal's body with its backslash escapes resolved; a lone trailing
/// backslash stays.
pub open spec fn unescape(s: Seq<char>) -> Seq<char>
    decreases s.len(),
{
    if s.len() == 0 {
        Seq::empty()
    } else if s[0] == '\\' {
        if s.len() == 1 {
            seq!['\\']
        } else {
            escape_value(s[1]) + unescape(s.subrange(2, s.len() as int))
        }
    } else {
        seq![s[0]] + unescape(s.drop_first())
    }
}

/// The body between the surrounding single quotes, when there are both.
pub open spec fn strip_quotes(t: Seq<char>) -> Seq<char> {
    if t.len() >= 2 && t[0] == '\'' && t[t.len() - 1] == '\'' {
        t.subrange(1, t.len() - 1)
    } else {
        t
    }
}

pub open spec fn unquote_spec(t: Seq<char>) -> Seq<char> {
    unescape(strip_quotes(t))
}

/// Unquote a single-quoted string literal: the quotes go, backslash
/// escapes (`\n`, `\t`, `\r`, `\\`, `\'`, `\"`) resolve, unknown escapes
/// stay verbatim. There is no `''` escape.
pub fn unquote_string(text: &str) -> (r: String)
    ensures
        r@ == unquote_spec(text@),
{
    let v = crate::text::chars_of(text);
    let (lo, hi) = if v.len() >= 2 && v[0] == '\'' && v[v.len() - 1] == '\'' {
        (1, v.len() - 1)
    } else {
        (0, v.len())
    };
    let ghost body = v@.subrange(lo as int, hi as int);
    proof {
        assert(body == strip_quotes(text@));
        assert(v@.subrange(lo as int, hi as int).subrange(0, body.len() as int) =~= body);
    }
    let mut out = String::new();
    let mut i = lo;
    while i < hi
        invariant
            lo <= i <= hi,
            hi <= v@.len(),
            body == v@.subrange(lo as int, hi as int),
            out@ + unescape(v@.subrange(i as int, hi as int)) == unescape(body),
        decreases hi - i,
    {
        let c = v[i];
        let ghost rest = v@.subrange(i as int, hi as int);
        if c == '\\' {
            if i + 1 == hi {
                out.push('\\');
                proof {
                    assert(rest =~= seq!['\\']);
                    assert(v@.subrange(hi as int, hi as int) =~= Seq::<char>::empty());
                    assert(out@ + Seq::<char>::empty() =~= out@);
                }
                i += 1;
            } else {
                let d = v[i + 1];
                let ghost before = out@;
                if d == 'n' {
                    out.push('\n');
                } else if d == 't' {
                    out.push('\t');
                } else if d == 'r' {
                    out.push('\r');
                } else if d == '\\' {
                    out.push('\\');
                } else if d == '\'' {
                    out.push('\'');
                } else if d == '"' {
                    out.push('"');
                } else {
                    out.push('\\');
                    out.push(d);
                }
                proof {
                    assert(out@ =~= before + escape_value(d));
                    assert(rest.subrange(2, rest.len() as int) =~= v@.subrange(i + 2, hi as int));
                    assert(rest[1] == d);
                }
                i += 2;
            }
        } else {
            let ghost before = out@;
            out.push(c);
            proof {
                assert(rest.drop_first() =~= v@.subrange(i + 1, hi as int));
                assert(out@ =~= before + seq![c]);
            }
            i += 1;
        }
    }
    proof {
        assert(v@.subrange(i as int, hi as int) =~= Seq::<char>::empty());
        assert(out@ + Seq::<char>::empty() =~= out@);
    }
    out
}

} // verus!

verus! {

// ============================================================================
// Errors and values
// ============================================================================

/// Why a query's TABULATE part cannot be lowered.
pub struct ParseError {
    pub message: String,
}

pub open spec fn err<T>(m: Seq<char>) -> Result<T, Seq<char>> {
    Err(m)
}

/// A setting's value, as values.
pub enum SettingModel {
    Str(Seq<char>),
    Num(Seq<char>),
    Bool(bool),
}

pub open spec fn setting_view(v: SettingValue) -> SettingModel {
    match v {
        SettingValue::String(s) => SettingModel::Str(s@),
        SettingValue::Number(n) => SettingModel::Num(n@),
        SettingValue::Bool(b) => SettingModel::Bool(b),
    }
}

pub open spec fn is_value_kind(k: Seq<char>) -> bool {
    k == "string"@ || k == "number"@ || k == "boolean"@
}

/// The first child holding a string, number or boolean.
pub open spec fn first_value_child(s: Seq<SyntaxNode>) -> Option<SyntaxNode>
    decreases s.len(),
{
    if s.len() == 0 {
        None
    } else if is_value_kind(s[0].kind@) {
        Some(s[0])
    } else {
        first_value_child(s.drop_first())
    }
}

/// A literal's value: a string unquoted, a number as written, a boolean
/// true exactly when it reads `true`.
pub open spec fn literal_value(c: SyntaxNode) -> SettingModel {
    if c.kind@ == "string"@ {
        SettingModel::Str(unquote_spec(c.text@))
    } else if c.kind@ == "number"@ {
        SettingModel::Num(c.text@)
    } else {
        SettingModel::Bool(c.text@ == "true"@)
    }
}

pub open spec fn setting_value_spec(n: SyntaxNode) -> Result<SettingModel, Seq<char>> {
    match first_value_child(n.children@) {
        Some(c) => Ok(literal_value(c)),
        None => err("Missing value in FORMAT SETTING"@),
    }
}

fn literal_value_exec(c: &SyntaxNode) -> (r: SettingValue)
    requires
        is_value_kind(c.kind@),
    ensures
        setting_view(r) == literal_value(*c),
{
    proof {
        reveal_strlit("string");
        reveal_strlit("number");
    }
    if str_eq(&c.kind, "string") {
        SettingValue::String(unquote_string(&c.text))
    } else if str_eq(&c.kind, "number") {
        SettingValue::Number(owned(&c.text))
    } else {
        SettingValue::Bool(str_eq(&c.text, "true"))
    }
}

fn is_value_kind_exec(k: &str) -> (r: bool)
    ensures
        r == is_value_kind(k@),
{
    str_eq(k, "string") || str_eq(k, "number") || str_eq(k, "boolean")
}

proof fn lemma_first_value_child(s: Seq<SyntaxNode>, i: int)
    requires
        0 <= i <= s.len(),
        forall|q: int| 0 <= q < i ==> !is_value_kind((#[trigger] s[q]).kind@),
    ensures
        i == s.len() ==> first_value_child(s) is None,
        i < s.len() && is_value_kind(s[i].kind@) ==> first_value_child(s) == Some(s[i]),
    decreases i,
{
    if i > 0 {
        let t = s.drop_first();
        assert forall|q: int| 0 <= q < i - 1 implies !is_value_kind((#[trigger] t[q]).kind@) by {
            assert(t[q] == s[q + 1]);
        }
        lemma_first_value_child(t, i - 1);
        assert(!is_value_kind(s[0].kind@));
        if i < s.len() {
            assert(t[i - 1] == s[i]);
        }
    }
}

fn parse_setting_value(n: &SyntaxNode) -> (r: Result<SettingValue, ParseError>)
    ensures
        match setting_value_spec(*n) {
            Ok(v) => r matches Ok(x) && setting_view(x) == v,
            Err(m) => r matches Err(e) && e.message@ == m,
        },
{
    let mut i: usize = 0;
    while i < n.children.len()
        invariant
            i <= n.children@.len(),
            forall|q: int| 0 <= q < i ==> !is_value_kind((#[trigger] n.children@[q]).kind@),
        decreases n.children.len() - i,
    {
        if is_value_kind_exec(&n.children[i].kind) {
            proof {
                lemma_first_value_child(n.children@, i as int);
            }
            return Ok(literal_value_exec(&n.children[i]));
        }
        i += 1;
    }
    proof {
        lemma_first_value_child(n.children@, i as int);
    }
    Err(ParseError { message: String::from_str("Missing value in FORMAT SETTING") })
}

// ============================================================================
// FORMAT SETTING and RENAMING pairs
// ============================================================================

pub open spec fn units_message() -> Seq<char> {
    "FORMAT SETTING `units` was removed; put units in the LABEL text instead, e.g. LABEL land_area => 'Land Area (km\u{b2})'"@
}

/// A `key => value` setting; `units` is refused.
pub open spec fn setting_pair_spec(n: SyntaxNode) -> Result<(Seq<char>, SettingModel), Seq<char>> {
    match first_found(n, "identifier"@) {
        None => err("Missing key in FORMAT SETTING"@),
        Some(k) => if lower_seq(k.text@) == lower_seq("units"@) {
            err(units_message())
        } else {
            match setting_value_spec(n) {
                Ok(v) => Ok((k.text@, v)),
                Err(e) => Err(e),
            }
        },
    }
}

pub open spec fn format_setting_view(s: FormatSetting) -> (Seq<char>, SettingModel) {
    (s.key@, setting_view(s.value))
}

fn parse_setting_pair(n: &SyntaxNode) -> (r: Result<FormatSetting, ParseError>)
    ensures
        match setting_pair_spec(*n) {
            Ok(v) => r matches Ok(x) && format_setting_view(x) == v,
            Err(m) => r matches Err(e) && e.message@ == m,
        },
{
    let key = match find_first(n, "identifier") {
        Some(k) => owned(&k.text),
        None => return Err(ParseError { message: String::from_str("Missing key in FORMAT SETTING") }),
    };
    if eq_ignore_ascii_case(&key, "units") {
        return Err(
            ParseError {
                message: String::from_str(
                    "FORMAT SETTING `units` was removed; put units in the LABEL text instead, e.g. LABEL land_area => 'Land Area (km\u{b2})'",
                ),
            },
        );
    }
    match parse_setting_value(n) {
        Ok(value) => Ok(FormatSetting { key, value }),
        Err(e) => Err(e),
    }
}

/// The left side of a renaming, as values.
pub enum LhsModel {
    Wildcard,
    Null,
    Zero,
    Number(Seq<char>),
    Literal(Seq<char>),
    Identifier(Seq<char>),
}

pub open spec fn lhs_view(l: RenamingLhs) -> LhsModel {
    match l {
        RenamingLhs::Wildcard => LhsModel::Wildcard,
        RenamingLhs::Null => LhsModel::Null,
        RenamingLhs::Zero => LhsModel::Zero,
        RenamingLhs::Number(n) => LhsModel::Number(n@),
        RenamingLhs::Literal(s) => LhsModel::Literal(s@),
        RenamingLhs::Identifier(s) => LhsModel::Identifier(s@),
    }
}

/// The part of a number literal before its exponent.
pub open spec fn mantissa_len(t: Seq<char>) -> nat
    decreases t.len(),
{
    if t.len() == 0 || t[0] == 'e' || t[0] == 'E' {
        0
    } else {
        1 + mantissa_len(t.drop_first())
    }
}

/// A number literal whose value is zero: no digit of its mantissa is
/// other than `0`.
pub open spec fn zero_literal(t: Seq<char>) -> bool {
    forall|i: int|
        0 <= i < mantissa_len(t) && #[trigger] t[i] >= '1' && t[i] <= '9' ==> false
}

/// What a node before `=>` makes the left side, if anything.
pub open spec fn lhs_of(c: SyntaxNode) -> Option<LhsModel> {
    let k = c.kind@;
    if k == "*"@ {
        Some(LhsModel::Wildcard)
    } else if k == "number"@ {
        if zero_literal(c.text@) {
            Some(LhsModel::Zero)
        } else {
            Some(LhsModel::Number(c.text@))
        }
    } else if k == "string"@ {
        Some(LhsModel::Literal(unquote_spec(c.text@)))
    } else if k == "identifier"@ {
        if lower_seq(c.text@) == lower_seq("null"@) {
            Some(LhsModel::Null)
        } else {
            Some(LhsModel::Identifier(c.text@))
        }
    } else {
        None
    }
}

/// Left side, right side and whether `=>` has passed, after the children
/// `s`.
pub open spec fn renaming_scan(s: Seq<SyntaxNode>) -> (Option<LhsModel>, Option<Seq<char>>, bool)
    decreases s.len(),
{
    if s.len() == 0 {
        (None, None, false)
    } else {
        let (l, r, past) = renaming_scan(s.drop_last());
        let c = s.last();
        if c.kind@ == "=>"@ {
            (l, r, true)
        } else if past {
            if c.kind@ == "string"@ {
                (l, Some(unquote_spec(c.text@)), past)
            } else {
                (l, r, past)
            }
        } else {
            match lhs_of(c) {
                Some(x) => (Some(x), r, past),
                None => (l, r, past),
            }
        }
    }
}

/// A renaming: the last left side before `=>` (`*` if none) and the last
/// string after it (empty if none).
pub open spec fn renaming_spec(n: SyntaxNode) -> (LhsModel, Seq<char>) {
    let (l, r, _) = renaming_scan(n.children@);
    (
        match l {
            Some(x) => x,
            None => LhsModel::Wildcard,
        },
        match r {
            Some(x) => x,
            None => Seq::empty(),
        },
    )
}

pub open spec fn renaming_view(r: FormatRenaming) -> (LhsModel, Seq<char>) {
    (lhs_view(r.lhs), r.rhs@)
}

fn zero_literal_exec(t: &str) -> (r: bool)
    ensures
        r == zero_literal(t@),
{
    let v = crate::text::chars_of(t);
    let mut i: usize = 0;
    proof {
        assert(t@.skip(0) =~= t@);
    }
    while i < v.len() && v[i] != 'e' && v[i] != 'E'
        invariant
            i <= v@.len(),
            v@ == t@,
            mantissa_len(t@) == i + mantissa_len(t@.skip(i as int)),
            forall|q: int| 0 <= q < i ==> !(#[trigger] t@[q] >= '1' && t@[q] <= '9'),
        decreases v.len() - i,
    {
        proof {
            assert(t@.skip(i as int)[0] == t@[i as int]);
            assert(t@.skip(i as int).drop_first() =~= t@.skip(i + 1));
        }
        if v[i] >= '1' && v[i] <= '9' {
            proof {
                assert(mantissa_len(t@.skip(i as int)) >= 1);
            }
            return false;
        }
        i += 1;
    }
    proof {
        if i < v@.len() {
            assert(t@.skip(i as int)[0] == t@[i as int]);
        }
        assert(mantissa_len(t@.skip(i as int)) == 0);
    }
    true
}

proof fn lemma_mantissa_reaches(t: Seq<char>, i: int)
    requires
        0 <= i < t.len(),
        forall|j: int| 0 <= j <= i ==> #[trigger] t[j] != 'e' && t[j] != 'E',
    ensures
        i < mantissa_len(t),
    decreases i,
{
    assert(t[0] != 'e' && t[0] != 'E');
    if i > 0 {
        let r = t.drop_first();
        assert forall|j: int| 0 <= j <= i - 1 implies #[trigger] r[j] != 'e' && r[j] != 'E' by {
            assert(r[j] == t[j + 1]);
        }
        lemma_mantissa_reaches(r, i - 1);
    }
}

proof fn lemma_mantissa_stops(t: Seq<char>, i: int)
    requires
        0 <= i < mantissa_len(t),
    ensures
        i < t.len(),
        forall|j: int| 0 <= j <= i ==> #[trigger] t[j] != 'e' && t[j] != 'E',
    decreases i,
{
    if i > 0 {
        let r = t.drop_first();
        lemma_mantissa_stops(r, i - 1);
        assert forall|j: int| 0 <= j <= i implies #[trigger] t[j] != 'e' && t[j] != 'E' by {
            if j > 0 {
                assert(t[j] == r[j - 1]);
            }
        }
    }
}

/// A number literal before `=>` is the zero left side exactly when no
/// digit of its mantissa (the part before any `e`/`E`) is 1 to 9; any
/// nonzero digit there makes it a number left side holding its text.
pub proof fn law_number_lhs(c: SyntaxNode)
    requires
        c.kind@ == "number"@,
    ensures
        (exists|i: int|
            0 <= i < c.text@.len() && '1' <= #[trigger] c.text@[i] && c.text@[i] <= '9' && forall|j: int|
                0 <= j <= i ==> #[trigger] c.text@[j] != 'e' && c.text@[j] != 'E') ==> lhs_of(c) == Some(
            LhsModel::Number(c.text@),
        ),
        (forall|i: int|
            0 <= i < c.text@.len() && '1' <= #[trigger] c.text@[i] && c.text@[i] <= '9' ==> exists|j: int|
                0 <= j <= i && (#[trigger] c.text@[j] == 'e' || c.text@[j] == 'E')) ==> lhs_of(c) == Some(
            LhsModel::Zero,
        ),
{
    reveal_strlit("*");
    reveal_strlit("number");
    let t = c.text@;
    assert(c.kind@ != "*"@) by {
        assert(c.kind@.len() != "*"@.len());
    }
    if exists|i: int|
        0 <= i < t.len() && '1' <= #[trigger] t[i] && t[i] <= '9' && forall|j: int|
            0 <= j <= i ==> #[trigger] t[j] != 'e' && t[j] != 'E' {
        let i = choose|i: int|
            0 <= i < t.len() && '1' <= #[trigger] t[i] && t[i] <= '9' && forall|j: int|
                0 <= j <= i ==> #[trigger] t[j] != 'e' && t[j] != 'E';
        lemma_mantissa_reaches(t, i);
        assert(!zero_literal(t));
    }
    if forall|i: int|
        0 <= i < t.len() && '1' <= #[trigger] t[i] && t[i] <= '9' ==> exists|j: int|
            0 <= j <= i && (#[trigger] t[j] == 'e' || t[j] == 'E') {
        assert forall|i: int| 0 <= i < mantissa_len(t) && #[trigger] t[i] >= '1' && t[i] <= '9' implies false by {
            lemma_mantissa_stops(t, i);
            let j = choose|j: int| 0 <= j <= i && (#[trigger] t[j] == 'e' || t[j] == 'E');
            assert(t[j] != 'e' && t[j] != 'E');
        }
        assert(zero_literal(t));
    }
}

fn lhs_exec(c: &SyntaxNode) -> (r: Option<RenamingLhs>)
    ensures
        match lhs_of(*c) {
            Some(x) => r matches Some(y) && lhs_view(y) == x,
            None => r is None,
        },
{
    if str_eq(&c.kind, "*") {
        Some(RenamingLhs::Wildcard)
    } else if str_eq(&c.kind, "number") {
        if zero_literal_exec(&c.text) {
            Some(RenamingLhs::Zero)
        } else {
            Some(RenamingLhs::Number(owned(&c.text)))
        }
    } else if str_eq(&c.kind, "string") {
        Some(RenamingLhs::Literal(unquote_string(&c.text)))
    } else if str_eq(&c.kind, "identifier") {
        if eq_ignore_ascii_case(&c.text, "null") {
            Some(RenamingLhs::Null)
        } else {
            Some(RenamingLhs::Identifier(owned(&c.text)))
        }
    } else {
        None
    }
}

fn parse_renaming_pair(n: &SyntaxNode) -> (r: FormatRenaming)
    ensures
        renaming_view(r) == renaming_spec(*n),
{
    let mut lhs: Option<RenamingLhs> = None;
    let mut rhs: Option<String> = None;
    let mut past_arrow = false;
    let mut i: usize = 0;
    proof {
        assert(n.children@.take(0) =~= Seq::<SyntaxNode>::empty());
    }
    while i < n.children.len()
        invariant
            i <= n.children@.len(),
            ({
                let (l, r, p) = renaming_scan(n.children@.take(i as int));
                &&& match l {
                    Some(x) => lhs matches Some(y) && lhs_view(y) == x,
                    None => lhs is None,
                }
                &&& match r {
                    Some(x) => rhs matches Some(y) && y@ == x,
                    None => rhs is None,
                }
                &&& p == past_arrow
            }),
        decreases n.children.len() - i,
    {
        proof {
            let t = n.children@.take(i + 1);
            assert(t.drop_last() =~= n.children@.take(i as int));
            assert(t.last() == n.children@[i as int]);
        }
        let c = &n.children[i];
        if str_eq(&c.kind, "=>") {
            past_arrow = true;
        } else if past_arrow {
            if str_eq(&c.kind, "string") {
                rhs = Some(unquote_string(&c.text));
            }
        } else {
            match lhs_exec(c) {
                Some(x) => lhs = Some(x),
                None => {},
            }
        }
        i += 1;
    }
    proof {
        assert(n.children@.take(i as int) =~= n.children@);
    }
    FormatRenaming {
        lhs: match lhs {
            Some(x) => x,
            None => RenamingLhs::Wildcard,
        },
        rhs: match rhs {
            Some(x) => x,
            None => String::new(),
        },
    }
}

} // verus!

verus! {

// ============================================================================
// FORMAT clauses
// ============================================================================

/// The settings of the pairs `s`, or the first pair's error.
pub open spec fn setting_pairs_spec(s: Seq<SyntaxNode>) -> Result<Seq<(Seq<char>, SettingModel)>, Seq<char>>
    decreases s.len(),
{
    if s.len() == 0 {
        Ok(Seq::empty())
    } else {
        match setting_pairs_spec(s.drop_last()) {
            Err(e) => Err(e),
            Ok(p) => match setting_pair_spec(s.last()) {
                Err(e) => Err(e),
                Ok(x) => Ok(p.push(x)),
            },
        }
    }
}

pub open spec fn renamings_spec(s: Seq<SyntaxNode>) -> Seq<(LhsModel, Seq<char>)> {
    s.map_values(|n: SyntaxNode| renaming_spec(n))
}

/// The texts of the `identifier` children among the first `k` of `s`,
/// except the one at `skip`.
pub open spec fn idents_except(s: Seq<SyntaxNode>, skip: Option<int>, k: nat) -> Seq<Seq<char>>
    decreases k,
{
    if k == 0 {
        Seq::empty()
    } else {
        let p = idents_except(s, skip, (k - 1) as nat);
        if s[k - 1].kind@ == "identifier"@ && skip != Some(k - 1) {
            p.push(s[k - 1].text@)
        } else {
            p
        }
    }
}

/// A FORMAT clause, as values.
pub struct FormatClauseModel {
    pub mode: FormatMode,
    pub columns: Seq<Seq<char>>,
    pub span_id: Option<Seq<char>>,
    pub settings: Seq<(Seq<char>, SettingModel)>,
    pub renamings: Seq<(LhsModel, Seq<char>)>,
}

pub open spec fn format_clause_view(fc: FormatClause) -> FormatClauseModel {
    FormatClauseModel {
        mode: fc.mode,
        columns: seqs(fc.columns@),
        span_id: match fc.span_id {
            Some(s) => Some(s@),
            None => None,
        },
        settings: fc.settings@.map_values(|s: FormatSetting| format_setting_view(s)),
        renamings: fc.renamings@.map_values(|r: FormatRenaming| renaming_view(r)),
    }
}

/// `SPAN`, `STUB` (upper-cased), or neither.
pub open spec fn mode_spec(n: SyntaxNode) -> FormatMode {
    match first_found(n, "format_mode"@) {
        None => FormatMode::Plain,
        Some(m) => if crate::tabulate::format::upper_cased(m.text@) == "SPAN"@ {
            FormatMode::Span
        } else if crate::tabulate::format::upper_cased(m.text@) == "STUB"@ {
            FormatMode::Stub
        } else {
            FormatMode::Plain
        },
    }
}

/// `FORMAT *` lists the single column `*`; otherwise the clause's own
/// identifiers, except the `AS <id>` one.
pub open spec fn format_columns_spec(n: SyntaxNode) -> Seq<Seq<char>> {
    if find_spec(n, "format_wildcard"@).len() > 0 {
        seq!["*"@]
    } else {
        idents_except(n.children@, field_index_in(n.children@, "span_id"@), n.children@.len())
    }
}

pub open spec fn format_clause_spec(n: SyntaxNode) -> Result<FormatClauseModel, Seq<char>> {
    let settings = match first_found(n, "format_setting_block"@) {
        Some(sb) => setting_pairs_spec(find_spec(sb, "format_setting_pair"@)),
        None => Ok(Seq::empty()),
    };
    let renamings = match first_found(n, "format_renaming_block"@) {
        Some(rb) => renamings_spec(find_spec(rb, "format_renaming_pair"@)),
        None => Seq::empty(),
    };
    match settings {
        Err(e) => Err(e),
        Ok(st) => Ok(
            FormatClauseModel {
                mode: mode_spec(n),
                columns: format_columns_spec(n),
                span_id: match field_child(n, "span_id"@) {
                    Some(c) => Some(c.text@),
                    None => None,
                },
                settings: st,
                renamings: renamings,
            },
        ),
    }
}

fn parse_setting_pairs(pairs: &Vec<&SyntaxNode>) -> (r: Result<Vec<FormatSetting>, ParseError>)
    ensures
        match setting_pairs_spec(pairs@.map_values(|x: &SyntaxNode| *x)) {
            Ok(v) => r matches Ok(x) && x@.map_values(|s: FormatSetting| format_setting_view(s)) == v,
            Err(m) => r matches Err(e) && e.message@ == m,
        },
{
    let ghost ps = pairs@.map_values(|x: &SyntaxNode| *x);
    let mut out: Vec<FormatSetting> = Vec::new();
    let mut i: usize = 0;
    proof {
        assert(ps.take(0) =~= Seq::<SyntaxNode>::empty());
        assert(out@.map_values(|s: FormatSetting| format_setting_view(s)) =~= Seq::<
            (Seq<char>, SettingModel),
        >::empty());
    }
    while i < pairs.len()
        invariant
            i <= pairs@.len(),
            ps == pairs@.map_values(|x: &SyntaxNode| *x),
            setting_pairs_spec(ps.take(i as int)) == Ok::<Seq<(Seq<char>, SettingModel)>, Seq<char>>(
                out@.map_values(|s: FormatSetting| format_setting_view(s)),
            ),
        decreases pairs.len() - i,
    {
        proof {
            let t = ps.take(i + 1);
            assert(t.drop_last() =~= ps.take(i as int));
            assert(t.last() == *pairs@[i as int]);
        }
        match parse_setting_pair(pairs[i]) {
            Ok(s) => {
                let ghost before = out@;
                out.push(s);
                proof {
                    assert(out@.map_values(|s: FormatSetting| format_setting_view(s)) =~= before.map_values(
                        |s: FormatSetting| format_setting_view(s),
                    ).push(format_setting_view(s)));
                }
            },
            Err(e) => {
                proof {
                    lemma_setting_pairs_err(ps, i as int);
                }
                return Err(e);
            },
        }
        i += 1;
    }
    proof {
        assert(ps.take(i as int) =~= ps);
    }
    Ok(out)
}

proof fn lemma_setting_pairs_err(ps: Seq<SyntaxNode>, i: int)
    requires
        0 <= i < ps.len(),
        setting_pairs_spec(ps.take(i)) is Ok,
        setting_pairs_spec(ps.take(i + 1)) is Err,
    ensures
        setting_pairs_spec(ps) == setting_pairs_spec(ps.take(i + 1)),
    decreases ps.len() - i,
{
    if i + 1 < ps.len() {
        assert(ps.take(i + 2).drop_last() =~= ps.take(i + 1));
        lemma_setting_pairs_err_mono(ps, i + 1);
    } else {
        assert(ps.take(i + 1) =~= ps);
    }
}

proof fn lemma_setting_pairs_err_mono(ps: Seq<SyntaxNode>, k: int)
    requires
        0 <= k <= ps.len(),
        setting_pairs_spec(ps.take(k)) is Err,
    ensures
        setting_pairs_spec(ps) == setting_pairs_spec(ps.take(k)),
    decreases ps.len() - k,
{
    if k < ps.len() {
        assert(ps.take(k + 1).drop_last() =~= ps.take(k));
        lemma_setting_pairs_err_mono(ps, k + 1);
    } else {
        assert(ps.take(k) =~= ps);
    }
}

fn parse_renamings(pairs: &Vec<&SyntaxNode>) -> (r: Vec<FormatRenaming>)
    ensures
        r@.map_values(|x: FormatRenaming| renaming_view(x)) == renamings_spec(
            pairs@.map_values(|x: &SyntaxNode| *x),
        ),
{
    let mut out: Vec<FormatRenaming> = Vec::new();
    let mut i: usize = 0;
    while i < pairs.len()
        invariant
            i <= pairs@.len(),
            out@.len() == i,
            forall|q: int| 0 <= q < i ==> renaming_view(#[trigger] out@[q]) == renaming_spec(*pairs@[q]),
        decreases pairs.len() - i,
    {
        out.push(parse_renaming_pair(pairs[i]));
        i += 1;
    }
    proof {
        assert(out@.map_values(|x: FormatRenaming| renaming_view(x)) =~= renamings_spec(
            pairs@.map_values(|x: &SyntaxNode| *x),
        ));
    }
    out
}

fn parse_format_clause(n: &SyntaxNode) -> (r: Result<FormatClause, ParseError>)
    ensures
        match format_clause_spec(*n) {
            Ok(v) => r matches Ok(x) && format_clause_view(x) == v,
            Err(m) => r matches Err(e) && e.message@ == m,
        },
{
    let mode = match find_first(n, "format_mode") {
        None => FormatMode::Plain,
        Some(m) => {
            let up = crate::tabulate::format::str_to_uppercase(&m.text);
            if str_eq(&up, "SPAN") {
                FormatMode::Span
            } else if str_eq(&up, "STUB") {
                FormatMode::Stub
            } else {
                FormatMode::Plain
            }
        },
    };
    let span_idx = field_index(n, "span_id");
    let span_id = match span_idx {
        Some(k) => Some(owned(&n.children[k].text)),
        None => None,
    };
    let mut columns: Vec<String> = Vec::new();
    if find_first(n, "format_wildcard").is_some() {
        columns.push(String::from_str("*"));
        proof {
            assert(seqs(columns@) =~= seq!["*"@]);
        }
    } else {
        let mut i: usize = 0;
        while i < n.children.len()
            invariant
                i <= n.children@.len(),
                match field_index_in(n.children@, "span_id"@) {
                    Some(k) => span_idx == Some(k as usize) && 0 <= k < n.children@.len(),
                    None => span_idx is None,
                },
                seqs(columns@) == idents_except(
                    n.children@,
                    field_index_in(n.children@, "span_id"@),
                    i as nat,
                ),
            decreases n.children.len() - i,
        {
            let c = &n.children[i];
            let ghost before = columns@;
            proof {
                assert((span_idx == Some(i)) == (field_index_in(n.children@, "span_id"@) == Some(
                    i as int,
                )));
            }
            if str_eq(&c.kind, "identifier") && span_idx != Some(i) {
                columns.push(owned(&c.text));
                proof {
                    assert(seqs(columns@) =~= seqs(before).push(c.text@));
                }
            }
            i += 1;
        }
    }
    let settings = match find_first(n, "format_setting_block") {
        Some(sb) => {
            let pairs = find_nodes(sb, "format_setting_pair");
            match parse_setting_pairs(&pairs) {
                Ok(s) => s,
                Err(e) => return Err(e),
            }
        },
        None => Vec::new(),
    };
    let renamings = match find_first(n, "format_renaming_block") {
        Some(rb) => {
            let pairs = find_nodes(rb, "format_renaming_pair");
            parse_renamings(&pairs)
        },
        None => Vec::new(),
    };
    let r = FormatClause { mode, columns, span_id, settings, renamings };
    proof {
        assert(r.settings@.map_values(|s: FormatSetting| format_setting_view(s)) =~= match format_clause_spec(*n) {
            Ok(v) => v.settings,
            Err(_) => Seq::empty(),
        });
        assert(r.renamings@.map_values(|x: FormatRenaming| renaming_view(x)) =~= match first_found(
            *n,
            "format_renaming_block"@,
        ) {
            Some(rb) => renamings_spec(find_spec(rb, "format_renaming_pair"@)),
            None => Seq::empty(),
        });
    }
    Ok(r)
}

} // verus!

verus! {

// ============================================================================
// LABEL clauses
// ============================================================================

/// A LABEL clause, as values.
pub struct LabelModel {
    pub title: Option<Seq<char>>,
    pub subtitle: Option<Seq<char>>,
    pub caption: Option<Seq<char>>,
    pub renames: Seq<(Seq<char>, Seq<char>)>,
}

pub open spec fn label_view(l: LabelClause) -> LabelModel {
    LabelModel {
        title: match l.title {
            Some(s) => Some(s@),
            None => None,
        },
        subtitle: match l.subtitle {
            Some(s) => Some(s@),
            None => None,
        },
        caption: match l.caption {
            Some(s) => Some(s@),
            None => None,
        },
        renames: l.renames@.map_values(|p: (String, String)| (p.0@, p.1@)),
    }
}

/// The first child that is a string or `null`.
pub open spec fn first_label_value(s: Seq<SyntaxNode>) -> Option<SyntaxNode>
    decreases s.len(),
{
    if s.len() == 0 {
        None
    } else if s[0].kind@ == "string"@ || s[0].kind@ == "null_literal"@ {
        Some(s[0])
    } else {
        first_label_value(s.drop_first())
    }
}

/// An assignment's value: its string unquoted, or none for `null` or no
/// value.
pub open spec fn label_value(la: SyntaxNode) -> Option<Seq<char>> {
    match first_label_value(la.children@) {
        Some(c) => if c.kind@ == "string"@ {
            Some(unquote_spec(c.text@))
        } else {
            None
        },
        None => None,
    }
}

pub open spec fn empty_label() -> LabelModel {
    LabelModel { title: None, subtitle: None, caption: None, renames: Seq::empty() }
}

/// The LABEL assignments `s` in order: `title`, `subtitle` and `caption`
/// (ASCII-case-insensitively) set the headings, any other name a label; a
/// `null` value is skipped; an assignment without a name is an error.
pub open spec fn label_fold(s: Seq<SyntaxNode>) -> Result<LabelModel, Seq<char>>
    decreases s.len(),
{
    if s.len() == 0 {
        Ok(empty_label())
    } else {
        match label_fold(s.drop_last()) {
            Err(e) => Err(e),
            Ok(m) => match first_found(s.last(), "identifier"@) {
                None => err("LABEL key missing"@),
                Some(k) => match label_value(s.last()) {
                    None => Ok(m),
                    Some(v) => {
                        let lk = lower_seq(k.text@);
                        if lk == "title"@ {
                            Ok(LabelModel { title: Some(v), ..m })
                        } else if lk == "subtitle"@ {
                            Ok(LabelModel { subtitle: Some(v), ..m })
                        } else if lk == "caption"@ {
                            Ok(LabelModel { caption: Some(v), ..m })
                        } else {
                            Ok(LabelModel { renames: m.renames.push((k.text@, v)), ..m })
                        }
                    },
                },
            },
        }
    }
}

proof fn lemma_label_fold_err(s: Seq<SyntaxNode>, k: int)
    requires
        0 <= k <= s.len(),
        label_fold(s.take(k)) is Err,
    ensures
        label_fold(s) == label_fold(s.take(k)),
    decreases s.len() - k,
{
    if k < s.len() {
        assert(s.take(k + 1).drop_last() =~= s.take(k));
        lemma_label_fold_err(s, k + 1);
    } else {
        assert(s.take(k) =~= s);
    }
}

fn label_value_exec(la: &SyntaxNode) -> (r: Option<String>)
    ensures
        match label_value(*la) {
            Some(v) => r matches Some(x) && x@ == v,
            None => r is None,
        },
{
    let mut i: usize = 0;
    proof {
        assert(la.children@.skip(0) =~= la.children@);
    }
    while i < la.children.len()
        invariant
            i <= la.children@.len(),
            first_label_value(la.children@) == first_label_value(la.children@.skip(i as int)),
        decreases la.children.len() - i,
    {
        let c = &la.children[i];
        proof {
            assert(la.children@.skip(i as int)[0] == *c);
            assert(la.children@.skip(i as int).drop_first() =~= la.children@.skip(i + 1));
        }
        if str_eq(&c.kind, "string") {
            return Some(unquote_string(&c.text));
        }
        if str_eq(&c.kind, "null_literal") {
            return None;
        }
        i += 1;
    }
    None
}

fn parse_label_clause(n: &SyntaxNode) -> (r: Result<LabelClause, ParseError>)
    ensures
        match label_fold(find_spec(*n, "label_assignment"@)) {
            Ok(v) => r matches Ok(x) && label_view(x) == v,
            Err(m) => r matches Err(e) && e.message@ == m,
        },
{
    let las = find_nodes(n, "label_assignment");
    let ghost ls = las@.map_values(|x: &SyntaxNode| *x);
    let mut out = LabelClause { title: None, subtitle: None, caption: None, renames: Vec::new() };
    let mut i: usize = 0;
    proof {
        assert(ls.take(0) =~= Seq::<SyntaxNode>::empty());
        assert(out.renames@.map_values(|p: (String, String)| (p.0@, p.1@)) =~= Seq::<
            (Seq<char>, Seq<char>),
        >::empty());
        assert(label_view(out) == empty_label());
    }
    while i < las.len()
        invariant
            i <= las@.len(),
            ls == las@.map_values(|x: &SyntaxNode| *x),
            ls == find_spec(*n, "label_assignment"@),
            label_fold(ls.take(i as int)) == Ok::<LabelModel, Seq<char>>(label_view(out)),
        decreases las.len() - i,
    {
        let la = las[i];
        proof {
            let t = ls.take(i + 1);
            assert(t.drop_last() =~= ls.take(i as int));
            assert(t.last() == *la);
        }
        let name = match find_first(la, "identifier") {
            Some(k) => owned(&k.text),
            None => {
                proof {
                    assert(label_fold(ls.take(i + 1)) == err::<LabelModel>("LABEL key missing"@));
                    lemma_label_fold_err(ls, i + 1);
                }
                return Err(ParseError { message: String::from_str("LABEL key missing") });
            },
        };
        match label_value_exec(la) {
            None => {},
            Some(value) => {
                let lk = to_ascii_lowercase(&name);
                proof {
                    reveal_strlit("title");
                    reveal_strlit("subtitle");
                    reveal_strlit("caption");
                }
                if str_eq(&lk, "title") {
                    out.title = Some(value);
                } else if str_eq(&lk, "subtitle") {
                    out.subtitle = Some(value);
                } else if str_eq(&lk, "caption") {
                    out.caption = Some(value);
                } else {
                    let ghost before = out.renames@;
                    out.renames.push((name, value));
                    proof {
                        assert(out.renames@.map_values(|p: (String, String)| (p.0@, p.1@)) =~= before.map_values(
                            |p: (String, String)| (p.0@, p.1@),
                        ).push((out.renames@.last().0@, out.renames@.last().1@)));
                    }
                }
            },
        }
        i += 1;
    }
    proof {
        assert(ls.take(i as int) =~= ls);
    }
    Ok(out)
}

} // verus!

verus! {

// ============================================================================
// SCALE clauses
// ============================================================================

pub enum PaletteModel {
    Stops(Seq<Seq<char>>),
    Named(Seq<char>),
}

/// A SCALE clause, as values.
pub struct ScaleModel {
    pub aesthetic: Seq<char>,
    pub domain: Option<(Seq<char>, Seq<char>)>,
    pub palette: PaletteModel,
    pub transform: Option<Seq<char>>,
    pub targets: Seq<Seq<char>>,
}

pub open spec fn scale_view(sc: ScaleClause) -> ScaleModel {
    ScaleModel {
        aesthetic: sc.aesthetic@,
        domain: match sc.domain {
            Some((a, b)) => Some((a@, b@)),
            None => None,
        },
        palette: match sc.palette {
            ScalePalette::Stops(s) => PaletteModel::Stops(seqs(s@)),
            ScalePalette::Named(n) => PaletteModel::Named(n@),
        },
        transform: match sc.transform {
            Some(t) => Some(t@),
            None => None,
        },
        targets: seqs(sc.target_cols@),
    }
}

pub open spec fn texts(s: Seq<SyntaxNode>) -> Seq<Seq<char>> {
    s.map_values(|x: SyntaxNode| x.text@)
}

pub open spec fn unquoted_texts(s: Seq<SyntaxNode>) -> Seq<Seq<char>> {
    s.map_values(|x: SyntaxNode| unquote_spec(x.text@))
}

/// `FROM (min, max)`: its first two number literals, when it has two.
pub open spec fn domain_spec(n: SyntaxNode) -> Option<(Seq<char>, Seq<char>)> {
    match first_found(n, "tab_scale_from"@) {
        Some(f) => {
            let nums = find_spec(f, "number"@);
            if nums.len() >= 2 {
                Some((nums[0].text@, nums[1].text@))
            } else {
                None
            }
        },
        None => None,
    }
}

/// `TO <palette>` names a palette; `TO ('a', 'b', ...)` lists stops.
pub open spec fn palette_spec(n: SyntaxNode) -> Option<PaletteModel> {
    match first_found(n, "tab_scale_to"@) {
        None => None,
        Some(t) => Some(
            match field_child(t, "palette"@) {
                Some(p) => PaletteModel::Named(p.text@),
                None => PaletteModel::Stops(unquoted_texts(find_spec(t, "string"@))),
            },
        ),
    }
}

pub open spec fn transform_spec(n: SyntaxNode) -> Option<Seq<char>> {
    match first_found(n, "tab_scale_via"@) {
        Some(v) => match field_child(v, "transform"@) {
            Some(x) => Some(x.text@),
            None => None,
        },
        None => None,
    }
}

/// The identifiers after `=>` among the first `k` children (the key
/// excepted), whether `=>` has passed, and whether a `(` followed it.
pub open spec fn target_scan(s: Seq<SyntaxNode>, key: Option<int>, k: nat) -> (Seq<Seq<char>>, bool, bool)
    decreases k,
{
    if k == 0 {
        (Seq::empty(), false, false)
    } else {
        let (ids, after, paren) = target_scan(s, key, (k - 1) as nat);
        let c = s[k - 1];
        if c.kind@ == "=>"@ {
            (ids, true, paren)
        } else if !after {
            (ids, after, paren)
        } else {
            let paren2 = paren || c.kind@ == "("@;
            if c.kind@ == "identifier"@ && key != Some(k - 1) {
                (ids.push(c.text@), after, paren2)
            } else {
                (ids, after, paren2)
            }
        }
    }
}

pub open spec fn scale_target_message() -> Seq<char> {
    "SCALE target requires a parenthesized list, e.g. `target => (col)` or `target => (col1, col2)`"@
}

/// `SETTING target => (col, ...)`: the listed columns; the list must be
/// parenthesised.
pub open spec fn targets_spec(n: SyntaxNode) -> Result<Seq<Seq<char>>, Seq<char>> {
    match first_found(n, "tab_scale_setting"@) {
        None => Ok(Seq::empty()),
        Some(st) => {
            let (ids, _, paren) = target_scan(
                st.children@,
                field_index_in(st.children@, "key"@),
                st.children@.len(),
            );
            if ids.len() > 0 && !paren {
                err(scale_target_message())
            } else {
                Ok(ids)
            }
        },
    }
}

pub open spec fn scale_clause_spec(n: SyntaxNode) -> Result<ScaleModel, Seq<char>> {
    match field_child(n, "aesthetic"@) {
        None => err("SCALE missing aesthetic"@),
        Some(a) => match palette_spec(n) {
            None => err("SCALE missing TO clause"@),
            Some(p) => match targets_spec(n) {
                Err(e) => Err(e),
                Ok(t) => Ok(
                    ScaleModel {
                        aesthetic: a.text@,
                        domain: domain_spec(n),
                        palette: p,
                        transform: transform_spec(n),
                        targets: t,
                    },
                ),
            },
        },
    }
}

fn node_texts(v: &Vec<&SyntaxNode>, unquote: bool) -> (r: Vec<String>)
    ensures
        seqs(r@) == if unquote {
            unquoted_texts(v@.map_values(|x: &SyntaxNode| *x))
        } else {
            texts(v@.map_values(|x: &SyntaxNode| *x))
        },
{
    let mut r: Vec<String> = Vec::new();
    let mut i: usize = 0;
    while i < v.len()
        invariant
            i <= v@.len(),
            r@.len() == i,
            forall|q: int|
                0 <= q < i ==> #[trigger] r@[q]@ == if unquote {
                    unquote_spec(v@[q].text@)
                } else {
                    v@[q].text@
                },
        decreases v.len() - i,
    {
        if unquote {
            r.push(unquote_string(&v[i].text));
        } else {
            r.push(owned(&v[i].text));
        }
        i += 1;
    }
    proof {
        if unquote {
            assert(seqs(r@) =~= unquoted_texts(v@.map_values(|x: &SyntaxNode| *x)));
        } else {
            assert(seqs(r@) =~= texts(v@.map_values(|x: &SyntaxNode| *x)));
        }
    }
    r
}

fn parse_targets(n: &SyntaxNode) -> (r: Result<Vec<String>, ParseError>)
    ensures
        match targets_spec(*n) {
            Ok(v) => r matches Ok(x) && seqs(x@) == v,
            Err(m) => r matches Err(e) && e.message@ == m,
        },
{
    let st = match find_first(n, "tab_scale_setting") {
        None => {
            let e: Vec<String> = Vec::new();
            proof {
                assert(seqs(e@) =~= Seq::<Seq<char>>::empty());
            }
            return Ok(e);
        },
        Some(st) => st,
    };
    let key = field_index(st, "key");
    let mut ids: Vec<String> = Vec::new();
    let mut after = false;
    let mut paren = false;
    let mut i: usize = 0;
    proof {
        assert(seqs(ids@) =~= Seq::<Seq<char>>::empty());
    }
    while i < st.children.len()
        invariant
            i <= st.children@.len(),
            match field_index_in(st.children@, "key"@) {
                Some(k) => key == Some(k as usize) && 0 <= k < st.children@.len(),
                None => key is None,
            },
            ({
                let (ids_s, after_s, paren_s) = target_scan(
                    st.children@,
                    field_index_in(st.children@, "key"@),
                    i as nat,
                );
                seqs(ids@) == ids_s && after == after_s && paren == paren_s
            }),
        decreases st.children.len() - i,
    {
        let c = &st.children[i];
        proof {
            assert((key == Some(i)) == (field_index_in(st.children@, "key"@) == Some(i as int)));
        }
        if str_eq(&c.kind, "=>") {
            after = true;
        } else if after {
            if str_eq(&c.kind, "(") {
                paren = true;
            }
            if str_eq(&c.kind, "identifier") && key != Some(i) {
                let ghost before = ids@;
                ids.push(owned(&c.text));
                proof {
                    assert(seqs(ids@) =~= seqs(before).push(c.text@));
                }
            }
        }
        i += 1;
    }
    if ids.len() > 0 && !paren {
        return Err(
            ParseError {
                message: String::from_str(
                    "SCALE target requires a parenthesized list, e.g. `target => (col)` or `target => (col1, col2)`",
                ),
            },
        );
    }
    Ok(ids)
}

fn parse_scale_clause(n: &SyntaxNode) -> (r: Result<ScaleClause, ParseError>)
    ensures
        match scale_clause_spec(*n) {
            Ok(v) => r matches Ok(x) && scale_view(x) == v,
            Err(m) => r matches Err(e) && e.message@ == m,
        },
{
    let aesthetic = match child_by_field(n, "aesthetic") {
        Some(a) => owned(&a.text),
        None => return Err(ParseError { message: String::from_str("SCALE missing aesthetic") }),
    };
    let domain = match find_first(n, "tab_scale_from") {
        Some(f) => {
            let nums = find_nodes(f, "number");
            if nums.len() >= 2 {
                proof {
                    assert(nums@.map_values(|x: &SyntaxNode| *x)[0] == *nums@[0]);
                    assert(nums@.map_values(|x: &SyntaxNode| *x)[1] == *nums@[1]);
                }
                Some((owned(&nums[0].text), owned(&nums[1].text)))
            } else {
                None
            }
        },
        None => None,
    };
    let palette = match find_first(n, "tab_scale_to") {
        None => return Err(ParseError { message: String::from_str("SCALE missing TO clause") }),
        Some(t) => match child_by_field(t, "palette") {
            Some(p) => ScalePalette::Named(owned(&p.text)),
            None => ScalePalette::Stops(node_texts(&find_nodes(t, "string"), true)),
        },
    };
    let transform = match find_first(n, "tab_scale_via") {
        Some(v) => match child_by_field(v, "transform") {
            Some(x) => Some(owned(&x.text)),
            None => None,
        },
        None => None,
    };
    let target_cols = match parse_targets(n) {
        Ok(t) => t,
        Err(e) => return Err(e),
    };
    Ok(ScaleClause { aesthetic, domain, palette, transform, target_cols })
}

} // verus!

verus! {

// ============================================================================
// HIGHLIGHT clauses
// ============================================================================

/// A HIGHLIGHT clause, as values.
pub struct HighlightModel {
    pub columns: Seq<Seq<char>>,
    pub filter: Seq<char>,
    pub settings: Seq<(Seq<char>, SettingModel)>,
}

pub open spec fn hl_setting_view(s: HighlightSetting) -> (Seq<char>, SettingModel) {
    (s.key@, setting_view(s.value))
}

pub open spec fn highlight_view(h: HighlightClause) -> HighlightModel {
    HighlightModel {
        columns: seqs(h.columns@),
        filter: h.filter@,
        settings: h.settings@.map_values(|s: HighlightSetting| hl_setting_view(s)),
    }
}

/// The identifier children among the first `k` that start before byte
/// `limit`, and whether one at or after it has stopped the scan.
pub open spec fn idents_before(s: Seq<SyntaxNode>, limit: usize, k: nat) -> (Seq<Seq<char>>, bool)
    decreases k,
{
    if k == 0 {
        (Seq::empty(), false)
    } else {
        let (ids, stopped) = idents_before(s, limit, (k - 1) as nat);
        let c = s[k - 1];
        if stopped || c.kind@ != "identifier"@ {
            (ids, stopped)
        } else if c.start >= limit {
            (ids, true)
        } else {
            (ids.push(c.text@), false)
        }
    }
}

pub open spec fn hl_pair_spec(n: SyntaxNode) -> Result<(Seq<char>, SettingModel), Seq<char>> {
    match field_child(n, "key"@) {
        None => err("HIGHLIGHT SETTING missing key"@),
        Some(k) => match setting_value_spec(n) {
            Err(e) => Err(e),
            Ok(v) => Ok((k.text@, v)),
        },
    }
}

pub open spec fn hl_pairs_spec(s: Seq<SyntaxNode>) -> Result<Seq<(Seq<char>, SettingModel)>, Seq<char>>
    decreases s.len(),
{
    if s.len() == 0 {
        Ok(Seq::empty())
    } else {
        match hl_pairs_spec(s.drop_last()) {
            Err(e) => Err(e),
            Ok(p) => match hl_pair_spec(s.last()) {
                Err(e) => Err(e),
                Ok(x) => Ok(p.push(x)),
            },
        }
    }
}

proof fn lemma_hl_pairs_err(s: Seq<SyntaxNode>, k: int)
    requires
        0 <= k <= s.len(),
        hl_pairs_spec(s.take(k)) is Err,
    ensures
        hl_pairs_spec(s) == hl_pairs_spec(s.take(k)),
    decreases s.len() - k,
{
    if k < s.len() {
        assert(s.take(k + 1).drop_last() =~= s.take(k));
        lemma_hl_pairs_err(s, k + 1);
    } else {
        assert(s.take(k) =~= s);
    }
}

/// A HIGHLIGHT clause: the columns listed before its FILTER (at least
/// one), the trimmed filter expression, and its settings.
pub open spec fn highlight_spec(n: SyntaxNode) -> Result<HighlightModel, Seq<char>> {
    match first_found(n, "filter_clause"@) {
        None => err("HIGHLIGHT missing FILTER clause"@),
        Some(f) => {
            let cols = idents_before(n.children@, f.start, n.children@.len()).0;
            if cols.len() == 0 {
                err("HIGHLIGHT requires at least one column"@)
            } else {
                match first_found(f, "filter_expression"@) {
                    None => err("HIGHLIGHT FILTER missing expression"@),
                    Some(e) => match (match first_found(n, "tab_highlight_setting"@) {
                        Some(hs) => hl_pairs_spec(find_spec(hs, "tab_highlight_pair"@)),
                        None => Ok(Seq::empty()),
                    }) {
                        Err(m) => Err(m),
                        Ok(st) => Ok(
                            HighlightModel { columns: cols, filter: trim_spec(e.text@), settings: st },
                        ),
                    },
                }
            }
        },
    }
}

fn parse_highlight_pair(n: &SyntaxNode) -> (r: Result<HighlightSetting, ParseError>)
    ensures
        match hl_pair_spec(*n) {
            Ok(v) => r matches Ok(x) && hl_setting_view(x) == v,
            Err(m) => r matches Err(e) && e.message@ == m,
        },
{
    let key = match child_by_field(n, "key") {
        Some(k) => owned(&k.text),
        None => return Err(ParseError { message: String::from_str("HIGHLIGHT SETTING missing key") }),
    };
    match parse_setting_value(n) {
        Ok(value) => Ok(HighlightSetting { key, value }),
        Err(e) => Err(e),
    }
}

fn parse_hl_pairs(pairs: &Vec<&SyntaxNode>) -> (r: Result<Vec<HighlightSetting>, ParseError>)
    ensures
        match hl_pairs_spec(pairs@.map_values(|x: &SyntaxNode| *x)) {
            Ok(v) => r matches Ok(x) && x@.map_values(|s: HighlightSetting| hl_setting_view(s)) == v,
            Err(m) => r matches Err(e) && e.message@ == m,
        },
{
    let ghost ps = pairs@.map_values(|x: &SyntaxNode| *x);
    let mut out: Vec<HighlightSetting> = Vec::new();
    let mut i: usize = 0;
    proof {
        assert(ps.take(0) =~= Seq::<SyntaxNode>::empty());
        assert(out@.map_values(|s: HighlightSetting| hl_setting_view(s)) =~= Seq::<
            (Seq<char>, SettingModel),
        >::empty());
    }
    while i < pairs.len()
        invariant
            i <= pairs@.len(),
            ps == pairs@.map_values(|x: &SyntaxNode| *x),
            hl_pairs_spec(ps.take(i as int)) == Ok::<Seq<(Seq<char>, SettingModel)>, Seq<char>>(
                out@.map_values(|s: HighlightSetting| hl_setting_view(s)),
            ),
        decreases pairs.len() - i,
    {
        proof {
            let t = ps.take(i + 1);
            assert(t.drop_last() =~= ps.take(i as int));
            assert(t.last() == *pairs@[i as int]);
        }
        match parse_highlight_pair(pairs[i]) {
            Ok(s) => {
                let ghost before = out@;
                out.push(s);
                proof {
                    assert(out@.map_values(|s: HighlightSetting| hl_setting_view(s)) =~= before.map_values(
                        |s: HighlightSetting| hl_setting_view(s),
                    ).push(hl_setting_view(s)));
                }
            },
            Err(e) => {
                proof {
                    lemma_hl_pairs_err(ps, i + 1);
                }
                return Err(e);
            },
        }
        i += 1;
    }
    proof {
        assert(ps.take(i as int) =~= ps);
    }
    Ok(out)
}

fn parse_highlight_clause(n: &SyntaxNode) -> (r: Result<HighlightClause, ParseError>)
    ensures
        match highlight_spec(*n) {
            Ok(v) => r matches Ok(x) && highlight_view(x) == v,
            Err(m) => r matches Err(e) && e.message@ == m,
        },
{
    let f = match find_first(n, "filter_clause") {
        Some(f) => f,
        None => return Err(ParseError { message: String::from_str("HIGHLIGHT missing FILTER clause") }),
    };
    let limit = f.start;
    let mut columns: Vec<String> = Vec::new();
    let mut stopped = false;
    let mut i: usize = 0;
    proof {
        assert(seqs(columns@) =~= Seq::<Seq<char>>::empty());
    }
    while i < n.children.len()
        invariant
            i <= n.children@.len(),
            ({
                let (ids, st) = idents_before(n.children@, limit, i as nat);
                seqs(columns@) == ids && stopped == st
            }),
        decreases n.children.len() - i,
    {
        let c = &n.children[i];
        if !stopped && str_eq(&c.kind, "identifier") {
            if c.start >= limit {
                stopped = true;
            } else {
                let ghost before = columns@;
                columns.push(owned(&c.text));
                proof {
                    assert(seqs(columns@) =~= seqs(before).push(c.text@));
                }
            }
        }
        i += 1;
    }
    if columns.len() == 0 {
        return Err(ParseError { message: String::from_str("HIGHLIGHT requires at least one column") });
    }
    let filter = match find_first(f, "filter_expression") {
        Some(e) => trim(&e.text),
        None => return Err(
            ParseError { message: String::from_str("HIGHLIGHT FILTER missing expression") },
        ),
    };
    let settings = match find_first(n, "tab_highlight_setting") {
        Some(hs) => {
            let pairs = find_nodes(hs, "tab_highlight_pair");
            match parse_hl_pairs(&pairs) {
                Ok(s) => s,
                Err(e) => return Err(e),
            }
        },
        None => {
            let e: Vec<HighlightSetting> = Vec::new();
            proof {
                assert(e@.map_values(|s: HighlightSetting| hl_setting_view(s)) =~= Seq::<
                    (Seq<char>, SettingModel),
                >::empty());
            }
            e
        },
    };
    Ok(HighlightClause { columns, filter, settings })
}

} // verus!

verus! {

// ============================================================================
// FACET clauses
// ============================================================================

/// A FACET setting's value, as values.
pub enum FacetValueModel {
    Str(Seq<char>),
    Num(Seq<char>),
    Bool(bool),
    Ident(Seq<char>),
    IdentList(Seq<Seq<char>>),
    StrList(Seq<Seq<char>>),
}

pub open spec fn facet_value_view(v: FacetValue) -> FacetValueModel {
    match v {
        FacetValue::String(s) => FacetValueModel::Str(s@),
        FacetValue::Number(n) => FacetValueModel::Num(n@),
        FacetValue::Bool(b) => FacetValueModel::Bool(b),
        FacetValue::Identifier(s) => FacetValueModel::Ident(s@),
        FacetValue::IdentList(l) => FacetValueModel::IdentList(seqs(l@)),
        FacetValue::StrList(l) => FacetValueModel::StrList(seqs(l@)),
    }
}

/// A value node by its kind; other kinds are refused.
pub open spec fn facet_value_spec(v: SyntaxNode) -> Result<FacetValueModel, Seq<char>> {
    let k = v.kind@;
    if k == "string"@ {
        Ok(FacetValueModel::Str(unquote_spec(v.text@)))
    } else if k == "number"@ {
        Ok(FacetValueModel::Num(v.text@))
    } else if k == "boolean"@ {
        Ok(FacetValueModel::Bool(v.text@ == "true"@))
    } else if k == "identifier"@ {
        Ok(FacetValueModel::Ident(v.text@))
    } else if k == "tab_facet_id_list"@ {
        Ok(FacetValueModel::IdentList(texts(find_spec(v, "identifier"@))))
    } else if k == "tab_facet_str_list"@ {
        Ok(FacetValueModel::StrList(unquoted_texts(find_spec(v, "string"@))))
    } else {
        err("Unsupported FACET value kind '"@ + k + "'"@)
    }
}

/// The aggregate names a value gives.
pub open spec fn agg_names(v: FacetValueModel) -> Seq<Seq<char>> {
    match v {
        FacetValueModel::Str(x) => seq![x],
        FacetValueModel::Ident(x) => seq![x],
        FacetValueModel::IdentList(l) => l,
        FacetValueModel::StrList(l) => l,
        _ => Seq::empty(),
    }
}

pub open spec fn refused_agg(x: Seq<char>) -> bool {
    lower_seq(x) == "mean"@ || lower_seq(x) == "average"@
}

/// The first refused aggregate name (`mean` or `average`).
pub open spec fn first_refused(s: Seq<Seq<char>>) -> Option<Seq<char>>
    decreases s.len(),
{
    if s.len() == 0 {
        None
    } else if refused_agg(s[0]) {
        Some(s[0])
    } else {
        first_refused(s.drop_first())
    }
}

pub open spec fn facet_target_message() -> Seq<char> {
    "FACET target requires a parenthesized list, e.g. `target => (col)` or `target => (col1, col2)`"@
}

/// A `key => value` FACET setting. `aggregate` refuses `mean` and
/// `average`; `target` refuses a bare identifier or string.
pub open spec fn facet_pair_spec(n: SyntaxNode) -> Result<(Seq<char>, FacetValueModel), Seq<char>> {
    match field_child(n, "key"@) {
        None => err("FACET SETTING missing key"@),
        Some(k) => match field_child(n, "value"@) {
            None => err("FACET SETTING missing value"@),
            Some(v) => match facet_value_spec(v) {
                Err(e) => Err(e),
                Ok(p) => {
                    let key = k.text@;
                    if lower_seq(key) == lower_seq("aggregate"@) && first_refused(agg_names(p)) is Some {
                        err(
                            "FACET aggregate '"@ + first_refused(agg_names(p))->0
                                + "' is not accepted; use 'avg' instead"@,
                        )
                    } else if lower_seq(key) == lower_seq("target"@) && (p is Ident || p is Str) {
                        err(facet_target_message())
                    } else {
                        Ok((key, p))
                    }
                },
            },
        },
    }
}

pub open spec fn facet_pairs_spec(s: Seq<SyntaxNode>) -> Result<Seq<(Seq<char>, FacetValueModel)>, Seq<char>>
    decreases s.len(),
{
    if s.len() == 0 {
        Ok(Seq::empty())
    } else {
        match facet_pairs_spec(s.drop_last()) {
            Err(e) => Err(e),
            Ok(p) => match facet_pair_spec(s.last()) {
                Err(e) => Err(e),
                Ok(x) => Ok(p.push(x)),
            },
        }
    }
}

proof fn lemma_facet_pairs_err(s: Seq<SyntaxNode>, k: int)
    requires
        0 <= k <= s.len(),
        facet_pairs_spec(s.take(k)) is Err,
    ensures
        facet_pairs_spec(s) == facet_pairs_spec(s.take(k)),
    decreases s.len() - k,
{
    if k < s.len() {
        assert(s.take(k + 1).drop_last() =~= s.take(k));
        lemma_facet_pairs_err(s, k + 1);
    } else {
        assert(s.take(k) =~= s);
    }
}

/// A FACET clause, as values.
pub struct FacetModel {
    pub group_col: Seq<char>,
    pub settings: Seq<(Seq<char>, FacetValueModel)>,
}

pub open spec fn facet_setting_view(s: FacetSetting) -> (Seq<char>, FacetValueModel) {
    (s.key@, facet_value_view(s.value))
}

pub open spec fn facet_view(f: FacetClause) -> FacetModel {
    FacetModel {
        group_col: f.group_col@,
        settings: f.settings@.map_values(|s: FacetSetting| facet_setting_view(s)),
    }
}

pub open spec fn facet_spec(n: SyntaxNode) -> Result<FacetModel, Seq<char>> {
    match field_child(n, "group"@) {
        None => err("FACET missing group column"@),
        Some(g) => match (match first_found(n, "tab_facet_setting_block"@) {
            Some(b) => facet_pairs_spec(find_spec(b, "tab_facet_pair"@)),
            None => Ok(Seq::empty()),
        }) {
            Err(e) => Err(e),
            Ok(st) => Ok(FacetModel { group_col: g.text@, settings: st }),
        },
    }
}

fn facet_value_exec(v: &SyntaxNode) -> (r: Result<FacetValue, ParseError>)
    ensures
        match facet_value_spec(*v) {
            Ok(x) => r matches Ok(y) && facet_value_view(y) == x,
            Err(m) => r matches Err(e) && e.message@ == m,
        },
{
    let k = &v.kind;
    if str_eq(k, "string") {
        Ok(FacetValue::String(unquote_string(&v.text)))
    } else if str_eq(k, "number") {
        Ok(FacetValue::Number(owned(&v.text)))
    } else if str_eq(k, "boolean") {
        Ok(FacetValue::Bool(str_eq(&v.text, "true")))
    } else if str_eq(k, "identifier") {
        Ok(FacetValue::Identifier(owned(&v.text)))
    } else if str_eq(k, "tab_facet_id_list") {
        Ok(FacetValue::IdentList(node_texts(&find_nodes(v, "identifier"), false)))
    } else if str_eq(k, "tab_facet_str_list") {
        Ok(FacetValue::StrList(node_texts(&find_nodes(v, "string"), true)))
    } else {
        let mut m = String::from_str("Unsupported FACET value kind '");
        m.push_str(k);
        m.push_str("'");
        Err(ParseError { message: m })
    }
}

fn first_refused_exec(names: &Vec<String>) -> (r: Option<String>)
    ensures
        match first_refused(seqs(names@)) {
            Some(x) => r matches Some(y) && y@ == x,
            None => r is None,
        },
{
    let ghost s = seqs(names@);
    let mut i: usize = 0;
    proof {
        assert(s.skip(0) =~= s);
    }
    while i < names.len()
        invariant
            i <= names@.len(),
            s == seqs(names@),
            first_refused(s) == first_refused(s.skip(i as int)),
        decreases names.len() - i,
    {
        proof {
            assert(s.skip(i as int)[0] == names@[i as int]@);
            assert(s.skip(i as int).drop_first() =~= s.skip(i + 1));
            reveal_strlit("mean");
            reveal_strlit("average");
        }
        let l = to_ascii_lowercase(&names[i]);
        if str_eq(&l, "mean") || str_eq(&l, "average") {
            return Some(owned(&names[i]));
        }
        i += 1;
    }
    None
}

fn agg_names_exec(v: &FacetValue) -> (r: Vec<String>)
    ensures
        seqs(r@) == agg_names(facet_value_view(*v)),
{
    let mut r: Vec<String> = Vec::new();
    match v {
        FacetValue::String(x) | FacetValue::Identifier(x) => {
            r.push(owned(x));
            proof {
                assert(seqs(r@) =~= seq![x@]);
            }
            r
        },
        FacetValue::IdentList(l) | FacetValue::StrList(l) => crate::tabulate::layout::clone_strings(l),
        _ => {
            proof {
                assert(seqs(r@) =~= Seq::<Seq<char>>::empty());
            }
            r
        },
    }
}

fn parse_facet_pair(n: &SyntaxNode) -> (r: Result<FacetSetting, ParseError>)
    ensures
        match facet_pair_spec(*n) {
            Ok(v) => r matches Ok(x) && facet_setting_view(x) == v,
            Err(m) => r matches Err(e) && e.message@ == m,
        },
{
    let key = match child_by_field(n, "key") {
        Some(k) => owned(&k.text),
        None => return Err(ParseError { message: String::from_str("FACET SETTING missing key") }),
    };
    let value = match child_by_field(n, "value") {
        Some(v) => v,
        None => return Err(ParseError { message: String::from_str("FACET SETTING missing value") }),
    };
    let parsed = match facet_value_exec(value) {
        Ok(p) => p,
        Err(e) => return Err(e),
    };
    if eq_ignore_ascii_case(&key, "aggregate") {
        let names = agg_names_exec(&parsed);
        if let Some(bad) = first_refused_exec(&names) {
            let mut m = String::from_str("FACET aggregate '");
            m.push_str(&bad);
            m.push_str("' is not accepted; use 'avg' instead");
            return Err(ParseError { message: m });
        }
    }
    if eq_ignore_ascii_case(&key, "target") {
        let bare = match parsed {
            FacetValue::Identifier(_) | FacetValue::String(_) => true,
            _ => false,
        };
        if bare {
            return Err(
                ParseError {
                    message: String::from_str(
                        "FACET target requires a parenthesized list, e.g. `target => (col)` or `target => (col1, col2)`",
                    ),
                },
            );
        }
    }
    Ok(FacetSetting { key, value: parsed })
}

fn parse_facet_clause(n: &SyntaxNode) -> (r: Result<FacetClause, ParseError>)
    ensures
        match facet_spec(*n) {
            Ok(v) => r matches Ok(x) && facet_view(x) == v,
            Err(m) => r matches Err(e) && e.message@ == m,
        },
{
    let group_col = match child_by_field(n, "group") {
        Some(g) => owned(&g.text),
        None => return Err(ParseError { message: String::from_str("FACET missing group column") }),
    };
    let mut settings: Vec<FacetSetting> = Vec::new();
    proof {
        assert(settings@.map_values(|s: FacetSetting| facet_setting_view(s)) =~= Seq::<
            (Seq<char>, FacetValueModel),
        >::empty());
    }
    if let Some(b) = find_first(n, "tab_facet_setting_block") {
        let pairs = find_nodes(b, "tab_facet_pair");
        let ghost ps = pairs@.map_values(|x: &SyntaxNode| *x);
        let mut i: usize = 0;
        proof {
            assert(ps.take(0) =~= Seq::<SyntaxNode>::empty());
        }
        while i < pairs.len()
            invariant
                i <= pairs@.len(),
                ps == pairs@.map_values(|x: &SyntaxNode| *x),
                ps == find_spec(*b, "tab_facet_pair"@),
                first_found(*n, "tab_facet_setting_block"@) == Some(*b),
                field_child(*n, "group"@) is Some,
                facet_pairs_spec(ps.take(i as int)) == Ok::<
                    Seq<(Seq<char>, FacetValueModel)>,
                    Seq<char>,
                >(settings@.map_values(|s: FacetSetting| facet_setting_view(s))),
            decreases pairs.len() - i,
        {
            proof {
                let t = ps.take(i + 1);
                assert(t.drop_last() =~= ps.take(i as int));
                assert(t.last() == *pairs@[i as int]);
            }
            match parse_facet_pair(pairs[i]) {
                Ok(s) => {
                    let ghost before = settings@;
                    settings.push(s);
                    proof {
                        assert(settings@.map_values(|s: FacetSetting| facet_setting_view(s))
                            =~= before.map_values(|s: FacetSetting| facet_setting_view(s)).push(
                            facet_setting_view(s),
                        ));
                    }
                },
                Err(e) => {
                    proof {
                        lemma_facet_pairs_err(ps, i + 1);
                    }
                    return Err(e);
                },
            }
            i += 1;
        }
        proof {
            assert(ps.take(i as int) =~= ps);
        }
    }
    Ok(FacetClause { group_col, settings })
}

} // verus!

verus! {

// ============================================================================
// The statement
// ============================================================================

pub open spec fn format_clauses_spec(s: Seq<SyntaxNode>) -> Result<Seq<FormatClauseModel>, Seq<char>>
    decreases s.len(),
{
    if s.len() == 0 {
        Ok(Seq::empty())
    } else {
        match format_clauses_spec(s.drop_last()) {
            Err(e) => Err(e),
            Ok(p) => match format_clause_spec(s.last()) {
                Err(e) => Err(e),
                Ok(x) => Ok(p.push(x)),
            },
        }
    }
}

pub open spec fn scale_clauses_spec(s: Seq<SyntaxNode>) -> Result<Seq<ScaleModel>, Seq<char>>
    decreases s.len(),
{
    if s.len() == 0 {
        Ok(Seq::empty())
    } else {
        match scale_clauses_spec(s.drop_last()) {
            Err(e) => Err(e),
            Ok(p) => match scale_clause_spec(s.last()) {
                Err(e) => Err(e),
                Ok(x) => Ok(p.push(x)),
            },
        }
    }
}

pub open spec fn highlights_spec(s: Seq<SyntaxNode>) -> Result<Seq<HighlightModel>, Seq<char>>
    decreases s.len(),
{
    if s.len() == 0 {
        Ok(Seq::empty())
    } else {
        match highlights_spec(s.drop_last()) {
            Err(e) => Err(e),
            Ok(p) => match highlight_spec(s.last()) {
                Err(e) => Err(e),
                Ok(x) => Ok(p.push(x)),
            },
        }
    }
}

proof fn lemma_format_clauses_err(s: Seq<SyntaxNode>, k: int)
    requires
        0 <= k <= s.len(),
        format_clauses_spec(s.take(k)) is Err,
    ensures
        format_clauses_spec(s) == format_clauses_spec(s.take(k)),
    decreases s.len() - k,
{
    if k < s.len() {
        assert(s.take(k + 1).drop_last() =~= s.take(k));
        lemma_format_clauses_err(s, k + 1);
    } else {
        assert(s.take(k) =~= s);
    }
}

proof fn lemma_scale_clauses_err(s: Seq<SyntaxNode>, k: int)
    requires
        0 <= k <= s.len(),
        scale_clauses_spec(s.take(k)) is Err,
    ensures
        scale_clauses_spec(s) == scale_clauses_spec(s.take(k)),
    decreases s.len() - k,
{
    if k < s.len() {
        assert(s.take(k + 1).drop_last() =~= s.take(k));
        lemma_scale_clauses_err(s, k + 1);
    } else {
        assert(s.take(k) =~= s);
    }
}

proof fn lemma_highlights_err(s: Seq<SyntaxNode>, k: int)
    requires
        0 <= k <= s.len(),
        highlights_spec(s.take(k)) is Err,
    ensures
        highlights_spec(s) == highlights_spec(s.take(k)),
    decreases s.len() - k,
{
    if k < s.len() {
        assert(s.take(k + 1).drop_last() =~= s.take(k));
        lemma_highlights_err(s, k + 1);
    } else {
        assert(s.take(k) =~= s);
    }
}

fn parse_format_clauses(nodes: &Vec<&SyntaxNode>) -> (r: Result<Vec<FormatClause>, ParseError>)
    ensures
        match format_clauses_spec(nodes@.map_values(|x: &SyntaxNode| *x)) {
            Ok(v) => r matches Ok(x) && x@.map_values(|c: FormatClause| format_clause_view(c)) == v,
            Err(m) => r matches Err(e) && e.message@ == m,
        },
{
    let ghost ps = nodes@.map_values(|x: &SyntaxNode| *x);
    let mut out: Vec<FormatClause> = Vec::new();
    let mut i: usize = 0;
    proof {
        assert(ps.take(0) =~= Seq::<SyntaxNode>::empty());
        assert(out@.map_values(|c: FormatClause| format_clause_view(c)) =~= Seq::<
            FormatClauseModel,
        >::empty());
    }
    while i < nodes.len()
        invariant
            i <= nodes@.len(),
            ps == nodes@.map_values(|x: &SyntaxNode| *x),
            format_clauses_spec(ps.take(i as int)) == Ok::<Seq<FormatClauseModel>, Seq<char>>(
                out@.map_values(|c: FormatClause| format_clause_view(c)),
            ),
        decreases nodes.len() - i,
    {
        proof {
            let t = ps.take(i + 1);
            assert(t.drop_last() =~= ps.take(i as int));
            assert(t.last() == *nodes@[i as int]);
        }
        match parse_format_clause(nodes[i]) {
            Ok(c) => {
                let ghost before = out@;
                out.push(c);
                proof {
                    assert(out@.map_values(|c: FormatClause| format_clause_view(c)) =~= before.map_values(
                        |c: FormatClause| format_clause_view(c),
                    ).push(format_clause_view(c)));
                }
            },
            Err(e) => {
                proof {
                    lemma_format_clauses_err(ps, i + 1);
                }
                return Err(e);
            },
        }
        i += 1;
    }
    proof {
        assert(ps.take(i as int) =~= ps);
    }
    Ok(out)
}

fn parse_scale_clauses(nodes: &Vec<&SyntaxNode>) -> (r: Result<Vec<ScaleClause>, ParseError>)
    ensures
        match scale_clauses_spec(nodes@.map_values(|x: &SyntaxNode| *x)) {
            Ok(v) => r matches Ok(x) && x@.map_values(|c: ScaleClause| scale_view(c)) == v,
            Err(m) => r matches Err(e) && e.message@ == m,
        },
{
    let ghost ps = nodes@.map_values(|x: &SyntaxNode| *x);
    let mut out: Vec<ScaleClause> = Vec::new();
    let mut i: usize = 0;
    proof {
        assert(ps.take(0) =~= Seq::<SyntaxNode>::empty());
        assert(out@.map_values(|c: ScaleClause| scale_view(c)) =~= Seq::<ScaleModel>::empty());
    }
    while i < nodes.len()
        invariant
            i <= nodes@.len(),
            ps == nodes@.map_values(|x: &SyntaxNode| *x),
            scale_clauses_spec(ps.take(i as int)) == Ok::<Seq<ScaleModel>, Seq<char>>(
                out@.map_values(|c: ScaleClause| scale_view(c)),
            ),
        decreases nodes.len() - i,
    {
        proof {
            let t = ps.take(i + 1);
            assert(t.drop_last() =~= ps.take(i as int));
            assert(t.last() == *nodes@[i as int]);
        }
        match parse_scale_clause(nodes[i]) {
            Ok(c) => {
                let ghost before = out@;
                out.push(c);
                proof {
                    assert(out@.map_values(|c: ScaleClause| scale_view(c)) =~= before.map_values(
                        |c: ScaleClause| scale_view(c),
                    ).push(scale_view(c)));
                }
            },
            Err(e) => {
                proof {
                    lemma_scale_clauses_err(ps, i + 1);
                }
                return Err(e);
            },
        }
        i += 1;
    }
    proof {
        assert(ps.take(i as int) =~= ps);
    }
    Ok(out)
}

fn parse_highlight_clauses(nodes: &Vec<&SyntaxNode>) -> (r: Result<Vec<HighlightClause>, ParseError>)
    ensures
        match highlights_spec(nodes@.map_values(|x: &SyntaxNode| *x)) {
            Ok(v) => r matches Ok(x) && x@.map_values(|c: HighlightClause| highlight_view(c)) == v,
            Err(m) => r matches Err(e) && e.message@ == m,
        },
{
    let ghost ps = nodes@.map_values(|x: &SyntaxNode| *x);
    let mut out: Vec<HighlightClause> = Vec::new();
    let mut i: usize = 0;
    proof {
        assert(ps.take(0) =~= Seq::<SyntaxNode>::empty());
        assert(out@.map_values(|c: HighlightClause| highlight_view(c)) =~= Seq::<
            HighlightModel,
        >::empty());
    }
    while i < nodes.len()
        invariant
            i <= nodes@.len(),
            ps == nodes@.map_values(|x: &SyntaxNode| *x),
            highlights_spec(ps.take(i as int)) == Ok::<Seq<HighlightModel>, Seq<char>>(
                out@.map_values(|c: HighlightClause| highlight_view(c)),
            ),
        decreases nodes.len() - i,
    {
        proof {
            let t = ps.take(i + 1);
            assert(t.drop_last() =~= ps.take(i as int));
            assert(t.last() == *nodes@[i as int]);
        }
        match parse_highlight_clause(nodes[i]) {
            Ok(c) => {
                let ghost before = out@;
                out.push(c);
                proof {
                    assert(out@.map_values(|c: HighlightClause| highlight_view(c)) =~= before.map_values(
                        |c: HighlightClause| highlight_view(c),
                    ).push(highlight_view(c)));
                }
            },
            Err(e) => {
                proof {
                    lemma_highlights_err(ps, i + 1);
                }
                return Err(e);
            },
        }
        i += 1;
    }
    proof {
        assert(ps.take(i as int) =~= ps);
    }
    Ok(out)
}

/// A TABULATE statement, as values.
pub struct StmtModel {
    pub columns: Seq<Seq<char>>,
    pub from_source: Option<Seq<char>>,
    pub format_clauses: Seq<FormatClauseModel>,
    pub label: Option<LabelModel>,
    pub scale_clauses: Seq<ScaleModel>,
    pub highlight_clauses: Seq<HighlightModel>,
    pub facet: Option<FacetModel>,
}

pub open spec fn stmt_view(s: TabulateStmt) -> StmtModel {
    StmtModel {
        columns: seqs(s.columns@),
        from_source: match s.from_source {
            Some(f) => Some(f@),
            None => None,
        },
        format_clauses: s.format_clauses@.map_values(|c: FormatClause| format_clause_view(c)),
        label: match s.label {
            Some(l) => Some(label_view(l)),
            None => None,
        },
        scale_clauses: s.scale_clauses@.map_values(|c: ScaleClause| scale_view(c)),
        highlight_clauses: s.highlight_clauses@.map_values(|c: HighlightClause| highlight_view(c)),
        facet: match s.facet {
            Some(f) => Some(facet_view(f)),
            None => None,
        },
    }
}

/// `TABULATE *` selects every column (none listed); otherwise the listed
/// identifiers.
pub open spec fn cols_spec(st: SyntaxNode) -> Seq<Seq<char>> {
    match first_found(st, "tab_col_list"@) {
        Some(cl) => if trim_spec(cl.text@) == "*"@ {
            Seq::empty()
        } else {
            texts(find_spec(cl, "identifier"@))
        },
        None => Seq::empty(),
    }
}

pub open spec fn from_spec(st: SyntaxNode) -> Option<Seq<char>> {
    match first_found(st, "tab_from_clause"@) {
        Some(f) => match first_found(f, "identifier"@) {
            Some(i) => Some(i.text@),
            None => None,
        },
        None => None,
    }
}

pub open spec fn exclusive_message() -> Seq<char> {
    "VISUALISE and TABULATE are mutually exclusive in a single query; use separate queries for each output mode."@
}

/// The first TABULATE statement of the query, lowered; its clauses are
/// lowered in order and the first error wins. A query that also holds a
/// VISUALISE statement, or none, is refused, as is one with two LABEL or
/// two FACET clauses.
pub open spec fn parse_spec(root: SyntaxNode) -> Result<StmtModel, Seq<char>> {
    let stmts = find_spec(root, "tabulate_statement"@);
    let viz = find_spec(root, "visualise_statement"@);
    if viz.len() > 0 && stmts.len() > 0 {
        err(exclusive_message())
    } else if stmts.len() == 0 {
        err("No TABULATE statement found in query"@)
    } else {
        let st = stmts[0];
        match format_clauses_spec(find_spec(st, "format_clause"@)) {
            Err(e) => Err(e),
            Ok(fcs) => {
                let labels = find_spec(st, "label_clause"@);
                if labels.len() > 1 {
                    err("TABULATE allows at most one LABEL clause"@)
                } else {
                    match (if labels.len() == 1 {
                        match label_fold(find_spec(labels[0], "label_assignment"@)) {
                            Ok(l) => Ok(Some(l)),
                            Err(e) => Err(e),
                        }
                    } else {
                        Ok(None)
                    }) {
                        Err(e) => Err(e),
                        Ok(label) => match scale_clauses_spec(find_spec(st, "tab_scale_clause"@)) {
                            Err(e) => Err(e),
                            Ok(scs) => match highlights_spec(find_spec(st, "tab_highlight_clause"@)) {
                                Err(e) => Err(e),
                                Ok(hls) => {
                                    let facets = find_spec(st, "tab_facet_clause"@);
                                    if facets.len() > 1 {
                                        err("TABULATE allows at most one FACET clause"@)
                                    } else {
                                        match (if facets.len() == 1 {
                                            match facet_spec(facets[0]) {
                                                Ok(f) => Ok(Some(f)),
                                                Err(e) => Err(e),
                                            }
                                        } else {
                                            Ok(None)
                                        }) {
                                            Err(e) => Err(e),
                                            Ok(facet) => Ok(
                                                StmtModel {
                                                    columns: cols_spec(st),
                                                    from_source: from_spec(st),
                                                    format_clauses: fcs,
                                                    label,
                                                    scale_clauses: scs,
                                                    highlight_clauses: hls,
                                                    facet,
                                                },
                                            ),
                                        }
                                    }
                                },
                            },
                        },
                    }
                }
            },
        }
    }
}

/// Lower the query's TABULATE statement from its syntax tree.
pub fn parse_tabulate(root: &SyntaxNode) -> (r: Result<TabulateStmt, ParseError>)
    ensures
        match parse_spec(*root) {
            Ok(v) => r matches Ok(x) && stmt_view(x) == v,
            Err(m) => r matches Err(e) && e.message@ == m,
        },
{
    let stmts = find_nodes(root, "tabulate_statement");
    let viz = find_nodes(root, "visualise_statement");
    proof {
        assert(stmts@.map_values(|x: &SyntaxNode| *x).len() == stmts@.len());
        assert(viz@.map_values(|x: &SyntaxNode| *x).len() == viz@.len());
    }
    if viz.len() > 0 && stmts.len() > 0 {
        return Err(
            ParseError {
                message: String::from_str(
                    "VISUALISE and TABULATE are mutually exclusive in a single query; use separate queries for each output mode.",
                ),
            },
        );
    }
    if stmts.len() == 0 {
        return Err(ParseError { message: String::from_str("No TABULATE statement found in query") });
    }
    let st = stmts[0];
    proof {
        assert(stmts@.map_values(|x: &SyntaxNode| *x)[0] == *st);
    }
    // column list
    let columns: Vec<String> = match find_first(st, "tab_col_list") {
        Some(cl) => {
            let t = trim(&cl.text);
            if str_eq(&t, "*") {
                let e: Vec<String> = Vec::new();
                proof {
                    assert(seqs(e@) =~= Seq::<Seq<char>>::empty());
                }
                e
            } else {
                node_texts(&find_nodes(cl, "identifier"), false)
            }
        },
        None => {
            let e: Vec<String> = Vec::new();
            proof {
                assert(seqs(e@) =~= Seq::<Seq<char>>::empty());
            }
            e
        },
    };
    // FROM source
    let from_source = match find_first(st, "tab_from_clause") {
        Some(f) => match find_first(f, "identifier") {
            Some(i) => Some(owned(&i.text)),
            None => None,
        },
        None => None,
    };
    let format_clauses = match parse_format_clauses(&find_nodes(st, "format_clause")) {
        Ok(v) => v,
        Err(e) => return Err(e),
    };
    let labels = find_nodes(st, "label_clause");
    proof {
        assert(labels@.map_values(|x: &SyntaxNode| *x).len() == labels@.len());
    }
    if labels.len() > 1 {
        return Err(ParseError { message: String::from_str("TABULATE allows at most one LABEL clause") });
    }
    let label = if labels.len() == 1 {
        proof {
            assert(labels@.map_values(|x: &SyntaxNode| *x)[0] == *labels@[0]);
        }
        match parse_label_clause(labels[0]) {
            Ok(l) => Some(l),
            Err(e) => return Err(e),
        }
    } else {
        None
    };
    let scale_clauses = match parse_scale_clauses(&find_nodes(st, "tab_scale_clause")) {
        Ok(v) => v,
        Err(e) => return Err(e),
    };
    let highlight_clauses = match parse_highlight_clauses(&find_nodes(st, "tab_highlight_clause")) {
        Ok(v) => v,
        Err(e) => return Err(e),
    };
    let facets = find_nodes(st, "tab_facet_clause");
    proof {
        assert(facets@.map_values(|x: &SyntaxNode| *x).len() == facets@.len());
    }
    if facets.len() > 1 {
        return Err(ParseError { message: String::from_str("TABULATE allows at most one FACET clause") });
    }
    let facet = if facets.len() == 1 {
        proof {
            assert(facets@.map_values(|x: &SyntaxNode| *x)[0] == *facets@[0]);
        }
        match parse_facet_clause(facets[0]) {
            Ok(f) => Some(f),
            Err(e) => return Err(e),
        }
    } else {
        None
    };
    Ok(
        TabulateStmt {
            columns,
            from_source,
            format_clauses,
            label,
            scale_clauses,
            highlight_clauses,
            facet,
        },
    )
}

} // verus!

verus! {

// ============================================================================
// The SQL part's table
// ============================================================================

/// The `identifier` named children among `s`.
pub open spec fn ident_children(s: Seq<SyntaxNode>) -> Seq<Seq<char>>
    decreases s.len(),
{
    if s.len() == 0 {
        Seq::empty()
    } else {
        ident_children(s.drop_last()) + if s.last().named && s.last().kind@ == "identifier"@ {
            seq![s.last().text@]
        } else {
            Seq::empty()
        }
    }
}

/// The node sits under the field `table`.
pub open spec fn in_table_field(n: SyntaxNode) -> bool {
    n.field matches Some(f) && f@ == "table"@
}

/// The identifiers of the `table:` qualified names among `s`.
pub open spec fn qualified_idents(s: Seq<SyntaxNode>) -> Seq<Seq<char>>
    decreases s.len(),
{
    if s.len() == 0 {
        Seq::empty()
    } else {
        qualified_idents(s.drop_last()) + if s.last().named && s.last().kind@ == "qualified_name"@
            && in_table_field(s.last()) {
            ident_children(s.last().children@)
        } else {
            Seq::empty()
        }
    }
}

/// The table identifiers of the `table_ref` children among `s`.
pub open spec fn ref_idents(s: Seq<SyntaxNode>) -> Seq<Seq<char>>
    decreases s.len(),
{
    if s.len() == 0 {
        Seq::empty()
    } else {
        ref_idents(s.drop_last()) + if s.last().named && s.last().kind@ == "table_ref"@ {
            qualified_idents(s.last().children@)
        } else {
            Seq::empty()
        }
    }
}

/// The table identifiers of the FROM clauses `s`, in order.
pub open spec fn from_idents(s: Seq<SyntaxNode>) -> Seq<Seq<char>>
    decreases s.len(),
{
    if s.len() == 0 {
        Seq::empty()
    } else {
        from_idents(s.drop_last()) + ref_idents(s.last().children@)
    }
}

/// The first table a FROM clause of the query's SQL part names.
pub open spec fn sql_table_spec(root: SyntaxNode) -> Option<Seq<char>> {
    match first_found(root, "sql_portion"@) {
        None => None,
        Some(sql) => {
            let ids = from_idents(find_spec(sql, "from_clause"@));
            if ids.len() > 0 {
                Some(ids[0])
            } else {
                None
            }
        },
    }
}

fn ident_children_exec(s: &Vec<SyntaxNode>) -> (r: Vec<String>)
    ensures
        seqs(r@) == ident_children(s@),
{
    let mut r: Vec<String> = Vec::new();
    let mut i: usize = 0;
    proof {
        assert(s@.take(0) =~= Seq::<SyntaxNode>::empty());
        assert(seqs(r@) =~= Seq::<Seq<char>>::empty());
    }
    while i < s.len()
        invariant
            i <= s@.len(),
            seqs(r@) == ident_children(s@.take(i as int)),
        decreases s.len() - i,
    {
        proof {
            let t = s@.take(i + 1);
            assert(t.drop_last() =~= s@.take(i as int));
            assert(t.last() == s@[i as int]);
        }
        let ghost before = seqs(r@);
        if s[i].named && str_eq(&s[i].kind, "identifier") {
            r.push(owned(&s[i].text));
        }
        proof {
            assert(seqs(r@) =~= before + if s@[i as int].named && s@[i as int].kind@ == "identifier"@ {
                seq![s@[i as int].text@]
            } else {
                Seq::empty()
            });
        }
        i += 1;
    }
    proof {
        assert(s@.take(i as int) =~= s@);
    }
    r
}

fn append_strings(a: &mut Vec<String>, b: Vec<String>)
    ensures
        seqs(final(a)@) == seqs(old(a)@) + seqs(b@),
{
    let ghost start = seqs(a@);
    let mut i: usize = 0;
    while i < b.len()
        invariant
            i <= b@.len(),
            seqs(a@) == start + seqs(b@).take(i as int),
        decreases b.len() - i,
    {
        let ghost before = seqs(a@);
        a.push(owned(&b[i]));
        proof {
            assert(seqs(a@) =~= before.push(b@[i as int]@));
            assert(seqs(b@).take(i + 1) =~= seqs(b@).take(i as int).push(b@[i as int]@));
        }
        i += 1;
    }
    proof {
        assert(seqs(b@).take(i as int) =~= seqs(b@));
    }
}

fn qualified_idents_exec(s: &Vec<SyntaxNode>) -> (r: Vec<String>)
    ensures
        seqs(r@) == qualified_idents(s@),
{
    let mut r: Vec<String> = Vec::new();
    let mut i: usize = 0;
    proof {
        assert(s@.take(0) =~= Seq::<SyntaxNode>::empty());
        assert(seqs(r@) =~= Seq::<Seq<char>>::empty());
    }
    while i < s.len()
        invariant
            i <= s@.len(),
            seqs(r@) == qualified_idents(s@.take(i as int)),
        decreases s.len() - i,
    {
        proof {
            let t = s@.take(i + 1);
            assert(t.drop_last() =~= s@.take(i as int));
            assert(t.last() == s@[i as int]);
        }
        let c = &s[i];
        let is_table = match &c.field {
            Some(f) => str_eq(f, "table"),
            None => false,
        };
        let ghost before = seqs(r@);
        if c.named && str_eq(&c.kind, "qualified_name") && is_table {
            append_strings(&mut r, ident_children_exec(&c.children));
        }
        proof {
            assert(seqs(r@) =~= before + if c.named && c.kind@ == "qualified_name"@ && in_table_field(
                *c,
            ) {
                ident_children(c.children@)
            } else {
                Seq::empty()
            });
        }
        i += 1;
    }
    proof {
        assert(s@.take(i as int) =~= s@);
    }
    r
}

fn ref_idents_exec(s: &Vec<SyntaxNode>) -> (r: Vec<String>)
    ensures
        seqs(r@) == ref_idents(s@),
{
    let mut r: Vec<String> = Vec::new();
    let mut i: usize = 0;
    proof {
        assert(s@.take(0) =~= Seq::<SyntaxNode>::empty());
        assert(seqs(r@) =~= Seq::<Seq<char>>::empty());
    }
    while i < s.len()
        invariant
            i <= s@.len(),
            seqs(r@) == ref_idents(s@.take(i as int)),
        decreases s.len() - i,
    {
        proof {
            let t = s@.take(i + 1);
            assert(t.drop_last() =~= s@.take(i as int));
            assert(t.last() == s@[i as int]);
        }
        let c = &s[i];
        let ghost before = seqs(r@);
        if c.named && str_eq(&c.kind, "table_ref") {
            append_strings(&mut r, qualified_idents_exec(&c.children));
        }
        proof {
            assert(seqs(r@) =~= before + if c.named && c.kind@ == "table_ref"@ {
                qualified_idents(c.children@)
            } else {
                Seq::empty()
            });
        }
        i += 1;
    }
    proof {
        assert(s@.take(i as int) =~= s@);
    }
    r
}

/// The table the query's SQL part reads first: for `SELECT ... FROM
/// gtcars TABULATE ...`, `gtcars`.
pub fn extract_sql_from_table(root: &SyntaxNode) -> (r: Option<String>)
    ensures
        match sql_table_spec(*root) {
            Some(t) => r matches Some(x) && x@ == t,
            None => r is None,
        },
{
    let sql = match find_first(root, "sql_portion") {
        Some(s) => s,
        None => return None,
    };
    let fcs = find_nodes(sql, "from_clause");
    let ghost fs = fcs@.map_values(|x: &SyntaxNode| *x);
    let mut ids: Vec<String> = Vec::new();
    let mut i: usize = 0;
    proof {
        assert(fs.take(0) =~= Seq::<SyntaxNode>::empty());
        assert(seqs(ids@) =~= Seq::<Seq<char>>::empty());
    }
    while i < fcs.len()
        invariant
            i <= fcs@.len(),
            fs == fcs@.map_values(|x: &SyntaxNode| *x),
            seqs(ids@) == from_idents(fs.take(i as int)),
        decreases fcs.len() - i,
    {
        proof {
            let t = fs.take(i + 1);
            assert(t.drop_last() =~= fs.take(i as int));
            assert(t.last() == *fcs@[i as int]);
        }
        append_strings(&mut ids, ref_idents_exec(&fcs[i].children));
        i += 1;
    }
    proof {
        assert(fs.take(i as int) =~= fs);
    }
    if ids.len() > 0 {
        proof {
            assert(seqs(ids@)[0] == ids@[0]@);
        }
        Some(owned(&ids[0]))
    } else {
        None
    }
}

} // verus!
