//! Cell formatters for `FORMAT ... RENAMING * => '<spec>'`.
//!
//! The RHS is a literal template with a single `{...}` formatter span. Any
//! text before or after the span is appended verbatim to every formatted
//! cell. Inside the braces:
//!
//! * `{:num <printf-body>}` — numeric formatter; the body is a `printf(3)`
//!   conversion specification with its leading `%` (`%'d`, `%.3f`, `%.2e`).
//! * `{:time <strftime>}` — date / time formatter with gt-compatible tokens.
//! * `{}`, `{:title}`, `{:upper}`, `{:lower}` — string pass-through and case
//!   transforms (keywords match ASCII-case-insensitively).
//!
//! Numeric values reach this module already reduced to the integer or
//! digit strings a conversion prints (see [`NumValue`]); everything from
//! there on — thousands grouping, signs, the scientific HTML, prefix and
//! suffix — is decided here.

use crate::text::{
    ascii_lower_char, ascii_text, is_ascii_lower, is_ascii_upper, upper_seq, ascii_upper_char, chars_of, decimal, eq_ignore_ascii_case, find_char,
    find_char_spec, is_first_char, lemma_first_char_unique, lemma_first_occurrence_unique, occurs_at, find_seq, find_spec, is_first_occurrence, is_ascii_digit, is_whitespace, lower_char, lower_seq,
    pad_left, push_padded, string_of, to_ascii_lowercase, trim_spec, u64_to_decimal,
    upper_char, white_space, count_leading_ws, count_trailing_ws,
};
use chrono::{Datelike, Timelike};
use vstd::prelude::*;

verus! {

// ============================================================================
// Template splitting
// ============================================================================

/// `rhs` split around its first `{` and the first `}` after it:
/// `(prefix, body, suffix)`.
pub open spec fn split_braces(rhs: Seq<char>) -> Option<(Seq<char>, Seq<char>, Seq<char>)> {
    match find_char_spec(rhs, '{') {
        None => None,
        Some(open) => {
            let after = rhs.subrange(open + 1, rhs.len() as int);
            match find_char_spec(after, '}') {
                None => None,
                Some(close) => Some(
                    (
                        rhs.subrange(0, open),
                        after.subrange(0, close),
                        after.subrange(close + 1, after.len() as int),
                    ),
                ),
            }
        },
    }
}

/// The needle `{:<keyword> ` that opens a `num` / `time` span.
pub open spec fn keyword_needle(keyword: Seq<char>) -> Seq<char> {
    seq!['{', ':'] + lower_seq(keyword) + seq![' ']
}

/// Where `{:<keyword> ` first occurs in `rhs`, matched ASCII-case-
/// insensitively: the offset of `{` and the offset just past the space.
pub open spec fn find_keyword_spec(rhs: Seq<char>, keyword: Seq<char>) -> Option<(int, int)> {
    match find_spec(lower_seq(rhs), keyword_needle(keyword)) {
        Some(open) => Some((open, open + keyword_needle(keyword).len())),
        None => None,
    }
}

/// `rhs` split around a `{:<keyword> ...}` span: `(prefix, body, suffix)`,
/// the body being what lies between the keyword's trailing space and the
/// next `}`.
pub open spec fn split_keyword(rhs: Seq<char>, keyword: Seq<char>) -> Option<
    (Seq<char>, Seq<char>, Seq<char>),
> {
    match find_keyword_spec(rhs, keyword) {
        None => None,
        Some((open, after_open)) => {
            let after = rhs.subrange(after_open, rhs.len() as int);
            match find_char_spec(after, '}') {
                None => None,
                Some(close) => Some(
                    (
                        rhs.subrange(0, open),
                        after.subrange(0, close),
                        after.subrange(close + 1, after.len() as int),
                    ),
                ),
            }
        },
    }
}

/// A prefix / body / suffix split of a template.
pub struct Split {
    pub prefix: String,
    pub body: String,
    pub suffix: String,
}

fn split_at_close(v: &Vec<char>, open: usize, body_start: usize) -> (r: Option<Split>)
    requires
        open < body_start <= v.len(),
    ensures
        ({
            let after = v@.subrange(body_start as int, v@.len() as int);
            match find_char_spec(after, '}') {
                None => r is None,
                Some(close) => r matches Some(sp) && sp.prefix@ == v@.subrange(0, open as int)
                    && sp.body@ == after.subrange(0, close) && sp.suffix@ == after.subrange(
                    close + 1,
                    after.len() as int,
                ),
            }
        }),
{
    let mut after: Vec<char> = Vec::new();
    let mut i = body_start;
    while i < v.len()
        invariant
            body_start <= i <= v.len(),
            after@ == v@.subrange(body_start as int, i as int),
        decreases v.len() - i,
    {
        after.push(v[i]);
        proof {
            assert(v@.subrange(body_start as int, i + 1) =~= v@.subrange(body_start as int, i as int).push(v@[i as int]));
        }
        i += 1;
    }
    match find_char(&after, '}') {
        None => None,
        Some(close) => Some(
            Split {
                prefix: string_of(v, 0, open),
                body: string_of(&after, 0, close),
                suffix: string_of(&after, close + 1, after.len()),
            },
        ),
    }
}

/// Split `rhs` around its first `{...}` span.
pub fn split_template(rhs: &str) -> (r: Option<Split>)
    ensures
        match split_braces(rhs@) {
            None => r is None,
            Some((p, b, s)) => r matches Some(sp) && sp.prefix@ == p && sp.body@ == b
                && sp.suffix@ == s,
        },
{
    let v = chars_of(rhs);
    match find_char(&v, '{') {
        None => None,
        Some(open) => split_at_close(&v, open, open + 1),
    }
}

/// Find the byte offset of `{:<keyword> ` (with trailing space) inside
/// `rhs`, matching the keyword case-insensitively. Returns `(open,
/// after_open)`: the offset of `{` and the offset just past the space.
pub fn find_keyword(rhs: &str, keyword: &str) -> (r: Option<(usize, usize)>)
    ensures
        match find_keyword_spec(rhs@, keyword@) {
            None => r is None,
            Some((a, b)) => r matches Some((o, e)) && o as int == a && e as int == b,
        },
{
    let mut needle: Vec<char> = Vec::new();
    needle.push('{');
    needle.push(':');
    let kl = chars_of(&to_ascii_lowercase(keyword));
    let mut i: usize = 0;
    while i < kl.len()
        invariant
            i <= kl.len(),
            kl@ == lower_seq(keyword@),
            needle@ == seq!['{', ':'] + kl@.take(i as int),
        decreases kl.len() - i,
    {
        needle.push(kl[i]);
        proof {
            assert(kl@.take(i + 1) =~= kl@.take(i as int).push(kl@[i as int]));
        }
        i += 1;
    }
    needle.push(' ');
    proof {
        assert(kl@.take(kl.len() as int) =~= kl@);
        assert(needle@ =~= keyword_needle(keyword@));
    }
    let hay = chars_of(&to_ascii_lowercase(rhs));
    match find_seq(&hay, &needle) {
        None => None,
        Some(open) => {
            let hl = hay.len();
            let nl = needle.len();
            proof {
                assert(is_first_occurrence(hay@, needle@, open as int));
                assert(open + nl <= hl);
            }
            Some((open, open + nl))
        },
    }
}

/// Split `rhs` around a `{:<keyword> ...}` span.
pub fn split_keyword_template(rhs: &str, keyword: &str) -> (r: Option<Split>)
    ensures
        match split_keyword(rhs@, keyword@) {
            None => r is None,
            Some((p, b, s)) => r matches Some(sp) && sp.prefix@ == p && sp.body@ == b
                && sp.suffix@ == s,
        },
{
    match find_keyword(rhs, keyword) {
        None => None,
        Some((open, after_open)) => {
            let v = chars_of(rhs);
            proof {
                assert(lower_seq(rhs@).len() == rhs@.len());
                let n = keyword_needle(keyword@);
                crate::text::lemma_find_spec_some(lower_seq(rhs@), n);
                assert(find_spec(lower_seq(rhs@), n) == Some(open as int));
                assert(is_first_occurrence(lower_seq(rhs@), n, open as int));
                assert(after_open == open + n.len());
            }
            split_at_close(&v, open, after_open)
        },
    }
}

// ============================================================================
// String / case transforms: `{:title}`, `{:upper}`, `{:lower}`, `{}`
// ============================================================================

#[derive(Copy, Clone, PartialEq, Eq, Structural, Debug)]
pub enum StringTransform {
    Identity,
    Title,
    Upper,
    Lower,
}

/// The transform a `{...}` body selects: empty for identity, or `:` and a
/// keyword matched ASCII-case-insensitively.
pub open spec fn transform_of(body: Seq<char>) -> Option<StringTransform> {
    if body.len() == 0 {
        Some(StringTransform::Identity)
    } else if body[0] == ':' {
        let kw = lower_seq(body.drop_first());
        if kw == "title"@ {
            Some(StringTransform::Title)
        } else if kw == "upper"@ {
            Some(StringTransform::Upper)
        } else if kw == "lower"@ {
            Some(StringTransform::Lower)
        } else {
            None
        }
    } else {
        None
    }
}

/// A `{}` / `{:title}` / `{:upper}` / `{:lower}` template.
pub struct StringFormat {
    pub prefix: String,
    pub kind: StringTransform,
    pub suffix: String,
}

/// The string template `rhs` denotes, if any.
pub open spec fn string_format_spec(rhs: Seq<char>) -> Option<
    (Seq<char>, StringTransform, Seq<char>),
> {
    match split_braces(rhs) {
        None => None,
        Some((p, b, s)) => match transform_of(b) {
            None => None,
            Some(k) => Some((p, k, s)),
        },
    }
}

pub fn build_string_format(rhs: &str) -> (r: Option<StringFormat>)
    ensures
        match string_format_spec(rhs@) {
            None => r is None,
            Some((p, k, s)) => r matches Some(f) && f.prefix@ == p && f.kind == k && f.suffix@
                == s,
        },
{
    let sp = match split_template(rhs) {
        Some(sp) => sp,
        None => return None,
    };
    let body = chars_of(&sp.body);
    let kind = if body.len() == 0 {
        StringTransform::Identity
    } else if body[0] == ':' {
        let kw = to_ascii_lowercase(&string_of(&body, 1, body.len()));
        proof {
            assert(body@.subrange(1, body@.len() as int) =~= body@.drop_first());
            reveal_strlit("title");
            reveal_strlit("upper");
            reveal_strlit("lower");
        }
        if crate::text::str_eq(&kw, "title") {
            StringTransform::Title
        } else if crate::text::str_eq(&kw, "upper") {
            StringTransform::Upper
        } else if crate::text::str_eq(&kw, "lower") {
            StringTransform::Lower
        } else {
            return None;
        }
    } else {
        return None;
    };
    Some(StringFormat { prefix: sp.prefix, kind, suffix: sp.suffix })
}

/// What `str::to_uppercase` gives for `s`.
pub uninterp spec fn upper_cased(s: Seq<char>) -> Seq<char>;

/// What `str::to_lowercase` gives for `s`.
pub uninterp spec fn lower_cased(s: Seq<char>) -> Seq<char>;

/// What `char::to_uppercase` yields for `c`, collected.
pub uninterp spec fn char_upper_cased(c: char) -> Seq<char>;

/// `str::to_uppercase`: the Unicode upper-case mapping of `s`. The
/// contract names the result; of the mapping it states only what it does
/// to ASCII text, where `a` to `z` become `A` to `Z` and nothing else
/// changes.
#[verifier::external_body]
pub(crate) fn str_to_uppercase(s: &str) -> (r: String)
    ensures
        r@ == upper_cased(s@),
        ascii_text(s@) ==> r@ == upper_seq(s@),
{
    s.to_uppercase()
}

/// `str::to_lowercase`: the Unicode lower-case mapping of `s`. The
/// contract names the result; of the mapping it states only what it does
/// to ASCII text, where `A` to `Z` become `a` to `z` and nothing else
/// changes.
#[verifier::external_body]
fn str_to_lowercase(s: &str) -> (r: String)
    ensures
        r@ == lower_cased(s@),
        ascii_text(s@) ==> r@ == lower_seq(s@),
{
    s.to_lowercase()
}

/// `char::to_uppercase`, its characters collected into a `String`. The
/// contract names the result; of the mapping it states only that an ASCII
/// character maps to its ASCII upper case alone.
#[verifier::external_body]
fn char_to_uppercase(c: char) -> (r: String)
    ensures
        r@ == char_upper_cased(c),
        (c as u32) < 128 ==> r@ == seq![upper_char(c)],
{
    c.to_uppercase().collect()
}

/// Title-casing of `s` (already lower-cased): the first non-whitespace
/// character of every whitespace-separated word is upper-cased.
pub open spec fn title_from(s: Seq<char>, at_word_start: bool) -> Seq<char>
    decreases s.len(),
{
    if s.len() == 0 {
        s
    } else {
        let c = s[0];
        let rest = s.drop_first();
        if white_space(c) {
            seq![c] + title_from(rest, true)
        } else if at_word_start {
            char_upper_cased(c) + title_from(rest, false)
        } else {
            seq![c] + title_from(rest, false)
        }
    }
}

/// A word starts at `i`: `l[i]` is no whitespace and follows the start or
/// whitespace.
pub open spec fn word_start(l: Seq<char>, i: int) -> bool {
    !white_space(l[i]) && (i == 0 || white_space(l[i - 1]))
}

/// Title-casing of ASCII text `l` (already lower-cased): the first
/// character of every word upper-cased.
pub open spec fn title_ascii(l: Seq<char>) -> Seq<char> {
    Seq::new(
        l.len(),
        |i: int|
            if word_start(l, i) {
                upper_char(l[i])
            } else {
                l[i]
            },
    )
}

/// A case transform of `s`. ASCII text maps by the ASCII case mapping;
/// other text by the Unicode mapping std gives.
pub open spec fn apply_transform(k: StringTransform, s: Seq<char>) -> Seq<char> {
    match k {
        StringTransform::Identity => s,
        StringTransform::Upper => if ascii_text(s) {
            upper_seq(s)
        } else {
            upper_cased(s)
        },
        StringTransform::Lower => if ascii_text(s) {
            lower_seq(s)
        } else {
            lower_cased(s)
        },
        StringTransform::Title => if ascii_text(s) {
            title_ascii(lower_seq(s))
        } else {
            title_from(lower_cased(s), true)
        },
    }
}

proof fn lemma_lower_ascii(c: char)
    requires
        (c as u32) < 128,
    ensures
        (lower_char(c) as u32) < 128,
        lower_char(upper_char(lower_char(c))) == lower_char(c),
        is_ascii_upper(upper_char(lower_char(c))) <==> (is_ascii_upper(c) || is_ascii_lower(c)),
        !is_ascii_upper(lower_char(c)),
        white_space(lower_char(c)) == white_space(c),
        lower_char(lower_char(c)) == lower_char(c),
{
}

/// Title case on ASCII text keeps its length and its letters up to case;
/// exactly the letters that start a word come out upper-case; and
/// title-casing the result changes nothing more.
pub proof fn law_title_case(s: Seq<char>)
    requires
        ascii_text(s),
    ensures
        apply_transform(StringTransform::Title, s).len() == s.len(),
        lower_seq(apply_transform(StringTransform::Title, s)) == lower_seq(s),
        forall|i: int|
            0 <= i < s.len() ==> (is_ascii_upper(#[trigger] apply_transform(StringTransform::Title, s)[i])
                <==> ((is_ascii_upper(s[i]) || is_ascii_lower(s[i])) && (i == 0 || white_space(
                s[i - 1],
            )))),
        apply_transform(StringTransform::Title, apply_transform(StringTransform::Title, s))
            == apply_transform(StringTransform::Title, s),
{
    let l = lower_seq(s);
    let t = title_ascii(l);
    assert forall|i: int| 0 <= i < s.len() implies (l[i] as u32) < 128 && white_space(l[i]) == white_space(s[i]) by {
        lemma_lower_ascii(s[i]);
    }
    assert forall|i: int| 0 <= i < s.len() implies #[trigger] lower_char(t[i]) == l[i] && (t[i] as u32) < 128 by {
        lemma_lower_ascii(s[i]);
        if word_start(l, i) {
            assert(t[i] == upper_char(l[i]));
        }
    }
    assert(lower_seq(t) =~= l);
    assert forall|i: int| 0 <= i < s.len() implies (is_ascii_upper(#[trigger] t[i]) <==> ((
    is_ascii_upper(s[i]) || is_ascii_lower(s[i])) && (i == 0 || white_space(s[i - 1])))) by {
        lemma_lower_ascii(s[i]);
        if i > 0 {
            lemma_lower_ascii(s[i - 1]);
        }
        if is_ascii_upper(s[i]) || is_ascii_lower(s[i]) {
            assert(!white_space(s[i]));
        }
    }
    assert(ascii_text(t));
    assert(title_ascii(lower_seq(t)) =~= t);
}

impl StringTransform {
    pub fn apply(self, s: &str) -> (r: String)
        ensures
            r@ == apply_transform(self, s@),
    {
        match self {
            StringTransform::Identity => crate::text::owned(s),
            StringTransform::Upper => str_to_uppercase(s),
            StringTransform::Lower => str_to_lowercase(s),
            StringTransform::Title => {
                let lower = str_to_lowercase(s);
                let v = chars_of(&lower);
                let ghost ascii = ascii_text(s@);
                proof {
                    if ascii {
                        assert forall|q: int| 0 <= q < v@.len() implies (#[trigger] v@[q] as u32) < 128 by {
                            lemma_lower_ascii(s@[q]);
                        }
                    }
                }
                let mut out = String::new();
                let mut at_word_start = true;
                let mut i: usize = 0;
                proof {
                    assert(v@.skip(0) =~= v@);
                    assert(out@ =~= title_ascii(v@).take(0));
                }
                while i < v.len()
                    invariant
                        i <= v.len(),
                        v@ == lower_cased(s@),
                        ascii == ascii_text(s@),
                        ascii ==> v@ == lower_seq(s@),
                        ascii ==> forall|q: int| 0 <= q < v@.len() ==> (#[trigger] v@[q] as u32) < 128,
                        !ascii ==> out@ + title_from(v@.skip(i as int), at_word_start) == title_from(
                            v@,
                            true,
                        ),
                        ascii ==> out@ == title_ascii(v@).take(i as int),
                        ascii ==> at_word_start == (i == 0 || white_space(v@[i - 1])),
                    decreases v.len() - i,
                {
                    let c = v[i];
                    let ghost rest = v@.skip(i as int);
                    let ghost before = out@;
                    proof {
                        assert(rest.drop_first() =~= v@.skip(i + 1));
                        assert(rest[0] == c);
                    }
                    if is_whitespace(c) {
                        out.push(c);
                        at_word_start = true;
                    } else if at_word_start {
                        let u = char_to_uppercase(c);
                        out.push_str(&u);
                        at_word_start = false;
                    } else {
                        out.push(c);
                    }
                    proof {
                        if ascii {
                            assert(title_ascii(v@).take(i + 1) =~= title_ascii(v@).take(i as int).push(
                                title_ascii(v@)[i as int],
                            ));
                            assert(out@ =~= title_ascii(v@).take(i + 1));
                        } else {
                            assert(out@ + title_from(v@.skip(i + 1), at_word_start) =~= title_from(
                                v@,
                                true,
                            ));
                        }
                    }
                    i += 1;
                }
                proof {
                    assert(v@.skip(i as int) =~= Seq::<char>::empty());
                    assert(out@ + Seq::<char>::empty() =~= out@);
                    assert(title_ascii(v@).take(i as int) =~= title_ascii(v@));
                }
                out
            },
        }
    }
}

impl StringFormat {
    /// Format one cell: `NA` for a missing value, else prefix, transformed
    /// value, suffix.
    pub fn apply(&self, v: Option<&str>) -> (r: String)
        ensures
            match v {
                None => r@ == "NA"@,
                Some(s) => r@ == self.prefix@ + apply_transform(self.kind, s@) + self.suffix@,
            },
    {
        match v {
            None => String::from_str("NA"),
            Some(s) => {
                let mut out = crate::text::owned(&self.prefix);
                let t = self.kind.apply(s);
                out.push_str(&t);
                out.push_str(&self.suffix);
                out
            },
        }
    }
}

} // verus!

verus! {

// ============================================================================
// Numeric: `{:num <printf>}`
// ============================================================================

/// A parsed `printf` conversion specification.
#[derive(Copy, Clone, PartialEq, Eq, Structural, Debug)]
pub struct NumSpec {
    /// Locale-aware thousands separator. Enabled by the `'` flag.
    pub thousands: bool,
    /// `+` flag — always print a sign.
    pub force_sign: bool,
    /// Conversion: `d`, `f`, `e`.
    pub conv: char,
    /// Digits after `.`; `None` if unspecified (only used by `f` and `e`).
    pub precision: Option<u32>,
}

pub open spec fn is_flag(c: char) -> bool {
    c == '\'' || c == '+' || c == '0' || c == '-' || c == ' ' || c == '#'
}

/// Length of the longest prefix of `s` whose characters satisfy `p`.
pub open spec fn lead_len(s: Seq<char>, p: spec_fn(char) -> bool) -> nat
    decreases s.len(),
{
    if s.len() > 0 && p(s[0]) {
        1 + lead_len(s.drop_first(), p)
    } else {
        0
    }
}

pub proof fn lemma_lead_len(s: Seq<char>, p: spec_fn(char) -> bool, i: int)
    requires
        0 <= i <= s.len(),
        forall|j: int| 0 <= j < i ==> p(#[trigger] s[j]),
        i == s.len() || !p(s[i]),
    ensures
        lead_len(s, p) == i,
    decreases i,
{
    if i > 0 {
        assert(p(s[0]));
        let t = s.drop_first();
        assert forall|j: int| 0 <= j < i - 1 implies p(#[trigger] t[j]) by {
            assert(t[j] == s[j + 1]);
        }
        if i < s.len() {
            assert(t[i - 1] == s[i]);
        }
        lemma_lead_len(t, p, i - 1);
    }
}

pub open spec fn flag_pred() -> spec_fn(char) -> bool {
    |c: char| is_flag(c)
}

pub open spec fn digit_pred() -> spec_fn(char) -> bool {
    |c: char| is_ascii_digit(c)
}

/// Digits accumulated as `n = n * 10 + d` in wrapping `u32` arithmetic.
pub open spec fn digits_value_u32(ds: Seq<char>) -> u32
    decreases ds.len(),
{
    if ds.len() == 0 {
        0
    } else {
        vstd::wrapping::u32_specs::wrapping_add(
            vstd::wrapping::u32_specs::wrapping_mul(digits_value_u32(ds.drop_last()), 10),
            (ds.last() as u32 - 48) as u32,
        )
    }
}

/// The conversion specification a `{:num ...}` body denotes: a required
/// `%`, flags (`'` thousands, `+` sign; `0`, `-`, space and `#` accepted and
/// ignored), an ignored width, an optional `.precision`, and a `d`, `f` or
/// `e` conversion. Anything after the conversion is ignored.
pub open spec fn num_spec_spec(body: Seq<char>) -> Option<NumSpec> {
    if body.len() == 0 || body[0] != '%' {
        None
    } else {
        let s = body.drop_first();
        let nf = lead_len(s, flag_pred());
        if nf == s.len() {
            None
        } else {
            let flags = s.take(nf as int);
            let s2 = s.skip(nf as int);
            let s3 = s2.skip(lead_len(s2, digit_pred()) as int);
            let precision = if s3.len() > 0 && s3[0] == '.' {
                let rest = s3.drop_first();
                Some(digits_value_u32(rest.take(lead_len(rest, digit_pred()) as int)))
            } else {
                None
            };
            let s4 = if s3.len() > 0 && s3[0] == '.' {
                let rest = s3.drop_first();
                rest.skip(lead_len(rest, digit_pred()) as int)
            } else {
                s3
            };
            if s4.len() == 0 {
                None
            } else if s4[0] == 'd' || s4[0] == 'f' || s4[0] == 'e' {
                Some(
                    NumSpec {
                        thousands: flags.contains('\''),
                        force_sign: flags.contains('+'),
                        conv: s4[0],
                        precision,
                    },
                )
            } else {
                None
            }
        }
    }
}

/// Advance `i` over the characters of `v` that satisfy `p`.
fn skip_while_digits(v: &Vec<char>, start: usize) -> (r: usize)
    requires
        start <= v.len(),
    ensures
        start <= r <= v.len(),
        r - start == lead_len(v@.skip(start as int), digit_pred()),
        forall|j: int| start <= j < r ==> is_ascii_digit(#[trigger] v@[j]),
        r == v.len() || !is_ascii_digit(v@[r as int]),
{
    let mut i = start;
    while i < v.len() && '0' <= v[i] && v[i] <= '9'
        invariant
            start <= i <= v.len(),
            forall|j: int| start <= j < i ==> is_ascii_digit(#[trigger] v@[j]),
        decreases v.len() - i,
    {
        i += 1;
    }
    proof {
        let t = v@.skip(start as int);
        assert forall|j: int| 0 <= j < i - start implies (digit_pred())(#[trigger] t[j]) by {
            assert(t[j] == v@[start + j]);
        }
        if i < v.len() {
            assert(t[i - start] == v@[i as int]);
        }
        lemma_lead_len(t, digit_pred(), i - start);
    }
    i
}

impl NumSpec {
    pub fn parse(body: &str) -> (r: Option<NumSpec>)
        ensures
            r == num_spec_spec(body@),
    {
        let v = chars_of(body);
        if v.len() == 0 || v[0] != '%' {
            return None;
        }
        let ghost s = body@.drop_first();
        let mut thousands = false;
        let mut force_sign = false;
        let mut i: usize = 1;
        while i < v.len() && (v[i] == '\'' || v[i] == '+' || v[i] == '0' || v[i] == '-' || v[i]
            == ' ' || v[i] == '#')
            invariant
                v@ == body@,
                s == body@.drop_first(),
                1 <= i <= v.len(),
                forall|j: int| 1 <= j < i ==> is_flag(#[trigger] v@[j]),
                thousands == s.take(i - 1).contains('\''),
                force_sign == s.take(i - 1).contains('+'),
            decreases v.len() - i,
        {
            proof {
                assert(s.take(i as int) =~= s.take(i - 1).push(v@[i as int]));
                crate::text::lemma_contains_push(s.take(i - 1), v@[i as int], '\'');
                crate::text::lemma_contains_push(s.take(i - 1), v@[i as int], '+');
            }
            if v[i] == '\'' {
                thousands = true;
            }
            if v[i] == '+' {
                force_sign = true;
            }
            i += 1;
        }
        proof {
            assert forall|j: int| 0 <= j < i - 1 implies (flag_pred())(#[trigger] s[j]) by {
                assert(s[j] == v@[j + 1]);
            }
            if i < v.len() {
                assert(s[i - 1] == v@[i as int]);
            }
            lemma_lead_len(s, flag_pred(), i - 1);
        }
        if i == v.len() {
            return None;
        }
        let ghost s2 = s.skip(i - 1);
        proof {
            assert(s2 =~= v@.skip(i as int));
        }
        let w = skip_while_digits(&v, i);
        let ghost s3 = s2.skip(lead_len(s2, digit_pred()) as int);
        proof {
            assert(s3 =~= v@.skip(w as int));
        }
        let mut k = w;
        let mut precision: Option<u32> = None;
        if k < v.len() && v[k] == '.' {
            let ghost rest = s3.drop_first();
            proof {
                assert(rest =~= v@.skip(k + 1));
            }
            let e = skip_while_digits(&v, k + 1);
            let mut n: u32 = 0;
            let mut j = k + 1;
            while j < e
                invariant
                    k + 1 <= j <= e <= v.len(),
                    rest == v@.skip(k + 1),
                    e - (k + 1) == lead_len(rest, digit_pred()),
                    forall|q: int| k + 1 <= q < e ==> is_ascii_digit(#[trigger] v@[q]),
                    n == digits_value_u32(rest.take(j - (k + 1))),
                decreases e - j,
            {
                proof {
                    let ds = rest.take(j - (k + 1) + 1);
                    assert(ds.drop_last() =~= rest.take(j - (k + 1)));
                    assert(ds.last() == v@[j as int]);
                }
                let d = (v[j] as u32) - 48;
                n = n.wrapping_mul(10).wrapping_add(d);
                j += 1;
            }
            precision = Some(n);
            k = e;
            proof {
                assert(rest.skip(lead_len(rest, digit_pred()) as int) =~= v@.skip(e as int));
            }
        } else {
            proof {
                if k < v.len() {
                    assert(s3[0] == v@[k as int]);
                }
            }
        }
        if k == v.len() {
            return None;
        }
        let conv = v[k];
        if conv == 'd' || conv == 'f' || conv == 'e' {
            proof {
                assert(s.take(i - 1) =~= s.take(lead_len(s, flag_pred()) as int));
            }
            Some(NumSpec { thousands, force_sign, conv, precision })
        } else {
            None
        }
    }
}

// ---------------------------------------------------------------------------
// Thousands grouping
// ---------------------------------------------------------------------------

/// The output after the first `k` digits of `d`: a `,` before every digit
/// (other than the first) that has a multiple of three digits from it to
/// the end.
pub open spec fn grouped_prefix(d: Seq<char>, k: nat) -> Seq<char>
    decreases k,
{
    if k == 0 {
        Seq::empty()
    } else {
        let i = k - 1;
        let prev = grouped_prefix(d, (k - 1) as nat);
        let with_sep = if i > 0 && (d.len() - i) % 3 == 0 {
            prev.push(',')
        } else {
            prev
        };
        with_sep.push(d[i])
    }
}

pub open spec fn group_thousands(d: Seq<char>) -> Seq<char> {
    grouped_prefix(d, d.len())
}

pub open spec fn abs_int(n: int) -> nat {
    if n < 0 {
        (-n) as nat
    } else {
        n as nat
    }
}

/// Base-ten rendering of a signed integer (`i64::to_string`).
pub open spec fn int_to_string(n: int) -> Seq<char> {
    if n < 0 {
        seq!['-'] + decimal(abs_int(n))
    } else {
        decimal(n as nat)
    }
}

/// `insert_thousands(n)`: the magnitude's digits grouped in threes with
/// `,`, a leading `-` for negatives.
pub open spec fn insert_thousands_spec(n: int) -> Seq<char> {
    if n < 0 {
        seq!['-'] + group_thousands(decimal(abs_int(n)))
    } else {
        group_thousands(decimal(n as nat))
    }
}

/// `s` with every `,` removed.
pub open spec fn remove_commas(s: Seq<char>) -> Seq<char>
    decreases s.len(),
{
    if s.len() == 0 {
        s
    } else if s.last() == ',' {
        remove_commas(s.drop_last())
    } else {
        remove_commas(s.drop_last()).push(s.last())
    }
}

pub proof fn lemma_grouped_prefix_strip(d: Seq<char>, k: nat)
    requires
        k <= d.len(),
        forall|i: int| 0 <= i < d.len() ==> #[trigger] d[i] != ',',
    ensures
        remove_commas(grouped_prefix(d, k)) == d.take(k as int),
    decreases k,
{
    if k > 0 {
        lemma_grouped_prefix_strip(d, (k - 1) as nat);
        let i = k - 1;
        let prev = grouped_prefix(d, (k - 1) as nat);
        let with_sep = if i > 0 && (d.len() - i) % 3 == 0 {
            prev.push(',')
        } else {
            prev
        };
        if i > 0 && (d.len() - i) % 3 == 0 {
            assert(prev.push(',').drop_last() =~= prev);
            assert(remove_commas(with_sep) == remove_commas(prev));
        }
        let g = with_sep.push(d[i as int]);
        assert(g.drop_last() =~= with_sep);
        assert(g.last() == d[i as int]);
        assert(remove_commas(g) == remove_commas(with_sep).push(d[i as int]));
        assert(d.take(k as int) =~= d.take(i as int).push(d[i as int]));
    }
}

/// Grouping digits in threes only inserts separators: removing the `,`s
/// from the grouped form gives the digits back.
pub proof fn law_thousands_only_adds_separators(d: Seq<char>)
    requires
        forall|i: int| 0 <= i < d.len() ==> #[trigger] d[i] != ',',
    ensures
        remove_commas(group_thousands(d)) == d,
{
    lemma_grouped_prefix_strip(d, d.len());
    assert(d.take(d.len() as int) =~= d);
}

proof fn lemma_grouped_prefix_take(d: Seq<char>, k: nat)
    requires
        d.len() > 3,
        k <= d.len() - 3,
    ensures
        grouped_prefix(d, k) == grouped_prefix(d.take(d.len() - 3), k),
    decreases k,
{
    if k > 0 {
        lemma_grouped_prefix_take(d, (k - 1) as nat);
        let e = d.take(d.len() - 3);
        let i = k - 1;
        assert(e[i as int] == d[i as int]);
        assert((d.len() - i) % 3 == (e.len() - i) % 3);
    }
}

proof fn lemma_grouped_prefix_short(d: Seq<char>, k: nat)
    requires
        k <= d.len() <= 3,
    ensures
        grouped_prefix(d, k) == d.take(k as int),
    decreases k,
{
    if k > 0 {
        lemma_grouped_prefix_short(d, (k - 1) as nat);
        assert(d.take(k as int) =~= d.take(k - 1).push(d[k - 1]));
    }
}

/// Digits are grouped from the right: up to three digits stand alone;
/// longer, the last three follow a `,` after the grouping of the rest. So
/// the first group has one to three digits and every later one exactly
/// three.
pub proof fn law_thousands_groups(d: Seq<char>)
    ensures
        d.len() <= 3 ==> group_thousands(d) == d,
        d.len() > 3 ==> group_thousands(d) == group_thousands(d.take(d.len() - 3)) + seq![',']
            + d.skip(d.len() - 3),
{
    let n = d.len();
    if n <= 3 {
        lemma_grouped_prefix_short(d, n);
        assert(d.take(n as int) =~= d);
    } else {
        let m: int = n - 3;
        lemma_grouped_prefix_take(d, m as nat);
        let e = d.take(m);
        assert(e.len() == m);
        let g0 = grouped_prefix(d, m as nat);
        assert(grouped_prefix(d, (m + 1) as nat) == g0.push(',').push(d[m as int]));
        assert(grouped_prefix(d, (m + 2) as nat) == g0.push(',').push(d[m as int]).push(
            d[m + 1],
        ));
        assert(grouped_prefix(d, n) == g0.push(',').push(d[m as int]).push(d[m + 1]).push(
            d[m + 2],
        ));
        assert(g0.push(',').push(d[m as int]).push(d[m + 1]).push(d[m + 2]) =~= g0 + seq![',']
            + d.skip(m as int));
    }
}

/// Push the digits of `d` grouped in threes.
fn push_grouped(out: &mut String, d: &Vec<char>)
    ensures
        final(out)@ == old(out)@ + group_thousands(d@),
{
    let ghost start = out@;
    let len = d.len();
    let mut i: usize = 0;
    while i < len
        invariant
            len == d@.len(),
            i <= len,
            out@ == start + grouped_prefix(d@, i as nat),
        decreases len - i,
    {
        if i > 0 && (len - i) % 3 == 0 {
            out.push(',');
        }
        out.push(d[i]);
        proof {
            let prev = grouped_prefix(d@, i as nat);
            if i > 0 && (len - i) % 3 == 0 {
                assert(out@ =~= start + prev.push(',').push(d@[i as int]));
            } else {
                assert(out@ =~= start + prev.push(d@[i as int]));
            }
        }
        i += 1;
    }
}

/// `|n|` as an unsigned integer.
fn unsigned_abs(n: i64) -> (r: u64)
    ensures
        r as nat == abs_int(n as int),
{
    if n >= 0 {
        n as u64
    } else if n == i64::MIN {
        9223372036854775808u64
    } else {
        (-n) as u64
    }
}

fn push_i64(out: &mut String, n: i64)
    ensures
        final(out)@ == old(out)@ + int_to_string(n as int),
{
    if n < 0 {
        out.push('-');
    }
    let s = u64_to_decimal(unsigned_abs(n));
    out.push_str(&s);
}

/// Insert `,` thousands separators into the decimal rendering of `n`.
pub fn insert_thousands(n: i64) -> (r: String)
    ensures
        r@ == insert_thousands_spec(n as int),
{
    let mut out = String::new();
    if n < 0 {
        out.push('-');
    }
    let d = chars_of(&u64_to_decimal(unsigned_abs(n)));
    push_grouped(&mut out, &d);
    out
}

/// `insert_thousands(n)` when `on`, else the plain decimal rendering.
pub fn insert_thousands_opt(n: i64, on: bool) -> (r: String)
    ensures
        r@ == (if on {
            insert_thousands_spec(n as int)
        } else {
            int_to_string(n as int)
        }),
{
    if on {
        insert_thousands(n)
    } else {
        let mut out = String::new();
        push_i64(&mut out, n);
        out
    }
}

// ---------------------------------------------------------------------------
// Integer parsing (`str::parse::<i64>`)
// ---------------------------------------------------------------------------

/// Value of a run of ASCII digits.
pub open spec fn digits_value(ds: Seq<char>) -> nat
    decreases ds.len(),
{
    if ds.len() == 0 {
        0
    } else {
        digits_value(ds.drop_last()) * 10 + (ds.last() as nat - 48) as nat
    }
}

/// `str::parse::<i64>`: an optional `+` or `-`, then one or more ASCII
/// digits, the value within `i64`'s range.
pub open spec fn parse_i64_spec(s: Seq<char>) -> Option<int> {
    let neg = s.len() > 0 && s[0] == '-';
    let ds = unsigned_part(s);
    if ds.len() == 0 || !all_digits(ds) {
        None
    } else {
        let v: int = if neg {
            -digits_value(ds)
        } else {
            digits_value(ds) as int
        };
        if i64::MIN <= v <= i64::MAX {
            Some(v)
        } else {
            None
        }
    }
}

/// `s` without one leading `+` or `-`.
pub open spec fn unsigned_part(s: Seq<char>) -> Seq<char> {
    if s.len() > 0 && (s[0] == '-' || s[0] == '+') {
        s.drop_first()
    } else {
        s
    }
}

pub open spec fn all_digits(ds: Seq<char>) -> bool {
    forall|i: int| 0 <= i < ds.len() ==> is_ascii_digit(#[trigger] ds[i])
}

pub proof fn lemma_digits_value_mono(ds: Seq<char>, k: int)
    requires
        0 <= k <= ds.len(),
        forall|i: int| 0 <= i < ds.len() ==> is_ascii_digit(#[trigger] ds[i]),
    ensures
        digits_value(ds.take(k)) <= digits_value(ds),
    decreases ds.len() - k,
{
    if k < ds.len() {
        lemma_digits_value_mono(ds, k + 1);
        assert(ds.take(k + 1).drop_last() =~= ds.take(k));
    } else {
        assert(ds.take(k) =~= ds);
    }
}

/// Parse `s` as an `i64`, giving 0 when it is not one
/// (`s.parse::<i64>().unwrap_or(0)`).
pub fn parse_i64_or_zero(s: &str) -> (r: i64)
    ensures
        r as int == match parse_i64_spec(s@) {
            Some(v) => v,
            None => 0,
        },
{
    let v = chars_of(s);
    let neg = v.len() > 0 && v[0] == '-';
    let start: usize = if v.len() > 0 && (v[0] == '-' || v[0] == '+') {
        1
    } else {
        0
    };
    let ghost ds = unsigned_part(s@);
    proof {
        assert(ds =~= v@.skip(start as int));
    }
    if start == v.len() {
        proof {
            assert(ds.len() == 0);
        }
        return 0;
    }
    // Every remaining character must be a digit.
    let mut i = start;
    while i < v.len()
        invariant
            v@ == s@,
            ds == v@.skip(start as int),
            ds == unsigned_part(s@),
            ds.len() == v.len() - start,
            start <= i <= v.len(),
            forall|q: int| 0 <= q < i - start ==> is_ascii_digit(#[trigger] ds[q]),
        decreases v.len() - i,
    {
        proof {
            assert(ds[i - start] == v@[i as int]);
        }
        if !('0' <= v[i] && v[i] <= '9') {
            proof {
                assert(!is_ascii_digit(ds[i - start]));
                assert(!all_digits(ds));
            }
            return 0;
        }
        i += 1;
    }
    // Accumulate the magnitude, stopping once it exceeds 2^63.
    let mut acc: u64 = 0;
    let mut i = start;
    while i < v.len()
        invariant
            v@ == s@,
            ds == v@.skip(start as int),
            ds == unsigned_part(s@),
            ds.len() == v.len() - start,
            start <= i <= v.len(),
            all_digits(ds),
            acc as nat == digits_value(ds.take(i - start)),
            acc <= 9223372036854775808u64,
        decreases v.len() - i,
    {
        let c = v[i];
        proof {
            assert(ds[i - start] == c);
            assert(ds.take(i - start + 1).drop_last() =~= ds.take(i - start));
            assert(ds.take(i - start + 1).last() == c);
        }
        let d = (c as u64) - 48;
        if acc > 922337203685477580u64 || acc * 10 + d > 9223372036854775808u64 {
            proof {
                lemma_digits_value_mono(ds, i - start + 1);
                assert(digits_value(ds.take(i - start + 1)) == acc * 10 + d);
                assert(acc * 10 + d > 9223372036854775808) by (nonlinear_arith)
                    requires
                        acc > 922337203685477580u64 || acc * 10 + d > 9223372036854775808u64,
                        d <= 9,
                ;
            }
            return 0;
        }
        acc = acc * 10 + d;
        i += 1;
    }
    proof {
        assert(ds.take(i - start) =~= ds);
    }
    if neg {
        if acc == 9223372036854775808u64 {
            i64::MIN
        } else {
            -(acc as i64)
        }
    } else {
        if acc == 9223372036854775808u64 {
            0
        } else {
            acc as i64
        }
    }
}

} // verus!

verus! {

// ---------------------------------------------------------------------------
// Rendering a number
// ---------------------------------------------------------------------------

/// The HTML between a scientific mantissa and its exponent.
pub const SCI_TIMES_TEN: &'static str = "&nbsp;×&nbsp;10<sup style=\"font-size: 65%;\">";

/// Closes the exponent's `<sup>`.
pub const SCI_CLOSE: &'static str = "</sup>";

/// A number reduced to what its conversion prints. Reading a float and
/// rounding it, or printing it to a fixed number of decimals, happens where
/// the number is read; the value handed here carries the result.
pub enum NumValue {
    /// `d`: the value rounded to an integer.
    Int(i64),
    /// `f`: the magnitude printed to the precision's decimals, and whether
    /// the value is negative and non-zero.
    Fixed { negative: bool, text: String },
    /// `e`: the mantissa printed to the precision's decimals and the
    /// base-ten exponent (0 for zero).
    Scientific { mantissa: String, exp: i32 },
}

/// A sign in front of `body`: U+2212 for negatives and `+` for
/// non-negatives under the `+` flag, an ASCII `-` for negatives otherwise.
pub open spec fn with_sign(negative: bool, force_sign: bool, body: Seq<char>) -> Seq<char> {
    if negative && force_sign {
        seq!['\u{2212}'] + body
    } else if negative {
        seq!['-'] + body
    } else if force_sign {
        seq!['+'] + body
    } else {
        body
    }
}

/// `%d`: the rounded value's magnitude, optionally grouped, then signed.
pub open spec fn render_int_spec(spec: NumSpec, n: i64) -> Seq<char> {
    // `n.unsigned_abs() as i64`: the magnitude, except that `i64::MIN`
    // stays negative.
    let m: int = if n == i64::MIN {
        n as int
    } else {
        abs_int(n as int) as int
    };
    let body = if spec.thousands {
        insert_thousands_spec(m)
    } else {
        int_to_string(m)
    };
    with_sign(n < 0, spec.force_sign, body)
}

/// `%f`: the printed magnitude, its integer part grouped under `'`, then
/// signed.
pub open spec fn render_fixed_spec(spec: NumSpec, negative: bool, text: Seq<char>) -> Seq<char> {
    let body = if spec.thousands {
        let int_part = match find_char_spec(text, '.') {
            Some(i) => text.subrange(0, i),
            None => text,
        };
        let frac_part = match find_char_spec(text, '.') {
            Some(i) => text.subrange(i, text.len() as int),
            None => Seq::empty(),
        };
        let int_n = match parse_i64_spec(int_part) {
            Some(v) => v,
            None => 0,
        };
        insert_thousands_spec(int_n) + frac_part
    } else {
        text
    };
    with_sign(negative, spec.force_sign, body)
}

/// `%e` as gt's HTML: `<mantissa>&nbsp;×&nbsp;10<sup ...><exp></sup>`, a
/// U+2212 before a negative exponent, the mantissa alone for exponent 0.
pub open spec fn render_scientific_spec(mantissa: Seq<char>, exp: int) -> Seq<char> {
    if exp == 0 {
        mantissa
    } else if exp < 0 {
        mantissa + SCI_TIMES_TEN@ + seq!['\u{2212}'] + decimal(abs_int(exp)) + SCI_CLOSE@
    } else {
        mantissa + SCI_TIMES_TEN@ + decimal(exp as nat) + SCI_CLOSE@
    }
}

pub open spec fn render_value_spec(spec: NumSpec, v: NumValue) -> Seq<char> {
    match v {
        NumValue::Int(n) => render_int_spec(spec, n),
        NumValue::Fixed { negative, text } => render_fixed_spec(spec, negative, text@),
        NumValue::Scientific { mantissa, exp } => render_scientific_spec(mantissa@, exp as int),
    }
}

fn push_sign(out: &mut String, negative: bool, force_sign: bool)
    ensures
        final(out)@ == old(out)@ + with_sign(negative, force_sign, Seq::empty()),
{
    if negative && force_sign {
        out.push('\u{2212}');
    } else if negative {
        out.push('-');
    } else if force_sign {
        out.push('+');
    }
    proof {
        assert(final(out)@ =~= old(out)@ + with_sign(negative, force_sign, Seq::empty()));
    }
}

proof fn lemma_with_sign(negative: bool, force_sign: bool, body: Seq<char>)
    ensures
        with_sign(negative, force_sign, body) == with_sign(negative, force_sign, Seq::empty())
            + body,
{
    assert(with_sign(negative, force_sign, body) =~= with_sign(negative, force_sign, Seq::empty())
        + body);
}

proof fn lemma_grouped_chars(d: Seq<char>, k: nat)
    requires
        k <= d.len(),
        forall|i: int| 0 <= i < d.len() ==> is_ascii_digit(#[trigger] d[i]),
    ensures
        forall|j: int|
            0 <= j < grouped_prefix(d, k).len() ==> #[trigger] grouped_prefix(d, k)[j] == ','
                || is_ascii_digit(grouped_prefix(d, k)[j]),
    decreases k,
{
    if k > 0 {
        lemma_grouped_chars(d, (k - 1) as nat);
        let i = k - 1;
        let prev = grouped_prefix(d, (k - 1) as nat);
        let with_sep = if i > 0 && (d.len() - i) % 3 == 0 {
            prev.push(',')
        } else {
            prev
        };
        assert(is_ascii_digit(d[i as int]));
        assert forall|j: int| 0 <= j < with_sep.len() implies with_sep[j] == ',' || is_ascii_digit(
            with_sep[j],
        ) by {
            if j < prev.len() {
                assert(with_sep[j] == prev[j]);
            }
        }
        let g = with_sep.push(d[i as int]);
        assert(grouped_prefix(d, k) == g);
        assert forall|j: int| 0 <= j < g.len() implies #[trigger] g[j] == ',' || is_ascii_digit(g[j]) by {
            if j < with_sep.len() {
                assert(g[j] == with_sep[j]);
            }
        }
    }
}

proof fn lemma_remove_commas_concat(a: Seq<char>, b: Seq<char>)
    ensures
        remove_commas(a + b) == remove_commas(a) + remove_commas(b),
    decreases b.len(),
{
    if b.len() == 0 {
        assert(a + b =~= a);
        assert(remove_commas(a) + remove_commas(b) =~= remove_commas(a));
    } else {
        lemma_remove_commas_concat(a, b.drop_last());
        assert((a + b).drop_last() =~= a + b.drop_last());
        assert((a + b).last() == b.last());
        if b.last() == ',' {
        } else {
            assert(remove_commas(a + b) =~= remove_commas(a) + remove_commas(b));
        }
    }
}

proof fn lemma_remove_commas_none(a: Seq<char>)
    requires
        forall|i: int| 0 <= i < a.len() ==> #[trigger] a[i] != ',',
    ensures
        remove_commas(a) == a,
    decreases a.len(),
{
    if a.len() > 0 {
        lemma_remove_commas_none(a.drop_last());
        assert(a.drop_last().push(a.last()) =~= a);
    }
}

/// `%d` carries a minus sign (U+2212 under the `+` flag) in front exactly
/// when the number is negative, with or without the `'` flag; and the `'`
/// flag only inserts separators: removing the `,`s gives the ungrouped
/// rendering.
pub proof fn law_int_sign(spec: NumSpec, n: i64)
    ensures
        n < 0 ==> render_value_spec(spec, NumValue::Int(n)).len() > 0 && (render_value_spec(
            spec,
            NumValue::Int(n),
        )[0] == '-' || render_value_spec(spec, NumValue::Int(n))[0] == '\u{2212}'),
        n < 0 && spec.force_sign ==> render_value_spec(spec, NumValue::Int(n))[0] == '\u{2212}',
        n < 0 && !spec.force_sign ==> render_value_spec(spec, NumValue::Int(n))[0] == '-',
        n >= 0 && spec.force_sign ==> render_value_spec(spec, NumValue::Int(n))[0] == '+',
        n >= 0 ==> forall|i: int|
            0 <= i < render_value_spec(spec, NumValue::Int(n)).len() ==> #[trigger] render_value_spec(
                spec,
                NumValue::Int(n),
            )[i] != '-' && render_value_spec(spec, NumValue::Int(n))[i] != '\u{2212}',
        remove_commas(
            render_value_spec(
                NumSpec {
                    thousands: true,
                    force_sign: spec.force_sign,
                    conv: spec.conv,
                    precision: spec.precision,
                },
                NumValue::Int(n),
            ),
        ) == render_value_spec(
            NumSpec { thousands: false, force_sign: spec.force_sign, conv: spec.conv, precision: spec.precision },
            NumValue::Int(n),
        ),
{
    let m: int = if n == i64::MIN {
        n as int
    } else {
        abs_int(n as int) as int
    };
    let dg = decimal(abs_int(m));
    crate::text::lemma_decimal_digits(abs_int(m));
    crate::text::lemma_decimal_len_pos(abs_int(m));
    lemma_grouped_chars(dg, dg.len());
    let g = group_thousands(dg);
    let sg = with_sign(n < 0, spec.force_sign, Seq::<char>::empty());
    let body = if spec.thousands {
        insert_thousands_spec(m)
    } else {
        int_to_string(m)
    };
    lemma_with_sign(n < 0, spec.force_sign, body);
    assert(render_value_spec(spec, NumValue::Int(n)) == sg + body);
    if n >= 0 {
        assert(m == n);
        assert(abs_int(m) == m);
        assert(!(n < 0) && sg.len() <= 1);
        assert forall|i: int| 0 <= i < (sg + body).len() implies #[trigger] (sg + body)[i] != '-' && (sg
            + body)[i] != '\u{2212}' by {
            if i < sg.len() {
                assert(sg[i] == '+');
            } else {
                assert((sg + body)[i] == body[i - sg.len()]);
                if spec.thousands {
                    assert(body == g);
                    assert(g[i - sg.len()] == ',' || is_ascii_digit(g[i - sg.len()]));
                } else {
                    assert(body == dg);
                    assert(is_ascii_digit(dg[i - sg.len()]));
                }
            }
        }
    } else {
        assert(sg.len() == 1);
        assert((sg + body)[0] == sg[0]);
    }
    if spec.force_sign {
        assert(sg.len() == 1);
        assert((sg + body)[0] == sg[0]);
    }
    // The grouped and ungrouped bodies agree once the `,`s are gone.
    assert forall|i: int| 0 <= i < dg.len() implies #[trigger] dg[i] != ',' by {
        assert(is_ascii_digit(dg[i]));
    }
    law_thousands_only_adds_separators(dg);
    assert forall|i: int| 0 <= i < sg.len() implies #[trigger] sg[i] != ',' by {}
    lemma_remove_commas_none(sg);
    let tb = insert_thousands_spec(m);
    let pb = int_to_string(m);
    lemma_with_sign(n < 0, spec.force_sign, tb);
    lemma_with_sign(n < 0, spec.force_sign, pb);
    lemma_remove_commas_concat(sg, tb);
    assert forall|i: int| 0 <= i < pb.len() implies #[trigger] pb[i] != ',' by {
        if m < 0 {
            if i > 0 {
                assert(pb[i] == dg[i - 1]);
            }
        } else {
            assert(pb[i] == dg[i]);
        }
    }
    lemma_remove_commas_none(pb);
    if m < 0 {
        lemma_remove_commas_concat(seq!['-'], g);
        lemma_remove_commas_none(seq!['-']);
    }
    assert(remove_commas(tb) == pb);
}

impl NumSpec {
    /// Render one number under this conversion specification.
    pub fn render(&self, v: &NumValue) -> (r: String)
        ensures
            r@ == render_value_spec(*self, *v),
    {
        let mut out = String::new();
        match v {
            NumValue::Int(n) => {
                let n = *n;
                let m: i64 = if n == i64::MIN {
                    n
                } else if n < 0 {
                    -n
                } else {
                    n
                };
                let body = insert_thousands_opt(m, self.thousands);
                push_sign(&mut out, n < 0, self.force_sign);
                out.push_str(&body);
                proof {
                    lemma_with_sign(n < 0, self.force_sign, body@);
                }
            },
            NumValue::Fixed { negative, text } => {
                let body = if self.thousands {
                    let tv = chars_of(text);
                    match find_char(&tv, '.') {
                        Some(i) => {
                            let int_part = string_of(&tv, 0, i);
                            let frac_part = string_of(&tv, i, tv.len());
                            let mut b = insert_thousands(parse_i64_or_zero(&int_part));
                            b.push_str(&frac_part);
                            b
                        },
                        None => {
                            proof {
                                assert(tv@.subrange(0, tv@.len() as int) =~= tv@);
                            }
                            insert_thousands(parse_i64_or_zero(text))
                        },
                    }
                } else {
                    crate::text::owned(text)
                };
                push_sign(&mut out, *negative, self.force_sign);
                out.push_str(&body);
                proof {
                    lemma_with_sign(*negative, self.force_sign, body@);
                    assert(Seq::<char>::empty() + body@ =~= body@);
                }
            },
            NumValue::Scientific { mantissa, exp } => {
                out.push_str(mantissa);
                let e = *exp;
                if e < 0 {
                    out.push_str(SCI_TIMES_TEN);
                    out.push('\u{2212}');
                    let mag: u64 = if e == i32::MIN {
                        2147483648u64
                    } else {
                        (-e) as u64
                    };
                    out.push_str(&u64_to_decimal(mag));
                    out.push_str(SCI_CLOSE);
                } else if e > 0 {
                    out.push_str(SCI_TIMES_TEN);
                    out.push_str(&u64_to_decimal(e as u64));
                    out.push_str(SCI_CLOSE);
                }
                proof {
                    assert(out@ =~= render_scientific_spec(mantissa@, e as int));
                }
            },
        }
        out
    }
}

/// A `{:num ...}` template: prefix, conversion, suffix.
pub struct NumFormat {
    pub prefix: String,
    pub spec: NumSpec,
    pub suffix: String,
}

/// The numeric template `rhs` denotes: its `{:num <body>}` span, the body
/// trimmed and parsed as a conversion specification.
pub open spec fn num_format_spec(rhs: Seq<char>) -> Option<(Seq<char>, NumSpec, Seq<char>)> {
    match split_keyword(rhs, "num"@) {
        None => None,
        Some((p, b, s)) => match num_spec_spec(trim_spec(b)) {
            None => None,
            Some(ns) => Some((p, ns, s)),
        },
    }
}

/// A `{:num B}` span after a prefix without one, with a body free of `}`,
/// splits the template into that prefix, the body's conversion and what
/// follows the span. With [`NumFormat::render`], a formatted cell is then
/// the prefix, the rendered number and the suffix.
pub proof fn law_num_template(p: Seq<char>, b: Seq<char>, s: Seq<char>, spec: NumSpec)
    requires
        forall|i: int| 0 <= i < p.len() ==> !#[trigger] occurs_at(lower_seq(p), "{:num "@, i),
        forall|i: int| 0 <= i < b.len() ==> b[i] != '}',
        num_spec_spec(trim_spec(b)) == Some(spec),
    ensures
        num_format_spec(p + "{:num "@ + b + "}"@ + s) == Some((p, spec, s)),
{
    reveal_strlit("{:num ");
    reveal_strlit("num");
    reveal_strlit("}");
    let kw = "{:num "@;
    let rhs = p + kw + b + "}"@ + s;
    let hay = lower_seq(rhs);
    let needle = keyword_needle("num"@);
    assert(lower_seq("num"@) =~= "num"@);
    assert(needle =~= kw);
    let n = p.len() as int;
    assert forall|k: int| 0 <= k < 6 implies hay[n + k] == kw[k] by {
        assert(rhs[n + k] == kw[k]);
    }
    assert(hay.subrange(n, n + 6) =~= needle);
    assert forall|j: int| 0 <= j < n implies !occurs_at(hay, needle, j) by {
        if j + 6 <= n {
            assert(hay.subrange(j, j + 6) =~= lower_seq(p).subrange(j, j + 6));
            assert(!occurs_at(lower_seq(p), kw, j));
        } else if occurs_at(hay, needle, j) {
            let k = n - j;
            assert(hay.subrange(j, j + 6)[k] == hay[n]);
            assert(hay[n] == '{');
            assert(needle[k] != '{');
        }
    }
    lemma_first_occurrence_unique(hay, needle, n);
    let after = rhs.subrange(n + 6, rhs.len() as int);
    assert(after =~= b + "}"@ + s);
    assert(is_first_char(after, '}', b.len() as int));
    lemma_first_char_unique(after, '}', b.len() as int);
    assert(rhs.subrange(0, n) =~= p);
    assert(after.subrange(0, b.len() as int) =~= b);
    assert(after.subrange(b.len() + 1int, after.len() as int) =~= s);
}

/// Parse a `{:num ...}` template. The flag is the column's `raw_html`:
/// scientific output carries markup.
pub fn build_num_format(rhs: &str) -> (r: Option<(NumFormat, bool)>)
    ensures
        match num_format_spec(rhs@) {
            None => r is None,
            Some((p, ns, s)) => r matches Some((f, raw)) && f.prefix@ == p && f.spec == ns
                && f.suffix@ == s && raw == (ns.conv == 'e'),
        },
{
    proof {
        reveal_strlit("num");
    }
    let sp = match split_keyword_template(rhs, "num") {
        Some(sp) => sp,
        None => return None,
    };
    let body = crate::text::trim(&sp.body);
    let spec = match NumSpec::parse(&body) {
        Some(ns) => ns,
        None => return None,
    };
    let raw_html = spec.conv == 'e';
    Some((NumFormat { prefix: sp.prefix, spec, suffix: sp.suffix }, raw_html))
}

impl NumFormat {
    /// Format one cell: `NA` for a missing (or NaN) value, else prefix,
    /// rendered number, suffix.
    pub fn render(&self, v: Option<&NumValue>) -> (r: String)
        ensures
            match v {
                None => r@ == "NA"@,
                Some(n) => r@ == self.prefix@ + render_value_spec(self.spec, *n) + self.suffix@,
            },
    {
        match v {
            None => String::from_str("NA"),
            Some(n) => {
                let mut out = crate::text::owned(&self.prefix);
                let body = self.spec.render(n);
                out.push_str(&body);
                out.push_str(&self.suffix);
                out
            },
        }
    }
}

} // verus!

verus! {

// ============================================================================
// Time: `{:time <strftime>}`
// ============================================================================

/// A calendar date: year, month (1-12), day (1-31) and weekday counted
/// from Sunday (0-6).
#[derive(Copy, Clone, PartialEq, Eq, Structural, Debug)]
pub struct DateParts {
    pub year: i32,
    pub month: u32,
    pub day: u32,
    pub weekday: u32,
}

/// A time of day: hour (0-23), minute and second (0-59).
#[derive(Copy, Clone, PartialEq, Eq, Structural, Debug)]
pub struct TimeParts {
    pub hour: u32,
    pub minute: u32,
    pub second: u32,
}

/// A single instant — date, time, or datetime — extracted from a string.
#[derive(Copy, Clone, PartialEq, Eq, Structural, Debug)]
pub struct Temporal {
    pub date: Option<DateParts>,
    pub time: Option<TimeParts>,
}

pub open spec fn date_in_range(d: DateParts) -> bool {
    1 <= d.month <= 12 && 1 <= d.day <= 31 && d.weekday < 7
}

pub open spec fn time_in_range(t: TimeParts) -> bool {
    t.hour < 24 && t.minute < 60 && t.second < 60
}

/// What `chrono::NaiveDateTime::parse_from_str(s, fmt)` gives, read back
/// as date and time fields.
pub uninterp spec fn chrono_datetime(s: Seq<char>, fmt: Seq<char>) -> Option<(DateParts, TimeParts)>;

/// What `chrono::NaiveDate::parse_from_str(s, fmt)` gives, read back as
/// date fields.
pub uninterp spec fn chrono_date(s: Seq<char>, fmt: Seq<char>) -> Option<DateParts>;

/// What `chrono::NaiveTime::parse_from_str(s, fmt)` gives, read back as
/// time fields.
pub uninterp spec fn chrono_time(s: Seq<char>, fmt: Seq<char>) -> Option<TimeParts>;

/// `chrono::NaiveDateTime::parse_from_str`, its result read back through
/// `year`, `month`, `day`, `weekday().num_days_from_sunday()`, `hour`,
/// `minute` and `second`. The contract names the result and states the
/// ranges chrono documents for those accessors; which strings parse is
/// chrono's format grammar and is not restated.
#[verifier::external_body]
fn parse_datetime(s: &str, fmt: &str) -> (r: Option<(DateParts, TimeParts)>)
    ensures
        r == chrono_datetime(s@, fmt@),
        r matches Some((d, t)) ==> date_in_range(d) && time_in_range(t),
{
    match chrono::NaiveDateTime::parse_from_str(s, fmt) {
        Ok(dt) => Some(
            (
                DateParts {
                    year: dt.year(),
                    month: dt.month(),
                    day: dt.day(),
                    weekday: dt.weekday().num_days_from_sunday(),
                },
                TimeParts { hour: dt.hour(), minute: dt.minute(), second: dt.second() },
            ),
        ),
        Err(_) => None,
    }
}

/// `chrono::NaiveDate::parse_from_str`, read back through `year`, `month`,
/// `day` and `weekday().num_days_from_sunday()`. The contract names the
/// result and states the documented accessor ranges only.
#[verifier::external_body]
fn parse_date(s: &str, fmt: &str) -> (r: Option<DateParts>)
    ensures
        r == chrono_date(s@, fmt@),
        r matches Some(d) ==> date_in_range(d),
{
    match chrono::NaiveDate::parse_from_str(s, fmt) {
        Ok(d) => Some(
            DateParts {
                year: d.year(),
                month: d.month(),
                day: d.day(),
                weekday: d.weekday().num_days_from_sunday(),
            },
        ),
        Err(_) => None,
    }
}

/// `chrono::NaiveTime::parse_from_str`, read back through `hour`, `minute`
/// and `second`. The contract names the result and states the documented
/// accessor ranges only.
#[verifier::external_body]
fn parse_time(s: &str, fmt: &str) -> (r: Option<TimeParts>)
    ensures
        r == chrono_time(s@, fmt@),
        r matches Some(t) ==> time_in_range(t),
{
    match chrono::NaiveTime::parse_from_str(s, fmt) {
        Ok(t) => Some(TimeParts { hour: t.hour(), minute: t.minute(), second: t.second() }),
        Err(_) => None,
    }
}

pub open spec fn temporal_in_range(t: Temporal) -> bool {
    (t.date matches Some(d) ==> date_in_range(d)) && (t.time matches Some(x) ==> time_in_range(x))
}

/// The instant a cell string denotes: after trimming, a datetime
/// (`%Y-%m-%d %H:%M:%S`, `%Y-%m-%d %H:%M`, `%Y-%m-%dT%H:%M:%S`), else a date
/// (`%Y-%m-%d`), else a time (`%H:%M:%S`, `%H:%M`), tried in that order.
pub open spec fn parse_temporal_spec(s: Seq<char>) -> Option<Temporal> {
    let t = trim_spec(s);
    match chrono_datetime(t, "%Y-%m-%d %H:%M:%S"@) {
        Some((d, x)) => Some(Temporal { date: Some(d), time: Some(x) }),
        None => match chrono_datetime(t, "%Y-%m-%d %H:%M"@) {
            Some((d, x)) => Some(Temporal { date: Some(d), time: Some(x) }),
            None => match chrono_datetime(t, "%Y-%m-%dT%H:%M:%S"@) {
                Some((d, x)) => Some(Temporal { date: Some(d), time: Some(x) }),
                None => match chrono_date(t, "%Y-%m-%d"@) {
                    Some(d) => Some(Temporal { date: Some(d), time: None }),
                    None => match chrono_time(t, "%H:%M:%S"@) {
                        Some(x) => Some(Temporal { date: None, time: Some(x) }),
                        None => match chrono_time(t, "%H:%M"@) {
                            Some(x) => Some(Temporal { date: None, time: Some(x) }),
                            None => None,
                        },
                    },
                },
            },
        },
    }
}

pub fn parse_temporal(s: &str) -> (r: Option<Temporal>)
    ensures
        r == parse_temporal_spec(s@),
        r matches Some(t) ==> temporal_in_range(t),
{
    let t = crate::text::trim(s);
    let ts = t.as_str();
    if let Some((d, x)) = parse_datetime(ts, "%Y-%m-%d %H:%M:%S") {
        return Some(Temporal { date: Some(d), time: Some(x) });
    }
    if let Some((d, x)) = parse_datetime(ts, "%Y-%m-%d %H:%M") {
        return Some(Temporal { date: Some(d), time: Some(x) });
    }
    if let Some((d, x)) = parse_datetime(ts, "%Y-%m-%dT%H:%M:%S") {
        return Some(Temporal { date: Some(d), time: Some(x) });
    }
    if let Some(d) = parse_date(ts, "%Y-%m-%d") {
        return Some(Temporal { date: Some(d), time: None });
    }
    if let Some(x) = parse_time(ts, "%H:%M:%S") {
        return Some(Temporal { date: None, time: Some(x) });
    }
    if let Some(x) = parse_time(ts, "%H:%M") {
        return Some(Temporal { date: None, time: Some(x) });
    }
    None
}

// ---------------------------------------------------------------------------
// Month and weekday names
// ---------------------------------------------------------------------------

#[derive(Copy, Clone, PartialEq, Eq, Structural, Debug)]
pub enum Lang {
    En,
    Fr,
}

/// French for any locale whose lower-cased tag starts with `fr`, English
/// otherwise.
pub open spec fn lang_of(loc: Option<Seq<char>>) -> Lang {
    match loc {
        Some(s) => if lower_seq(s).len() >= 2 && lower_seq(s).subrange(0, 2) == "fr"@ {
            Lang::Fr
        } else {
            Lang::En
        },
        None => Lang::En,
    }
}

pub open spec fn month_names(lang: Lang) -> Seq<Seq<char>> {
    match lang {
        Lang::En => seq![
            "January"@, "February"@, "March"@, "April"@, "May"@, "June"@, "July"@,
            "August"@, "September"@, "October"@, "November"@, "December"@,
        ],
        Lang::Fr => seq![
            "janvier"@, "février"@, "mars"@, "avril"@, "mai"@, "juin"@, "juillet"@,
            "août"@, "septembre"@, "octobre"@, "novembre"@, "décembre"@,
        ],
    }
}

pub open spec fn weekday_names(lang: Lang) -> Seq<Seq<char>> {
    match lang {
        Lang::En => seq![
            "Sunday"@, "Monday"@, "Tuesday"@, "Wednesday"@, "Thursday"@, "Friday"@,
            "Saturday"@,
        ],
        Lang::Fr => seq!["dimanche"@, "lundi"@, "mardi"@, "mercredi"@, "jeudi"@, "vendredi"@, "samedi"@],
    }
}

/// Index of month `m` (1-based) in the name table, clamped to 0..=11.
pub open spec fn month_index(m: u32) -> int {
    if m == 0 {
        0
    } else if m - 1 > 11 {
        11
    } else {
        m - 1
    }
}

pub open spec fn month_spec(lang: Lang, m: u32) -> Seq<char> {
    month_names(lang)[month_index(m)]
}

/// The first three characters of the month's name, the first one
/// ASCII-upper-cased in English.
pub open spec fn month_abbrev_spec(lang: Lang, m: u32) -> Seq<char> {
    let a = month_spec(lang, m).take(3);
    match lang {
        Lang::En => seq![upper_char(a[0])] + a.drop_first(),
        Lang::Fr => a,
    }
}

/// Weekday `w` (0 = Sunday), clamped to 6.
pub open spec fn weekday_spec(lang: Lang, w: u32) -> Seq<char> {
    weekday_names(lang)[if w > 6 { 6 } else { w as int }]
}

pub open spec fn weekday_abbrev_spec(lang: Lang, w: u32) -> Seq<char> {
    weekday_spec(lang, w).take(3)
}

impl Lang {
    pub fn from_locale(loc: Option<&str>) -> (r: Lang)
        ensures
            r == lang_of(
                match loc {
                    Some(s) => Some(s@),
                    None => None,
                },
            ),
    {
        match loc {
            Some(s) => {
                proof {
                    reveal_strlit("fr");
                }
                let lower = chars_of(&to_ascii_lowercase(s));
                let is_fr = eq_ignore_ascii_case(s, "fr") || (lower.len() >= 2 && lower[0] == 'f'
                    && lower[1] == 'r');
                proof {
                    if lower.len() >= 2 {
                        if lower[0] == 'f' && lower[1] == 'r' {
                            assert(lower@.subrange(0, 2) =~= "fr"@);
                        } else {
                            assert(lower@.subrange(0, 2)[0] == lower@[0]);
                            assert(lower@.subrange(0, 2)[1] == lower@[1]);
                        }
                    }
                    if lower_seq(s@) == lower_seq("fr"@) {
                        assert(lower_seq("fr"@) =~= "fr"@);
                        assert(lower@.len() == 2);
                        assert(lower@[0] == 'f');
                        assert(lower@[1] == 'r');
                    }
                }
                if is_fr {
                    Lang::Fr
                } else {
                    Lang::En
                }
            },
            None => Lang::En,
        }
    }

    pub fn month(self, m: u32) -> (r: &'static str)
        ensures
            r@ == month_spec(self, m),
    {
        let idx: u32 = if m == 0 {
            0
        } else if m - 1 > 11 {
            11
        } else {
            m - 1
        };
        match self {
            Lang::En => match idx {
                0 => "January",
                1 => "February",
                2 => "March",
                3 => "April",
                4 => "May",
                5 => "June",
                6 => "July",
                7 => "August",
                8 => "September",
                9 => "October",
                10 => "November",
                _ => "December",
            },
            Lang::Fr => match idx {
                0 => "janvier",
                1 => "février",
                2 => "mars",
                3 => "avril",
                4 => "mai",
                5 => "juin",
                6 => "juillet",
                7 => "août",
                8 => "septembre",
                9 => "octobre",
                10 => "novembre",
                _ => "décembre",
            },
        }
    }

    pub fn weekday(self, w: u32) -> (r: &'static str)
        ensures
            r@ == weekday_spec(self, w),
    {
        let idx: u32 = if w > 6 {
            6
        } else {
            w
        };
        match self {
            Lang::En => match idx {
                0 => "Sunday",
                1 => "Monday",
                2 => "Tuesday",
                3 => "Wednesday",
                4 => "Thursday",
                5 => "Friday",
                _ => "Saturday",
            },
            Lang::Fr => match idx {
                0 => "dimanche",
                1 => "lundi",
                2 => "mardi",
                3 => "mercredi",
                4 => "jeudi",
                5 => "vendredi",
                _ => "samedi",
            },
        }
    }

    pub fn month_abbrev(self, m: u32) -> (r: String)
        ensures
            r@ == month_abbrev_spec(self, m),
    {
        let full = chars_of(self.month(m));
        proof {
            reveal_strlit("January");
            reveal_strlit("February");
            reveal_strlit("March");
            reveal_strlit("April");
            reveal_strlit("May");
            reveal_strlit("June");
            reveal_strlit("July");
            reveal_strlit("August");
            reveal_strlit("September");
            reveal_strlit("October");
            reveal_strlit("November");
            reveal_strlit("December");
            reveal_strlit("janvier");
            reveal_strlit("février");
            reveal_strlit("mars");
            reveal_strlit("avril");
            reveal_strlit("mai");
            reveal_strlit("juin");
            reveal_strlit("juillet");
            reveal_strlit("août");
            reveal_strlit("septembre");
            reveal_strlit("octobre");
            reveal_strlit("novembre");
            reveal_strlit("décembre");
            assert(full@.len() >= 3);
        }
        match self {
            Lang::En => {
                let mut s = String::new();
                s.push(ascii_upper_char(full[0]));
                s.push(full[1]);
                s.push(full[2]);
                proof {
                    assert(s@ =~= month_abbrev_spec(self, m));
                }
                s
            },
            Lang::Fr => {
                let s = string_of(&full, 0, 3);
                proof {
                    assert(s@ =~= month_abbrev_spec(self, m));
                }
                s
            },
        }
    }

    pub fn weekday_abbrev(self, w: u32) -> (r: String)
        ensures
            r@ == weekday_abbrev_spec(self, w),
    {
        let full = chars_of(self.weekday(w));
        proof {
            reveal_strlit("Sunday");
            reveal_strlit("Monday");
            reveal_strlit("Tuesday");
            reveal_strlit("Wednesday");
            reveal_strlit("Thursday");
            reveal_strlit("Friday");
            reveal_strlit("Saturday");
            reveal_strlit("dimanche");
            reveal_strlit("lundi");
            reveal_strlit("mardi");
            reveal_strlit("mercredi");
            reveal_strlit("jeudi");
            reveal_strlit("vendredi");
            reveal_strlit("samedi");
            assert(full@.len() >= 3);
        }
        let s = string_of(&full, 0, 3);
        proof {
            assert(s@ =~= weekday_abbrev_spec(self, w));
        }
        s
    }
}

} // verus!

verus! {

// ---------------------------------------------------------------------------
// strftime rendering
// ---------------------------------------------------------------------------

/// `format!("{:0w}", v)`: the decimal digits zero-padded to width `w`, a
/// `-` counting towards the width for negatives.
pub open spec fn zero_padded(v: int, w: nat) -> Seq<char> {
    if v >= 0 {
        pad_left(decimal(v as nat), w, '0')
    } else {
        seq!['-'] + pad_left(decimal(abs_int(v)), (if w >= 1 { w - 1 } else { 0 }) as nat, '0')
    }
}

/// Rust's `%` on integers: the remainder takes the dividend's sign.
pub open spec fn rem_100(y: int) -> int {
    if y >= 0 {
        y % 100
    } else {
        -((-y) % 100)
    }
}

/// The text a `%<tok>` (with `had_dash` for `%-<tok>`) renders to. Date
/// tokens render nothing when the instant has no date, time tokens nothing
/// when it has no time; `%d`, `%H`, `%I`, `%M` and `%S` are never padded (gt's named
/// styles); unknown tokens pass through verbatim.
pub open spec fn token_text(tok: char, had_dash: bool, t: Temporal, lang: Lang) -> Seq<char> {
    let date_part = |f: spec_fn(DateParts) -> Seq<char>|
        match t.date {
            Some(d) => f(d),
            None => Seq::<char>::empty(),
        };
    let time_part = |f: spec_fn(TimeParts) -> Seq<char>|
        match t.time {
            Some(x) => f(x),
            None => Seq::<char>::empty(),
        };
    if tok == '%' {
        seq!['%']
    } else if tok == 'Y' {
        date_part(|d: DateParts| zero_padded(d.year as int, 4))
    } else if tok == 'y' {
        date_part(|d: DateParts| zero_padded(rem_100(d.year as int), 2))
    } else if tok == 'm' {
        date_part(
            |d: DateParts|
                if had_dash {
                    decimal(d.month as nat)
                } else {
                    pad_left(decimal(d.month as nat), 2, '0')
                },
        )
    } else if tok == 'd' {
        date_part(|d: DateParts| decimal(d.day as nat))
    } else if tok == 'e' {
        date_part(|d: DateParts| pad_left(decimal(d.day as nat), 2, ' '))
    } else if tok == 'B' {
        date_part(|d: DateParts| month_spec(lang, d.month))
    } else if tok == 'b' || tok == 'h' {
        date_part(|d: DateParts| month_abbrev_spec(lang, d.month))
    } else if tok == 'A' {
        date_part(|d: DateParts| weekday_spec(lang, d.weekday))
    } else if tok == 'a' {
        date_part(|d: DateParts| weekday_abbrev_spec(lang, d.weekday))
    } else if tok == 'H' {
        time_part(|x: TimeParts| decimal(x.hour as nat))
    } else if tok == 'I' {
        time_part(
            |x: TimeParts|
                decimal(
                    if x.hour % 12 == 0 {
                        12
                    } else {
                        (x.hour % 12) as nat
                    },
                ),
        )
    } else if tok == 'M' {
        time_part(|x: TimeParts| decimal(x.minute as nat))
    } else if tok == 'S' {
        time_part(|x: TimeParts| decimal(x.second as nat))
    } else if tok == 'p' {
        time_part(
            |x: TimeParts|
                if x.hour < 12 {
                    "AM"@
                } else {
                    "PM"@
                },
        )
    } else if tok == 'P' {
        time_part(
            |x: TimeParts|
                if x.hour < 12 {
                    "am"@
                } else {
                    "pm"@
                },
        )
    } else if had_dash {
        seq!['%', '-', tok]
    } else {
        seq!['%', tok]
    }
}

/// `%p` and `%P` on an instant with a time: the morning marker exactly
/// for hours 0 to 11, the afternoon marker from noon on.
pub proof fn law_meridiem(had_dash: bool, t: Temporal, lang: Lang)
    requires
        t.time is Some,
    ensures
        (token_text('p', had_dash, t, lang) == "AM"@) <==> t.time->0.hour < 12,
        (token_text('p', had_dash, t, lang) == "PM"@) <==> t.time->0.hour >= 12,
        (token_text('P', had_dash, t, lang) == "am"@) <==> t.time->0.hour < 12,
        (token_text('P', had_dash, t, lang) == "pm"@) <==> t.time->0.hour >= 12,
{
    reveal_strlit("AM");
    reveal_strlit("PM");
    reveal_strlit("am");
    reveal_strlit("pm");
    assert("AM"@ != "PM"@) by {
        assert("AM"@[0] != "PM"@[0]);
    }
    assert("am"@ != "pm"@) by {
        assert("am"@[0] != "pm"@[0]);
    }
}

/// A strftime-style format rendered for one instant: literal characters
/// copied, `%[-]<tok>` replaced by [`token_text`], a trailing `%` or `%-`
/// kept as written.
pub open spec fn strftime_spec(fmt: Seq<char>, t: Temporal, lang: Lang) -> Seq<char>
    decreases fmt.len(),
{
    if fmt.len() == 0 {
        Seq::empty()
    } else if fmt[0] != '%' {
        seq![fmt[0]] + strftime_spec(fmt.drop_first(), t, lang)
    } else {
        let rest = fmt.drop_first();
        let had_dash = rest.len() > 0 && rest[0] == '-';
        let rest2 = if had_dash {
            rest.drop_first()
        } else {
            rest
        };
        if rest2.len() == 0 {
            if had_dash {
                seq!['%', '-']
            } else {
                seq!['%']
            }
        } else {
            token_text(rest2[0], had_dash, t, lang) + strftime_spec(rest2.drop_first(), t, lang)
        }
    }
}

fn push_decimal(out: &mut String, n: u32)
    ensures
        final(out)@ == old(out)@ + decimal(n as nat),
{
    out.push_str(&u64_to_decimal(n as u64));
}

fn push_padded_decimal(out: &mut String, n: u32, width: usize, pad: char)
    ensures
        final(out)@ == old(out)@ + pad_left(decimal(n as nat), width as nat, pad),
{
    push_padded(out, &u64_to_decimal(n as u64), width, pad);
}

fn push_zero_padded_i32(out: &mut String, v: i32, w: usize)
    requires
        w >= 1,
    ensures
        final(out)@ == old(out)@ + zero_padded(v as int, w as nat),
{
    if v >= 0 {
        push_padded(out, &u64_to_decimal(v as u64), w, '0');
    } else {
        out.push('-');
        let mag: u64 = if v == i32::MIN {
            2147483648u64
        } else {
            (-v) as u64
        };
        push_padded(out, &u64_to_decimal(mag), w - 1, '0');
        proof {
            assert(final(out)@ =~= old(out)@ + zero_padded(v as int, w as nat));
        }
    }
}

fn push_token(out: &mut String, tok: char, had_dash: bool, t: &Temporal, lang: Lang)
    ensures
        final(out)@ == old(out)@ + token_text(tok, had_dash, *t, lang),
{
    let ghost start = out@;
    if tok == '%' {
        out.push('%');
    } else if tok == 'Y' {
        if let Some(d) = t.date {
            push_zero_padded_i32(out, d.year, 4);
        }
    } else if tok == 'y' {
        if let Some(d) = t.date {
            let y = d.year;
            let r: i32 = if y >= 0 {
                y % 100
            } else if y == i32::MIN {
                -48
            } else {
                -((-y) % 100)
            };
            push_zero_padded_i32(out, r, 2);
        }
    } else if tok == 'm' {
        if let Some(d) = t.date {
            if had_dash {
                push_decimal(out, d.month);
            } else {
                push_padded_decimal(out, d.month, 2, '0');
            }
        }
    } else if tok == 'd' {
        if let Some(d) = t.date {
            push_decimal(out, d.day);
        }
    } else if tok == 'e' {
        if let Some(d) = t.date {
            push_padded_decimal(out, d.day, 2, ' ');
        }
    } else if tok == 'B' {
        if let Some(d) = t.date {
            out.push_str(lang.month(d.month));
        }
    } else if tok == 'b' || tok == 'h' {
        if let Some(d) = t.date {
            out.push_str(&lang.month_abbrev(d.month));
        }
    } else if tok == 'A' {
        if let Some(d) = t.date {
            out.push_str(lang.weekday(d.weekday));
        }
    } else if tok == 'a' {
        if let Some(d) = t.date {
            out.push_str(&lang.weekday_abbrev(d.weekday));
        }
    } else if tok == 'H' {
        if let Some(x) = t.time {
            push_decimal(out, x.hour);
        }
    } else if tok == 'I' {
        if let Some(x) = t.time {
            let h12 = if x.hour % 12 == 0 {
                12
            } else {
                x.hour % 12
            };
            push_decimal(out, h12);
        }
    } else if tok == 'M' {
        if let Some(x) = t.time {
            push_decimal(out, x.minute);
        }
    } else if tok == 'S' {
        if let Some(x) = t.time {
            push_decimal(out, x.second);
        }
    } else if tok == 'p' {
        if let Some(x) = t.time {
            out.push_str(if x.hour < 12 {
                "AM"
            } else {
                "PM"
            });
        }
    } else if tok == 'P' {
        if let Some(x) = t.time {
            out.push_str(if x.hour < 12 {
                "am"
            } else {
                "pm"
            });
        }
    } else {
        out.push('%');
        if had_dash {
            out.push('-');
        }
        out.push(tok);
    }
    proof {
        assert(out@ =~= start + token_text(tok, had_dash, *t, lang));
    }
}

/// Walk a strftime format string substituting `%X` tokens. Recognised
/// tokens reproduce gt's named-style output. The `-` modifier is accepted
/// (e.g. `%-d`).
pub fn render_strftime(fmt: &str, t: &Temporal, lang: Lang) -> (r: String)
    ensures
        r@ == strftime_spec(fmt@, *t, lang),
{
    let v = chars_of(fmt);
    let mut out = String::new();
    let mut i: usize = 0;
    proof {
        assert(v@.skip(0) =~= v@);
    }
    while i < v.len()
        invariant
            v@ == fmt@,
            i <= v.len(),
            out@ + strftime_spec(v@.skip(i as int), *t, lang) == strftime_spec(fmt@, *t, lang),
        decreases v.len() - i,
    {
        let ghost rest0 = v@.skip(i as int);
        let c = v[i];
        proof {
            assert(rest0[0] == c);
            assert(rest0.drop_first() =~= v@.skip(i + 1));
        }
        if c != '%' {
            out.push(c);
            i += 1;
            proof {
                assert(out@ + strftime_spec(v@.skip(i as int), *t, lang) =~= strftime_spec(
                    fmt@,
                    *t,
                    lang,
                ));
            }
        } else {
            let mut j = i + 1;
            let had_dash = j < v.len() && v[j] == '-';
            if had_dash {
                j += 1;
            }
            proof {
                let rest = rest0.drop_first();
                if had_dash {
                    assert(rest[0] == '-');
                    assert(rest.drop_first() =~= v@.skip(j as int));
                } else {
                    assert(rest =~= v@.skip(j as int));
                }
            }
            if j == v.len() {
                out.push('%');
                if had_dash {
                    out.push('-');
                }
                proof {
                    assert(v@.skip(j as int).len() == 0);
                    assert(out@ =~= strftime_spec(fmt@, *t, lang));
                    assert(v@.skip(v.len() as int) =~= Seq::<char>::empty());
                    assert(out@ + strftime_spec(v@.skip(v.len() as int), *t, lang) =~= out@);
                }
                i = v.len();
            } else {
                let tok = v[j];
                proof {
                    assert(v@.skip(j as int)[0] == tok);
                    assert(v@.skip(j as int).drop_first() =~= v@.skip(j + 1));
                }
                push_token(&mut out, tok, had_dash, t, lang);
                i = j + 1;
                proof {
                    assert(out@ + strftime_spec(v@.skip(i as int), *t, lang) =~= strftime_spec(
                        fmt@,
                        *t,
                        lang,
                    ));
                }
            }
        }
    }
    proof {
        assert(v@.skip(i as int) =~= Seq::<char>::empty());
        assert(out@ + Seq::<char>::empty() =~= out@);
    }
    out
}

/// A `{:time ...}` template: prefix, strftime format, suffix and the
/// column's language.
pub struct TimeFormat {
    pub prefix: String,
    pub fmt: String,
    pub suffix: String,
    pub lang: Lang,
}

/// What a time template renders for one cell: `NA` for a missing value;
/// a string that names no instant is kept as it is.
pub open spec fn time_cell_spec(
    prefix: Seq<char>,
    fmt: Seq<char>,
    suffix: Seq<char>,
    lang: Lang,
    v: Option<Seq<char>>,
) -> Seq<char> {
    match v {
        None => "NA"@,
        Some(s) => prefix + match parse_temporal_spec(s) {
            Some(t) => strftime_spec(fmt, t, lang),
            None => s,
        } + suffix,
    }
}

impl TimeFormat {
    pub fn apply(&self, v: Option<&str>) -> (r: String)
        ensures
            r@ == time_cell_spec(
                self.prefix@,
                self.fmt@,
                self.suffix@,
                self.lang,
                match v {
                    Some(s) => Some(s@),
                    None => None,
                },
            ),
    {
        match v {
            None => String::from_str("NA"),
            Some(s) => {
                let mut out = crate::text::owned(&self.prefix);
                match parse_temporal(s) {
                    Some(t) => {
                        let body = render_strftime(&self.fmt, &t, self.lang);
                        out.push_str(&body);
                    },
                    None => out.push_str(s),
                }
                out.push_str(&self.suffix);
                out
            },
        }
    }
}

/// The time template `rhs` denotes: its `{:time <fmt>}` span.
pub open spec fn time_format_spec(rhs: Seq<char>) -> Option<(Seq<char>, Seq<char>, Seq<char>)> {
    split_keyword(rhs, "time"@)
}

pub fn build_time_format(rhs: &str, locale: Option<&str>) -> (r: Option<TimeFormat>)
    ensures
        match time_format_spec(rhs@) {
            None => r is None,
            Some((p, f, s)) => r matches Some(tf) && tf.prefix@ == p && tf.fmt@ == f
                && tf.suffix@ == s && tf.lang == lang_of(
                match locale {
                    Some(l) => Some(l@),
                    None => None,
                },
            ),
        },
{
    proof {
        reveal_strlit("time");
    }
    let sp = match split_keyword_template(rhs, "time") {
        Some(sp) => sp,
        None => return None,
    };
    let lang = Lang::from_locale(locale);
    Some(TimeFormat { prefix: sp.prefix, fmt: sp.body, suffix: sp.suffix, lang })
}

// ============================================================================
// Dispatch
// ============================================================================

/// Formatter kind selected based on the RHS template.
pub enum CellFmt {
    /// Numeric formatter.
    Numeric(NumFormat),
    /// Time formatter.
    Time(TimeFormat),
    /// String / case-transform formatter.
    Str(StringFormat),
}

/// Which formatter a template selects: numeric first, then time, then
/// string.
pub open spec fn format_kind(rhs: Seq<char>) -> Option<int> {
    if num_format_spec(rhs) is Some {
        Some(0)
    } else if time_format_spec(rhs) is Some {
        Some(1)
    } else if string_format_spec(rhs) is Some {
        Some(2)
    } else {
        None
    }
}

/// Parse a `FORMAT ... RENAMING * => '<rhs>'` template into a `CellFmt`
/// plus a `raw_html` flag for the column.
///
/// Returns `None` when the RHS is not a recognised formatter template.
pub fn build_format(rhs: &str, locale: Option<&str>) -> (r: Option<(CellFmt, bool)>)
    ensures
        match num_format_spec(rhs@) {
            Some((p, ns, s)) => r matches Some((CellFmt::Numeric(f), raw)) && f.prefix@ == p
                && f.spec == ns && f.suffix@ == s && raw == (ns.conv == 'e'),
            None => match time_format_spec(rhs@) {
                Some((p, fm, s)) => r matches Some((CellFmt::Time(tf), raw)) && tf.prefix@ == p
                    && tf.fmt@ == fm && tf.suffix@ == s && tf.lang == lang_of(
                    match locale {
                        Some(l) => Some(l@),
                        None => None,
                    },
                ) && !raw,
                None => match string_format_spec(rhs@) {
                    Some((p, k, s)) => r matches Some((CellFmt::Str(sf), raw)) && sf.prefix@ == p
                        && sf.kind == k && sf.suffix@ == s && !raw,
                    None => r is None,
                },
            },
        },
{
    if let Some((fmt, raw_html)) = build_num_format(rhs) {
        return Some((CellFmt::Numeric(fmt), raw_html));
    }
    if let Some(fmt) = build_time_format(rhs, locale) {
        return Some((CellFmt::Time(fmt), false));
    }
    if let Some(fmt) = build_string_format(rhs) {
        return Some((CellFmt::Str(fmt), false));
    }
    None
}

} // verus!
