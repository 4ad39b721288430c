//! HTML normalization for comparing rendered tables with reference output.
//!
//! Generated noise (random ids, the random table-class suffix, attribute
//! order, entity spelling, whitespace) is made canonical, so that two
//! renderings of the same table compare equal as text. The patterns are
//! matched by the `regex` crate; what it returns for them is named, and
//! everything around those calls is proved here.

use crate::tabulate::layout::opt_str;
use crate::text::{chars_of, owned, replace_all, replace_spec, string_of, trim, trim_spec};
use vstd::prelude::*;

verus! {

// ============================================================================
// The regex calls
// ============================================================================

/// What `regex::Regex::new(pattern)` and then `replace_all(text, rep)` on
/// the compiled regex return; `None` when the pattern does not compile.
pub uninterp spec fn regex_replaced(pattern: Seq<char>, text: Seq<char>, rep: Seq<char>) -> Option<
    Seq<char>,
>;

/// What `regex::Regex::new(pattern)` and then `split(text)` return: the
/// pieces of `text` between the matches, in order; `None` when the pattern
/// does not compile.
pub uninterp spec fn regex_split(pattern: Seq<char>, text: Seq<char>) -> Option<Seq<Seq<char>>>;

/// What `regex::Regex::new(pattern)` and then `captures_iter(text)` return:
/// for each match, in order, the text of each capture group (group 0 being
/// the whole match, `None` for a group that did not take part); `None`
/// when the pattern does not compile.
pub uninterp spec fn regex_captures(pattern: Seq<char>, text: Seq<char>) -> Option<
    Seq<Seq<Option<Seq<char>>>>,
>;

/// Trusted: compiles `pattern` with `regex::Regex::new` and calls
/// `Regex::replace_all(text, rep)`, which replaces every non-overlapping
/// match, expanding `$n` in `rep` to the `n`-th group. The contract names
/// the result; it states nothing of what the regex matches.
#[verifier::external_body]
fn regex_replace_all(pattern: &str, text: &str, rep: &str) -> (r: Option<String>)
    ensures
        opt_str(r) == regex_replaced(pattern@, text@, rep@),
{
    match regex::Regex::new(pattern) {
        Ok(re) => Some(re.replace_all(text, rep).into_owned()),
        Err(_) => None,
    }
}

/// Trusted: compiles `pattern` with `regex::Regex::new` and collects
/// `Regex::split(text)`, the text between successive matches. The contract
/// names the result.
#[verifier::external_body]
fn regex_split_text(pattern: &str, text: &str) -> (r: Option<Vec<String>>)
    ensures
        opt_strs(r) == regex_split(pattern@, text@),
{
    match regex::Regex::new(pattern) {
        Ok(re) => Some(re.split(text).map(|p| p.to_string()).collect()),
        Err(_) => None,
    }
}

/// Trusted: compiles `pattern` with `regex::Regex::new` and collects
/// `Regex::captures_iter(text)`, each match as the text of its groups. The
/// contract names the result.
#[verifier::external_body]
fn regex_capture_groups(pattern: &str, text: &str) -> (r: Option<Vec<Vec<Option<String>>>>)
    ensures
        opt_groups(r) == regex_captures(pattern@, text@),
{
    match regex::Regex::new(pattern) {
        Ok(re) => Some(
            re.captures_iter(text).map(
                |c| c.iter().map(|g| g.map(|m| m.as_str().to_string())).collect(),
            ).collect(),
        ),
        Err(_) => None,
    }
}

pub open spec fn strs(v: Seq<String>) -> Seq<Seq<char>> {
    v.map_values(|s: String| s@)
}

pub open spec fn opt_strs(o: Option<Vec<String>>) -> Option<Seq<Seq<char>>> {
    match o {
        Some(v) => Some(strs(v@)),
        None => None,
    }
}

/// A match's groups, as values.
pub open spec fn groups_view(g: Vec<Option<String>>) -> Seq<Option<Seq<char>>> {
    g@.map_values(|o: Option<String>| opt_str(o))
}

pub open spec fn matches_view(v: Seq<Vec<Option<String>>>) -> Seq<Seq<Option<Seq<char>>>> {
    v.map_values(|g: Vec<Option<String>>| groups_view(g))
}

pub open spec fn opt_groups(o: Option<Vec<Vec<Option<String>>>>) -> Option<
    Seq<Seq<Option<Seq<char>>>>,
> {
    match o {
        Some(v) => Some(matches_view(v@)),
        None => None,
    }
}

// ============================================================================
// The patterns
// ============================================================================

/// An `id="..."` attribute on a `<div>`.
pub const DIV_ID_PATTERN: &'static str = "(<div\\b[^>]*?)\\s+id=\"[^\"]*\"";

/// An `id="..."` attribute on a `<table>`.
pub const TABLE_ID_PATTERN: &'static str = "(<table\\b[^>]*?)\\s+id=\"[^\"]*\"";

/// gt's randomized table class.
pub const TABLE_CLASS_PATTERN: &'static str = "gt_table_[a-z0-9]+";

/// The canonical table class.
pub const TABLE_CLASS: &'static str = "gt_table_X";

/// A run of whitespace.
pub const WS_PATTERN: &'static str = "[ \\t\\r\\n]+";

/// Whitespace between two tags.
pub const BETWEEN_TAGS_PATTERN: &'static str = ">[ \\t\\r\\n]+<";

/// An opening or self-closing tag: its name, its attribute text and the
/// closing slash.
pub const TAG_PATTERN: &'static str = "<([A-Za-z][A-Za-z0-9]*)((?:\\s+[^>]*?)?)(/?)>";

/// One attribute: its name and its quoted value, if any.
pub const ATTR_PATTERN: &'static str = "([A-Za-z_:][-A-Za-z0-9_:.]*)(?:=(\"[^\"]*\"|'[^']*'))?";

// ============================================================================
// Ordering attributes
// ============================================================================

/// `a` sorts strictly before `b`: the order of `String`'s `Ord`, which
/// compares UTF-8 bytes and so orders code points lexicographically.
pub open spec fn str_lt(a: Seq<char>, b: Seq<char>) -> bool
    decreases a.len(),
{
    if b.len() == 0 {
        false
    } else if a.len() == 0 {
        true
    } else if a[0] != b[0] {
        (a[0] as int) < (b[0] as int)
    } else {
        str_lt(a.drop_first(), b.drop_first())
    }
}

fn str_less(a: &Vec<char>, b: &Vec<char>) -> (r: bool)
    ensures
        r == str_lt(a@, b@),
{
    let mut i: usize = 0;
    proof {
        assert(a@.skip(0) =~= a@);
        assert(b@.skip(0) =~= b@);
    }
    while i < a.len() && i < b.len()
        invariant
            i <= a@.len(),
            i <= b@.len(),
            str_lt(a@, b@) == str_lt(a@.skip(i as int), b@.skip(i as int)),
        decreases a.len() - i,
    {
        proof {
            assert(a@.skip(i as int)[0] == a@[i as int]);
            assert(b@.skip(i as int)[0] == b@[i as int]);
            assert(a@.skip(i as int).drop_first() =~= a@.skip(i + 1));
            assert(b@.skip(i as int).drop_first() =~= b@.skip(i + 1));
        }
        if a[i] != b[i] {
            return a[i] < b[i];
        }
        i += 1;
    }
    i < b.len()
}

/// `x` inserted into `s` after every entry it does not sort before.
pub open spec fn insert_sorted(s: Seq<Seq<char>>, x: Seq<char>) -> Seq<Seq<char>>
    decreases s.len(),
{
    if s.len() == 0 || !str_lt(x, s.last()) {
        s.push(x)
    } else {
        insert_sorted(s.drop_last(), x).push(s.last())
    }
}

/// `s` in ascending order, equal entries in their order in `s`.
pub open spec fn sort_spec(s: Seq<Seq<char>>) -> Seq<Seq<char>>
    decreases s.len(),
{
    if s.len() == 0 {
        s
    } else {
        insert_sorted(sort_spec(s.drop_last()), s.last())
    }
}

proof fn lemma_insert_at(s: Seq<Seq<char>>, x: Seq<char>, j: int)
    requires
        0 <= j <= s.len(),
        j == 0 || !str_lt(x, s[j - 1]),
        forall|q: int| j <= q < s.len() ==> str_lt(x, #[trigger] s[q]),
    ensures
        insert_sorted(s, x) == s.take(j).push(x) + s.skip(j),
    decreases s.len(),
{
    if j == s.len() {
        assert(s.take(j) =~= s);
        assert(s.skip(j) =~= Seq::<Seq<char>>::empty());
        assert(s.take(j).push(x) + s.skip(j) =~= s.push(x));
    } else {
        let t = s.drop_last();
        assert(str_lt(x, s[s.len() - 1]));
        assert forall|q: int| j <= q < t.len() implies str_lt(x, #[trigger] t[q]) by {
            assert(t[q] == s[q]);
        }
        if j > 0 {
            assert(t[j - 1] == s[j - 1]);
        }
        lemma_insert_at(t, x, j);
        assert(t.take(j) =~= s.take(j));
        assert((t.take(j).push(x) + t.skip(j)).push(s.last()) =~= s.take(j).push(x) + s.skip(j));
    }
}

fn sort_strings(v: Vec<String>) -> (r: Vec<String>)
    ensures
        strs(r@) == sort_spec(strs(v@)),
{
    let mut out: Vec<String> = Vec::new();
    let mut keys: Vec<Vec<char>> = Vec::new();
    let mut i: usize = 0;
    proof {
        assert(strs(v@).take(0) =~= Seq::<Seq<char>>::empty());
        assert(strs(out@) =~= sort_spec(strs(v@).take(0)));
    }
    while i < v.len()
        invariant
            i <= v@.len(),
            keys@.len() == out@.len(),
            forall|q: int| 0 <= q < out@.len() ==> (#[trigger] keys@[q])@ == out@[q]@,
            strs(out@) == sort_spec(strs(v@).take(i as int)),
        decreases v.len() - i,
    {
        let x = chars_of(&v[i]);
        let mut j: usize = out.len();
        while j > 0 && str_less(&x, &keys[j - 1])
            invariant
                j <= out@.len(),
                keys@.len() == out@.len(),
                forall|q: int| 0 <= q < out@.len() ==> (#[trigger] keys@[q])@ == out@[q]@,
                forall|q: int| j <= q < out@.len() ==> str_lt(x@, #[trigger] strs(out@)[q]),
            decreases j,
        {
            j -= 1;
        }
        proof {
            let t = strs(v@).take(i + 1);
            assert(t.drop_last() =~= strs(v@).take(i as int));
            assert(t.last() == x@);
            if j > 0 {
                assert(strs(out@)[j - 1] == keys@[j - 1]@);
            }
            lemma_insert_at(strs(out@), x@, j as int);
        }
        let ghost before = out@;
        let ghost kbefore = keys@;
        out.insert(j, owned(&v[i]));
        keys.insert(j, x);
        proof {
            assert(strs(out@) =~= strs(before).take(j as int).push(x@) + strs(before).skip(j as int));
            assert forall|q: int| 0 <= q < out@.len() implies (#[trigger] keys@[q])@ == out@[q]@ by {
                if q < j {
                    assert(keys@[q] == kbefore[q] && out@[q] == before[q]);
                } else if q > j {
                    assert(keys@[q] == kbefore[q - 1] && out@[q] == before[q - 1]);
                }
            }
        }
        i += 1;
    }
    proof {
        assert(strs(v@).take(i as int) =~= strs(v@));
    }
    out
}

} // verus!

verus! {

// ============================================================================
// Whitespace inside tags
// ============================================================================

/// The state after reading `s`: the output so far, whether a tag is open,
/// and the text read inside the open tag. Each tag's text, trimmed and with
/// its whitespace runs made single spaces, is written at its `>`; the text
/// of a tag left open at the end is dropped.
pub open spec fn collapse_state(s: Seq<char>) -> Option<(Seq<char>, bool, Seq<char>)>
    decreases s.len(),
{
    if s.len() == 0 {
        Some((Seq::empty(), false, Seq::empty()))
    } else {
        match collapse_state(s.drop_last()) {
            None => None,
            Some(st) => {
                let (out, in_tag, buf) = st;
                let ch = s.last();
                if ch == '<' {
                    Some((out.push('<'), true, buf))
                } else if ch == '>' {
                    if in_tag {
                        match regex_replaced(WS_PATTERN@, trim_spec(buf), " "@) {
                            None => None,
                            Some(c) => Some((out + c + seq!['>'], false, Seq::empty())),
                        }
                    } else {
                        Some((out.push('>'), false, buf))
                    }
                } else if in_tag {
                    Some((out, true, buf.push(ch)))
                } else {
                    Some((out.push(ch), false, buf))
                }
            },
        }
    }
}

pub open spec fn collapse_spec(s: Seq<char>) -> Option<Seq<char>> {
    match collapse_state(s) {
        Some(st) => Some(st.0),
        None => None,
    }
}

proof fn lemma_collapse_none(s: Seq<char>, a: nat, b: nat)
    requires
        a <= b <= s.len(),
        collapse_state(s.take(a as int)) is None,
    ensures
        collapse_state(s.take(b as int)) is None,
    decreases b - a,
{
    if a < b {
        lemma_collapse_none(s, a, (b - 1) as nat);
        assert(s.take(b as int).drop_last() =~= s.take(b - 1));
    }
}

fn collapse_tag_whitespace(input: &str) -> (r: Option<String>)
    ensures
        opt_str(r) == collapse_spec(input@),
{
    let v = chars_of(input);
    let mut out = String::new();
    let mut in_tag = false;
    let mut buf = String::new();
    let mut i: usize = 0;
    proof {
        assert(v@.take(0) =~= Seq::<char>::empty());
    }
    while i < v.len()
        invariant
            i <= v@.len(),
            v@ == input@,
            collapse_state(v@.take(i as int)) == Some((out@, in_tag, buf@)),
        decreases v.len() - i,
    {
        let ch = v[i];
        proof {
            let t = v@.take(i + 1);
            assert(t.drop_last() =~= v@.take(i as int));
            assert(t.last() == ch);
        }
        if ch == '<' {
            in_tag = true;
            out.push(ch);
        } else if ch == '>' {
            if in_tag {
                let t = trim(&buf);
                match regex_replace_all(WS_PATTERN, &t, " ") {
                    None => {
                        proof {
                            lemma_collapse_none(v@, (i + 1) as nat, v@.len() as nat);
                            assert(v@.take(v@.len() as int) =~= input@);
                        }
                        return None;
                    },
                    Some(c) => {
                        out.push_str(&c);
                    },
                }
                buf = String::new();
            }
            in_tag = false;
            out.push(ch);
        } else if in_tag {
            buf.push(ch);
        } else {
            out.push(ch);
        }
        i += 1;
    }
    proof {
        assert(v@.take(i as int) =~= input@);
    }
    Some(out)
}

// ============================================================================
// Attribute order
// ============================================================================

/// The text of group `i` of a match; empty when it did not take part.
pub open spec fn group_text(g: Seq<Option<Seq<char>>>, i: int) -> Seq<char> {
    if 0 <= i < g.len() {
        match g[i] {
            Some(t) => t,
            None => Seq::empty(),
        }
    } else {
        Seq::empty()
    }
}

/// An attribute as written back: `name` or `name=value`.
pub open spec fn attr_text(g: Seq<Option<Seq<char>>>) -> Seq<char> {
    let v = group_text(g, 2);
    if v.len() == 0 {
        group_text(g, 1)
    } else {
        group_text(g, 1) + "="@ + v
    }
}

/// `s` joined with single spaces.
pub open spec fn join_spaces(s: Seq<Seq<char>>) -> Seq<char>
    decreases s.len(),
{
    if s.len() == 0 {
        Seq::empty()
    } else if s.len() == 1 {
        s[0]
    } else {
        join_spaces(s.drop_last()) + " "@ + s.last()
    }
}

/// A tag written back with its attributes in ascending order.
pub open spec fn tag_spec(g: Seq<Option<Seq<char>>>) -> Option<Seq<char>> {
    let name = group_text(g, 1);
    let body = group_text(g, 2);
    let slash = group_text(g, 3);
    if trim_spec(body).len() == 0 {
        Some("<"@ + name + slash + ">"@)
    } else {
        match regex_captures(ATTR_PATTERN@, body) {
            None => None,
            Some(ms) => Some(
                "<"@ + name + " "@ + join_spaces(sort_spec(ms.map_values(|m: Seq<Option<Seq<char>>>| attr_text(m))))
                    + slash + ">"@,
            ),
        }
    }
}

/// The first `n` tags written back.
pub open spec fn tags_spec(ms: Seq<Seq<Option<Seq<char>>>>, n: nat) -> Option<Seq<Seq<char>>>
    decreases n,
{
    if n == 0 {
        Some(Seq::empty())
    } else {
        match (tags_spec(ms, (n - 1) as nat), tag_spec(ms[n - 1])) {
            (Some(a), Some(b)) => Some(a.push(b)),
            _ => None,
        }
    }
}

pub open spec fn piece(p: Seq<Seq<char>>, i: int) -> Seq<char> {
    if 0 <= i < p.len() {
        p[i]
    } else {
        Seq::empty()
    }
}

/// The text between the matches with the first `n` tags put back between
/// them.
pub open spec fn splice(p: Seq<Seq<char>>, t: Seq<Seq<char>>, n: nat) -> Seq<char>
    decreases n,
{
    if n == 0 {
        piece(p, 0)
    } else {
        splice(p, t, (n - 1) as nat) + t[n - 1] + piece(p, n as int)
    }
}

pub open spec fn sort_attributes_spec(s: Seq<char>) -> Option<Seq<char>> {
    match (regex_split(TAG_PATTERN@, s), regex_captures(TAG_PATTERN@, s)) {
        (Some(p), Some(ms)) => match tags_spec(ms, ms.len()) {
            Some(t) => Some(splice(p, t, t.len())),
            None => None,
        },
        _ => None,
    }
}

fn group_at(g: &Vec<Option<String>>, i: usize) -> (r: String)
    ensures
        r@ == group_text(groups_view(*g), i as int),
{
    if i < g.len() {
        match &g[i] {
            Some(t) => owned(t),
            None => String::new(),
        }
    } else {
        String::new()
    }
}

fn join_with_spaces(v: &Vec<String>) -> (r: String)
    ensures
        r@ == join_spaces(strs(v@)),
{
    let mut out = String::new();
    let mut i: usize = 0;
    proof {
        assert(strs(v@).take(0) =~= Seq::<Seq<char>>::empty());
    }
    while i < v.len()
        invariant
            i <= v@.len(),
            out@ == join_spaces(strs(v@).take(i as int)),
        decreases v.len() - i,
    {
        proof {
            let t = strs(v@).take(i + 1);
            assert(t.drop_last() =~= strs(v@).take(i as int));
            assert(t.last() == v@[i as int]@);
            if i == 0 {
                assert(t[0] == v@[0]@);
            }
        }
        if i > 0 {
            out.push_str(" ");
        }
        out.push_str(&v[i]);
        i += 1;
    }
    proof {
        assert(strs(v@).take(i as int) =~= strs(v@));
    }
    out
}

fn rewrite_tag(g: &Vec<Option<String>>) -> (r: Option<String>)
    ensures
        opt_str(r) == tag_spec(groups_view(*g)),
{
    let name = group_at(g, 1);
    let body = group_at(g, 2);
    let slash = group_at(g, 3);
    let mut out = String::from_str("<");
    out.push_str(&name);
    if chars_of(&trim(&body)).len() == 0 {
        out.push_str(&slash);
        out.push_str(">");
        proof {
            assert(out@ =~= "<"@ + name@ + slash@ + ">"@);
        }
        return Some(out);
    }
    let ms = match regex_capture_groups(ATTR_PATTERN, &body) {
        None => return None,
        Some(ms) => ms,
    };
    let mut attrs: Vec<String> = Vec::new();
    let mut i: usize = 0;
    while i < ms.len()
        invariant
            i <= ms@.len(),
            strs(attrs@) == matches_view(ms@).take(i as int).map_values(
                |m: Seq<Option<Seq<char>>>| attr_text(m),
            ),
        decreases ms.len() - i,
    {
        let k = group_at(&ms[i], 1);
        let v = group_at(&ms[i], 2);
        let mut a = k;
        if chars_of(&v).len() > 0 {
            a.push_str("=");
            a.push_str(&v);
        }
        let ghost before = attrs@;
        attrs.push(a);
        proof {
            assert(matches_view(ms@)[i as int] == groups_view(ms@[i as int]));
            assert(strs(attrs@) =~= strs(before).push(attr_text(groups_view(ms@[i as int]))));
            assert(matches_view(ms@).take(i + 1).map_values(|m: Seq<Option<Seq<char>>>| attr_text(m))
                =~= matches_view(ms@).take(i as int).map_values(
                |m: Seq<Option<Seq<char>>>| attr_text(m),
            ).push(attr_text(groups_view(ms@[i as int]))));
        }
        i += 1;
    }
    proof {
        assert(matches_view(ms@).take(i as int) =~= matches_view(ms@));
    }
    let sorted = sort_strings(attrs);
    out.push_str(" ");
    out.push_str(&join_with_spaces(&sorted));
    out.push_str(&slash);
    out.push_str(">");
    Some(out)
}

fn sort_attributes(input: &str) -> (r: Option<String>)
    ensures
        opt_str(r) == sort_attributes_spec(input@),
{
    let p = match regex_split_text(TAG_PATTERN, input) {
        None => return None,
        Some(p) => p,
    };
    let ms = match regex_capture_groups(TAG_PATTERN, input) {
        None => return None,
        Some(ms) => ms,
    };
    let ghost mv = matches_view(ms@);
    let mut out: String = if p.len() > 0 {
        owned(&p[0])
    } else {
        String::new()
    };
    let mut i: usize = 0;
    proof {
        assert(strs(p@).len() == p@.len());
        if p.len() > 0 {
            assert(strs(p@)[0] == p@[0]@);
        }
    }
    let ghost mut tags: Seq<Seq<char>> = Seq::empty();
    while i < ms.len()
        invariant
            i <= ms@.len(),
            mv == matches_view(ms@),
            regex_split(TAG_PATTERN@, input@) == Some(strs(p@)),
            regex_captures(TAG_PATTERN@, input@) == Some(mv),
            tags_spec(mv, i as nat) == Some(tags),
            tags.len() == i,
            out@ == splice(strs(p@), tags, i as nat),
        decreases ms.len() - i,
    {
        let t = match rewrite_tag(&ms[i]) {
            None => {
                proof {
                    assert(mv[i as int] == groups_view(ms@[i as int]));
                    lemma_tags_none(mv, (i + 1) as nat, ms@.len() as nat);
                    assert(mv.len() == ms@.len());
                }
                return None;
            },
            Some(t) => t,
        };
        proof {
            assert(mv[i as int] == groups_view(ms@[i as int]));
            let nt = tags.push(t@);
            assert(nt.drop_last() =~= tags);
            assert(splice(strs(p@), nt, i as nat) == splice(strs(p@), tags, i as nat)) by {
                lemma_splice_prefix(strs(p@), tags, nt, i as nat);
            }
            tags = nt;
        }
        out.push_str(&t);
        if i + 1 < p.len() {
            proof {
                assert(strs(p@)[i + 1] == p@[i + 1]@);
            }
            out.push_str(&p[i + 1]);
        }
        proof {
            assert(out@ =~= splice(strs(p@), tags, (i + 1) as nat));
        }
        i += 1;
    }
    Some(out)
}

proof fn lemma_tags_none(ms: Seq<Seq<Option<Seq<char>>>>, a: nat, b: nat)
    requires
        0 < a <= b,
        tag_spec(ms[a - 1]) is None,
    ensures
        tags_spec(ms, b) is None,
    decreases b - a,
{
    if a < b {
        lemma_tags_none(ms, a, (b - 1) as nat);
    }
}

proof fn lemma_splice_prefix(p: Seq<Seq<char>>, t: Seq<Seq<char>>, u: Seq<Seq<char>>, n: nat)
    requires
        n <= t.len(),
        n <= u.len(),
        forall|k: int| 0 <= k < n ==> t[k] == u[k],
    ensures
        splice(p, t, n) == splice(p, u, n),
    decreases n,
{
    if n > 0 {
        lemma_splice_prefix(p, t, u, (n - 1) as nat);
    }
}

// ============================================================================
// The whole text
// ============================================================================

pub open spec fn then_replace(o: Option<Seq<char>>, pattern: Seq<char>, rep: Seq<char>) -> Option<
    Seq<char>,
> {
    match o {
        Some(s) => regex_replaced(pattern, s, rep),
        None => None,
    }
}

/// `&`, `<` and `>` written as numeric character references become the
/// named entities.
pub open spec fn entities_spec(s: Seq<char>) -> Seq<char> {
    replace_spec(
        replace_spec(
            replace_spec(
                replace_spec(
                    replace_spec(replace_spec(s, "&#x26;"@, "&amp;"@), "&#38;"@, "&amp;"@),
                    "&#x3C;"@,
                    "&lt;"@,
                ),
                "&#60;"@,
                "&lt;"@,
            ),
            "&#x3E;"@,
            "&gt;"@,
        ),
        "&#62;"@,
        "&gt;"@,
    )
}

/// The normal form of a rendering: ids on `<div>` and `<table>` dropped,
/// gt's table class made canonical, whitespace inside tags collapsed and
/// between tags removed, attributes sorted, entities made canonical, the
/// whole trimmed. `None` when one of the patterns does not compile.
pub open spec fn normalize_spec(input: Seq<char>) -> Option<Seq<char>> {
    let s3 = then_replace(
        then_replace(regex_replaced(DIV_ID_PATTERN@, input, "$1"@), TABLE_ID_PATTERN@, "$1"@),
        TABLE_CLASS_PATTERN@,
        TABLE_CLASS@,
    );
    let s4 = match s3 {
        Some(x) => collapse_spec(x),
        None => None,
    };
    let s6 = match then_replace(s4, BETWEEN_TAGS_PATTERN@, "><"@) {
        Some(x) => sort_attributes_spec(x),
        None => None,
    };
    match s6 {
        Some(x) => Some(trim_spec(entities_spec(x))),
        None => None,
    }
}

fn canonical_entities(s: &str) -> (r: String)
    ensures
        r@ == entities_spec(s@),
{
    proof {
        reveal_strlit("&#x26;");
        reveal_strlit("&#38;");
        reveal_strlit("&#x3C;");
        reveal_strlit("&#60;");
        reveal_strlit("&#x3E;");
        reveal_strlit("&#62;");
    }
    let a = replace_all(s, "&#x26;", "&amp;");
    let b = replace_all(&a, "&#38;", "&amp;");
    let c = replace_all(&b, "&#x3C;", "&lt;");
    let d = replace_all(&c, "&#60;", "&lt;");
    let e = replace_all(&d, "&#x3E;", "&gt;");
    replace_all(&e, "&#62;", "&gt;")
}

/// Normalize a rendering so that generated noise (random ids, attribute
/// order, entity spelling, whitespace) does not tell two renderings of the
/// same table apart. `None` when one of the patterns does not compile.
pub fn normalize_html(input: &str) -> (r: Option<String>)
    ensures
        opt_str(r) == normalize_spec(input@),
{
    let s1 = match regex_replace_all(DIV_ID_PATTERN, input, "$1") {
        Some(x) => x,
        None => return None,
    };
    let s2 = match regex_replace_all(TABLE_ID_PATTERN, &s1, "$1") {
        Some(x) => x,
        None => return None,
    };
    let s3 = match regex_replace_all(TABLE_CLASS_PATTERN, &s2, TABLE_CLASS) {
        Some(x) => x,
        None => return None,
    };
    let s4 = match collapse_tag_whitespace(&s3) {
        Some(x) => x,
        None => return None,
    };
    let s5 = match regex_replace_all(BETWEEN_TAGS_PATTERN, &s4, "><") {
        Some(x) => x,
        None => return None,
    };
    let s6 = match sort_attributes(&s5) {
        Some(x) => x,
        None => return None,
    };
    Some(trim(&canonical_entities(&s6)))
}

} // verus!

verus! {

// ============================================================================
// Laws
// ============================================================================

proof fn lemma_lt_irreflexive(a: Seq<char>)
    ensures
        !str_lt(a, a),
    decreases a.len(),
{
    if a.len() > 0 {
        lemma_lt_irreflexive(a.drop_first());
    }
}

proof fn lemma_lt_transitive(a: Seq<char>, b: Seq<char>, c: Seq<char>)
    requires
        str_lt(a, b),
        str_lt(b, c),
    ensures
        str_lt(a, c),
    decreases a.len(),
{
    if a.len() > 0 && b.len() > 0 && c.len() > 0 && a[0] == b[0] && b[0] == c[0] {
        lemma_lt_transitive(a.drop_first(), b.drop_first(), c.drop_first());
    }
}

proof fn lemma_lt_total(a: Seq<char>, b: Seq<char>)
    requires
        a != b,
    ensures
        str_lt(a, b) || str_lt(b, a),
    decreases a.len(),
{
    if a.len() == 0 && b.len() == 0 {
        assert(a =~= b);
    } else if a.len() > 0 && b.len() > 0 && a[0] == b[0] {
        if a.drop_first() == b.drop_first() {
            assert(a =~= seq![a[0]] + a.drop_first());
            assert(b =~= seq![b[0]] + b.drop_first());
        }
        lemma_lt_total(a.drop_first(), b.drop_first());
    }
}

/// No entry sorts before an earlier one.
pub open spec fn ascending(s: Seq<Seq<char>>) -> bool {
    forall|i: int, j: int| 0 <= i < j < s.len() ==> !str_lt(#[trigger] s[j], #[trigger] s[i])
}

proof fn lemma_insert_sorted(s: Seq<Seq<char>>, x: Seq<char>)
    requires
        ascending(s),
    ensures
        ascending(insert_sorted(s, x)),
        insert_sorted(s, x).to_multiset() == s.to_multiset().insert(x),
    decreases s.len(),
{
    broadcast use vstd::seq_lib::group_to_multiset_ensures;

    if s.len() == 0 || !str_lt(x, s.last()) {
        let r = s.push(x);
        assert forall|i: int, j: int| 0 <= i < j < r.len() implies !str_lt(#[trigger] r[j], #[trigger] r[i]) by {
            if j == s.len() {
                if str_lt(x, s[i]) {
                    if i < s.len() - 1 {
                        assert(!str_lt(s.last(), s[i]));
                        if s.last() == s[i] {
                        } else {
                            lemma_lt_total(s.last(), s[i]);
                            lemma_lt_transitive(x, s[i], s.last());
                        }
                    }
                }
            }
        }
    } else {
        let t = s.drop_last();
        assert forall|i: int, j: int| 0 <= i < j < t.len() implies !str_lt(#[trigger] t[j], #[trigger] t[i]) by {
            assert(t[i] == s[i] && t[j] == s[j]);
        }
        lemma_insert_sorted(t, x);
        let u = insert_sorted(t, x);
        let r = u.push(s.last());
        assert(t.push(s.last()) =~= s);
        assert forall|k: int| 0 <= k < u.len() implies !str_lt(s.last(), #[trigger] u[k]) by {
            assert(u.to_multiset().count(u[k]) > 0);
            assert(u.contains(u[k]));
            if u[k] == x {
                if str_lt(s.last(), x) {
                    lemma_lt_transitive(x, s.last(), x);
                    lemma_lt_irreflexive(x);
                }
            } else {
                assert(t.to_multiset().count(u[k]) > 0);
                assert(t.contains(u[k]));
                let q = choose|q: int| 0 <= q < t.len() && t[q] == u[k];
                assert(s[q] == u[k]);
            }
        }
        assert forall|i: int, j: int| 0 <= i < j < r.len() implies !str_lt(#[trigger] r[j], #[trigger] r[i]) by {
            if j == u.len() {
                assert(r[j] == s.last() && r[i] == u[i]);
            } else {
                assert(r[i] == u[i] && r[j] == u[j]);
            }
        }
    }
}

proof fn lemma_sort_spec(s: Seq<Seq<char>>)
    ensures
        ascending(sort_spec(s)),
        sort_spec(s).to_multiset() == s.to_multiset(),
    decreases s.len(),
{
    broadcast use vstd::seq_lib::group_to_multiset_ensures;

    if s.len() > 0 {
        lemma_sort_spec(s.drop_last());
        lemma_insert_sorted(sort_spec(s.drop_last()), s.last());
        assert(s.drop_last().push(s.last()) =~= s);
    }
}

proof fn lemma_ascending_unique(a: Seq<Seq<char>>, b: Seq<Seq<char>>)
    requires
        ascending(a),
        ascending(b),
        a.to_multiset() == b.to_multiset(),
    ensures
        a == b,
    decreases a.len(),
{
    broadcast use vstd::seq_lib::group_to_multiset_ensures;

    vstd::seq_lib::to_multiset_len(a);
    vstd::seq_lib::to_multiset_len(b);
    if a.len() > 0 {
        let x = a.last();
        let y = b.last();
        assert(a.contains(x)) by {
            assert(a[a.len() - 1] == x);
        }
        assert(b.contains(y)) by {
            assert(b[b.len() - 1] == y);
        }
        assert(b.to_multiset().count(x) > 0);
        assert(a.to_multiset().count(y) > 0);
        let i = choose|i: int| 0 <= i < b.len() && b[i] == x;
        let j = choose|j: int| 0 <= j < a.len() && a[j] == y;
        if x != y {
            lemma_lt_total(x, y);
            if i < b.len() - 1 {
                assert(!str_lt(y, b[i]));
            } else {
                assert(b[i] == y);
            }
            if j < a.len() - 1 {
                assert(!str_lt(x, a[j]));
            } else {
                assert(a[j] == x);
            }
        }
        assert(x == y);
        let a2 = a.drop_last();
        let b2 = b.drop_last();
        assert(a2.push(x) =~= a);
        assert(b2.push(y) =~= b);
        assert(a2.to_multiset() =~= a.to_multiset().remove(x));
        assert(b2.to_multiset() =~= b.to_multiset().remove(y));
        assert forall|p: int, q: int| 0 <= p < q < a2.len() implies !str_lt(#[trigger] a2[q], #[trigger] a2[p]) by {
            assert(a2[p] == a[p] && a2[q] == a[q]);
        }
        assert forall|p: int, q: int| 0 <= p < q < b2.len() implies !str_lt(#[trigger] b2[q], #[trigger] b2[p]) by {
            assert(b2[p] == b[p] && b2[q] == b[q]);
        }
        lemma_ascending_unique(a2, b2);
    } else {
        assert(a =~= b);
    }
}

/// Attribute order does not matter: two tags listing the same attributes
/// in different orders are written back with them in one and the same
/// order, ascending.
pub proof fn law_attribute_order_irrelevant(first: Seq<Seq<char>>, second: Seq<Seq<char>>)
    requires
        first.to_multiset() == second.to_multiset(),
    ensures
        sort_spec(first) == sort_spec(second),
        ascending(sort_spec(first)),
{
    lemma_sort_spec(first);
    lemma_sort_spec(second);
    lemma_ascending_unique(sort_spec(first), sort_spec(second));
}

} // verus!
