//! Character- and string-level building blocks shared by the formatter,
//! the parser lowering and the HTML writer.

use vstd::prelude::*;

verus! {

pub assume_specification[ std::string::String::push_str ](s: &mut std::string::String, t: &str)
    ensures
        final(s)@ == old(s)@ + t@,
;

pub assume_specification[ std::string::String::push ](s: &mut std::string::String, c: char)
    ensures
        final(s)@ == old(s)@.push(c),
;

// ---------------------------------------------------------------------------
// ASCII case mapping
// ---------------------------------------------------------------------------

pub open spec fn is_ascii_upper(c: char) -> bool {
    'A' <= c <= 'Z'
}

pub open spec fn is_ascii_lower(c: char) -> bool {
    'a' <= c <= 'z'
}

pub open spec fn is_ascii_digit(c: char) -> bool {
    '0' <= c <= '9'
}

pub open spec fn lower_char(c: char) -> char {
    if is_ascii_upper(c) {
        ((c as u32) + 32) as char
    } else {
        c
    }
}

pub open spec fn upper_char(c: char) -> char {
    if is_ascii_lower(c) {
        ((c as u32) - 32) as char
    } else {
        c
    }
}

pub open spec fn lower_seq(s: Seq<char>) -> Seq<char> {
    s.map_values(|c: char| lower_char(c))
}

pub open spec fn upper_seq(s: Seq<char>) -> Seq<char> {
    s.map_values(|c: char| upper_char(c))
}

/// Every character of `s` is ASCII.
pub open spec fn ascii_text(s: Seq<char>) -> bool {
    forall|i: int| 0 <= i < s.len() ==> (#[trigger] s[i] as u32) < 128
}

pub fn ascii_lower_char(c: char) -> (r: char)
    ensures
        r == lower_char(c),
{
    if 'A' <= c && c <= 'Z' {
        let b: u8 = c as u8;
        (b + 32) as char
    } else {
        c
    }
}

pub fn ascii_upper_char(c: char) -> (r: char)
    ensures
        r == upper_char(c),
{
    if 'a' <= c && c <= 'z' {
        let b: u8 = c as u8;
        (b - 32) as char
    } else {
        c
    }
}

/// `str::to_ascii_lowercase`: ASCII letters lowered, every other character kept.
pub fn to_ascii_lowercase(s: &str) -> (r: String)
    ensures
        r@ == lower_seq(s@),
{
    let mut r = String::new();
    for c in it: s.chars()
        invariant
            r@ == lower_seq(it.seq().take(it.index() as int)),
    {
        proof {
            assert(it.seq().take(it.index() + 1) == it.seq().take(it.index() as int).push(c));
        }
        r.push(ascii_lower_char(c));
    }
    r
}

/// `str::eq_ignore_ascii_case`.
pub fn eq_ignore_ascii_case(a: &str, b: &str) -> (r: bool)
    ensures
        r == (lower_seq(a@) == lower_seq(b@)),
{
    let va = chars_of(a);
    let vb = chars_of(b);
    if va.len() != vb.len() {
        proof {
            assert(lower_seq(a@).len() != lower_seq(b@).len());
        }
        return false;
    }
    let mut i: usize = 0;
    while i < va.len()
        invariant
            va@ == a@,
            vb@ == b@,
            va.len() == vb.len(),
            i <= va.len(),
            forall|j: int| 0 <= j < i ==> lower_char(#[trigger] va@[j]) == lower_char(vb@[j]),
        decreases va.len() - i,
    {
        if ascii_lower_char(va[i]) != ascii_lower_char(vb[i]) {
            proof {
                assert(lower_seq(a@)[i as int] != lower_seq(b@)[i as int]);
            }
            return false;
        }
        i += 1;
    }
    proof {
        assert(lower_seq(a@) =~= lower_seq(b@));
    }
    true
}

/// The characters of a string slice, in order.
pub fn chars_of(s: &str) -> (v: Vec<char>)
    ensures
        v@ == s@,
{
    let mut v: Vec<char> = Vec::new();
    for c in it: s.chars()
        invariant
            v@ == it.seq().take(it.index() as int),
    {
        proof {
            assert(it.seq().take(it.index() + 1) == it.seq().take(it.index() as int).push(c));
        }
        v.push(c);
    }
    v
}

/// A `String` holding `v[lo..hi]`.
pub fn string_of(v: &Vec<char>, lo: usize, hi: usize) -> (r: String)
    requires
        lo <= hi <= v.len(),
    ensures
        r@ == v@.subrange(lo as int, hi as int),
{
    let mut r = String::new();
    let mut i = lo;
    while i < hi
        invariant
            lo <= i <= hi <= v.len(),
            r@ == v@.subrange(lo as int, i as int),
        decreases hi - i,
    {
        r.push(v[i]);
        proof {
            assert(v@.subrange(lo as int, i + 1) == v@.subrange(lo as int, i as int).push(v@[i as int]));
        }
        i += 1;
    }
    r
}

/// Exact equality of two string slices.
pub fn str_eq(a: &str, b: &str) -> (r: bool)
    ensures
        r == (a@ == b@),
{
    let va = chars_of(a);
    let vb = chars_of(b);
    if va.len() != vb.len() {
        return false;
    }
    let mut i: usize = 0;
    while i < va.len()
        invariant
            va@ == a@,
            vb@ == b@,
            va.len() == vb.len(),
            i <= va.len(),
            forall|j: int| 0 <= j < i ==> #[trigger] va@[j] == vb@[j],
        decreases va.len() - i,
    {
        if va[i] != vb[i] {
            return false;
        }
        i += 1;
    }
    proof {
        assert(a@ =~= b@);
    }
    true
}

/// A copy of a string slice.
pub fn owned(s: &str) -> (r: String)
    ensures
        r@ == s@,
{
    let mut r = String::new();
    r.push_str(s);
    r
}

// ---------------------------------------------------------------------------
// Searching
// ---------------------------------------------------------------------------

/// `i` is the first position of `c` in `s`.
pub open spec fn is_first_char(s: Seq<char>, c: char, i: int) -> bool {
    &&& 0 <= i < s.len()
    &&& s[i] == c
    &&& forall|j: int| 0 <= j < i ==> s[j] != c
}

/// Position of the first occurrence of `c` in `s`.
pub open spec fn find_char_spec(s: Seq<char>, c: char) -> Option<int> {
    if exists|i: int| is_first_char(s, c, i) {
        Some(choose|i: int| is_first_char(s, c, i))
    } else {
        None
    }
}

pub proof fn lemma_first_char_unique(s: Seq<char>, c: char, i: int)
    requires
        is_first_char(s, c, i),
    ensures
        find_char_spec(s, c) == Some(i),
{
    let k = choose|k: int| is_first_char(s, c, k);
    assert(is_first_char(s, c, k));
    if k < i {
        assert(s[k] != c);
    } else if i < k {
        assert(s[i] != c);
    }
}

pub proof fn lemma_no_char(s: Seq<char>, c: char)
    requires
        forall|j: int| 0 <= j < s.len() ==> s[j] != c,
    ensures
        find_char_spec(s, c) is None,
{
    if exists|i: int| is_first_char(s, c, i) {
        let k = choose|k: int| is_first_char(s, c, k);
        assert(s[k] == c);
    }
}

/// First occurrence of `c` in `v`, as a character index.
pub fn find_char(v: &Vec<char>, c: char) -> (r: Option<usize>)
    ensures
        r matches Some(i) ==> find_char_spec(v@, c) == Some(i as int),
        r is None ==> find_char_spec(v@, c) is None,
        r matches Some(i) ==> is_first_char(v@, c, i as int),
{
    let mut i: usize = 0;
    while i < v.len()
        invariant
            i <= v.len(),
            forall|j: int| 0 <= j < i ==> v@[j] != c,
        decreases v.len() - i,
    {
        if v[i] == c {
            proof {
                lemma_first_char_unique(v@, c, i as int);
            }
            return Some(i);
        }
        i += 1;
    }
    proof {
        lemma_no_char(v@, c);
    }
    None
}

/// `needle` occurs in `hay` starting at `i`.
pub open spec fn occurs_at(hay: Seq<char>, needle: Seq<char>, i: int) -> bool {
    0 <= i && i + needle.len() <= hay.len() && hay.subrange(i, i + needle.len()) == needle
}

pub open spec fn is_first_occurrence(hay: Seq<char>, needle: Seq<char>, i: int) -> bool {
    &&& occurs_at(hay, needle, i)
    &&& forall|j: int| 0 <= j < i ==> !occurs_at(hay, needle, j)
}

/// Position of the first occurrence of `needle` in `hay` (`str::find`).
pub open spec fn find_spec(hay: Seq<char>, needle: Seq<char>) -> Option<int> {
    if exists|i: int| is_first_occurrence(hay, needle, i) {
        Some(choose|i: int| is_first_occurrence(hay, needle, i))
    } else {
        None
    }
}

pub proof fn lemma_contains_push(s: Seq<char>, x: char, c: char)
    ensures
        s.push(x).contains(c) == (s.contains(c) || x == c),
{
    let t = s.push(x);
    if s.contains(c) {
        let j = choose|j: int| 0 <= j < s.len() && s[j] == c;
        assert(t[j] == c);
    }
    if x == c {
        assert(t[s.len() as int] == c);
    }
    if t.contains(c) {
        let j = choose|j: int| 0 <= j < t.len() && t[j] == c;
        if j < s.len() {
            assert(s[j] == c);
        }
    }
}

pub proof fn lemma_find_spec_some(hay: Seq<char>, needle: Seq<char>)
    ensures
        find_spec(hay, needle) matches Some(i) ==> is_first_occurrence(hay, needle, i),
{
}

pub proof fn lemma_first_occurrence_unique(hay: Seq<char>, needle: Seq<char>, i: int)
    requires
        is_first_occurrence(hay, needle, i),
    ensures
        find_spec(hay, needle) == Some(i),
{
    let k = choose|k: int| is_first_occurrence(hay, needle, k);
    assert(is_first_occurrence(hay, needle, k));
    if k < i {
        assert(!occurs_at(hay, needle, k));
    } else if i < k {
        assert(!occurs_at(hay, needle, i));
    }
}

pub fn occurs_at_exec(hay: &Vec<char>, needle: &Vec<char>, i: usize) -> (r: bool)
    ensures
        r == occurs_at(hay@, needle@, i as int),
{
    if i > hay.len() || needle.len() > hay.len() - i {
        return false;
    }
    let mut k: usize = 0;
    while k < needle.len()
        invariant
            i + needle.len() <= hay.len(),
            k <= needle.len(),
            forall|j: int| 0 <= j < k ==> #[trigger] hay@[i + j] == needle@[j],
        decreases needle.len() - k,
    {
        if hay[i + k] != needle[k] {
            proof {
                assert(hay@.subrange(i as int, i + needle.len())[k as int] != needle@[k as int]);
            }
            return false;
        }
        k += 1;
    }
    proof {
        assert forall|j: int| 0 <= j < needle@.len() implies hay@.subrange(
            i as int,
            i + needle.len(),
        )[j] == needle@[j] by {
            assert(hay@[i + j] == needle@[j]);
        }
        assert(hay@.subrange(i as int, i + needle.len()) =~= needle@);
    }
    true
}

/// First occurrence of `needle` in `hay`, as a character index.
pub fn find_seq(hay: &Vec<char>, needle: &Vec<char>) -> (r: Option<usize>)
    ensures
        r matches Some(i) ==> find_spec(hay@, needle@) == Some(i as int) && is_first_occurrence(
            hay@,
            needle@,
            i as int,
        ),
        r is None ==> find_spec(hay@, needle@) is None,
{
    let mut i: usize = 0;
    while i < hay.len()
        invariant
            i <= hay.len(),
            forall|j: int| 0 <= j < i ==> !occurs_at(hay@, needle@, j),
        decreases hay.len() - i,
    {
        if occurs_at_exec(hay, needle, i) {
            proof {
                lemma_first_occurrence_unique(hay@, needle@, i as int);
            }
            return Some(i);
        }
        i += 1;
    }
    if occurs_at_exec(hay, needle, i) {
        proof {
            lemma_first_occurrence_unique(hay@, needle@, i as int);
        }
        return Some(i);
    }
    proof {
        if exists|k: int| is_first_occurrence(hay@, needle@, k) {
            let k = choose|k: int| is_first_occurrence(hay@, needle@, k);
            assert(occurs_at(hay@, needle@, k));
        }
    }
    None
}

// ---------------------------------------------------------------------------
// Decimal rendering of integers
// ---------------------------------------------------------------------------

pub open spec fn digit_char(d: nat) -> char {
    ((d + 48) as u32) as char
}

/// Shortest base-ten digit string of `n`.
pub open spec fn decimal(n: nat) -> Seq<char>
    decreases n,
{
    if n < 10 {
        seq![digit_char(n)]
    } else {
        decimal(n / 10).push(digit_char(n % 10))
    }
}

pub proof fn lemma_decimal_len_pos(n: nat)
    ensures
        decimal(n).len() >= 1,
    decreases n,
{
    if n >= 10 {
        lemma_decimal_len_pos(n / 10);
    }
}

pub proof fn lemma_decimal_digits(n: nat)
    ensures
        forall|i: int| 0 <= i < decimal(n).len() ==> is_ascii_digit(#[trigger] decimal(n)[i]),
    decreases n,
{
    if n >= 10 {
        lemma_decimal_digits(n / 10);
        assert forall|i: int| 0 <= i < decimal(n).len() implies is_ascii_digit(
            #[trigger] decimal(n)[i],
        ) by {
            if i < decimal(n / 10).len() {
                assert(decimal(n)[i] == decimal(n / 10)[i]);
            }
        }
    }
}

/// `u64` rendered in base ten (`u64::to_string`).
pub fn u64_to_decimal(n: u64) -> (r: String)
    ensures
        r@ == decimal(n as nat),
{
    let mut digits: Vec<char> = Vec::new();
    let mut m = n;
    let ghost mut rest: Seq<char> = Seq::empty();
    // Collect digits least-significant first.
    while m >= 10
        invariant
            decimal(n as nat) == decimal(m as nat) + rest,
            digits@.len() == rest.len(),
            forall|i: int| 0 <= i < rest.len() ==> #[trigger] digits@[i] == rest[rest.len() - 1 - i],
        decreases m,
    {
        let d: u64 = m % 10;
        let c = ((d as u8) + 48) as char;
        digits.push(c);
        proof {
            let old_rest = rest;
            rest = seq![c] + old_rest;
            assert(decimal(m as nat) == decimal((m / 10) as nat).push(c));
            assert(decimal(m as nat) + old_rest =~= decimal((m / 10) as nat) + rest);
            assert forall|i: int| 0 <= i < rest.len() implies #[trigger] digits@[i] == rest[rest.len() - 1 - i] by {
                if i < old_rest.len() {
                    assert(digits@[i] == old_rest[old_rest.len() - 1 - i]);
                }
            }
        }
        m = m / 10;
    }
    let c = ((m as u8) + 48) as char;
    digits.push(c);
    proof {
        let old_rest = rest;
        rest = seq![c] + old_rest;
        assert(decimal(m as nat) == seq![c]);
        assert(decimal(n as nat) =~= rest);
        assert forall|i: int| 0 <= i < rest.len() implies #[trigger] digits@[i] == rest[rest.len() - 1 - i] by {
            if i < old_rest.len() {
                assert(digits@[i] == old_rest[old_rest.len() - 1 - i]);
            }
        }
    }
    let mut r = String::new();
    let mut k = digits.len();
    while k > 0
        invariant
            k <= digits.len(),
            digits@.len() == rest.len(),
            forall|i: int| 0 <= i < rest.len() ==> #[trigger] digits@[i] == rest[rest.len() - 1 - i],
            r@ == rest.subrange(0, (rest.len() - k) as int),
        decreases k,
    {
        k -= 1;
        r.push(digits[k]);
        proof {
            assert(rest.subrange(0, (rest.len() - k) as int) =~= rest.subrange(
                0,
                (rest.len() - k - 1) as int,
            ).push(rest[rest.len() - 1 - k]));
        }
    }
    proof {
        assert(rest.subrange(0, rest.len() as int) =~= rest);
    }
    r
}

/// `s` left-padded with `pad` up to `width` characters.
pub open spec fn pad_left(s: Seq<char>, width: nat, pad: char) -> Seq<char> {
    if s.len() >= width {
        s
    } else {
        Seq::new((width - s.len()) as nat, |i: int| pad) + s
    }
}

pub fn push_padded(out: &mut String, s: &str, width: usize, pad: char)
    ensures
        final(out)@ == old(out)@ + pad_left(s@, width as nat, pad),
{
    let n = s.unicode_len();
    let ghost start = out@;
    if n < width {
        let mut k: usize = 0;
        while k < width - n
            invariant
                n < width,
                k <= width - n,
                out@ == start + Seq::new(k as nat, |i: int| pad),
            decreases width - n - k,
        {
            out.push(pad);
            proof {
                assert(Seq::new(k as nat, |i: int| pad).push(pad) =~= Seq::new((k + 1) as nat, |i: int| pad));
            }
            k += 1;
        }
    }
    out.push_str(s);
    proof {
        if n < width {
            assert(out@ =~= start + pad_left(s@, width as nat, pad));
        }
    }
}

// ---------------------------------------------------------------------------
// Unicode whitespace
// ---------------------------------------------------------------------------

/// Whether `c` has the Unicode `White_Space` property: tab, line feed,
/// vertical tab, form feed, carriage return, space, U+0085, U+00A0,
/// U+1680, U+2000 to U+200A, U+2028, U+2029, U+202F, U+205F and U+3000.
pub open spec fn white_space(c: char) -> bool {
    let u = c as int;
    ||| 0x09 <= u <= 0x0D
    ||| u == 0x20
    ||| u == 0x85
    ||| u == 0xA0
    ||| u == 0x1680
    ||| 0x2000 <= u <= 0x200A
    ||| u == 0x2028
    ||| u == 0x2029
    ||| u == 0x202F
    ||| u == 0x205F
    ||| u == 0x3000
}

/// Whether `c` has the Unicode `White_Space` property (the characters
/// [`white_space`] lists), as `char::is_whitespace` answers.
pub(crate) fn is_whitespace(c: char) -> (r: bool)
    ensures
        r == white_space(c),
{
    let u: u32 = c as u32;
    (0x09 <= u && u <= 0x0D) || u == 0x20 || u == 0x85 || u == 0xA0 || u == 0x1680 || (0x2000 <= u
        && u <= 0x200A) || u == 0x2028 || u == 0x2029 || u == 0x202F || u == 0x205F || u == 0x3000
}

pub open spec fn count_leading_ws(s: Seq<char>) -> nat
    decreases s.len(),
{
    if s.len() > 0 && white_space(s[0]) {
        1 + count_leading_ws(s.drop_first())
    } else {
        0
    }
}

pub open spec fn count_trailing_ws(s: Seq<char>) -> nat
    decreases s.len(),
{
    if s.len() > 0 && white_space(s.last()) {
        1 + count_trailing_ws(s.drop_last())
    } else {
        0
    }
}

pub proof fn lemma_leading_ws(s: Seq<char>, i: int)
    requires
        0 <= i <= s.len(),
        forall|j: int| 0 <= j < i ==> white_space(#[trigger] s[j]),
        i == s.len() || !white_space(s[i]),
    ensures
        count_leading_ws(s) == i,
    decreases i,
{
    if i > 0 {
        assert(white_space(s[0]));
        lemma_leading_ws(s.drop_first(), i - 1);
    }
}

pub proof fn lemma_trailing_ws(s: Seq<char>, i: int)
    requires
        0 <= i <= s.len(),
        forall|j: int| s.len() - i <= j < s.len() ==> white_space(#[trigger] s[j]),
        i == s.len() || !white_space(s[s.len() - 1 - i]),
    ensures
        count_trailing_ws(s) == i,
    decreases i,
{
    if i > 0 {
        assert(white_space(s[s.len() - 1]));
        let t = s.drop_last();
        assert forall|j: int| t.len() - (i - 1) <= j < t.len() implies white_space(#[trigger] t[j]) by {
            assert(t[j] == s[j]);
        }
        lemma_trailing_ws(t, i - 1);
    }
}

/// `str::trim`.
pub fn trim(s: &str) -> (r: String)
    ensures
        r@ == trim_spec(s@),
{
    let v = chars_of(s);
    let mut a: usize = 0;
    while a < v.len() && is_whitespace(v[a])
        invariant
            a <= v.len(),
            forall|j: int| 0 <= j < a ==> white_space(#[trigger] v@[j]),
        decreases v.len() - a,
    {
        a += 1;
    }
    proof {
        lemma_leading_ws(v@, a as int);
    }
    let ghost rest = v@.subrange(a as int, v@.len() as int);
    let mut t: usize = 0;
    while t < v.len() - a && is_whitespace(v[v.len() - 1 - t])
        invariant
            a <= v.len(),
            rest == v@.subrange(a as int, v@.len() as int),
            t <= v.len() - a,
            forall|j: int| rest.len() - t <= j < rest.len() ==> white_space(#[trigger] rest[j]),
        decreases v.len() - a - t,
    {
        proof {
            assert(rest[rest.len() - 1 - t] == v@[v.len() - 1 - t]);
        }
        t += 1;
    }
    proof {
        if t < v.len() - a {
            assert(rest[rest.len() - 1 - t] == v@[v.len() - 1 - t]);
        }
        lemma_trailing_ws(rest, t as int);
        assert(v@.subrange(a as int, (v.len() - t) as int) =~= rest.subrange(0, rest.len() - t));
    }
    string_of(&v, a, v.len() - t)
}

/// `str::trim`: leading and trailing Unicode whitespace removed.
pub open spec fn trim_spec(s: Seq<char>) -> Seq<char> {
    let a = count_leading_ws(s);
    let rest = s.subrange(a as int, s.len() as int);
    rest.subrange(0, rest.len() - count_trailing_ws(rest))
}

} // verus!

verus! {

// ---------------------------------------------------------------------------
// Replacement
// ---------------------------------------------------------------------------

/// `str::replace` for a non-empty pattern: every leftmost non-overlapping
/// occurrence of `from` replaced by `to`, scanning left to right.
pub open spec fn replace_spec(s: Seq<char>, from: Seq<char>, to: Seq<char>) -> Seq<char>
    decreases s.len(),
{
    if s.len() == 0 || from.len() == 0 {
        s
    } else if s.len() >= from.len() && s.subrange(0, from.len() as int) == from {
        to + replace_spec(s.subrange(from.len() as int, s.len() as int), from, to)
    } else {
        seq![s[0]] + replace_spec(s.drop_first(), from, to)
    }
}

/// `s.replace(from, to)` for a non-empty `from`.
pub fn replace_all(s: &str, from: &str, to: &str) -> (r: String)
    requires
        from@.len() > 0,
    ensures
        r@ == replace_spec(s@, from@, to@),
{
    let v = chars_of(s);
    let f = chars_of(from);
    let mut out = String::new();
    let mut i: usize = 0;
    proof {
        assert(v@.skip(0) =~= v@);
    }
    while i < v.len()
        invariant
            v@ == s@,
            f@ == from@,
            f@.len() > 0,
            i <= v.len(),
            out@ + replace_spec(v@.skip(i as int), from@, to@) == replace_spec(s@, from@, to@),
        decreases v.len() - i,
    {
        let ghost rest = v@.skip(i as int);
        if occurs_at_exec(&v, &f, i) {
            proof {
                assert(rest.subrange(0, f@.len() as int) =~= v@.subrange(i as int, i + f@.len()));
                assert(rest.subrange(f@.len() as int, rest.len() as int) =~= v@.skip(i + f@.len()));
            }
            out.push_str(to);
            i = i + f.len();
            proof {
                assert(out@ + replace_spec(v@.skip(i as int), from@, to@) =~= replace_spec(
                    s@,
                    from@,
                    to@,
                ));
            }
        } else {
            proof {
                if rest.len() >= f@.len() {
                    assert(rest.subrange(0, f@.len() as int) =~= v@.subrange(i as int, i + f@.len()));
                }
                assert(rest.drop_first() =~= v@.skip(i + 1));
                assert(rest[0] == v@[i as int]);
            }
            out.push(v[i]);
            i += 1;
            proof {
                assert(out@ + replace_spec(v@.skip(i as int), from@, to@) =~= replace_spec(
                    s@,
                    from@,
                    to@,
                ));
            }
        }
    }
    proof {
        assert(v@.skip(i as int) =~= Seq::<char>::empty());
        assert(out@ + Seq::<char>::empty() =~= out@);
    }
    out
}

} // verus!
