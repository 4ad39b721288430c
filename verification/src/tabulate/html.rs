//! HTML writer: the table as gt's `as_raw_html()` prints it, every style
//! inlined through `style=` attributes.

use crate::tabulate::execute::{
    gt_class_spec, smart_text, smart_text_spec, lemma_height_child_le, height_spec, leaf_count_spec, leaves_of_seq, max_height_of_seq, CellStyle,
    ColAlign, ColMeta, HeaderNode, RowGroup, SummaryRow, TableIr,
};
use crate::tabulate::layout::opt_str;
use crate::tabulate::GT_DEFAULT_CSS;
use crate::tabulate::scale::{fg_slices_ok, ideal_fg, ideal_fg_slices_ok, ideal_fg_spec};
use crate::text::{
    chars_of, decimal, find_char_spec, is_ascii_digit, is_first_char, lemma_first_char_unique,
    lemma_no_char, lower_seq, owned, replace_all, replace_spec, string_of, to_ascii_lowercase,
    trim_spec, u64_to_decimal,
};
use vstd::prelude::*;

verus! {

// ============================================================================
// Styles, verbatim from gt 1.3
// ============================================================================

/// The outer `<div>`.
pub const DIV_STYLE: &'static str = "padding-left:0px;padding-right:0px;padding-top:10px;padding-bottom:10px;overflow-x:auto;overflow-y:auto;width:auto;height:auto;";

/// The `<table>`.
pub const TABLE_STYLE: &'static str = "-webkit-font-smoothing: antialiased; -moz-osx-font-smoothing: grayscale; font-family: system-ui, 'Segoe UI', Roboto, Helvetica, Arial, sans-serif, 'Apple Color Emoji', 'Segoe UI Emoji', 'Segoe UI Symbol', 'Noto Color Emoji'; display: table; border-collapse: collapse; line-height: normal; margin-left: auto; margin-right: auto; color: #333333; font-size: 16px; font-weight: normal; font-style: normal; background-color: #FFFFFF; width: auto; border-top-style: solid; border-top-width: 2px; border-top-color: #A8A8A8; border-right-style: none; border-right-width: 2px; border-right-color: #D3D3D3; border-bottom-style: solid; border-bottom-width: 2px; border-bottom-color: #A8A8A8; border-left-style: none; border-left-width: 2px; border-left-color: #D3D3D3;";

/// The `<table>` when a column has an explicit width: `width: auto;` gives way to a fixed layout.
pub const TABLE_STYLE_FIXED: &'static str = "-webkit-font-smoothing: antialiased; -moz-osx-font-smoothing: grayscale; font-family: system-ui, 'Segoe UI', Roboto, Helvetica, Arial, sans-serif, 'Apple Color Emoji', 'Segoe UI Emoji', 'Segoe UI Symbol', 'Noto Color Emoji'; display: table; border-collapse: collapse; line-height: normal; margin-left: auto; margin-right: auto; color: #333333; font-size: 16px; font-weight: normal; font-style: normal; background-color: #FFFFFF; border-top-style: solid; border-top-width: 2px; border-top-color: #A8A8A8; border-right-style: none; border-right-width: 2px; border-right-color: #D3D3D3; border-bottom-style: solid; border-bottom-width: 2px; border-bottom-color: #A8A8A8; border-left-style: none; border-left-width: 2px; border-left-color: #D3D3D3; table-layout: fixed; width: 0px;";

/// The `<thead>`.
pub const THEAD_STYLE: &'static str = "border-style: none;";

/// The column-heading row.
pub const THEAD_TR_STYLE: &'static str = "border-style: none; border-top-style: solid; border-top-width: 2px; border-top-color: #D3D3D3; border-bottom-style: solid; border-bottom-width: 2px; border-bottom-color: #D3D3D3; border-left-style: none; border-left-width: 1px; border-left-color: #D3D3D3; border-right-style: none; border-right-width: 1px; border-right-color: #D3D3D3;";

/// A spanner row: the bottom border is hidden so the spanner cell's own border shows.
pub const SPANNER_TR_STYLE: &'static str = "border-style: none; border-top-style: solid; border-top-width: 2px; border-top-color: #D3D3D3; border-bottom-width: 2px; border-bottom-color: #D3D3D3; border-left-style: none; border-left-width: 1px; border-left-color: #D3D3D3; border-right-style: none; border-right-width: 1px; border-right-color: #D3D3D3; border-bottom-style: hidden;";

/// Spanner cells and the placeholders above lifted columns, before their padding.
pub const SPANNER_OUTER_BASE_PREFIX: &'static str = "border-style: none; color: #333333; background-color: #FFFFFF; font-size: 100%; font-weight: normal; text-transform: inherit; padding-top: 0; padding-bottom: 0; ";

/// The `gt_column_spanner` div that carries a spanner's bottom border.
pub const SPANNER_DIV_STYLE: &'static str = "border-bottom-style: solid; border-bottom-width: 2px; border-bottom-color: #D3D3D3; vertical-align: bottom; padding-top: 5px; padding-bottom: 5px; overflow-x: hidden; display: inline-block; width: 100%;";

/// A column heading, before its alignment.
pub const TH_BASE_STYLE: &'static str = "border-style: none; color: #333333; background-color: #FFFFFF; font-size: 100%; font-weight: normal; text-transform: inherit; border-left-style: none; border-left-width: 1px; border-left-color: #D3D3D3; border-right-style: none; border-right-width: 1px; border-right-color: #D3D3D3; vertical-align: bottom; padding-top: 5px; padding-bottom: 6px; padding-left: 5px; padding-right: 5px; overflow-x: hidden;";

/// The `<tbody>`.
pub const TBODY_STYLE: &'static str = "border-style: none; border-top-style: solid; border-top-width: 2px; border-top-color: #D3D3D3; border-bottom-style: solid; border-bottom-width: 2px; border-bottom-color: #D3D3D3;";

/// A body row.
pub const TR_STYLE: &'static str = "border-style: none;";

/// A body cell, before its alignment.
pub const TD_BASE_STYLE: &'static str = "border-style: none; padding-top: 8px; padding-bottom: 8px; padding-left: 5px; padding-right: 5px; margin: 10px; border-top-style: solid; border-top-width: 1px; border-top-color: #D3D3D3; border-left-style: none; border-left-width: 1px; border-left-color: #D3D3D3; border-right-style: none; border-right-width: 1px; border-right-color: #D3D3D3; vertical-align: middle; overflow-x: hidden;";

/// A title or subtitle row.
pub const HEADING_TR_STYLE: &'static str = "border-style: none; background-color: #FFFFFF; text-align: center; border-bottom-color: #FFFFFF; border-left-style: none; border-left-width: 1px; border-left-color: #D3D3D3; border-right-style: none; border-right-width: 1px; border-right-color: #D3D3D3;";

/// The title cell above a subtitle.
pub const TITLE_TD_STYLE: &'static str = "border-style: none; color: #333333; font-size: 125%; padding-top: 4px; padding-bottom: 4px; padding-left: 5px; padding-right: 5px; border-bottom-width: 0; background-color: #FFFFFF; text-align: center; border-bottom-color: #FFFFFF; border-left-style: none; border-left-width: 1px; border-left-color: #D3D3D3; border-right-style: none; border-right-width: 1px; border-right-color: #D3D3D3; font-weight: normal;";

/// The subtitle cell.
pub const SUBTITLE_TD_STYLE: &'static str = "border-style: none; color: #333333; font-size: 85%; padding-top: 3px; padding-bottom: 5px; padding-left: 5px; padding-right: 5px; border-top-color: #FFFFFF; border-top-width: 0; background-color: #FFFFFF; text-align: center; border-left-style: none; border-left-width: 1px; border-left-color: #D3D3D3; border-right-style: none; border-right-width: 1px; border-right-color: #D3D3D3; border-bottom-style: solid; border-bottom-width: 2px; border-bottom-color: #D3D3D3; font-weight: normal;";

/// The title cell without a subtitle: it carries the bottom border.
pub const TITLE_ONLY_TD_STYLE: &'static str = "border-style: none; color: #333333; font-size: 125%; padding-top: 4px; padding-bottom: 4px; padding-left: 5px; padding-right: 5px; background-color: #FFFFFF; text-align: center; border-left-style: none; border-left-width: 1px; border-left-color: #D3D3D3; border-right-style: none; border-right-width: 1px; border-right-color: #D3D3D3; border-bottom-style: solid; border-bottom-width: 2px; border-bottom-color: #D3D3D3; font-weight: normal;";

/// A stub cell in the body, before its alignment.
pub const STUB_TH_STYLE: &'static str = "border-style: none; padding-top: 8px; padding-bottom: 8px; margin: 10px; border-top-style: solid; border-top-width: 1px; border-top-color: #D3D3D3; border-left-style: none; border-left-width: 1px; border-left-color: #D3D3D3; vertical-align: middle; overflow-x: hidden; color: #333333; background-color: #FFFFFF; font-size: 100%; font-weight: initial; text-transform: inherit; border-right-style: solid; border-right-width: 2px; border-right-color: #D3D3D3; padding-left: 5px; padding-right: 5px;";

/// A FACET group heading.
pub const GROUP_HEADING_TH_STYLE: &'static str = "border-style: none; padding-top: 8px; padding-bottom: 8px; padding-left: 5px; padding-right: 5px; color: #333333; background-color: #FFFFFF; font-size: 100%; font-weight: initial; text-transform: inherit; border-top-style: solid; border-top-width: 2px; border-top-color: #D3D3D3; border-bottom-style: solid; border-bottom-width: 2px; border-bottom-color: #D3D3D3; border-left-style: none; border-left-width: 1px; border-left-color: #D3D3D3; border-right-style: none; border-right-width: 1px; border-right-color: #D3D3D3; vertical-align: middle; text-align: left;";

/// A body cell opening a group: no 1px top border, a 2px one is appended.
pub const TD_BASE_STYLE_FIRST_OF_GROUP: &'static str = "border-style: none; padding-top: 8px; padding-bottom: 8px; padding-left: 5px; padding-right: 5px; margin: 10px; border-top-style: solid; border-top-color: #D3D3D3; border-left-style: none; border-left-width: 1px; border-left-color: #D3D3D3; border-right-style: none; border-right-width: 1px; border-right-color: #D3D3D3; vertical-align: middle; overflow-x: hidden;";

/// A stub cell opening a group.
pub const STUB_TH_STYLE_FIRST_OF_GROUP: &'static str = "border-style: none; padding-top: 8px; padding-bottom: 8px; margin: 10px; border-top-style: solid; border-top-color: #D3D3D3; border-left-style: none; border-left-width: 1px; border-left-color: #D3D3D3; vertical-align: middle; overflow-x: hidden; color: #333333; background-color: #FFFFFF; font-size: 100%; font-weight: initial; text-transform: inherit; border-right-style: solid; border-right-width: 2px; border-right-color: #D3D3D3; padding-left: 5px; padding-right: 5px;";

/// A summary stub cell neither first nor last.
pub const SUMMARY_STUB_TH_STYLE_MIDDLE: &'static str = "border-style: none; margin: 10px; border-top-style: solid; border-top-width: 1px; border-top-color: #D3D3D3; border-left-style: none; border-left-width: 1px; border-left-color: #D3D3D3; vertical-align: middle; overflow-x: hidden; font-size: 100%; font-weight: initial; border-right-style: solid; border-right-width: 2px; border-right-color: #D3D3D3; color: #333333; background-color: #FFFFFF; text-transform: inherit; padding-top: 8px; padding-bottom: 8px; padding-left: 5px; padding-right: 5px;";

/// The first summary stub cell of a group.
pub const SUMMARY_STUB_TH_STYLE_FIRST: &'static str = "border-style: none; margin: 10px; border-left-style: none; border-left-width: 1px; border-left-color: #D3D3D3; vertical-align: middle; overflow-x: hidden; font-size: 100%; font-weight: initial; border-right-style: solid; border-right-width: 2px; border-right-color: #D3D3D3; color: #333333; background-color: #FFFFFF; text-transform: inherit; padding-top: 8px; padding-bottom: 8px; padding-left: 5px; padding-right: 5px; border-top-style: solid; border-top-color: #D3D3D3;";

/// The last summary stub cell of a group.
pub const SUMMARY_STUB_TH_STYLE_LAST: &'static str = "border-style: none; margin: 10px; border-top-style: solid; border-top-width: 1px; border-top-color: #D3D3D3; border-left-style: none; border-left-width: 1px; border-left-color: #D3D3D3; vertical-align: middle; overflow-x: hidden; font-size: 100%; font-weight: initial; border-right-style: solid; border-right-width: 2px; border-right-color: #D3D3D3; color: #333333; background-color: #FFFFFF; text-transform: inherit; padding-top: 8px; padding-bottom: 8px; padding-left: 5px; padding-right: 5px; border-bottom-style: solid; border-bottom-width: 2px; border-bottom-color: #D3D3D3;";

/// The only summary stub cell of a group.
pub const SUMMARY_STUB_TH_STYLE_FIRST_LAST: &'static str = "border-style: none; margin: 10px; border-left-style: none; border-left-width: 1px; border-left-color: #D3D3D3; vertical-align: middle; overflow-x: hidden; font-size: 100%; font-weight: initial; border-right-style: solid; border-right-width: 2px; border-right-color: #D3D3D3; color: #333333; background-color: #FFFFFF; text-transform: inherit; border-top-style: solid; border-top-color: #D3D3D3; padding-top: 8px; padding-bottom: 8px; padding-left: 5px; padding-right: 5px; border-bottom-style: solid; border-bottom-width: 2px; border-bottom-color: #D3D3D3;";

/// A summary cell neither first nor last.
pub const SUMMARY_TD_STYLE_MIDDLE: &'static str = "border-style: none; margin: 10px; border-top-style: solid; border-top-width: 1px; border-top-color: #D3D3D3; border-left-style: none; border-left-width: 1px; border-left-color: #D3D3D3; border-right-style: none; border-right-width: 1px; border-right-color: #D3D3D3; vertical-align: middle; overflow-x: hidden; color: #333333; background-color: #FFFFFF; text-transform: inherit; padding-top: 8px; padding-bottom: 8px; padding-left: 5px; padding-right: 5px;";

/// A cell of the first summary row.
pub const SUMMARY_TD_STYLE_FIRST: &'static str = "border-style: none; margin: 10px; border-left-style: none; border-left-width: 1px; border-left-color: #D3D3D3; border-right-style: none; border-right-width: 1px; border-right-color: #D3D3D3; vertical-align: middle; overflow-x: hidden; color: #333333; background-color: #FFFFFF; text-transform: inherit; padding-top: 8px; padding-bottom: 8px; padding-left: 5px; padding-right: 5px; border-top-style: solid; border-top-color: #D3D3D3;";

/// A cell of the last summary row.
pub const SUMMARY_TD_STYLE_LAST: &'static str = "border-style: none; margin: 10px; border-top-style: solid; border-top-width: 1px; border-top-color: #D3D3D3; border-left-style: none; border-left-width: 1px; border-left-color: #D3D3D3; border-right-style: none; border-right-width: 1px; border-right-color: #D3D3D3; vertical-align: middle; overflow-x: hidden; color: #333333; background-color: #FFFFFF; text-transform: inherit; padding-top: 8px; padding-bottom: 8px; padding-left: 5px; padding-right: 5px; border-bottom-style: solid; border-bottom-width: 2px; border-bottom-color: #D3D3D3;";

/// A cell of the only summary row.
pub const SUMMARY_TD_STYLE_FIRST_LAST: &'static str = "border-style: none; margin: 10px; border-left-style: none; border-left-width: 1px; border-left-color: #D3D3D3; border-right-style: none; border-right-width: 1px; border-right-color: #D3D3D3; vertical-align: middle; overflow-x: hidden; color: #333333; background-color: #FFFFFF; text-transform: inherit; border-top-style: solid; border-top-color: #D3D3D3; padding-top: 8px; padding-bottom: 8px; padding-left: 5px; padding-right: 5px; border-bottom-style: solid; border-bottom-width: 2px; border-bottom-color: #D3D3D3;";

/// The `<tfoot>`.
pub const TFOOT_STYLE: &'static str = "border-style: none;";

/// The source-note row.
pub const SOURCENOTES_TR_STYLE: &'static str = "border-style: none; color: #333333; background-color: #FFFFFF; border-bottom-style: none; border-bottom-width: 2px; border-bottom-color: #D3D3D3; border-left-style: none; border-left-width: 2px; border-left-color: #D3D3D3; border-right-style: none; border-right-width: 2px; border-right-color: #D3D3D3;";

/// The source-note cell.
pub const SOURCENOTE_TD_STYLE: &'static str = "border-style: none; font-size: 90%; padding-top: 4px; padding-bottom: 4px; padding-left: 5px; padding-right: 5px;";

} // verus!

verus! {

// ============================================================================
// Escaping and cell pieces
// ============================================================================

pub open spec fn escape_char(c: char) -> Seq<char> {
    if c == '&' {
        "&amp;"@
    } else if c == '<' {
        "&lt;"@
    } else if c == '>' {
        "&gt;"@
    } else {
        seq![c]
    }
}

/// `&`, `<` and `>` as entities, every other character as it is.
pub open spec fn html_escape_spec(s: Seq<char>) -> Seq<char>
    decreases s.len(),
{
    if s.len() == 0 {
        Seq::empty()
    } else {
        html_escape_spec(s.drop_last()) + escape_char(s.last())
    }
}

/// Escape text for HTML: `&` to `&amp;`, `<` to `&lt;`, `>` to `&gt;`.
pub fn html_escape(s: &str) -> (r: String)
    ensures
        r@ == html_escape_spec(s@),
{
    let v = crate::text::chars_of(s);
    let mut out = String::new();
    let mut i: usize = 0;
    proof {
        assert(v@.take(0) =~= Seq::<char>::empty());
    }
    while i < v.len()
        invariant
            i <= v@.len(),
            out@ == html_escape_spec(v@.take(i as int)),
        decreases v.len() - i,
    {
        let c = v[i];
        proof {
            let t = v@.take(i + 1);
            assert(t.drop_last() =~= v@.take(i as int));
            assert(t.last() == c);
        }
        if c == '&' {
            out.push_str("&amp;");
        } else if c == '<' {
            out.push_str("&lt;");
        } else if c == '>' {
            out.push_str("&gt;");
        } else {
            out.push(c);
            proof {
                assert(seq![c] == escape_char(c));
            }
        }
        i += 1;
    }
    proof {
        assert(v@.take(i as int) =~= s@);
    }
    out
}

pub open spec fn align_str(a: ColAlign) -> Seq<char> {
    match a {
        ColAlign::Left => "left"@,
        ColAlign::Right => "right"@,
        ColAlign::Center => "center"@,
    }
}

fn align_text(a: ColAlign) -> (r: &'static str)
    ensures
        r@ == align_str(a),
{
    match a {
        ColAlign::Left => "left",
        ColAlign::Right => "right",
        ColAlign::Center => "center",
    }
}

/// `<base> text-align: <a>;`, then the tabular-figures declaration for
/// right alignment.
pub open spec fn aligned_style(base: Seq<char>, a: ColAlign) -> Seq<char> {
    base + " text-align: "@ + align_str(a) + ";"@ + if a == ColAlign::Right {
        " font-variant-numeric: tabular-nums;"@
    } else {
        Seq::empty()
    }
}

fn push_aligned_style(out: &mut String, base: &str, a: ColAlign)
    ensures
        final(out)@ == old(out)@ + aligned_style(base@, a),
{
    out.push_str(base);
    out.push_str(" text-align: ");
    out.push_str(align_text(a));
    out.push_str(";");
    if a == ColAlign::Right {
        out.push_str(" font-variant-numeric: tabular-nums;");
    }
    proof {
        assert(final(out)@ =~= old(out)@ + aligned_style(base@, a));
    }
}

/// How many ASCII digits `s` starts with.
pub open spec fn digit_run(s: Seq<char>) -> nat
    decreases s.len(),
{
    if s.len() > 0 && is_ascii_digit(s[0]) {
        1 + digit_run(s.drop_first())
    } else {
        0
    }
}

pub proof fn lemma_digit_run_bound(s: Seq<char>)
    ensures
        digit_run(s) <= s.len(),
    decreases s.len(),
{
    if s.len() > 0 {
        lemma_digit_run_bound(s.drop_first());
    }
}

proof fn lemma_digit_run(s: Seq<char>, k: int)
    requires
        0 <= k <= s.len(),
        forall|j: int| 0 <= j < k ==> is_ascii_digit(#[trigger] s[j]),
        k == s.len() || !is_ascii_digit(s[k]),
    ensures
        digit_run(s) == k,
    decreases k,
{
    if k > 0 {
        assert(is_ascii_digit(s[0]));
        lemma_digit_run(s.drop_first(), k - 1);
    }
}

/// `body` raised (after `^`) or lowered (after `_`), as gt writes it.
pub open spec fn script_html(mark: char, body: Seq<char>) -> Seq<char> {
    if mark == '^' {
        "<span style=\"white-space:nowrap;\"><sup style=\"line-height:0;\">"@ + body
            + "</sup></span>"@
    } else {
        "<span style=\"white-space:nowrap;\"><sub style=\"line-height:0;\">"@ + body
            + "</sub></span>"@
    }
}

pub open spec fn is_mark(c: char) -> bool {
    c == '^' || c == '_'
}

/// The inline markup of a user label: `^{...}` and `_{...}` raise or lower
/// the text up to the next `}`, `^N` and `_N` a run of digits; any other
/// character stands as it is.
pub open spec fn markup_spec(s: Seq<char>) -> Seq<char>
    decreases s.len(),
{
    if s.len() == 0 {
        s
    } else if is_mark(s[0]) && s.len() > 1 && s[1] == '{' && find_char_spec(s.skip(2), '}') is Some {
        let k = find_char_spec(s.skip(2), '}')->0;
        script_html(s[0], s.subrange(2, 2 + k)) + markup_spec(s.skip(3 + k))
    } else if is_mark(s[0]) && digit_run(s.drop_first()) > 0 {
        let d: int = digit_run(s.drop_first()) as int;
        proof {
            lemma_digit_run_bound(s.drop_first());
        }
        script_html(s[0], s.subrange(1, 1 + d)) + markup_spec(s.skip(1 + d))
    } else {
        seq![s[0]] + markup_spec(s.drop_first())
    }
}

/// A label as its heading shows it: a user label (from `LABEL`) gets the
/// smart-text substitutions, HTML escaping and inline markup; a default
/// label is only escaped.
pub open spec fn label_html(label: Seq<char>, user: bool) -> Seq<char> {
    if user {
        markup_spec(html_escape_spec(smart_text_spec(label)))
    } else {
        html_escape_spec(label)
    }
}

fn push_script(out: &mut String, mark: char, v: &Vec<char>, lo: usize, hi: usize)
    requires
        lo <= hi <= v@.len(),
    ensures
        final(out)@ == old(out)@ + script_html(mark, v@.subrange(lo as int, hi as int)),
{
    if mark == '^' {
        out.push_str("<span style=\"white-space:nowrap;\"><sup style=\"line-height:0;\">");
        out.push_str(&string_of(v, lo, hi));
        out.push_str("</sup></span>");
    } else {
        out.push_str("<span style=\"white-space:nowrap;\"><sub style=\"line-height:0;\">");
        out.push_str(&string_of(v, lo, hi));
        out.push_str("</sub></span>");
    }
    proof {
        assert(final(out)@ =~= old(out)@ + script_html(mark, v@.subrange(lo as int, hi as int)));
    }
}

/// Apply a user label's inline markup.
#[verifier::spinoff_prover]
#[verifier::rlimit(50)]
fn markup(s: &str) -> (r: String)
    ensures
        r@ == markup_spec(s@),
{
    let v = chars_of(s);
    let n = v.len();
    let mut out = String::new();
    let mut i: usize = 0;
    proof {
        assert(v@.skip(0) =~= v@);
    }
    while i < n
        invariant
            n == v@.len(),
            v@ == s@,
            i <= n,
            markup_spec(s@) == out@ + markup_spec(v@.skip(i as int)),
        decreases n - i,
    {
        let ghost t = v@.skip(i as int);
        let c = v[i];
        proof {
            assert(t[0] == c);
            assert(t.drop_first() =~= v@.skip(i + 1));
        }
        let mut done = false;
        if c == '^' || c == '_' {
            if i + 1 < n && v[i + 1] == '{' {
                let mut j: usize = i + 2;
                while j < n && v[j] != '}'
                    invariant
                        i + 2 <= j <= n,
                        n == v@.len(),
                        forall|q: int| i + 2 <= q < j ==> v@[q] != '}',
                    decreases n - j,
                {
                    j += 1;
                }
                proof {
                    let u = t.skip(2);
                    assert(u =~= v@.skip(i + 2));
                    assert(t[1] == '{');
                    if j < n {
                        assert(is_first_char(u, '}', j - i - 2));
                        lemma_first_char_unique(u, '}', j - i - 2);
                    } else {
                        assert forall|q: int| 0 <= q < u.len() implies u[q] != '}' by {
                            assert(u[q] == v@[q + i + 2]);
                        }
                        lemma_no_char(u, '}');
                    }
                }
                if j < n {
                    let ghost before = out@;
                    push_script(&mut out, c, &v, i + 2, j);
                    proof {
                        let k = j - i - 2;
                        assert(t.subrange(2, 2 + k) =~= v@.subrange(i + 2, j as int));
                        assert(t.skip(3 + k) =~= v@.skip(j + 1));
                    }
                    i = j + 1;
                    done = true;
                }
            }
            if !done {
                let mut d: usize = 0;
                while i + 1 + d < n && v[i + 1 + d] >= '0' && v[i + 1 + d] <= '9'
                    invariant
                        i + 1 + d <= n,
                        i < n,
                        n == v@.len(),
                        forall|q: int| i + 1 <= q < i + 1 + d ==> is_ascii_digit(#[trigger] v@[q]),
                    decreases n - i - d,
                {
                    d += 1;
                }
                proof {
                    let u = t.drop_first();
                    assert forall|q: int| 0 <= q < d implies is_ascii_digit(#[trigger] u[q]) by {
                        assert(u[q] == v@[i + 1 + q]);
                    }
                    if i + 1 + d < n {
                        assert(u[d as int] == v@[i + 1 + d]);
                    }
                    lemma_digit_run(u, d as int);
                }
                if d > 0 {
                    push_script(&mut out, c, &v, i + 1, i + 1 + d);
                    proof {
                        assert(t.subrange(1, 1 + d) =~= v@.subrange(i + 1, i + 1 + d));
                        assert(t.skip(1 + d) =~= v@.skip(i + 1 + d));
                    }
                    i = i + 1 + d;
                    done = true;
                }
            }
        }
        if !done {
            out.push(c);
            proof {
                assert(markup_spec(t) == seq![c] + markup_spec(t.drop_first()));
            }
            i += 1;
        }
    }
    proof {
        assert(v@.skip(i as int) =~= Seq::<char>::empty());
    }
    out
}

/// A heading's label as [`label_html`] gives it.
pub fn render_label(label: &str, user: bool) -> (r: String)
    ensures
        r@ == label_html(label@, user),
{
    if user {
        markup(&html_escape(&smart_text(label)))
    } else {
        html_escape(label)
    }
}

/// A column heading cell spanning `rowspan` header rows. The stub's heading
/// is always left-aligned and carries gt's `a::stub` id.
pub open spec fn th_spec(col: ColMeta, is_stub: bool, rowspan: nat) -> Seq<char> {
    let align = if is_stub {
        ColAlign::Left
    } else {
        col.align
    };
    let id = if is_stub {
        "a::stub"@
    } else {
        col.name@
    };
    "      <th class=\"gt_col_heading gt_columns_bottom_border "@ + gt_class_spec(align)
        + "\" rowspan=\""@ + decimal(rowspan) + "\" colspan=\"1\" scope=\"col\" id=\""@ + id
        + "\" style=\""@ + aligned_style(TH_BASE_STYLE@, align)
        + "\" bgcolor=\"#FFFFFF\" valign=\"bottom\" align=\""@ + align_str(align) + "\">"@
        + label_html(col.label@, col.label_is_user) + "</th>\n"@
}

/// Render a column heading cell.
pub fn render_th(col: &ColMeta, is_stub: bool, rowspan: usize) -> (r: String)
    ensures
        r@ == th_spec(*col, is_stub, rowspan as nat),
{
    let align = if is_stub {
        ColAlign::Left
    } else {
        col.align
    };
    let mut out = String::new();
    out.push_str("      <th class=\"gt_col_heading gt_columns_bottom_border ");
    out.push_str(align.gt_class());
    out.push_str("\" rowspan=\"");
    out.push_str(&u64_to_decimal(rowspan as u64));
    out.push_str("\" colspan=\"1\" scope=\"col\" id=\"");
    if is_stub {
        out.push_str("a::stub");
    } else {
        out.push_str(&col.name);
    }
    out.push_str("\" style=\"");
    push_aligned_style(&mut out, TH_BASE_STYLE, align);
    out.push_str("\" bgcolor=\"#FFFFFF\" valign=\"bottom\" align=\"");
    out.push_str(align_text(align));
    out.push_str("\">");
    out.push_str(&render_label(&col.label, col.label_is_user));
    out.push_str("</th>\n");
    proof {
        assert(out@ =~= th_spec(*col, is_stub, rowspan as nat));
    }
    out
}

} // verus!

verus! {

// ============================================================================
// Header rows
// ============================================================================

/// An empty cell above a column (or spanner) that sits lower, spanning
/// `colspan` columns; `__LRPAD__` marks where its padding goes.
pub open spec fn placeholder_cell(colspan: Seq<char>) -> Seq<char> {
    "      <th class=\"gt_center gt_columns_top_border gt_column_spanner_outer\" rowspan=\"1\" colspan=\""@
        + colspan + "\" scope=\"col\" style=\""@ + SPANNER_OUTER_BASE_PREFIX@
        + "__LRPAD__\" bgcolor=\"#FFFFFF\" align=\"center\"></th>\n"@
}

/// A spanner's cell over its `colspan` leaf columns.
pub open spec fn spanner_cell(colspan: nat, label: Seq<char>) -> Seq<char> {
    "      <th class=\"gt_center gt_columns_top_border gt_column_spanner_outer\" rowspan=\"1\" colspan=\""@
        + decimal(colspan) + "\" scope=\"colgroup\" id=\""@ + html_escape_spec(label)
        + "\" style=\""@ + SPANNER_OUTER_BASE_PREFIX@
        + "__LRPAD__\" bgcolor=\"#FFFFFF\" align=\"center\">\n        <div class=\"gt_column_spanner\" style=\""@
        + SPANNER_DIV_STYLE@ + "\">"@ + html_escape_spec(label) + "</div>\n      </th>\n"@
}

/// The cells a subtree contributes to header row `row` (0 is the top; the
/// column row is `maxh`), with whether each is a spanner-class cell. A
/// top-level column is lifted to the lowest spanner row and spans down; a
/// spanner sits `height` rows above the column row.
pub open spec fn header_cells(
    n: HeaderNode,
    row: nat,
    depth: nat,
    maxh: nat,
    cols: Seq<ColMeta>,
    stub: Option<usize>,
) -> Seq<(Seq<char>, bool)>
    decreases n,
{
    match n {
        HeaderNode::Column { col_idx } => {
            let c_level: int = if depth == 0 && maxh > 0 {
                maxh - 1
            } else {
                maxh as int
            };
            if row < c_level {
                seq![(placeholder_cell("1"@), true)]
            } else if row == c_level {
                seq![
                    (
                        th_spec(cols[col_idx as int], stub == Some(col_idx), (maxh + 1 - row) as nat),
                        false,
                    ),
                ]
            } else {
                Seq::empty()
            }
        },
        HeaderNode::Spanner { label, children, .. } => {
            let span_row = maxh - height_spec(n);
            if row < span_row {
                seq![(placeholder_cell(decimal(leaf_count_spec(n))), true)]
            } else if row == span_row {
                seq![(spanner_cell(leaf_count_spec(n), label@), true)]
            } else {
                children_cells(children@, row, depth + 1, maxh, cols, stub)
            }
        },
    }
}

pub open spec fn children_cells(
    s: Seq<HeaderNode>,
    row: nat,
    depth: nat,
    maxh: nat,
    cols: Seq<ColMeta>,
    stub: Option<usize>,
) -> Seq<(Seq<char>, bool)>
    decreases s,
{
    if s.len() == 0 {
        Seq::empty()
    } else {
        children_cells(s.drop_last(), row, depth, maxh, cols, stub) + header_cells(
            s.last(),
            row,
            depth,
            maxh,
            cols,
            stub,
        )
    }
}

/// Every leaf names a column and every spanner's leaf count fits a `usize`.
pub open spec fn node_ok(n: HeaderNode, ncols: nat) -> bool
    decreases n,
{
    match n {
        HeaderNode::Column { col_idx } => col_idx < ncols,
        HeaderNode::Spanner { children, .. } => leaf_count_spec(n) <= usize::MAX && nodes_ok(
            children@,
            ncols,
        ),
    }
}

pub open spec fn nodes_ok(s: Seq<HeaderNode>, ncols: nat) -> bool
    decreases s,
{
    if s.len() == 0 {
        true
    } else {
        nodes_ok(s.drop_last(), ncols) && node_ok(s.last(), ncols)
    }
}

pub proof fn lemma_nodes_ok_index(s: Seq<HeaderNode>, ncols: nat, i: int)
    requires
        nodes_ok(s, ncols),
        0 <= i < s.len(),
    ensures
        node_ok(s[i], ncols),
    decreases s.len(),
{
    if i < s.len() - 1 {
        lemma_nodes_ok_index(s.drop_last(), ncols, i);
    }
}

pub open spec fn cells_view(v: Seq<(String, bool)>) -> Seq<(Seq<char>, bool)> {
    v.map_values(|c: (String, bool)| (c.0@, c.1))
}

fn placeholder_markup(colspan: &str) -> (r: String)
    ensures
        r@ == placeholder_cell(colspan@),
{
    let mut m = String::new();
    m.push_str(
        "      <th class=\"gt_center gt_columns_top_border gt_column_spanner_outer\" rowspan=\"1\" colspan=\"",
    );
    m.push_str(colspan);
    m.push_str("\" scope=\"col\" style=\"");
    m.push_str(SPANNER_OUTER_BASE_PREFIX);
    m.push_str("__LRPAD__\" bgcolor=\"#FFFFFF\" align=\"center\"></th>\n");
    proof {
        assert(m@ =~= placeholder_cell(colspan@));
    }
    m
}

fn spanner_markup(colspan: usize, label: &str) -> (r: String)
    ensures
        r@ == spanner_cell(colspan as nat, label@),
{
    let esc = html_escape(label);
    let mut m = String::new();
    m.push_str(
        "      <th class=\"gt_center gt_columns_top_border gt_column_spanner_outer\" rowspan=\"1\" colspan=\"",
    );
    m.push_str(&u64_to_decimal(colspan as u64));
    m.push_str("\" scope=\"colgroup\" id=\"");
    m.push_str(&esc);
    m.push_str("\" style=\"");
    m.push_str(SPANNER_OUTER_BASE_PREFIX);
    m.push_str(
        "__LRPAD__\" bgcolor=\"#FFFFFF\" align=\"center\">\n        <div class=\"gt_column_spanner\" style=\"",
    );
    m.push_str(SPANNER_DIV_STYLE);
    m.push_str("\">");
    m.push_str(&esc);
    m.push_str("</div>\n      </th>\n");
    proof {
        assert(m@ =~= spanner_cell(colspan as nat, label@));
    }
    m
}

/// Gather the cells `node` contributes to header row `row`.
#[verifier::loop_isolation(false)]
pub fn collect_header_cells(
    node: &HeaderNode,
    row: usize,
    current_depth: usize,
    max_height: usize,
    columns: &Vec<ColMeta>,
    stub_col: Option<usize>,
    out: &mut Vec<(String, bool)>,
)
    requires
        node_ok(*node, columns@.len()),
        current_depth + height_spec(*node) <= max_height,
        max_height < usize::MAX,
        row <= max_height,
    ensures
        cells_view(final(out)@) == cells_view(old(out)@) + header_cells(
            *node,
            row as nat,
            current_depth as nat,
            max_height as nat,
            columns@,
            stub_col,
        ),
    decreases node,
{
    let ghost start = cells_view(out@);
    match node {
        HeaderNode::Column { col_idx } => {
            let c_level = if current_depth == 0 && max_height > 0 {
                max_height - 1
            } else {
                max_height
            };
            if row < c_level {
                proof {
                    reveal_strlit("1");
                }
                out.push((placeholder_markup("1"), true));
            } else if row == c_level {
                let rowspan = max_height + 1 - row;
                let th = render_th(&columns[*col_idx], Some(*col_idx) == stub_col, rowspan);
                out.push((th, false));
            }
            proof {
                assert(cells_view(out@) =~= start + header_cells(
                    *node,
                    row as nat,
                    current_depth as nat,
                    max_height as nat,
                    columns@,
                    stub_col,
                ));
            }
        },
        HeaderNode::Spanner { label, children, .. } => {
            let h = node.height();
            let span_row = max_height - h;
            if row < span_row {
                let leaves = node.leaf_count();
                out.push((placeholder_markup(&u64_to_decimal(leaves as u64)), true));
                proof {
                    assert(cells_view(out@) =~= start + header_cells(
                        *node,
                        row as nat,
                        current_depth as nat,
                        max_height as nat,
                        columns@,
                        stub_col,
                    ));
                }
            } else if row == span_row {
                let leaves = node.leaf_count();
                out.push((spanner_markup(leaves, label), true));
                proof {
                    assert(cells_view(out@) =~= start + header_cells(
                        *node,
                        row as nat,
                        current_depth as nat,
                        max_height as nat,
                        columns@,
                        stub_col,
                    ));
                }
            } else {
                let mut i: usize = 0;
                proof {
                    assert(children@.take(0) =~= Seq::<HeaderNode>::empty());
                    assert(cells_view(out@) =~= start + children_cells(
                        children@.take(0),
                        row as nat,
                        current_depth as nat + 1,
                        max_height as nat,
                        columns@,
                        stub_col,
                    ));
                }
                while i < children.len()
                    invariant
                        i <= children@.len(),
                        node_ok(*node, columns@.len()),
                        current_depth + height_spec(*node) <= max_height,
                        max_height < usize::MAX,
                        row <= max_height,
                        height_spec(*node) == 1 + max_height_of_seq(children@),
                        nodes_ok(children@, columns@.len()),
                        cells_view(out@) == start + children_cells(
                            children@.take(i as int),
                            row as nat,
                            current_depth as nat + 1,
                            max_height as nat,
                            columns@,
                            stub_col,
                        ),
                    decreases children.len() - i,
                {
                    proof {
                        lemma_height_child_le(children@, i as int);
                        lemma_nodes_ok_index(children@, columns@.len(), i as int);
                        assert(decreases_to!(*node => (*node)->children));
                        let t = children@.take(i + 1);
                        assert(t.drop_last() =~= children@.take(i as int));
                        assert(t.last() == children@[i as int]);
                    }
                    let ghost before = cells_view(out@);
                    collect_header_cells(
                        &children[i],
                        row,
                        current_depth + 1,
                        max_height,
                        columns,
                        stub_col,
                        out,
                    );
                    proof {
                        assert(cells_view(out@) =~= start + children_cells(
                            children@.take(i + 1),
                            row as nat,
                            current_depth as nat + 1,
                            max_height as nat,
                            columns@,
                            stub_col,
                        ));
                    }
                    i += 1;
                }
                proof {
                    assert(children@.take(i as int) =~= children@);
                }
            }
        },
    }
}

} // verus!

verus! {

/// The padding of a spanner-class cell: the rightmost cell's wins over the
/// leftmost's.
pub open spec fn pad_suffix(i: int, n: int) -> Seq<char> {
    if i == n - 1 {
        "padding-left: 4px; text-align: center; padding-right: 0;"@
    } else if i == 0 {
        "padding-right: 4px; text-align: center; padding-left: 0;"@
    } else {
        "padding-left: 4px; padding-right: 4px; text-align: center;"@
    }
}

/// Cell `i` of `n` in its row, its padding filled in.
pub open spec fn fixed_cell(c: (Seq<char>, bool), i: int, n: int) -> Seq<char> {
    if c.1 {
        replace_spec(c.0, "__LRPAD__"@, pad_suffix(i, n))
    } else {
        c.0
    }
}

/// The first `k` cells of a row, padded, one after the other.
pub open spec fn joined_cells(cs: Seq<(Seq<char>, bool)>, k: nat) -> Seq<char>
    decreases k,
{
    if k == 0 {
        Seq::empty()
    } else {
        joined_cells(cs, (k - 1) as nat) + fixed_cell(cs[k - 1], k - 1, cs.len() as int)
    }
}

/// Header row `row`: spanner rows hide their bottom border, the column row
/// (`row == maxh`) keeps it.
pub open spec fn header_row(
    forest: Seq<HeaderNode>,
    row: nat,
    maxh: nat,
    cols: Seq<ColMeta>,
    stub: Option<usize>,
) -> Seq<char> {
    let cs = children_cells(forest, row, 0, maxh, cols, stub);
    let cls = if row == maxh {
        "gt_col_headings"@
    } else {
        "gt_col_headings gt_spanner_row"@
    };
    let st = if row == maxh {
        THEAD_TR_STYLE@
    } else {
        SPANNER_TR_STYLE@
    };
    "    <tr class=\""@ + cls + "\" style=\""@ + st + "\">\n"@ + joined_cells(cs, cs.len())
        + "    </tr>\n"@
}

/// Header rows `0..k`.
pub open spec fn header_rows(
    forest: Seq<HeaderNode>,
    k: nat,
    maxh: nat,
    cols: Seq<ColMeta>,
    stub: Option<usize>,
) -> Seq<char>
    decreases k,
{
    if k == 0 {
        Seq::empty()
    } else {
        header_rows(forest, (k - 1) as nat, maxh, cols, stub) + header_row(
            forest,
            (k - 1) as nat,
            maxh,
            cols,
            stub,
        )
    }
}

/// The `<thead>` rows: one per spanner level, then the column row.
pub open spec fn header_spec(forest: Seq<HeaderNode>, cols: Seq<ColMeta>, stub: Option<usize>) -> Seq<char> {
    let maxh = max_height_of_seq(forest);
    header_rows(forest, maxh + 1, maxh, cols, stub)
}

/// The forest can be rendered over `ncols` columns.
pub open spec fn forest_ok(forest: Seq<HeaderNode>, ncols: nat) -> bool {
    nodes_ok(forest, ncols) && max_height_of_seq(forest) < usize::MAX
}

fn forest_height(forest: &Vec<HeaderNode>) -> (r: usize)
    requires
        max_height_of_seq(forest@) < usize::MAX,
    ensures
        r == max_height_of_seq(forest@),
{
    let mut best: usize = 0;
    let mut i: usize = 0;
    proof {
        assert(forest@.take(0) =~= Seq::<HeaderNode>::empty());
    }
    while i < forest.len()
        invariant
            i <= forest@.len(),
            max_height_of_seq(forest@) < usize::MAX,
            best == max_height_of_seq(forest@.take(i as int)),
        decreases forest.len() - i,
    {
        proof {
            assert(forest@.take(i + 1).drop_last() =~= forest@.take(i as int));
            lemma_height_child_le(forest@, i as int);
        }
        let h = forest[i].height();
        if h > best {
            best = h;
        }
        i += 1;
    }
    proof {
        assert(forest@.take(i as int) =~= forest@);
    }
    best
}

fn header_row_exec(
    forest: &Vec<HeaderNode>,
    row: usize,
    max_height: usize,
    columns: &Vec<ColMeta>,
    stub_col: Option<usize>,
) -> (r: String)
    requires
        forest_ok(forest@, columns@.len()),
        max_height == max_height_of_seq(forest@),
        row <= max_height,
    ensures
        r@ == header_row(forest@, row as nat, max_height as nat, columns@, stub_col),
{
    let mut cells: Vec<(String, bool)> = Vec::new();
    let mut k: usize = 0;
    proof {
        assert(forest@.take(0) =~= Seq::<HeaderNode>::empty());
        assert(cells_view(cells@) =~= Seq::<(Seq<char>, bool)>::empty());
    }
    while k < forest.len()
        invariant
            k <= forest@.len(),
            forest_ok(forest@, columns@.len()),
            max_height == max_height_of_seq(forest@),
            row <= max_height,
            cells_view(cells@) == children_cells(
                forest@.take(k as int),
                row as nat,
                0,
                max_height as nat,
                columns@,
                stub_col,
            ),
        decreases forest.len() - k,
    {
        proof {
            lemma_height_child_le(forest@, k as int);
            lemma_nodes_ok_index(forest@, columns@.len(), k as int);
            let t = forest@.take(k + 1);
            assert(t.drop_last() =~= forest@.take(k as int));
            assert(t.last() == forest@[k as int]);
        }
        collect_header_cells(&forest[k], row, 0, max_height, columns, stub_col, &mut cells);
        k += 1;
    }
    proof {
        assert(forest@.take(k as int) =~= forest@);
    }
    let ghost cs = cells_view(cells@);
    let mut out = String::new();
    out.push_str("    <tr class=\"");
    if row == max_height {
        out.push_str("gt_col_headings");
    } else {
        out.push_str("gt_col_headings gt_spanner_row");
    }
    out.push_str("\" style=\"");
    if row == max_height {
        out.push_str(THEAD_TR_STYLE);
    } else {
        out.push_str(SPANNER_TR_STYLE);
    }
    out.push_str("\">\n");
    let ghost head = out@;
    proof {
        reveal_strlit("__LRPAD__");
    }
    let n = cells.len();
    let mut i: usize = 0;
    while i < n
        invariant
            i <= n,
            n == cells@.len(),
            cs == cells_view(cells@),
            out@ == head + joined_cells(cs, i as nat),
        decreases n - i,
    {
        let suffix = if i + 1 == n {
            "padding-left: 4px; text-align: center; padding-right: 0;"
        } else if i == 0 {
            "padding-right: 4px; text-align: center; padding-left: 0;"
        } else {
            "padding-left: 4px; padding-right: 4px; text-align: center;"
        };
        if cells[i].1 {
            proof {
                reveal_strlit("__LRPAD__");
            }
            let fixed = replace_all(&cells[i].0, "__LRPAD__", suffix);
            out.push_str(&fixed);
        } else {
            out.push_str(&cells[i].0);
        }
        proof {
            assert(cs[i as int] == (cells@[i as int].0@, cells@[i as int].1));
            assert(out@ =~= head + joined_cells(cs, (i + 1) as nat));
        }
        i += 1;
    }
    out.push_str("    </tr>\n");
    proof {
        assert(out@ =~= header_row(forest@, row as nat, max_height as nat, columns@, stub_col));
    }
    out
}

/// Render the `<thead>` rows: the spanner rows, then the column row.
pub fn render_header(table: &TableIr) -> (r: String)
    requires
        forest_ok(table.header_forest@, table.columns@.len()),
    ensures
        r@ == header_spec(table.header_forest@, table.columns@, table.stub_col),
{
    let max_height = forest_height(&table.header_forest);
    let mut out = String::new();
    let mut row: usize = 0;
    while row <= max_height
        invariant
            row <= max_height + 1,
            max_height < usize::MAX,
            forest_ok(table.header_forest@, table.columns@.len()),
            max_height == max_height_of_seq(table.header_forest@),
            out@ == header_rows(
                table.header_forest@,
                row as nat,
                max_height as nat,
                table.columns@,
                table.stub_col,
            ),
        decreases max_height + 1 - row,
    {
        let line = header_row_exec(
            &table.header_forest,
            row,
            max_height,
            &table.columns,
            table.stub_col,
        );
        out.push_str(&line);
        row += 1;
    }
    out
}

} // verus!

verus! {

// ============================================================================
// Body rows
// ============================================================================

/// The SCALE background of cell `i`, when there is one.
pub open spec fn bg_at(bg: Option<Seq<Option<String>>>, i: int) -> Option<Seq<char>> {
    match bg {
        Some(r) => if 0 <= i < r.len() {
            opt_str(r[i])
        } else {
            None
        },
        None => None,
    }
}

/// The HIGHLIGHT style of cell `i`, when there is one.
pub open spec fn style_at(st: Option<Seq<CellStyle>>, i: int) -> Option<CellStyle> {
    match st {
        Some(r) => if 0 <= i < r.len() {
            Some(r[i])
        } else {
            None
        },
        None => None,
    }
}

pub open spec fn first_border(first: bool) -> Seq<char> {
    if first {
        " border-top-width: 2px;"@
    } else {
        Seq::empty()
    }
}

pub open spec fn hl_field(hl: Option<CellStyle>, k: int) -> Option<Seq<char>> {
    match hl {
        Some(h) => opt_str(
            if k == 0 {
                h.background
            } else if k == 1 {
                h.color
            } else {
                h.face
            },
        ),
        None => None,
    }
}

/// The background declarations: a HIGHLIGHT background as is, a SCALE one
/// with its contrasting text colour unless a HIGHLIGHT colour
/// (`hl_color`) sets the text colour itself.
pub open spec fn bg_part(hl_bg: Option<Seq<char>>, hl_color: bool, bg: Option<Seq<char>>) -> Seq<char> {
    match hl_bg {
        Some(hex) => " background-color: "@ + hex + ";"@,
        None => match bg {
            Some(hex) => if hl_color {
                " background-color: "@ + hex + ";"@
            } else {
                " background-color: "@ + hex + "; color: "@ + ideal_fg_spec(
                    vstd::utf8::encode_utf8(hex),
                ) + ";"@
            },
            None => Seq::empty(),
        },
    }
}

/// The `bgcolor` attribute of the background in force.
pub open spec fn bg_attr(hl_bg: Option<Seq<char>>, bg: Option<Seq<char>>) -> Seq<char> {
    match hl_bg {
        Some(hex) => " bgcolor=\""@ + hex + "\""@,
        None => match bg {
            Some(hex) => " bgcolor=\""@ + hex + "\""@,
            None => Seq::empty(),
        },
    }
}

pub open spec fn color_part(c: Option<Seq<char>>) -> Seq<char> {
    match c {
        Some(c) => " color: "@ + c + ";"@,
        None => Seq::empty(),
    }
}

/// `italic` and `oblique` set the font style, any other face the weight.
pub open spec fn face_part(f: Option<Seq<char>>) -> Seq<char> {
    match f {
        Some(f) => " "@ + if lower_seq(f) == "italic"@ || lower_seq(f) == "oblique"@ {
            "font-style: "@ + f + ";"@
        } else {
            "font-weight: "@ + f + ";"@
        },
        None => Seq::empty(),
    }
}

/// A body cell's `style` value and its `bgcolor` attribute. A HIGHLIGHT
/// background wins over a SCALE one; only a SCALE background brings its
/// contrasting text colour, and only where no HIGHLIGHT colour replaces
/// it. HIGHLIGHT colour and face come last.
pub open spec fn td_style(col: ColMeta, first: bool, bg: Option<Seq<char>>, hl: Option<CellStyle>) -> (
    Seq<char>,
    Seq<char>,
) {
    let base = if first {
        TD_BASE_STYLE_FIRST_OF_GROUP@
    } else {
        TD_BASE_STYLE@
    };
    (
        aligned_style(base, col.align) + first_border(first) + bg_part(
            hl_field(hl, 0),
            hl_field(hl, 1) is Some,
            bg,
        )
            + color_part(hl_field(hl, 1)) + face_part(hl_field(hl, 2)),
        bg_attr(hl_field(hl, 0), bg),
    )
}

/// The `headers` attribute of a body cell: group, stub id and column name,
/// each when present.
pub open spec fn headers_attr(group: Option<Seq<char>>, stub_id: Option<Seq<char>>, name: Seq<char>) -> Seq<char> {
    match (group, stub_id) {
        (Some(g), Some(s)) => g + " "@ + s + " "@ + name,
        (Some(g), None) => g + " "@ + name,
        (None, Some(s)) => s + " "@ + name,
        (None, None) => name,
    }
}

pub open spec fn stub_row_id(stub: Option<usize>, gnum: nat) -> Option<Seq<char>> {
    if stub is Some {
        Some("stub_1_"@ + decimal(gnum))
    } else {
        None
    }
}

/// Cell `i` of a body row.
#[verifier::opaque]
pub open spec fn tr_cell(
    value: Seq<char>,
    col: ColMeta,
    i: int,
    stub: Option<usize>,
    bg: Option<Seq<Option<String>>>,
    st: Option<Seq<CellStyle>>,
    group: Option<Seq<char>>,
    first: bool,
    gnum: nat,
) -> Seq<char> {
    let align = col.align;
    if stub == Some(i as usize) {
        let base = if first {
            STUB_TH_STYLE_FIRST_OF_GROUP@
        } else {
            STUB_TH_STYLE@
        };
        "<th id=\""@ + "stub_1_"@ + decimal(gnum) + "\" scope=\"row\" class=\"gt_row "@
            + gt_class_spec(align) + " gt_stub\" style=\""@ + aligned_style(base, align)
            + first_border(first) + "\" valign=\"middle\" bgcolor=\"#FFFFFF\" align=\""@
            + align_str(align) + "\">"@ + html_escape_spec(value) + "</th>"@
    } else {
        let (style, attr) = td_style(col, first, bg_at(bg, i), style_at(st, i));
        let text = if col.raw_html {
            value
        } else {
            html_escape_spec(value)
        };
        "<td headers=\""@ + headers_attr(group, stub_row_id(stub, gnum), col.name@)
            + "\" class=\"gt_row "@ + gt_class_spec(align) + "\" style=\""@ + style + "\""@ + attr
            + " valign=\"middle\" align=\""@ + align_str(align) + "\">"@ + text + "</td>"@
    }
}

/// The first `k` cells of a body row, separated by newlines.
pub open spec fn tr_cells(
    row: Seq<String>,
    cols: Seq<ColMeta>,
    stub: Option<usize>,
    bg: Option<Seq<Option<String>>>,
    st: Option<Seq<CellStyle>>,
    group: Option<Seq<char>>,
    first: bool,
    gnum: nat,
    k: nat,
) -> Seq<char>
    decreases k,
{
    if k == 0 {
        Seq::empty()
    } else {
        tr_cells(row, cols, stub, bg, st, group, first, gnum, (k - 1) as nat) + (if k == 1 {
            Seq::empty()
        } else {
            "\n"@
        }) + tr_cell(row[k - 1]@, cols[k - 1], k - 1, stub, bg, st, group, first, gnum)
    }
}

pub open spec fn min_len(a: nat, b: nat) -> nat {
    if a <= b {
        a
    } else {
        b
    }
}

/// A body row: one cell per value that has a column.
#[verifier::opaque]
pub open spec fn tr_spec(
    row: Seq<String>,
    cols: Seq<ColMeta>,
    stub: Option<usize>,
    bg: Option<Seq<Option<String>>>,
    st: Option<Seq<CellStyle>>,
    group: Option<Seq<char>>,
    first: bool,
    gnum: nat,
) -> Seq<char> {
    "    <tr"@ + (if first {
        " class=\"gt_row_group_first\""@
    } else {
        Seq::empty()
    }) + " style=\""@ + TR_STYLE@ + "\">"@ + tr_cells(
        row,
        cols,
        stub,
        bg,
        st,
        group,
        first,
        gnum,
        min_len(row.len(), cols.len()),
    ) + "</tr>\n"@
}

/// Every SCALE background is a colour whose contrasting text colour can be
/// read off it.
pub open spec fn backgrounds_ok(bg: Option<Seq<Option<String>>>) -> bool {
    match bg {
        Some(r) => forall|i: int|
            0 <= i < r.len() && (#[trigger] r[i]) is Some ==> fg_slices_ok(
                vstd::utf8::encode_utf8(r[i]->0@),
            ),
        None => true,
    }
}

fn opt_ref(o: &Option<String>) -> (r: Option<&String>)
    ensures
        match *o {
            Some(x) => r matches Some(y) && *y == x,
            None => r is None,
        },
{
    match o {
        Some(x) => Some(x),
        None => None,
    }
}

fn bg_part_exec(out: &mut String, hl_bg: Option<&String>, hl_color: bool, bg: Option<&String>)
    requires
        hl_bg is None ==> match bg {
            Some(b) => fg_slices_ok(vstd::utf8::encode_utf8(b@)),
            None => true,
        },
    ensures
        final(out)@ == old(out)@ + bg_part(
            match hl_bg {
                Some(h) => Some(h@),
                None => None,
            },
            hl_color,
            match bg {
                Some(b) => Some(b@),
                None => None,
            },
        ),
{
    match hl_bg {
        Some(hex) => {
            out.push_str(" background-color: ");
            out.push_str(hex);
            out.push_str(";");
        },
        None => match bg {
            Some(hex) => {
                out.push_str(" background-color: ");
                out.push_str(hex);
                if hl_color {
                    out.push_str(";");
                } else {
                    out.push_str("; color: ");
                    out.push_str(ideal_fg(hex.as_str()));
                    out.push_str(";");
                }
            },
            None => {},
        },
    }
    proof {
        assert(final(out)@ =~= old(out)@ + bg_part(
            match hl_bg {
                Some(h) => Some(h@),
                None => None,
            },
            hl_color,
            match bg {
                Some(b) => Some(b@),
                None => None,
            },
        ));
    }
}

fn bg_attr_exec(hl_bg: Option<&String>, bg: Option<&String>) -> (r: String)
    ensures
        r@ == bg_attr(
            match hl_bg {
                Some(h) => Some(h@),
                None => None,
            },
            match bg {
                Some(b) => Some(b@),
                None => None,
            },
        ),
{
    let hex = match hl_bg {
        Some(h) => h,
        None => match bg {
            Some(b) => b,
            None => return String::new(),
        },
    };
    let mut out = String::new();
    out.push_str(" bgcolor=\"");
    out.push_str(hex);
    out.push_str("\"");
    proof {
        assert(Seq::<char>::empty() + " bgcolor=\""@ =~= " bgcolor=\""@);
    }
    out
}

fn color_face_exec(out: &mut String, color: Option<&String>, face: Option<&String>)
    ensures
        final(out)@ == old(out)@ + color_part(
            match color {
                Some(c) => Some(c@),
                None => None,
            },
        ) + face_part(
            match face {
                Some(f) => Some(f@),
                None => None,
            },
        ),
{
    let ghost start = out@;
    if let Some(c) = color {
        out.push_str(" color: ");
        out.push_str(c);
        out.push_str(";");
    }
    let ghost mid = out@;
    if let Some(f) = face {
        let lf = to_ascii_lowercase(f);
        proof {
            reveal_strlit("italic");
            reveal_strlit("oblique");
        }
        out.push_str(" ");
        if crate::text::str_eq(&lf, "italic") || crate::text::str_eq(&lf, "oblique") {
            out.push_str("font-style: ");
        } else {
            out.push_str("font-weight: ");
        }
        out.push_str(f);
        out.push_str(";");
    }
    proof {
        let cp = color_part(
            match color {
                Some(c) => Some(c@),
                None => None,
            },
        );
        let fp = face_part(
            match face {
                Some(f) => Some(f@),
                None => None,
            },
        );
        assert(mid =~= start + cp);
        assert(final(out)@ =~= mid + fp);
    }
}

fn td_style_exec(col: &ColMeta, first: bool, bg: Option<&String>, hl: Option<&CellStyle>) -> (r: (
    String,
    String,
))
    requires
        match bg {
            Some(b) => fg_slices_ok(vstd::utf8::encode_utf8(b@)),
            None => true,
        },
    ensures
        (r.0@, r.1@) == td_style(
            *col,
            first,
            match bg {
                Some(b) => Some(b@),
                None => None,
            },
            match hl {
                Some(h) => Some(*h),
                None => None,
            },
        ),
{
    let mut style = String::new();
    if first {
        push_aligned_style(&mut style, TD_BASE_STYLE_FIRST_OF_GROUP, col.align);
        style.push_str(" border-top-width: 2px;");
    } else {
        push_aligned_style(&mut style, TD_BASE_STYLE, col.align);
    }
    let (hl_bg, hl_color, hl_face) = match hl {
        Some(h) => (opt_ref(&h.background), opt_ref(&h.color), opt_ref(&h.face)),
        None => (None, None, None),
    };
    bg_part_exec(&mut style, hl_bg, hl_color.is_some(), bg);
    color_face_exec(&mut style, hl_color, hl_face);
    let attr = bg_attr_exec(hl_bg, bg);
    proof {
        let h = match hl {
            Some(h) => Some(*h),
            None => None,
        };
        assert(match hl_bg {
            Some(x) => Some(x@),
            None => None,
        } == hl_field(h, 0));
        assert(match hl_color {
            Some(x) => Some(x@),
            None => None,
        } == hl_field(h, 1));
        assert(match hl_face {
            Some(x) => Some(x@),
            None => None,
        } == hl_field(h, 2));
    }
    (style, attr)
}

} // verus!

verus! {

fn push_headers(out: &mut String, group: Option<&str>, stub_id: &Option<String>, name: &str)
    ensures
        final(out)@ == old(out)@ + headers_attr(
            match group {
                Some(g) => Some(g@),
                None => None,
            },
            opt_str(*stub_id),
            name@,
        ),
{
    match (group, stub_id) {
        (Some(g), Some(s)) => {
            out.push_str(g);
            out.push_str(" ");
            out.push_str(s);
            out.push_str(" ");
        },
        (Some(g), None) => {
            out.push_str(g);
            out.push_str(" ");
        },
        (None, Some(s)) => {
            out.push_str(s);
            out.push_str(" ");
        },
        (None, None) => {},
    }
    out.push_str(name);
    proof {
        assert(final(out)@ =~= old(out)@ + headers_attr(
            match group {
                Some(g) => Some(g@),
                None => None,
            },
            opt_str(*stub_id),
            name@,
        ));
    }
}

pub open spec fn opt_ref_view(o: Option<&Vec<Option<String>>>) -> Option<Seq<Option<String>>> {
    match o {
        Some(v) => Some(v@),
        None => None,
    }
}

pub open spec fn opt_style_view(o: Option<&Vec<CellStyle>>) -> Option<Seq<CellStyle>> {
    match o {
        Some(v) => Some(v@),
        None => None,
    }
}

pub open spec fn opt_str_ref(o: Option<&str>) -> Option<Seq<char>> {
    match o {
        Some(v) => Some(v@),
        None => None,
    }
}

fn tr_cell_exec(
    value: &String,
    col: &ColMeta,
    i: usize,
    stub_col: Option<usize>,
    stub_id: &Option<String>,
    bg_row: Option<&Vec<Option<String>>>,
    style_row: Option<&Vec<CellStyle>>,
    group_name: Option<&str>,
    first: bool,
    gnum: usize,
) -> (r: String)
    requires
        backgrounds_ok(opt_ref_view(bg_row)),
        opt_str(*stub_id) == stub_row_id(stub_col, gnum as nat),
    ensures
        r@ == tr_cell(
            value@,
            *col,
            i as int,
            stub_col,
            opt_ref_view(bg_row),
            opt_style_view(style_row),
            opt_str_ref(group_name),
            first,
            gnum as nat,
        ),
{
    let align = col.align;
    let mut out = String::new();
    if stub_col == Some(i) {
        out.push_str("<th id=\"");
        out.push_str("stub_1_");
        out.push_str(&u64_to_decimal(gnum as u64));
        out.push_str("\" scope=\"row\" class=\"gt_row ");
        out.push_str(align.gt_class());
        out.push_str(" gt_stub\" style=\"");
        if first {
            push_aligned_style(&mut out, STUB_TH_STYLE_FIRST_OF_GROUP, align);
            out.push_str(" border-top-width: 2px;");
        } else {
            push_aligned_style(&mut out, STUB_TH_STYLE, align);
        }
        out.push_str("\" valign=\"middle\" bgcolor=\"#FFFFFF\" align=\"");
        out.push_str(align_text(align));
        out.push_str("\">");
        out.push_str(&html_escape(value));
        out.push_str("</th>");
        proof {
            reveal(tr_cell);
            assert(out@ =~= tr_cell(
                value@,
                *col,
                i as int,
                stub_col,
                opt_ref_view(bg_row),
                opt_style_view(style_row),
                opt_str_ref(group_name),
                first,
                gnum as nat,
            ));
        }
        out
    } else {
        let bg: Option<&String> = match bg_row {
            Some(r) => if i < r.len() {
                opt_ref(&r[i])
            } else {
                None
            },
            None => None,
        };
        let hl: Option<&CellStyle> = match style_row {
            Some(r) => if i < r.len() {
                Some(&r[i])
            } else {
                None
            },
            None => None,
        };
        proof {
            if let Some(r) = bg_row {
                if i < r@.len() && r@[i as int] is Some {
                    assert(fg_slices_ok(vstd::utf8::encode_utf8(r@[i as int]->0@)));
                }
            }
        }
        let (style, attr) = td_style_exec(col, first, bg, hl);
        proof {
            assert(match bg {
                Some(b) => Some(b@),
                None => None,
            } == bg_at(opt_ref_view(bg_row), i as int));
            assert(match hl {
                Some(h) => Some(*h),
                None => None,
            } == style_at(opt_style_view(style_row), i as int));
        }
        out.push_str("<td headers=\"");
        push_headers(&mut out, group_name, stub_id, &col.name);
        out.push_str("\" class=\"gt_row ");
        out.push_str(align.gt_class());
        out.push_str("\" style=\"");
        out.push_str(&style);
        out.push_str("\"");
        out.push_str(&attr);
        out.push_str(" valign=\"middle\" align=\"");
        out.push_str(align_text(align));
        out.push_str("\">");
        if col.raw_html {
            out.push_str(value);
        } else {
            out.push_str(&html_escape(value));
        }
        out.push_str("</td>");
        proof {
            reveal(tr_cell);
            assert(out@ =~= tr_cell(
                value@,
                *col,
                i as int,
                stub_col,
                opt_ref_view(bg_row),
                opt_style_view(style_row),
                opt_str_ref(group_name),
                first,
                gnum as nat,
            ));
        }
        out
    }
}

/// Render one body row. `bg_row` and `style_row` carry the row's SCALE
/// backgrounds and HIGHLIGHT styles; `global_row_number` numbers the stub
/// ids across groups.
pub fn render_tr(
    row: &Vec<String>,
    columns: &Vec<ColMeta>,
    stub_col: Option<usize>,
    row_idx: usize,
    bg_row: Option<&Vec<Option<String>>>,
    style_row: Option<&Vec<CellStyle>>,
    group_name: Option<&str>,
    is_first_in_group: bool,
    global_row_number: usize,
) -> (r: String)
    requires
        backgrounds_ok(opt_ref_view(bg_row)),
    ensures
        r@ == tr_spec(
            row@,
            columns@,
            stub_col,
            opt_ref_view(bg_row),
            opt_style_view(style_row),
            opt_str_ref(group_name),
            is_first_in_group,
            global_row_number as nat,
        ),
{
    let mut out = String::new();
    out.push_str("    <tr");
    if is_first_in_group {
        out.push_str(" class=\"gt_row_group_first\"");
    }
    out.push_str(" style=\"");
    out.push_str(TR_STYLE);
    out.push_str("\">");
    let stub_id: Option<String> = match stub_col {
        Some(_) => {
            let mut s = String::from_str("stub_1_");
            s.push_str(&u64_to_decimal(global_row_number as u64));
            Some(s)
        },
        None => None,
    };
    let ghost head = out@;
    let n = if row.len() <= columns.len() {
        row.len()
    } else {
        columns.len()
    };
    let mut i: usize = 0;
    while i < n
        invariant
            i <= n,
            n == min_len(row@.len(), columns@.len()),
            backgrounds_ok(opt_ref_view(bg_row)),
            opt_str(stub_id) == stub_row_id(stub_col, global_row_number as nat),
            out@ == head + tr_cells(
                row@,
                columns@,
                stub_col,
                opt_ref_view(bg_row),
                opt_style_view(style_row),
                opt_str_ref(group_name),
                is_first_in_group,
                global_row_number as nat,
                i as nat,
            ),
        decreases n - i,
    {
        let cell = tr_cell_exec(
            &row[i],
            &columns[i],
            i,
            stub_col,
            &stub_id,
            bg_row,
            style_row,
            group_name,
            is_first_in_group,
            global_row_number,
        );
        let ghost before = out@;
        if i > 0 {
            out.push_str("\n");
        }
        out.push_str(&cell);
        proof {
            let sep: Seq<char> = if i == 0 {
                Seq::empty()
            } else {
                "\n"@
            };
            assert(out@ =~= before + sep + cell@);
            assert(out@ =~= head + tr_cells(
                row@,
                columns@,
                stub_col,
                opt_ref_view(bg_row),
                opt_style_view(style_row),
                opt_str_ref(group_name),
                is_first_in_group,
                global_row_number as nat,
                (i + 1) as nat,
            ));
        }
        i += 1;
    }
    out.push_str("</tr>\n");
    proof {
        reveal(tr_spec);
        assert(out@ =~= tr_spec(
            row@,
            columns@,
            stub_col,
            opt_ref_view(bg_row),
            opt_style_view(style_row),
            opt_str_ref(group_name),
            is_first_in_group,
            global_row_number as nat,
        ));
    }
    out
}

} // verus!

verus! {

// ============================================================================
// Summary rows
// ============================================================================

pub open spec fn summary_class(first: bool, last: bool) -> Seq<char> {
    if first && last {
        " gt_first_summary_row thick gt_last_summary_row"@
    } else if first {
        " gt_first_summary_row thick"@
    } else if last {
        " gt_last_summary_row"@
    } else {
        Seq::empty()
    }
}

pub open spec fn summary_stub_base(first: bool, last: bool) -> Seq<char> {
    if first && last {
        SUMMARY_STUB_TH_STYLE_FIRST_LAST@
    } else if first {
        SUMMARY_STUB_TH_STYLE_FIRST@
    } else if last {
        SUMMARY_STUB_TH_STYLE_LAST@
    } else {
        SUMMARY_STUB_TH_STYLE_MIDDLE@
    }
}

pub open spec fn summary_td_base(first: bool, last: bool) -> Seq<char> {
    if first && last {
        SUMMARY_TD_STYLE_FIRST_LAST@
    } else if first {
        SUMMARY_TD_STYLE_FIRST@
    } else if last {
        SUMMARY_TD_STYLE_LAST@
    } else {
        SUMMARY_TD_STYLE_MIDDLE@
    }
}

/// Cell `i` of a summary row: the label in the stub (always left-aligned),
/// else the aggregate's text or an em-dash.
#[verifier::opaque]
pub open spec fn summary_cell_html(
    sr: SummaryRow,
    col: ColMeta,
    i: int,
    stub: Option<usize>,
    sid: Seq<char>,
    group: Seq<char>,
    first: bool,
    last: bool,
) -> Seq<char> {
    if stub == Some(i as usize) {
        "<th id=\""@ + sid + "\" scope=\"row\" class=\"gt_row gt_left gt_stub gt_summary_row"@
            + summary_class(first, last) + "\" style=\""@ + summary_stub_base(first, last)
            + " text-align: left;"@ + first_border(first)
            + "\" valign=\"middle\" bgcolor=\"#FFFFFF\" align=\"left\">"@ + html_escape_spec(
            sr.label@,
        ) + "</th>"@
    } else {
        let value = match sr.cells@[i] {
            Some(v) => v@,
            None => "\u{2014}"@,
        };
        let text = if col.raw_html {
            value
        } else {
            html_escape_spec(value)
        };
        "<td headers=\""@ + group + " "@ + sid + " "@ + col.name@ + "\" class=\"gt_row "@
            + gt_class_spec(col.align) + " gt_summary_row"@ + summary_class(first, last)
            + "\" style=\""@ + aligned_style(summary_td_base(first, last), col.align) + first_border(
            first,
        ) + "\" valign=\"middle\" bgcolor=\"#FFFFFF\" align=\""@ + align_str(col.align) + "\">"@
            + text + "</td>"@
    }
}

pub open spec fn summary_cells_html(
    sr: SummaryRow,
    cols: Seq<ColMeta>,
    stub: Option<usize>,
    sid: Seq<char>,
    group: Seq<char>,
    first: bool,
    last: bool,
    k: nat,
) -> Seq<char>
    decreases k,
{
    if k == 0 {
        Seq::empty()
    } else {
        summary_cells_html(sr, cols, stub, sid, group, first, last, (k - 1) as nat) + (if k == 1 {
            Seq::empty()
        } else {
            "\n"@
        }) + summary_cell_html(sr, cols[k - 1], k - 1, stub, sid, group, first, last)
    }
}

proof fn lemma_summary_cells_step(
    sr: SummaryRow,
    cols: Seq<ColMeta>,
    stub: Option<usize>,
    sid: Seq<char>,
    group: Seq<char>,
    first: bool,
    last: bool,
    k: nat,
)
    ensures
        summary_cells_html(sr, cols, stub, sid, group, first, last, k + 1) == summary_cells_html(
            sr,
            cols,
            stub,
            sid,
            group,
            first,
            last,
            k,
        ) + (if k == 0 {
            Seq::empty()
        } else {
            "\n"@
        }) + summary_cell_html(sr, cols[k as int], k as int, stub, sid, group, first, last),
{
}

/// The stub id of the `idx`-th summary row of a group.
pub open spec fn summary_stub_id(group: Seq<char>, idx: nat) -> Seq<char> {
    "summary_stub_"@ + group + "_"@ + decimal(idx)
}

/// A summary row.
#[verifier::opaque]
pub open spec fn summary_tr_spec(
    sr: SummaryRow,
    cols: Seq<ColMeta>,
    stub: Option<usize>,
    group: Seq<char>,
    idx: nat,
    first: bool,
    last: bool,
) -> Seq<char> {
    "    <tr style=\""@ + TR_STYLE@ + "\">"@ + summary_cells_html(
        sr,
        cols,
        stub,
        summary_stub_id(group, idx),
        group,
        first,
        last,
        min_len(sr.cells@.len(), cols.len()),
    ) + "</tr>\n"@
}

fn summary_class_text(first: bool, last: bool) -> (r: &'static str)
    ensures
        r@ == summary_class(first, last),
{
    if first && last {
        " gt_first_summary_row thick gt_last_summary_row"
    } else if first {
        " gt_first_summary_row thick"
    } else if last {
        " gt_last_summary_row"
    } else {
        proof {
            reveal_strlit("");
        }
        ""
    }
}

fn summary_cell_exec(
    sr: &SummaryRow,
    col: &ColMeta,
    i: usize,
    stub_col: Option<usize>,
    sid: &str,
    group: &str,
    first: bool,
    last: bool,
) -> (r: String)
    requires
        i < sr.cells@.len(),
    ensures
        r@ == summary_cell_html(*sr, *col, i as int, stub_col, sid@, group@, first, last),
{
    let mut out = String::new();
    if stub_col == Some(i) {
        out.push_str("<th id=\"");
        out.push_str(sid);
        out.push_str("\" scope=\"row\" class=\"gt_row gt_left gt_stub gt_summary_row");
        out.push_str(summary_class_text(first, last));
        out.push_str("\" style=\"");
        if first && last {
            out.push_str(SUMMARY_STUB_TH_STYLE_FIRST_LAST);
        } else if first {
            out.push_str(SUMMARY_STUB_TH_STYLE_FIRST);
        } else if last {
            out.push_str(SUMMARY_STUB_TH_STYLE_LAST);
        } else {
            out.push_str(SUMMARY_STUB_TH_STYLE_MIDDLE);
        }
        out.push_str(" text-align: left;");
        if first {
            out.push_str(" border-top-width: 2px;");
        }
        out.push_str("\" valign=\"middle\" bgcolor=\"#FFFFFF\" align=\"left\">");
        out.push_str(&html_escape(&sr.label));
        out.push_str("</th>");
    } else {
        let dash = String::from_str("\u{2014}");
        let value: &str = match &sr.cells[i] {
            Some(v) => v.as_str(),
            None => dash.as_str(),
        };
        out.push_str("<td headers=\"");
        out.push_str(group);
        out.push_str(" ");
        out.push_str(sid);
        out.push_str(" ");
        out.push_str(&col.name);
        out.push_str("\" class=\"gt_row ");
        out.push_str(col.align.gt_class());
        out.push_str(" gt_summary_row");
        out.push_str(summary_class_text(first, last));
        out.push_str("\" style=\"");
        let base = if first && last {
            SUMMARY_TD_STYLE_FIRST_LAST
        } else if first {
            SUMMARY_TD_STYLE_FIRST
        } else if last {
            SUMMARY_TD_STYLE_LAST
        } else {
            SUMMARY_TD_STYLE_MIDDLE
        };
        push_aligned_style(&mut out, base, col.align);
        if first {
            out.push_str(" border-top-width: 2px;");
        }
        out.push_str("\" valign=\"middle\" bgcolor=\"#FFFFFF\" align=\"");
        out.push_str(align_text(col.align));
        out.push_str("\">");
        if col.raw_html {
            out.push_str(value);
        } else {
            out.push_str(&html_escape(value));
        }
        out.push_str("</td>");
    }
    proof {
        reveal(summary_cell_html);
        assert(out@ =~= summary_cell_html(*sr, *col, i as int, stub_col, sid@, group@, first, last));
    }
    out
}

/// Render one summary row of group `group_name`; `summary_idx` counts the
/// group's summary rows from 1.
pub fn render_summary_tr(
    sr: &SummaryRow,
    columns: &Vec<ColMeta>,
    stub_col: Option<usize>,
    group_name: &str,
    summary_idx: usize,
    is_first: bool,
    is_last: bool,
) -> (r: String)
    ensures
        r@ == summary_tr_spec(
            *sr,
            columns@,
            stub_col,
            group_name@,
            summary_idx as nat,
            is_first,
            is_last,
        ),
{
    let mut out = String::new();
    out.push_str("    <tr style=\"");
    out.push_str(TR_STYLE);
    out.push_str("\">");
    let mut sid = String::from_str("summary_stub_");
    sid.push_str(group_name);
    sid.push_str("_");
    sid.push_str(&u64_to_decimal(summary_idx as u64));
    let ghost head = out@;
    let n = if sr.cells.len() <= columns.len() {
        sr.cells.len()
    } else {
        columns.len()
    };
    let mut i: usize = 0;
    while i < n
        invariant
            i <= n,
            n == min_len(sr.cells@.len(), columns@.len()),
            sid@ == summary_stub_id(group_name@, summary_idx as nat),
            out@ == head + summary_cells_html(
                *sr,
                columns@,
                stub_col,
                sid@,
                group_name@,
                is_first,
                is_last,
                i as nat,
            ),
        decreases n - i,
    {
        let cell = summary_cell_exec(
            sr,
            &columns[i],
            i,
            stub_col,
            &sid,
            group_name,
            is_first,
            is_last,
        );
        let ghost before = out@;
        if i > 0 {
            out.push_str("\n");
        }
        out.push_str(&cell);
        proof {
            lemma_summary_cells_step(
                *sr,
                columns@,
                stub_col,
                sid@,
                group_name@,
                is_first,
                is_last,
                i as nat,
            );
            let sep: Seq<char> = if i == 0 {
                Seq::empty()
            } else {
                "\n"@
            };
            assert(out@ =~= before + sep + cell@);
        }
        i += 1;
    }
    out.push_str("</tr>\n");
    proof {
        reveal(summary_tr_spec);
        assert(out@ =~= summary_tr_spec(
            *sr,
            columns@,
            stub_col,
            group_name@,
            summary_idx as nat,
            is_first,
            is_last,
        ));
    }
    out
}

} // verus!

verus! {

// ============================================================================
// Table pieces
// ============================================================================

/// The `<colgroup>` entries: one `<col>` per column, with its width when
/// it has one.
pub open spec fn colgroup_cols(cols: Seq<ColMeta>) -> Seq<char>
    decreases cols.len(),
{
    if cols.len() == 0 {
        Seq::empty()
    } else {
        colgroup_cols(cols.drop_last()) + match cols.last().width {
            Some(w) => "    <col style=\"width:"@ + w@ + ";\">\n"@,
            None => "    <col>\n"@,
        }
    }
}

/// Some column has an explicit width.
pub open spec fn has_widths(cols: Seq<ColMeta>) -> bool {
    exists|i: int| 0 <= i < cols.len() && (#[trigger] cols[i]).width is Some
}

fn render_colgroup(out: &mut String, cols: &Vec<ColMeta>)
    ensures
        final(out)@ == old(out)@ + colgroup_cols(cols@),
{
    let ghost start = out@;
    let mut i: usize = 0;
    proof {
        assert(cols@.take(0) =~= Seq::<ColMeta>::empty());
        assert(out@ =~= start + colgroup_cols(cols@.take(0)));
    }
    while i < cols.len()
        invariant
            i <= cols@.len(),
            out@ == start + colgroup_cols(cols@.take(i as int)),
        decreases cols.len() - i,
    {
        proof {
            let t = cols@.take(i + 1);
            assert(t.drop_last() =~= cols@.take(i as int));
            assert(t.last() == cols@[i as int]);
        }
        match &cols[i].width {
            Some(w) => {
                out.push_str("    <col style=\"width:");
                out.push_str(w);
                out.push_str(";\">\n");
            },
            None => out.push_str("    <col>\n"),
        }
        proof {
            assert(out@ =~= start + colgroup_cols(cols@.take(i + 1)));
        }
        i += 1;
    }
    proof {
        assert(cols@.take(i as int) =~= cols@);
    }
}

fn any_width(cols: &Vec<ColMeta>) -> (r: bool)
    ensures
        r == has_widths(cols@),
{
    let mut i: usize = 0;
    while i < cols.len()
        invariant
            i <= cols@.len(),
            forall|q: int| 0 <= q < i ==> (#[trigger] cols@[q]).width is None,
        decreases cols.len() - i,
    {
        if cols[i].width.is_some() {
            return true;
        }
        i += 1;
    }
    false
}

/// The title row: it carries the bottom border when no subtitle follows.
pub open spec fn title_html(title: Option<String>, subtitle: Option<String>, ncols: nat) -> Seq<char> {
    match title {
        Some(t) => {
            let td_style = if subtitle is Some {
                TITLE_TD_STYLE@
            } else {
                TITLE_ONLY_TD_STYLE@
            };
            let cls = if subtitle is Some {
                "gt_heading gt_title gt_font_normal"@
            } else {
                "gt_heading gt_title gt_font_normal gt_bottom_border"@
            };
            "    <tr class=\"gt_heading\" style=\""@ + HEADING_TR_STYLE@
                + "\" bgcolor=\"#FFFFFF\" align=\"center\">\n      <td colspan=\""@ + decimal(ncols)
                + "\" class=\""@ + cls + "\" style=\""@ + td_style
                + "\" bgcolor=\"#FFFFFF\" align=\"center\">"@ + html_escape_spec(t@)
                + "</td>\n    </tr>\n"@
        },
        None => Seq::empty(),
    }
}

pub open spec fn subtitle_html(subtitle: Option<String>, ncols: nat) -> Seq<char> {
    match subtitle {
        Some(s) => "    <tr class=\"gt_heading\" style=\""@ + HEADING_TR_STYLE@
            + "\" bgcolor=\"#FFFFFF\" align=\"center\">\n      <td colspan=\""@ + decimal(ncols)
            + "\" class=\"gt_heading gt_subtitle gt_font_normal gt_bottom_border\" style=\""@
            + SUBTITLE_TD_STYLE@ + "\" bgcolor=\"#FFFFFF\" align=\"center\">"@ + html_escape_spec(s@)
            + "</td>\n    </tr>\n"@,
        None => Seq::empty(),
    }
}

/// The source note, in a `<tfoot>`.
pub open spec fn caption_html(caption: Option<String>, ncols: nat) -> Seq<char> {
    match caption {
        Some(c) => "  <tfoot style=\""@ + TFOOT_STYLE@
            + "\">\n    <tr class=\"gt_sourcenotes\" style=\""@ + SOURCENOTES_TR_STYLE@
            + "\" bgcolor=\"#FFFFFF\">\n      <td class=\"gt_sourcenote\" colspan=\""@ + decimal(
            ncols,
        ) + "\" style=\""@ + SOURCENOTE_TD_STYLE@ + "\">"@ + html_escape_spec(c@)
            + "</td>\n    </tr>\n  </tfoot>\n"@,
        None => Seq::empty(),
    }
}

fn render_title(out: &mut String, title: &Option<String>, subtitle: &Option<String>, ncols: usize)
    ensures
        final(out)@ == old(out)@ + title_html(*title, *subtitle, ncols as nat),
{
    let ghost start = out@;
    if let Some(t) = title {
        out.push_str("    <tr class=\"gt_heading\" style=\"");
        out.push_str(HEADING_TR_STYLE);
        out.push_str("\" bgcolor=\"#FFFFFF\" align=\"center\">\n      <td colspan=\"");
        out.push_str(&u64_to_decimal(ncols as u64));
        out.push_str("\" class=\"");
        if subtitle.is_some() {
            out.push_str("gt_heading gt_title gt_font_normal");
        } else {
            out.push_str("gt_heading gt_title gt_font_normal gt_bottom_border");
        }
        out.push_str("\" style=\"");
        if subtitle.is_some() {
            out.push_str(TITLE_TD_STYLE);
        } else {
            out.push_str(TITLE_ONLY_TD_STYLE);
        }
        out.push_str("\" bgcolor=\"#FFFFFF\" align=\"center\">");
        out.push_str(&html_escape(t));
        out.push_str("</td>\n    </tr>\n");
    }
    proof {
        assert(out@ =~= start + title_html(*title, *subtitle, ncols as nat));
    }
}

fn render_subtitle(out: &mut String, subtitle: &Option<String>, ncols: usize)
    ensures
        final(out)@ == old(out)@ + subtitle_html(*subtitle, ncols as nat),
{
    let ghost start = out@;
    if let Some(s) = subtitle {
        out.push_str("    <tr class=\"gt_heading\" style=\"");
        out.push_str(HEADING_TR_STYLE);
        out.push_str("\" bgcolor=\"#FFFFFF\" align=\"center\">\n      <td colspan=\"");
        out.push_str(&u64_to_decimal(ncols as u64));
        out.push_str("\" class=\"gt_heading gt_subtitle gt_font_normal gt_bottom_border\" style=\"");
        out.push_str(SUBTITLE_TD_STYLE);
        out.push_str("\" bgcolor=\"#FFFFFF\" align=\"center\">");
        out.push_str(&html_escape(s));
        out.push_str("</td>\n    </tr>\n");
    }
    proof {
        assert(out@ =~= start + subtitle_html(*subtitle, ncols as nat));
    }
}

fn render_caption(out: &mut String, caption: &Option<String>, ncols: usize)
    ensures
        final(out)@ == old(out)@ + caption_html(*caption, ncols as nat),
{
    let ghost start = out@;
    if let Some(c) = caption {
        out.push_str("  <tfoot style=\"");
        out.push_str(TFOOT_STYLE);
        out.push_str("\">\n    <tr class=\"gt_sourcenotes\" style=\"");
        out.push_str(SOURCENOTES_TR_STYLE);
        out.push_str("\" bgcolor=\"#FFFFFF\">\n      <td class=\"gt_sourcenote\" colspan=\"");
        out.push_str(&u64_to_decimal(ncols as u64));
        out.push_str("\" style=\"");
        out.push_str(SOURCENOTE_TD_STYLE);
        out.push_str("\">");
        out.push_str(&html_escape(c));
        out.push_str("</td>\n    </tr>\n  </tfoot>\n");
    }
    proof {
        assert(out@ =~= start + caption_html(*caption, ncols as nat));
    }
}

} // verus!

verus! {

// ============================================================================
// The body
// ============================================================================

pub open spec fn bg_row_of(t: TableIr, r: int) -> Option<Seq<Option<String>>> {
    if 0 <= r < t.cell_bg@.len() {
        Some(t.cell_bg@[r]@)
    } else {
        None
    }
}

pub open spec fn style_row_of(t: TableIr, r: int) -> Option<Seq<CellStyle>> {
    if 0 <= r < t.cell_style@.len() {
        Some(t.cell_style@[r]@)
    } else {
        None
    }
}

/// The first `k` rows of an ungrouped body, numbered from 1.
pub open spec fn flat_rows(t: TableIr, k: nat) -> Seq<char>
    decreases k,
{
    if k == 0 {
        Seq::empty()
    } else {
        flat_rows(t, (k - 1) as nat) + tr_spec(
            t.rows@[k - 1]@,
            t.columns@,
            t.stub_col,
            bg_row_of(t, k - 1),
            style_row_of(t, k - 1),
            None,
            false,
            k,
        )
    }
}

/// A group's summary rows go before its body rows when its side is `top`
/// (ASCII-case-insensitively).
pub open spec fn is_top(g: RowGroup) -> bool {
    lower_seq(g.summary_side@) == lower_seq("top"@)
}

/// The first `k` summary rows of group `g`.
pub open spec fn group_summaries(t: TableIr, g: RowGroup, k: nat) -> Seq<char>
    decreases k,
{
    if k == 0 {
        Seq::empty()
    } else {
        group_summaries(t, g, (k - 1) as nat) + summary_tr_spec(
            g.summary_rows@[k - 1],
            t.columns@,
            t.stub_col,
            g.name@,
            k,
            k == 1,
            k == g.summary_rows@.len(),
        )
    }
}

/// The first `k` body rows of group `g`, numbered on from `start`.
pub open spec fn group_body(t: TableIr, g: RowGroup, start: nat, k: nat) -> Seq<char>
    decreases k,
{
    if k == 0 {
        Seq::empty()
    } else {
        let ri = g.row_indices@[k - 1] as int;
        group_body(t, g, start, (k - 1) as nat) + tr_spec(
            t.rows@[ri]@,
            t.columns@,
            t.stub_col,
            bg_row_of(t, ri),
            style_row_of(t, ri),
            Some(g.name@),
            k == 1,
            start + k,
        )
    }
}

pub open spec fn group_heading(g: RowGroup, ncols: nat) -> Seq<char> {
    "    <tr class=\"gt_group_heading_row\" style=\""@ + TR_STYLE@
        + "\">\n      <th colspan=\""@ + decimal(ncols)
        + "\" class=\"gt_group_heading\" scope=\"colgroup\" id=\""@ + g.name@ + "\" style=\""@
        + GROUP_HEADING_TH_STYLE@ + "\" bgcolor=\"#FFFFFF\" valign=\"middle\" align=\"left\">"@
        + html_escape_spec(g.name@) + "</th>\n    </tr>\n"@
}

/// A group: its heading, then its body rows with its summary rows before
/// or after them.
#[verifier::opaque]
pub open spec fn group_html(t: TableIr, g: RowGroup, start: nat) -> Seq<char> {
    let sums = group_summaries(t, g, g.summary_rows@.len());
    group_heading(g, t.columns@.len()) + (if is_top(g) {
        sums
    } else {
        Seq::empty()
    }) + group_body(t, g, start, g.row_indices@.len()) + (if is_top(g) {
        Seq::empty()
    } else {
        sums
    })
}

/// Body rows in the first `k` groups.
pub open spec fn rows_before(gs: Seq<RowGroup>, k: nat) -> nat
    decreases k,
{
    if k == 0 {
        0
    } else {
        rows_before(gs, (k - 1) as nat) + gs[k - 1].row_indices@.len()
    }
}

/// The first `k` groups.
pub open spec fn groups_html(t: TableIr, k: nat) -> Seq<char>
    decreases k,
{
    if k == 0 {
        Seq::empty()
    } else {
        groups_html(t, (k - 1) as nat) + group_html(
            t,
            t.groups@[k - 1],
            rows_before(t.groups@, (k - 1) as nat),
        )
    }
}

/// The `<tbody>` rows: in order without FACET groups, group by group with.
pub open spec fn body_html(t: TableIr) -> Seq<char> {
    if t.groups@.len() == 0 {
        flat_rows(t, t.rows@.len())
    } else {
        groups_html(t, t.groups@.len())
    }
}

/// What rendering needs of a table: a header forest over its columns,
/// group rows that exist, readable SCALE backgrounds, and row numbers that
/// fit a `usize`.
pub open spec fn table_ok(t: TableIr) -> bool {
    &&& forest_ok(t.header_forest@, t.columns@.len())
    &&& forall|g: int, j: int|
        0 <= g < t.groups@.len() && 0 <= j < t.groups@[g].row_indices@.len() ==> (#[trigger] t.groups@[g].row_indices@[j])
            < t.rows@.len()
    &&& forall|r: int| 0 <= r < t.cell_bg@.len() ==> backgrounds_ok(Some((#[trigger] t.cell_bg@[r])@))
    &&& rows_before(t.groups@, t.groups@.len()) <= usize::MAX
}

fn bg_row_exec(t: &TableIr, r: usize) -> (o: Option<&Vec<Option<String>>>)
    ensures
        opt_ref_view(o) == bg_row_of(*t, r as int),
{
    if r < t.cell_bg.len() {
        Some(&t.cell_bg[r])
    } else {
        None
    }
}

fn style_row_exec(t: &TableIr, r: usize) -> (o: Option<&Vec<CellStyle>>)
    ensures
        opt_style_view(o) == style_row_of(*t, r as int),
{
    if r < t.cell_style.len() {
        Some(&t.cell_style[r])
    } else {
        None
    }
}

proof fn lemma_rows_before_mono(gs: Seq<RowGroup>, a: nat, b: nat)
    requires
        a <= b <= gs.len(),
    ensures
        rows_before(gs, a) <= rows_before(gs, b),
    decreases b - a,
{
    if a < b {
        lemma_rows_before_mono(gs, a, (b - 1) as nat);
    }
}

fn render_group(out: &mut String, t: &TableIr, gi: usize, start: usize)
    requires
        table_ok(*t),
        gi < t.groups@.len(),
        start == rows_before(t.groups@, gi as nat),
    ensures
        final(out)@ == old(out)@ + group_html(*t, t.groups@[gi as int], start as nat),
{
    let g = &t.groups[gi];
    let ncols = t.columns.len();
    proof {
        lemma_rows_before_mono(t.groups@, (gi + 1) as nat, t.groups@.len());
        assert(rows_before(t.groups@, (gi + 1) as nat) == start + g.row_indices@.len());
    }
    let ghost start_out = out@;
    out.push_str("    <tr class=\"gt_group_heading_row\" style=\"");
    out.push_str(TR_STYLE);
    out.push_str("\">\n      <th colspan=\"");
    out.push_str(&u64_to_decimal(ncols as u64));
    out.push_str("\" class=\"gt_group_heading\" scope=\"colgroup\" id=\"");
    out.push_str(&g.name);
    out.push_str("\" style=\"");
    out.push_str(GROUP_HEADING_TH_STYLE);
    out.push_str("\" bgcolor=\"#FFFFFF\" valign=\"middle\" align=\"left\">");
    out.push_str(&html_escape(&g.name));
    out.push_str("</th>\n    </tr>\n");
    proof {
        assert(out@ =~= start_out + group_heading(*g, ncols as nat));
    }
    let top = crate::text::eq_ignore_ascii_case(&g.summary_side, "top");
    let mut sums = String::new();
    let ns = g.summary_rows.len();
    let mut n: usize = 0;
    while n < ns
        invariant
            n <= ns,
            ns == g.summary_rows@.len(),
            *g == t.groups@[gi as int],
            sums@ == group_summaries(*t, *g, n as nat),
        decreases ns - n,
    {
        let line = render_summary_tr(
            &g.summary_rows[n],
            &t.columns,
            t.stub_col,
            &g.name,
            n + 1,
            n == 0,
            n + 1 == ns,
        );
        sums.push_str(&line);
        n += 1;
    }
    if top {
        out.push_str(&sums);
    }
    let ghost mid = out@;
    let nr = g.row_indices.len();
    let mut j: usize = 0;
    while j < nr
        invariant
            j <= nr,
            nr == g.row_indices@.len(),
            *g == t.groups@[gi as int],
            table_ok(*t),
            gi < t.groups@.len(),
            start + nr <= usize::MAX,
            out@ == mid + group_body(*t, *g, start as nat, j as nat),
        decreases nr - j,
    {
        let row_idx = g.row_indices[j];
        proof {
            assert(t.groups@[gi as int].row_indices@[j as int] < t.rows@.len());
        }
        let bg = bg_row_exec(t, row_idx);
        proof {
            if row_idx < t.cell_bg@.len() {
                assert(backgrounds_ok(Some(t.cell_bg@[row_idx as int]@)));
            }
        }
        let line = render_tr(
            &t.rows[row_idx],
            &t.columns,
            t.stub_col,
            row_idx,
            bg,
            style_row_exec(t, row_idx),
            Some(g.name.as_str()),
            j == 0,
            start + j + 1,
        );
        out.push_str(&line);
        j += 1;
    }
    if !top {
        out.push_str(&sums);
    }
    proof {
        reveal(group_html);
        assert(out@ =~= start_out + group_html(*t, *g, start as nat));
    }
}

} // verus!

verus! {

// ============================================================================
// The stylesheet
// ============================================================================

/// `[i, j)` is a line of `s`: it starts the text or follows a newline, it
/// ends the text or a newline follows, and it holds none.
pub open spec fn line_span(s: Seq<char>, i: int, j: int) -> bool {
    &&& 0 <= i <= j <= s.len()
    &&& (i == 0 || s[i - 1] == '\n')
    &&& (j == s.len() || s[j] == '\n')
    &&& forall|k: int| i <= k < j ==> s[k] != '\n'
}

/// A trimmed line that holds a rule: not blank, and no comment (`/*`, `*`,
/// `//`).
pub open spec fn rule_line(t: Seq<char>) -> bool {
    &&& t.len() > 0
    &&& t[0] != '*'
    &&& !(t.len() >= 2 && t[0] == '/' && (t[1] == '*' || t[1] == '/'))
}

pub open spec fn has_rule_line(s: Seq<char>) -> bool {
    exists|i: int, j: int| line_span(s, i, j) && #[trigger] rule_line(trim_spec(s.subrange(i, j)))
}

/// The `<style>` element: the trimmed sheet when some line of it holds a
/// rule, nothing otherwise.
pub open spec fn css_block(css: Seq<char>) -> Seq<char> {
    let t = trim_spec(css);
    if has_rule_line(t) {
        "<style>"@ + t + "</style>\n  "@
    } else {
        Seq::empty()
    }
}

fn rule_line_exec(t: &str) -> (r: bool)
    ensures
        r == rule_line(t@),
{
    let v = crate::text::chars_of(t);
    if v.len() == 0 || v[0] == '*' {
        return false;
    }
    !(v.len() >= 2 && v[0] == '/' && (v[1] == '*' || v[1] == '/'))
}

proof fn lemma_span_start(s: Seq<char>, start: int, k: int, i: int, j: int)
    requires
        0 <= start <= k <= s.len(),
        start == 0 || s[start - 1] == '\n',
        forall|q: int| start <= q < k ==> s[q] != '\n',
        line_span(s, i, j),
        start <= j <= k,
    ensures
        i == start,
{
    if i < start {
        assert(s[start - 1] != '\n');
    } else if i > start {
        assert(s[i - 1] != '\n');
    }
}

fn has_rule_line_exec(s: &str) -> (r: bool)
    ensures
        r == has_rule_line(s@),
{
    let v = crate::text::chars_of(s);
    let n = v.len();
    let mut start: usize = 0;
    let mut k: usize = 0;
    while k < n
        invariant
            start <= k <= n,
            n == v@.len(),
            v@ == s@,
            start == 0 || v@[start - 1] == '\n',
            forall|q: int| start <= q < k ==> v@[q] != '\n',
            forall|i: int, j: int|
                line_span(v@, i, j) && j < start ==> !#[trigger] rule_line(trim_spec(v@.subrange(i, j))),
        decreases n - k,
    {
        if v[k] == '\n' {
            let line = crate::text::string_of(&v, start, k);
            let t = crate::text::trim(&line);
            if rule_line_exec(&t) {
                proof {
                    assert(line_span(v@, start as int, k as int));
                }
                return true;
            }
            proof {
                assert forall|i: int, j: int|
                    line_span(v@, i, j) && j < k + 1 implies !#[trigger] rule_line(
                    trim_spec(v@.subrange(i, j)),
                ) by {
                    if j >= start {
                        if j < k {
                            assert(v@[j] != '\n');
                        }
                        lemma_span_start(v@, start as int, k as int, i, j);
                    }
                }
            }
            start = k + 1;
        }
        k += 1;
    }
    let line = crate::text::string_of(&v, start, n);
    let t = crate::text::trim(&line);
    let found = rule_line_exec(&t);
    proof {
        if found {
            assert(line_span(v@, start as int, n as int));
        } else {
            assert forall|i: int, j: int| line_span(v@, i, j) implies !#[trigger] rule_line(
                trim_spec(v@.subrange(i, j)),
            ) by {
                if j >= start {
                    if j < n {
                        assert(v@[j] != '\n');
                    }
                    lemma_span_start(v@, start as int, n as int, i, j);
                }
            }
        }
    }
    found
}

/// The `<style>` element for a stylesheet.
pub fn render_css(css: &str) -> (r: String)
    ensures
        r@ == css_block(css@),
{
    let t = crate::text::trim(css);
    if has_rule_line_exec(&t) {
        let mut out = String::from_str("<style>");
        out.push_str(&t);
        out.push_str("</style>\n  ");
        out
    } else {
        String::new()
    }
}

} // verus!

verus! {

// ============================================================================
// The table
// ============================================================================

/// The whole table, as gt prints it, under the element id `id` with the
/// stylesheet `css`.
pub open spec fn render_spec(t: TableIr, id: Seq<char>, css: Seq<char>) -> Seq<char> {
    "<div id=\""@ + id + render_tail(t, css)
}

/// What follows the element id.
pub open spec fn render_tail(t: TableIr, css: Seq<char>) -> Seq<char> {
    let ncols = t.columns@.len();
    let widths = has_widths(t.columns@);
    "\" style=\""@ + DIV_STYLE@ + "\">\n  \n  "@ + css_block(css)
        + "<table class=\"gt_table\" data-quarto-disable-processing=\"false\" data-quarto-bootstrap=\"false\" style=\""@
        + (if widths {
        TABLE_STYLE_FIXED@
    } else {
        TABLE_STYLE@
    }) + "\""@ + (if widths {
        " width=\"0\""@
    } else {
        Seq::empty()
    }) + " bgcolor=\"#FFFFFF\">\n"@ + (if widths {
        "  <colgroup>\n"@ + colgroup_cols(t.columns@) + "  </colgroup>\n"@
    } else {
        Seq::empty()
    }) + "  <thead style=\""@ + THEAD_STYLE@ + "\">\n"@ + title_html(t.title, t.subtitle, ncols)
        + subtitle_html(t.subtitle, ncols) + header_spec(t.header_forest@, t.columns@, t.stub_col)
        + "  </thead>\n"@ + "  <tbody class=\"gt_table_body\" style=\""@ + TBODY_STYLE@ + "\">\n"@
        + body_html(t) + "  </tbody>\n"@ + caption_html(t.caption, ncols) + "  </table></div>"@
}

fn render_body(out: &mut String, t: &TableIr)
    requires
        table_ok(*t),
    ensures
        final(out)@ == old(out)@ + body_html(*t),
{
    let ghost start = out@;
    if t.groups.len() == 0 {
        let mut r: usize = 0;
        while r < t.rows.len()
            invariant
                r <= t.rows@.len(),
                t.groups@.len() == 0,
                table_ok(*t),
                out@ == start + flat_rows(*t, r as nat),
            decreases t.rows.len() - r,
        {
            let bg = bg_row_exec(t, r);
            proof {
                if r < t.cell_bg@.len() {
                    assert(backgrounds_ok(Some(t.cell_bg@[r as int]@)));
                }
            }
            let line = render_tr(
                &t.rows[r],
                &t.columns,
                t.stub_col,
                r,
                bg,
                style_row_exec(t, r),
                None,
                false,
                r + 1,
            );
            out.push_str(&line);
            r += 1;
        }
    } else {
        let mut g: usize = 0;
        let mut global_row: usize = 0;
        while g < t.groups.len()
            invariant
                g <= t.groups@.len(),
                table_ok(*t),
                global_row == rows_before(t.groups@, g as nat),
                out@ == start + groups_html(*t, g as nat),
            decreases t.groups.len() - g,
        {
            proof {
                lemma_rows_before_mono(t.groups@, (g + 1) as nat, t.groups@.len());
            }
            render_group(out, t, g, global_row);
            global_row = global_row + t.groups[g].row_indices.len();
            g += 1;
        }
    }
}

/// Render the table as gt-compatible HTML under the element id `id`, with
/// the stylesheet `css`.
pub fn render_with(table: &TableIr, id: &str, css: &str) -> (r: String)
    requires
        table_ok(*table),
    ensures
        r@ == render_spec(*table, id@, css@),
{
    let mut out = String::from_str("<div id=\"");
    out.push_str(id);
    out.push_str(&render_after_id(table, css));
    proof {
        assert(out@ =~= render_spec(*table, id@, css@));
    }
    out
}

fn render_after_id(table: &TableIr, css: &str) -> (r: String)
    requires
        table_ok(*table),
    ensures
        r@ == render_tail(*table, css@),
{
    let widths = any_width(&table.columns);
    let ncols = table.columns.len();
    let mut out = String::from_str("\" style=\"");
    out.push_str(DIV_STYLE);
    out.push_str("\">\n  \n  ");
    out.push_str(&render_css(css));
    out.push_str(
        "<table class=\"gt_table\" data-quarto-disable-processing=\"false\" data-quarto-bootstrap=\"false\" style=\"",
    );
    if widths {
        out.push_str(TABLE_STYLE_FIXED);
    } else {
        out.push_str(TABLE_STYLE);
    }
    out.push_str("\"");
    if widths {
        out.push_str(" width=\"0\"");
    }
    out.push_str(" bgcolor=\"#FFFFFF\">\n");
    if widths {
        out.push_str("  <colgroup>\n");
        render_colgroup(&mut out, &table.columns);
        out.push_str("  </colgroup>\n");
    }
    out.push_str("  <thead style=\"");
    out.push_str(THEAD_STYLE);
    out.push_str("\">\n");
    let ghost a = out@;
    render_title(&mut out, &table.title, &table.subtitle, ncols);
    render_subtitle(&mut out, &table.subtitle, ncols);
    out.push_str(&render_header(table));
    out.push_str("  </thead>\n");
    out.push_str("  <tbody class=\"gt_table_body\" style=\"");
    out.push_str(TBODY_STYLE);
    out.push_str("\">\n");
    let ghost b = out@;
    render_body(&mut out, table);
    out.push_str("  </tbody>\n");
    render_caption(&mut out, &table.caption, ncols);
    out.push_str("  </table></div>");
    proof {
        assert(out@ =~= render_tail(*table, css@));
    }
    out
}

/// The text of a fresh random (version 4) UUID.
///
/// Trusted: calls `uuid::Uuid::new_v4` and its `Display`, which the crate
/// documents as the hyphenated lowercase form: 36 characters, hyphens at
/// 8, 13, 18 and 23, lowercase hex digits elsewhere. Which UUID comes back
/// is left open.
#[verifier::external_body]
fn new_uuid_text() -> (r: String)
    ensures
        uuid_text(r@),
{
    uuid::Uuid::new_v4().to_string()
}

pub open spec fn is_lower_hex(c: char) -> bool {
    ('0' <= c <= '9') || ('a' <= c <= 'f')
}

/// The hyphenated lowercase text of a UUID.
pub open spec fn uuid_text(s: Seq<char>) -> bool {
    &&& s.len() == 36
    &&& forall|i: int|
        0 <= i < 36 ==> if i == 8 || i == 13 || i == 18 || i == 23 {
            #[trigger] s[i] == '-'
        } else {
            is_lower_hex(s[i])
        }
}

/// An element id: the first ten hex digits of a random UUID.
pub fn generate_id() -> (r: String)
    ensures
        r@.len() == 10,
        forall|i: int| 0 <= i < 10 ==> is_lower_hex(#[trigger] r@[i]),
{
    let u = new_uuid_text();
    let v = crate::text::chars_of(&u);
    let mut out = String::new();
    let mut taken: usize = 0;
    let mut i: usize = 0;
    while i < v.len() && taken < 10
        invariant
            i <= v@.len(),
            v@.len() == 36,
            uuid_text(v@),
            taken == out@.len(),
            taken <= 10,
            forall|q: int| 0 <= q < out@.len() ==> is_lower_hex(#[trigger] out@[q]),
            i <= 11,
            i <= 8 ==> taken == i,
            8 < i ==> taken == i - 1,
        decreases v.len() - i,
    {
        if v[i] != '-' {
            proof {
                assert(is_lower_hex(v@[i as int]) || v@[i as int] == '-');
            }
            out.push(v[i]);
            taken += 1;
        } else {
            proof {
                assert(i == 8 || i == 13 || i == 18 || i == 23);
            }
        }
        i += 1;
    }
    out
}

/// Render the table as gt-compatible HTML under a fresh random element id.
pub fn render(table: &TableIr) -> (r: String)
    requires
        table_ok(*table),
    ensures
        exists|id: Seq<char>|
            id.len() == 10 && (forall|i: int| 0 <= i < 10 ==> is_lower_hex(#[trigger] id[i])) && r@
                == render_spec(*table, id, GT_DEFAULT_CSS@),
{
    let id = generate_id();
    render_with(table, &id, GT_DEFAULT_CSS)
}

} // verus!

verus! {

// ============================================================================
// Laws
// ============================================================================

/// Two renderings of one table differ only in the element id: each is
/// `<div id="`, the id, then one and the same text.
pub proof fn law_renders_differ_only_in_id(t: TableIr, first: Seq<char>, second: Seq<char>, css: Seq<char>)
    ensures
        render_spec(t, first, css) == "<div id=\""@ + first + render_tail(t, css),
        render_spec(t, second, css) == "<div id=\""@ + second + render_tail(t, css),
        first.len() == second.len() ==> render_spec(t, first, css).len() == render_spec(
            t,
            second,
            css,
        ).len(),
        render_spec(t, first, css).skip(9 + first.len() as int) == render_spec(t, second, css).skip(
            9 + second.len() as int,
        ),
{
    reveal_strlit("<div id=\"");
    let p = "<div id=\""@;
    assert(p.len() == 9);
    assert(render_spec(t, first, css).skip(9 + first.len() as int) =~= render_tail(t, css));
    assert(render_spec(t, second, css).skip(9 + second.len() as int) =~= render_tail(t, css));
}

/// Escaped text holds no `<` or `>`: whatever a label, title or cell says,
/// it cannot open or close a tag.
pub proof fn law_escaped_text_has_no_markup(s: Seq<char>)
    ensures
        forall|i: int|
            0 <= i < html_escape_spec(s).len() ==> #[trigger] html_escape_spec(s)[i] != '<'
                && html_escape_spec(s)[i] != '>',
    decreases s.len(),
{
    reveal_strlit("&amp;");
    reveal_strlit("&lt;");
    reveal_strlit("&gt;");
    if s.len() > 0 {
        law_escaped_text_has_no_markup(s.drop_last());
        let p = html_escape_spec(s.drop_last());
        let e = escape_char(s.last());
        assert forall|i: int| 0 <= i < html_escape_spec(s).len() implies #[trigger] html_escape_spec(
            s,
        )[i] != '<' && html_escape_spec(s)[i] != '>' by {
            if i < p.len() {
                assert(html_escape_spec(s)[i] == p[i]);
            } else {
                assert(html_escape_spec(s)[i] == e[i - p.len()]);
            }
        }
    }
}

/// Text without `&`, `<` and `>` is left as it is.
pub proof fn law_plain_text_unchanged(s: Seq<char>)
    requires
        forall|i: int| 0 <= i < s.len() ==> #[trigger] s[i] != '&' && s[i] != '<' && s[i] != '>',
    ensures
        html_escape_spec(s) == s,
    decreases s.len(),
{
    if s.len() > 0 {
        law_plain_text_unchanged(s.drop_last());
        assert(s.drop_last().push(s.last()) =~= s);
        assert(escape_char(s.last()) == seq![s.last()]);
        assert(html_escape_spec(s.drop_last()) + seq![s.last()] =~= s.drop_last().push(s.last()));
    }
}

/// The alignment written in a cell's `text-align` and `align=` is the
/// name its `gt_<name>` class carries, and different alignments are
/// written differently.
pub proof fn law_align_names(a: ColAlign, b: ColAlign)
    ensures
        gt_class_spec(a) == "gt_"@ + align_str(a),
        a != b ==> align_str(a) != align_str(b),
{
    reveal_strlit("gt_");
    reveal_strlit("gt_left");
    reveal_strlit("gt_right");
    reveal_strlit("gt_center");
    reveal_strlit("left");
    reveal_strlit("right");
    reveal_strlit("center");
    assert(gt_class_spec(a) =~= "gt_"@ + align_str(a));
    if a != b {
        assert(align_str(a).len() != align_str(b).len());
    }
}

} // verus!
