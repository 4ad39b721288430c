//! Colour helpers for `SCALE` and `HIGHLIGHT`: CSS colour parsing into gt's
//! uppercase `#RRGGBB` form and gt's contrasting-foreground rule.

use crate::text::{ascii_lower_char, ascii_text, is_whitespace, lower_char, lower_seq, str_eq, trim, trim_spec, white_space};
use vstd::prelude::*;
use vstd::string::StringSliceAdditionalSpecFns;

verus! {

/// Out-of-domain / NA fill colour, matching `scales::col_numeric`'s default.
pub const NA_COLOR: &'static str = "#808080";

// ---------------------------------------------------------------------------
// Foreground choice
// ---------------------------------------------------------------------------

pub open spec fn hex_digit_value(b: u8) -> Option<nat> {
    if 48 <= b <= 57 {
        Some((b - 48) as nat)
    } else if 65 <= b <= 70 {
        Some((b - 55) as nat)
    } else if 97 <= b <= 102 {
        Some((b - 87) as nat)
    } else {
        None
    }
}

/// `u32::from_str_radix(s, 16).unwrap_or(0)` for a two-byte `s`: an optional
/// leading `+` followed by hexadecimal digits, else 0.
pub open spec fn hex_pair_or_zero(b0: u8, b1: u8) -> nat {
    if b0 == 43 {
        match hex_digit_value(b1) {
            Some(v) => v,
            None => 0,
        }
    } else {
        match (hex_digit_value(b0), hex_digit_value(b1)) {
            (Some(a), Some(b)) => a * 16 + b,
            _ => 0,
        }
    }
}

/// The bytes left after removing every leading `#`.
pub open spec fn strip_hashes(b: Seq<u8>) -> Seq<u8>
    decreases b.len(),
{
    if b.len() > 0 && b[0] == 35 {
        strip_hashes(b.drop_first())
    } else {
        b
    }
}

/// Byte offset `i` of `b` starts a character (or is the end).
pub open spec fn byte_boundary(b: Seq<u8>, i: int) -> bool {
    i == b.len() || (0 <= i < b.len() && !(128 <= b[i] < 192))
}

/// The three two-byte slices `ideal_fg` reads are all on character
/// boundaries (slicing elsewhere panics).
pub open spec fn ideal_fg_slices_ok(hex: &str) -> bool {
    fg_slices_ok(hex.spec_bytes())
}

/// [`ideal_fg_slices_ok`], on the UTF-8 bytes.
pub open spec fn fg_slices_ok(bytes: Seq<u8>) -> bool {
    let h = strip_hashes(bytes);
    h.len() >= 6 ==> byte_boundary(h, 2) && byte_boundary(h, 4) && byte_boundary(h, 6)
}

/// YIQ perceived brightness of the colour `h` names, times 1000.
pub open spec fn yiq_1000(h: Seq<u8>) -> int {
    let r = hex_pair_or_zero(h[0], h[1]);
    let g = hex_pair_or_zero(h[2], h[3]);
    let b = hex_pair_or_zero(h[4], h[5]);
    (r * 299 + g * 587 + b * 114) as int
}

/// gt's `ideal_fgnd_color`: black on backgrounds whose YIQ brightness is at
/// least 156, white otherwise; black when fewer than six bytes follow the
/// leading `#`s.
pub open spec fn ideal_fg_spec(hex: Seq<u8>) -> Seq<char> {
    let h = strip_hashes(hex);
    if h.len() < 6 || yiq_1000(h) >= 156000 {
        "#000000"@
    } else {
        "#FFFFFF"@
    }
}

/// The byte of an upper-case hexadecimal digit.
pub open spec fn hex_digit_byte(d: nat) -> u8 {
    if d < 10 {
        (d + 48) as u8
    } else {
        (d + 55) as u8
    }
}

/// The bytes of `#RRGGBB`, the digits upper-case.
pub open spec fn hex_rgb_bytes(r: u8, g: u8, b: u8) -> Seq<u8> {
    seq![
        35u8,
        hex_digit_byte((r / 16) as nat),
        hex_digit_byte((r % 16) as nat),
        hex_digit_byte((g / 16) as nat),
        hex_digit_byte((g % 16) as nat),
        hex_digit_byte((b / 16) as nat),
        hex_digit_byte((b % 16) as nat),
    ]
}

proof fn lemma_hex_pair_byte(v: u8)
    ensures
        hex_pair_or_zero(hex_digit_byte((v / 16) as nat), hex_digit_byte((v % 16) as nat)) == v,
{
    assert(v == (v / 16) * 16 + v % 16);
}

proof fn lemma_hex_digit_char(d: nat)
    requires
        d < 16,
    ensures
        '\0' <= upper_hex_digit(d) <= '\u{7f}',
        upper_hex_digit(d) as u8 == hex_digit_byte(d),
{
}

/// The UTF-8 bytes of [`hex_rgb`] are [`hex_rgb_bytes`].
proof fn lemma_hex_rgb_bytes(rgb: (u8, u8, u8))
    ensures
        vstd::utf8::encode_utf8(hex_rgb(rgb)) == hex_rgb_bytes(rgb.0, rgb.1, rgb.2),
{
    let c = hex_rgb(rgb);
    let h = hex_rgb_bytes(rgb.0, rgb.1, rgb.2);
    lemma_hex_digit_char((rgb.0 / 16) as nat);
    lemma_hex_digit_char((rgb.0 % 16) as nat);
    lemma_hex_digit_char((rgb.1 / 16) as nat);
    lemma_hex_digit_char((rgb.1 % 16) as nat);
    lemma_hex_digit_char((rgb.2 / 16) as nat);
    lemma_hex_digit_char((rgb.2 % 16) as nat);
    assert(c.len() == 7);
    assert(vstd::utf8::is_ascii_chars(c));
    vstd::utf8::is_ascii_chars_encode_utf8(c);
    let e = vstd::utf8::encode_utf8(c);
    assert forall|i: int| 0 <= i < 7 implies e[i] == h[i] by {
        assert(c[i] as u8 == e[i]);
    }
    assert(e =~= h);
}

/// The foreground for `#RRGGBB` is black exactly when the YIQ brightness
/// 299r + 587g + 114b reaches 156000 (156 per thousand), and black too for
/// any text with fewer than six bytes after its leading `#`s. The colours
/// the library writes ([`hex_rgb`]) have exactly those bytes.
pub proof fn law_ideal_fg_threshold(r: u8, g: u8, b: u8, short: Seq<u8>)
    ensures
        ideal_fg_spec(hex_rgb_bytes(r, g, b)) == if 299 * r + 587 * g + 114 * b >= 156000 {
            "#000000"@
        } else {
            "#FFFFFF"@
        },
        strip_hashes(short).len() < 6 ==> ideal_fg_spec(short) == "#000000"@,
        vstd::utf8::encode_utf8(hex_rgb((r, g, b))) == hex_rgb_bytes(r, g, b),
{
    lemma_hex_rgb_bytes((r, g, b));
    let h = hex_rgb_bytes(r, g, b);
    assert(h[0] == 35);
    assert(h[1] != 35);
    assert(strip_hashes(h.drop_first()) == h.drop_first());
    let t = h.drop_first();
    lemma_hex_pair_byte(r);
    lemma_hex_pair_byte(g);
    lemma_hex_pair_byte(b);
    assert(t[0] == hex_digit_byte((r / 16) as nat) && t[1] == hex_digit_byte((r % 16) as nat));
    assert(t[2] == hex_digit_byte((g / 16) as nat) && t[3] == hex_digit_byte((g % 16) as nat));
    assert(t[4] == hex_digit_byte((b / 16) as nat) && t[5] == hex_digit_byte((b % 16) as nat));
    assert(yiq_1000(t) == 299 * r + 587 * g + 114 * b);
}

fn hex_value(b: u8) -> (r: Option<u32>)
    ensures
        match hex_digit_value(b) {
            Some(v) => r == Some(v as u32),
            None => r is None,
        },
{
    if 48 <= b && b <= 57 {
        Some((b - 48) as u32)
    } else if 65 <= b && b <= 70 {
        Some((b - 55) as u32)
    } else if 97 <= b && b <= 102 {
        Some((b - 87) as u32)
    } else {
        None
    }
}

fn hex_pair(b0: u8, b1: u8) -> (r: u32)
    ensures
        r as nat == hex_pair_or_zero(b0, b1),
        r < 256,
{
    if b0 == 43 {
        match hex_value(b1) {
            Some(v) => v,
            None => 0,
        }
    } else {
        match (hex_value(b0), hex_value(b1)) {
            (Some(a), Some(b)) => a * 16 + b,
            _ => 0,
        }
    }
}

/// gt's `ideal_fgnd_color`: YIQ perceived-brightness check with a 156
/// threshold. Brightness >= 156 picks `#000000`, else `#FFFFFF`.
pub fn ideal_fg(bg_hex: &str) -> (r: &'static str)
    requires
        ideal_fg_slices_ok(bg_hex),
    ensures
        r@ == ideal_fg_spec(bg_hex.spec_bytes()),
{
    let bytes = bg_hex.as_bytes();
    let mut k: usize = 0;
    proof {
        assert(bytes@.skip(0) =~= bytes@);
    }
    while k < bytes.len() && bytes[k] == 35
        invariant
            k <= bytes@.len(),
            strip_hashes(bytes@) == strip_hashes(bytes@.skip(k as int)),
        decreases bytes@.len() - k,
    {
        proof {
            assert(bytes@.skip(k as int).drop_first() =~= bytes@.skip(k + 1));
        }
        k += 1;
    }
    proof {
        assert(strip_hashes(bytes@.skip(k as int)) == bytes@.skip(k as int));
    }
    if bytes.len() - k < 6 {
        return "#000000";
    }
    let r = hex_pair(bytes[k], bytes[k + 1]);
    let g = hex_pair(bytes[k + 2], bytes[k + 3]);
    let b = hex_pair(bytes[k + 4], bytes[k + 5]);
    let yiq = r * 299 + g * 587 + b * 114;
    if yiq >= 156000 {
        "#000000"
    } else {
        "#FFFFFF"
    }
}

// ---------------------------------------------------------------------------
// CSS colour parsing
// ---------------------------------------------------------------------------

/// What `csscolorparser::parse` followed by `Color::to_rgba8` gives for
/// `s`: the red, green and blue bytes, or `None` when `s` is no colour.
pub uninterp spec fn css_rgb8(s: Seq<char>) -> Option<(u8, u8, u8)>;

fn is_ascii_text(s: &str) -> (r: bool)
    ensures
        r == ascii_text(s@),
{
    let v = crate::text::chars_of(s);
    let mut i: usize = 0;
    while i < v.len()
        invariant
            v@ == s@,
            i <= v@.len(),
            forall|q: int| 0 <= q < i ==> (#[trigger] v@[q] as u32) < 128,
        decreases v.len() - i,
    {
        if (v[i] as u32) >= 128 {
            return false;
        }
        i += 1;
    }
    true
}

/// `csscolorparser::parse(s)` then `to_rgba8()` on the parsed colour. The
/// contract only names the result: which strings parse, and to which
/// bytes, is the crate's CSS grammar and is not restated here. The parser
/// slices its input by byte offsets (an `hsl(..)` angle's unit suffix,
/// for one), which can fall inside a multi-byte character; ASCII input
/// keeps every slice on a character boundary.
#[verifier::external_body]
fn css_parse_rgb8(s: &str) -> (r: Option<(u8, u8, u8)>)
    requires
        ascii_text(s@),
    ensures
        r == css_rgb8(s@),
{
    match csscolorparser::parse(s) {
        Ok(c) => {
            let a = c.to_rgba8();
            Some((a[0], a[1], a[2]))
        },
        Err(_) => None,
    }
}

/// The characters of `s` that are not Unicode whitespace.
pub open spec fn without_ws(s: Seq<char>) -> Seq<char>
    decreases s.len(),
{
    if s.len() == 0 {
        s
    } else if white_space(s.last()) {
        without_ws(s.drop_last())
    } else {
        without_ws(s.drop_last()).push(s.last())
    }
}

/// R / X11 colour names whose RGB values differ from CSS3 (gt decodes
/// colour names through the X11 table). Matching ignores case and
/// whitespace.
pub open spec fn r_named_override(name: Seq<char>) -> Option<(u8, u8, u8)> {
    let key = lower_seq(without_ws(name));
    if key == "green"@ {
        Some((0u8, 255u8, 0u8))
    } else if key == "maroon"@ {
        Some((176u8, 48u8, 96u8))
    } else if key == "purple"@ {
        Some((160u8, 32u8, 240u8))
    } else if key == "gray"@ || key == "grey"@ {
        Some((190u8, 190u8, 190u8))
    } else {
        None
    }
}

/// The RGB bytes a colour string resolves to: an R override, else the CSS
/// parse of the string without its surrounding whitespace (the parser
/// trims its input first) when that is ASCII, else mid-grey.
pub open spec fn resolve_rgb8(c: Seq<char>) -> (u8, u8, u8) {
    match r_named_override(c) {
        Some(rgb) => rgb,
        None => match (if ascii_text(trim_spec(c)) {
            css_rgb8(trim_spec(c))
        } else {
            None
        }) {
            Some(rgb) => rgb,
            None => (128u8, 128u8, 128u8),
        },
    }
}

pub open spec fn upper_hex_digit(d: nat) -> char {
    if d < 10 {
        ((d + 48) as u32) as char
    } else {
        ((d + 55) as u32) as char
    }
}

/// `{:02X}` of a byte.
pub open spec fn hex_byte(b: u8) -> Seq<char> {
    seq![upper_hex_digit((b / 16) as nat), upper_hex_digit((b % 16) as nat)]
}

/// `#RRGGBB` in uppercase hexadecimal.
pub open spec fn hex_rgb(rgb: (u8, u8, u8)) -> Seq<char> {
    seq!['#'] + hex_byte(rgb.0) + hex_byte(rgb.1) + hex_byte(rgb.2)
}

fn push_hex_byte(out: &mut String, b: u8)
    ensures
        final(out)@ == old(out)@ + hex_byte(b),
{
    let hi = b / 16;
    let lo = b % 16;
    let ch = if hi < 10 { (hi + 48) as char } else { (hi + 55) as char };
    let cl = if lo < 10 { (lo + 48) as char } else { (lo + 55) as char };
    out.push(ch);
    out.push(cl);
    proof {
        assert(final(out)@ =~= old(out)@ + hex_byte(b));
    }
}

pub fn r_named_color_override(name: &str) -> (r: Option<(u8, u8, u8)>)
    ensures
        r == r_named_override(name@),
{
    let v = crate::text::chars_of(name);
    let mut key = String::new();
    let ghost mut kept: Seq<char> = Seq::empty();
    let mut i: usize = 0;
    while i < v.len()
        invariant
            v@ == name@,
            i <= v.len(),
            kept == without_ws(v@.take(i as int)),
            key@ == lower_seq(kept),
        decreases v.len() - i,
    {
        let c = v[i];
        proof {
            assert(v@.take(i + 1).drop_last() =~= v@.take(i as int));
        }
        if !is_whitespace(c) {
            key.push(ascii_lower_char(c));
            proof {
                kept = kept.push(c);
                assert(lower_seq(kept) =~= lower_seq(kept.drop_last()).push(lower_char(c)));
            }
        }
        i += 1;
    }
    proof {
        assert(v@.take(i as int) =~= name@);
    }
    let ks = key.as_str();
    proof {
        reveal_strlit("green");
        reveal_strlit("maroon");
        reveal_strlit("purple");
        reveal_strlit("gray");
        reveal_strlit("grey");
    }
    if str_eq(ks, "green") {
        Some((0, 255, 0))
    } else if str_eq(ks, "maroon") {
        Some((176, 48, 96))
    } else if str_eq(ks, "purple") {
        Some((160, 32, 240))
    } else if str_eq(ks, "gray") || str_eq(ks, "grey") {
        Some((190, 190, 190))
    } else {
        None
    }
}

/// Parse any CSS colour string (named, `#rgb`, `#rrggbb`, `rgb(...)`)
/// into the uppercase 6-digit hex form (`#RRGGBB`) gt uses in HTML
/// output. R / X11 names that differ from CSS3 take their X11 value; a
/// string that is unparsable, or not ASCII once trimmed, gives mid-grey.
pub fn parse_to_hex_upper(c: &str) -> (r: String)
    ensures
        r@ == hex_rgb(resolve_rgb8(c@)),
{
    let rgb = match r_named_color_override(c) {
        Some(v) => v,
        None => {
            let t = trim(c);
            match (if is_ascii_text(&t) {
                css_parse_rgb8(&t)
            } else {
                None
            }) {
                Some(v) => v,
                None => (128, 128, 128),
            }
        },
    };
    let mut out = String::new();
    out.push('#');
    push_hex_byte(&mut out, rgb.0);
    push_hex_byte(&mut out, rgb.1);
    push_hex_byte(&mut out, rgb.2);
    proof {
        assert(out@ =~= hex_rgb(resolve_rgb8(c@)));
    }
    out
}

} // verus!
