use ggsql::tabulate::scale::{ideal_fg, parse_to_hex_upper, NA_COLOR};

#[test]
fn ideal_fg_picks_black_on_light_bg() {
    assert_eq!(ideal_fg("#FFFFFF"), "#000000");
    assert_eq!(ideal_fg("#000000"), "#FFFFFF");
    assert_eq!(ideal_fg("#808080"), "#FFFFFF");
}

#[test]
fn ideal_fg_threshold_and_short_input() {
    // YIQ of #9C9C9C is exactly 156: black.
    assert_eq!(ideal_fg("#9C9C9C"), "#000000");
    assert_eq!(ideal_fg("#9B9B9B"), "#FFFFFF");
    // Fewer than six digits after the hashes: black.
    assert_eq!(ideal_fg("#FFF"), "#000000");
    assert_eq!(ideal_fg("##ffffff"), "#000000");
    // Non-hex pairs read as zero.
    assert_eq!(ideal_fg("#zzzzzz"), "#FFFFFF");
}

#[test]
fn css_colours_become_uppercase_hex() {
    assert_eq!(parse_to_hex_upper("white"), "#FFFFFF");
    assert_eq!(parse_to_hex_upper("#ff8000"), "#FF8000");
    assert_eq!(parse_to_hex_upper("rgb(0, 128, 255)"), "#0080FF");
    // Unparsable colours fall back to mid-grey.
    assert_eq!(parse_to_hex_upper("no such colour"), "#808080");
    assert_eq!(NA_COLOR, "#808080");
}

#[test]
fn r_colour_names_win_over_css() {
    // R's `gray` / `grey` is #BEBEBE where CSS says #808080.
    assert_eq!(parse_to_hex_upper("gray"), "#BEBEBE");
    assert_eq!(parse_to_hex_upper(" Gr ey "), "#BEBEBE");
    assert_eq!(parse_to_hex_upper("green"), "#00FF00");
    assert_eq!(parse_to_hex_upper("MAROON"), "#B03060");
}

#[test]
fn foreground_follows_the_yiq_threshold() {
    // 299 * 128 + 587 * 128 + 114 * 128 = 128000 < 156000
    assert_eq!(ideal_fg("#808080"), "#FFFFFF");
    // 299 * 156 + 587 * 156 + 114 * 156 = 156000
    assert_eq!(ideal_fg("#9C9C9C"), "#000000");
    assert_eq!(ideal_fg("#9B9B9B"), "#FFFFFF");
    assert_eq!(ideal_fg("#FFF"), "#000000");
    assert_eq!(parse_to_hex_upper("hsl(1éé, 50%, 50%)"), "#808080");
    assert_eq!(parse_to_hex_upper("\u{3000}red "), "#FF0000");
}

#[test]
fn trim_agrees_with_std_on_whitespace() {
    for u in 0u32..0x3100 {
        if let Some(c) = char::from_u32(u) {
            let s = format!("{}x{}", c, c);
            assert_eq!(ggsql::text::trim(&s), s.trim(), "code point {:#x}", u);
        }
    }
}
