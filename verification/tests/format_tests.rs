use ggsql::tabulate::format::{
    build_format, insert_thousands, insert_thousands_opt, CellFmt, Lang, NumSpec, NumValue,
};

/// The number `x` reduced under `spec`, as the data reader reduces it.
fn num_value(spec: &NumSpec, x: f64) -> Option<NumValue> {
    if x.is_nan() {
        return None;
    }
    let p = spec.precision.unwrap_or(6) as usize;
    Some(match spec.conv {
        'd' => NumValue::Int(x.round() as i64),
        'f' => NumValue::Fixed {
            negative: x.is_sign_negative() && x != 0.0,
            text: format!("{:.*}", p, x.abs()),
        },
        _ => {
            if x == 0.0 {
                NumValue::Scientific { mantissa: format!("{:.*}", p, 0.0), exp: 0 }
            } else {
                let exp = x.abs().log10().floor() as i32;
                let mantissa = x / 10f64.powi(exp);
                NumValue::Scientific { mantissa: format!("{:.*}", p, mantissa), exp }
            }
        },
    })
}

fn num(rhs: &str, v: f64) -> String {
    let (fmt, _) = build_format(rhs, None).expect("num parse");
    match fmt {
        CellFmt::Numeric(f) => {
            let n = num_value(&f.spec, v);
            f.render(n.as_ref())
        },
        _ => panic!("expected numeric"),
    }
}

fn time(rhs: &str, v: &str, loc: Option<&str>) -> String {
    let (fmt, _) = build_format(rhs, loc).expect("time parse");
    match fmt {
        CellFmt::Time(f) => f.apply(Some(v)),
        _ => panic!("expected time"),
    }
}

fn s(rhs: &str, v: &str) -> String {
    let (fmt, _) = build_format(rhs, None).expect("string parse");
    match fmt {
        CellFmt::Str(f) => f.apply(Some(v)),
        _ => panic!("expected string"),
    }
}

#[test]
fn num_legacy_decimals() {
    assert_eq!(num("{:num %.3f}", 0.1111), "0.111");
    assert_eq!(num("{:num %.3f}", 5550.0), "5550.000");
}

#[test]
fn num_thousands_apostrophe_int() {
    assert_eq!(num("{:num %'d}", 5550.0), "5,550");
    assert_eq!(num("{:num %'d}", 8_880_000.0), "8,880,000");
}

#[test]
fn num_thousands_apostrophe() {
    assert_eq!(num("{:num %'d}", 5550.0), "5,550");
}

#[test]
fn num_currency_prefix() {
    assert_eq!(num("${:num %'d}", 447_000.0), "$447,000");
}

#[test]
fn num_percent_suffix_is_literal() {
    assert_eq!(num("{:num %.1f}%", 8.5), "8.5%");
    assert_eq!(num("{:num %.1f}%", 0.085), "0.1%");
}

#[test]
fn num_arbitrary_suffix_is_literal() {
    assert_eq!(num("{:num %'d}abc", 5550.0), "5,550abc");
    assert_eq!(num("{:num %.1f}%%", 8.5), "8.5%%");
}

#[test]
fn num_forced_sign() {
    assert_eq!(num("{:num %+.1f}%", 8.5), "+8.5%");
    assert_eq!(num("{:num %+.1f}%", -8.5), "\u{2212}8.5%");
}

#[test]
fn num_unforced_negative_is_ascii_minus() {
    assert_eq!(num("{:num %.1f}", -1.5), "-1.5");
}

#[test]
fn num_percent_introducer_is_required() {
    assert!(build_format("{:num .2f}", None).is_none());
    assert!(build_format("{:num 'd}", None).is_none());
}

#[test]
fn num_scientific_html() {
    let s = num("{:num %.2e}", 1e-6);
    assert!(s.contains("<sup"), "got {}", s);
    assert!(s.contains("\u{2212}6"), "minus exponent: {}", s);
    assert!(s.starts_with("1.00&nbsp;"), "mantissa: {}", s);
}

#[test]
fn num_scientific_exp_zero_is_plain_mantissa() {
    assert_eq!(num("{:num %.2e}", 4.2), "4.20");
    assert_eq!(num("{:num %.2e}", 0.0), "0.00");
    assert_eq!(num("{:num %.2e}", -1.5), "-1.50");
}

#[test]
fn time_english_date() {
    assert_eq!(time("{:time %B %-d, %Y}", "2015-01-15", None), "January 15, 2015");
}

#[test]
fn time_french_date() {
    assert_eq!(time("{:time %A %-d %B %Y}", "2015-01-15", Some("fr")), "jeudi 15 janvier 2015");
}

#[test]
fn time_h_m_p() {
    assert_eq!(time("{:time %-I:%M %p}", "13:35", None), "1:35 PM");
    assert_eq!(time("{:time %-I:%M %p}", "02:22", None), "2:22 AM");
}

#[test]
fn time_datetime_long() {
    assert_eq!(
        time("{:time %A, %B %-d, %Y at %-I:%M %p}", "2018-01-01 02:22", None),
        "Monday, January 1, 2018 at 2:22 AM"
    );
}

#[test]
fn raw_passthrough_identity() {
    assert_eq!(s("{}", "hello"), "hello");
}

#[test]
fn raw_passthrough_with_prefix_suffix() {
    assert_eq!(s("${}abc", "42"), "$42abc");
    assert_eq!(s(">>{}", "x"), ">>x");
}

#[test]
fn case_keywords_are_case_insensitive() {
    assert_eq!(s("{:title}", "hello world"), "Hello World");
    assert_eq!(s("{:Title}", "hello world"), "Hello World");
    assert_eq!(s("{:TITLE}", "hello world"), "Hello World");
    assert_eq!(s("{:upper}", "abc"), "ABC");
    assert_eq!(s("{:UPPER}", "abc"), "ABC");
    assert_eq!(s("{:Upper}", "abc"), "ABC");
    assert_eq!(s("{:lower}", "ABC"), "abc");
    assert_eq!(s("{:LOWER}", "ABC"), "abc");
}

#[test]
fn num_keyword_is_case_insensitive() {
    assert_eq!(num("{:NUM %d}", 42.0), "42");
    assert_eq!(num("{:Num %.1f}", 4.56), "4.6");
}

#[test]
fn time_keyword_is_case_insensitive() {
    assert_eq!(time("{:TIME %Y}", "2024-06-23", None), "2024");
    assert_eq!(time("{:Time %Y}", "2024-06-23", None), "2024");
}

// ---------------------------------------------------------------------------

#[test]
fn thousands_groups_by_three() {
    assert_eq!(insert_thousands(0), "0");
    assert_eq!(insert_thousands(999), "999");
    assert_eq!(insert_thousands(1000), "1,000");
    assert_eq!(insert_thousands(-1234567), "-1,234,567");
    assert_eq!(insert_thousands(i64::MIN), "-9,223,372,036,854,775,808");
    assert_eq!(insert_thousands_opt(1234, false), "1234");
    assert_eq!(insert_thousands_opt(1234, true), "1,234");
}

#[test]
fn num_spec_parses_flags_width_precision() {
    let s = NumSpec::parse("%'+08.3f").unwrap();
    assert!(s.thousands && s.force_sign);
    assert_eq!(s.conv, 'f');
    assert_eq!(s.precision, Some(3));
    let d = NumSpec::parse("%d").unwrap();
    assert_eq!(d.precision, None);
    assert!(NumSpec::parse("%x").is_none());
    assert!(NumSpec::parse("%").is_none());
    assert!(NumSpec::parse("").is_none());
}

#[test]
fn num_positive_exponent_and_forced_int_sign() {
    let big = num("{:num %.1e}", 12345.0);
    assert_eq!(big, "1.2&nbsp;\u{d7}&nbsp;10<sup style=\"font-size: 65%;\">4</sup>");
    assert_eq!(num("{:num %+d}", 7.0), "+7");
    assert_eq!(num("{:num %+d}", -7.0), "\u{2212}7");
    assert_eq!(num("{:num %d}", -7.0), "-7");
    assert_eq!(num("{:num %'.2f}", -1234.5), "-1,234.50");
}

#[test]
fn num_missing_value_is_na() {
    let (fmt, raw) = build_format("{:num %.2e}", None).unwrap();
    assert!(raw);
    match fmt {
        CellFmt::Numeric(f) => assert_eq!(f.render(None), "NA"),
        _ => panic!("expected numeric"),
    }
    assert_eq!(num("{:num %d}", f64::NAN), "NA");
}

#[test]
fn time_unparsable_value_is_kept() {
    assert_eq!(time("[{:time %Y}]", "not a date", None), "[not a date]");
    let (fmt, _) = build_format("{:time %Y}", None).unwrap();
    match fmt {
        CellFmt::Time(f) => assert_eq!(f.apply(None), "NA"),
        _ => panic!("expected time"),
    }
}

#[test]
fn time_tokens_and_locales() {
    assert_eq!(time("{:time %H:%M:%S}", "07:05:09", None), "7:5:9");
    assert_eq!(time("{:time %y %b %a}", "2015-01-15", None), "15 Jan Thu");
    assert_eq!(time("{:time %b %a}", "2015-01-15", Some("fr-FR")), "jan jeu");
    assert_eq!(time("{:time %d/%m %%}", "2015-01-05", None), "5/01 %");
}

#[test]
fn unknown_template_is_none() {
    assert!(build_format("plain text", None).is_none());
    assert!(build_format("{:shout}", None).is_none());
}

#[test]
fn lang_names() {
    assert_eq!(Lang::from_locale(Some("FR_ca")), Lang::Fr);
    assert_eq!(Lang::from_locale(None), Lang::En);
    assert_eq!(Lang::En.month(12), "December");
    assert_eq!(Lang::Fr.weekday(0), "dimanche");
    assert_eq!(Lang::En.month_abbrev(5), "May");
    assert_eq!(Lang::Fr.weekday_abbrev(6), "sam");
}

#[test]
fn time_tokens_render_unpadded() {
    assert_eq!(
        time("{:time %d %H %I %M %S}", "2024-03-05 09:05:07", None),
        "5 9 9 5 7"
    );
}

#[test]
fn thousands_groups_from_the_right() {
    assert_eq!(insert_thousands(8_880_000), "8,880,000");
    assert_eq!(insert_thousands(12_345), "12,345");
    assert_eq!(insert_thousands(100), "100");
    assert_eq!(insert_thousands(-999_999), "-999,999");
}

#[test]
fn title_case_keeps_length_and_folds_back() {
    assert_eq!(s("{:title}", "hELLO  wORLD"), "Hello  World");
    let t = s("{:title}", "mIxEd-case tExt");
    assert_eq!(t.len(), "mIxEd-case tExt".len());
    assert_eq!(t.to_ascii_lowercase(), "mixed-case text");
    assert_eq!(s("{:title}", &t), t);
}

#[test]
fn num_template_wraps_rendered_value() {
    assert_eq!(num("Cost: {:num %.2f} USD", 3.14159), "Cost: 3.14 USD");
    assert_eq!(num("({:NUM  %d  })!", 7.0), "(7)!");
}
