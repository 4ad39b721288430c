use ggsql::tabulate::test_normalize::normalize_html;

#[test]
fn strips_random_table_id_and_class() {
    let a = r#"<table id="ovz" class="gt_table_abc123">a</table>"#;
    let b = r#"<table  class="gt_table_zzz999"   id="other">a</table>"#;
    assert_eq!(normalize_html(a), normalize_html(b));
}

#[test]
fn attribute_order_does_not_matter() {
    let a = r#"<td class="gt_row" style="x">v</td>"#;
    let b = r#"<td style="x" class="gt_row">v</td>"#;
    assert_eq!(normalize_html(a), normalize_html(b));
}

#[test]
fn between_tag_whitespace_collapses() {
    let a = "<div>\n\n   <p>x</p>\n</div>";
    let b = "<div><p>x</p></div>";
    assert_eq!(normalize_html(a), normalize_html(b));
}

#[test]
fn entities_canonicalize() {
    let a = "<p>1 &#x26; 2</p>";
    let b = "<p>1 &amp; 2</p>";
    assert_eq!(normalize_html(a), normalize_html(b));
}

#[test]
fn normal_form_of_a_table_tag() {
    assert_eq!(
        normalize_html(r#"<table id="ovz" class="gt_table_abc123">a</table>"#),
        Some(r#"<table class="gt_table_X">a</table>"#.to_string())
    );
}

#[test]
fn normal_form_sorts_attributes() {
    assert_eq!(
        normalize_html(r#"<td style="x"   class="gt_row" hidden>v</td>"#),
        Some(r#"<td class="gt_row" hidden style="x">v</td>"#.to_string())
    );
}

#[test]
fn normal_form_of_a_div_and_entities() {
    assert_eq!(
        normalize_html("  <div id=\"abc\" style=\"a\">\n  <p>&#60;b&#62; &#38; c</p>\n</div>  "),
        Some("<div style=\"a\"><p>&lt;b&gt; &amp; c</p></div>".to_string())
    );
}

#[test]
fn bare_tags_and_text_are_kept() {
    assert_eq!(normalize_html("<br/>text<p >x</p>"), Some("<br/>text<p>x</p>".to_string()));
    assert_eq!(normalize_html(""), Some(String::new()));
}
