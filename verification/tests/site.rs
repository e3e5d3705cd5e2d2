use sitegen::site::{encode_email, minify_page, site_minify_settings};

#[test]
fn concat_joins_with_a_slash() {
    assert_eq!(sitegen::site::concat("src", "content.json"), "src/content.json");
    assert_eq!(sitegen::site::concat("", "x"), "/x");
}

#[test]
fn email_is_standard_padded_base64() {
    assert_eq!(encode_email("a@b.c"), "YUBiLmM=");
    assert_eq!(encode_email("ab"), "YWI=");
    assert_eq!(encode_email("abc"), "YWJj");
    assert_eq!(encode_email(""), "");
    assert_eq!(encode_email("é"), "w6k=");
}

#[test]
fn minified_page_drops_redundant_whitespace() {
    let page = "<p>  a   b  </p>\n\n<p>c</p>";
    let out = minify_page(page);
    assert_ne!(out, page.as_bytes());
    assert!(out.len() < page.len());
}

#[test]
fn site_minify_settings_minify_css_only() {
    let s = site_minify_settings();
    assert!(s.minify_css);
    assert!(!s.minify_js);
    assert!(!s.minify_doctype);
    assert!(!s.allow_removing_spaces_between_attributes);
    assert!(!s.allow_noncompliant_unquoted_attribute_values);
}

#[test]
fn encoding_length_is_four_per_three_bytes() {
    for s in ["", "a", "ab", "abc", "abcd", "hello world"] {
        assert_eq!(encode_email(s).len(), (s.len() + 2) / 3 * 4);
    }
}
