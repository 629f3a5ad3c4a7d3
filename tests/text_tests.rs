use dcs_server_list::text::{contains_str, sanitize_name};

#[test]
fn sanitize_decodes_amp() {
    assert_eq!(sanitize_name("A &amp; B"), "A & B");
}

#[test]
fn sanitize_decodes_gt_literally() {
    assert_eq!(sanitize_name("<tag&gt;"), "<tag>");
}

#[test]
fn sanitize_decodes_lt() {
    assert_eq!(sanitize_name("&lt;b&gt;"), "<b>");
}

#[test]
fn sanitize_plain_ascii_is_trimmed_only() {
    assert_eq!(sanitize_name("  Blue Flag  server\t\n"), "Blue Flag  server");
    assert_eq!(sanitize_name("no change"), "no change");
}

#[test]
fn sanitize_drops_non_ascii() {
    let out = sanitize_name("Café Überserver ✈ 日本");
    assert_eq!(out, "Caf berserver");
    assert!(out.is_ascii());
}

#[test]
fn sanitize_trims_after_dropping() {
    assert_eq!(sanitize_name("✈ Hornet ✈"), "Hornet");
}

#[test]
fn sanitize_decoding_is_single_pass_per_entity() {
    assert_eq!(sanitize_name("&amp;gt;"), ">");
    assert_eq!(sanitize_name("&amp;amp;"), "&amp;");
    assert_eq!(sanitize_name("&quot;x&quot;"), "&quot;x&quot;");
}

#[test]
fn sanitize_empty_and_blank() {
    assert_eq!(sanitize_name(""), "");
    assert_eq!(sanitize_name("   "), "");
    assert_eq!(sanitize_name("日本"), "");
}

#[test]
fn sanitize_trims_vertical_tab_and_form_feed() {
    assert_eq!(sanitize_name("\u{b}\u{c}x\r"), "x");
}

#[test]
fn substring_search() {
    assert!(contains_str("hello world", "lo w"));
    assert!(contains_str("hello", ""));
    assert!(contains_str("", ""));
    assert!(!contains_str("hello", "world"));
    assert!(!contains_str("he", "hello"));
    assert!(contains_str("aab", "ab"));
}
