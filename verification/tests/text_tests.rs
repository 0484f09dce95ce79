use plato::admin::{admin_token_accepted, ADMIN_TOKEN};
use plato::text::{chars_of, extract_plato_content_payload, trim_bounds};

#[test]
fn extracts_trimmed_content_block() {
    let html = "<div class=\"x\"><h1>T</h1><div class=\"plato-content\">  Hello world \n</div></div>";
    assert_eq!(extract_plato_content_payload(html), Some("Hello world"));
}

#[test]
fn extraction_needs_marker_bracket_and_close() {
    assert_eq!(extract_plato_content_payload("<div>no marker</div>"), None);
    assert_eq!(extract_plato_content_payload("class=\"plato-content\" but no bracket"), None);
    assert_eq!(extract_plato_content_payload("<div class=\"plato-content\">never closed"), None);
}

#[test]
fn extraction_stops_at_first_close_and_keeps_unicode() {
    let html = "<p class=\"plato-content\">\u{3000}Привет</div>tail</div>";
    assert_eq!(extract_plato_content_payload(html), Some("Привет"));
}

#[test]
fn trim_bounds_skip_unicode_whitespace() {
    let v = chars_of("\u{a0} ab c\t\u{2003}");
    let (a, b) = trim_bounds(&v, 0, v.len());
    let s: String = v[a..b].iter().collect();
    assert_eq!(s, "ab c");
    let e = chars_of(" \n ");
    let (a, b) = trim_bounds(&e, 0, e.len());
    assert_eq!(a, b);
}

#[test]
fn admin_token_must_match_exactly() {
    assert!(admin_token_accepted(Some(ADMIN_TOKEN)));
    assert!(admin_token_accepted(Some("your token")));
    assert!(!admin_token_accepted(Some("your token ")));
    assert!(!admin_token_accepted(Some("")));
    assert!(!admin_token_accepted(None));
}
