use xss_guard::pages::{
    csp_page, sanitized_color_page, secure_color_page, style_color, vulnerable_color_page,
};

#[test]
fn sanitized_page_has_no_script_tag() {
    let body = sanitized_color_page(Some("<script>alert(1)</script>"));
    assert!(!body.contains("<script>"));
    assert!(!body.contains("<script"));
}

#[test]
fn sanitized_page_places_color_in_both_contexts() {
    let body = sanitized_color_page(Some("red"));
    assert!(body.contains("<body style=\"color: red;\">"));
    assert!(body.contains("<h1>Color set to 'red' via server-side sanitization.</h1>"));
}

#[test]
fn sanitized_page_absent_color_equals_empty() {
    let absent = sanitized_color_page(None);
    assert_eq!(absent, sanitized_color_page(Some("")));
    assert!(absent.contains("<body style=\"color: ;\">"));
    assert!(absent.contains("<h1>Color set to '' via server-side sanitization.</h1>"));
}

#[test]
fn style_context_refuses_extra_declarations() {
    assert_eq!(style_color("red"), "red");
    assert_eq!(style_color("#ff0000"), "#ff0000");
    assert_eq!(style_color("rgb(255, 0, 0)"), "rgb(255, 0, 0)");
    assert_eq!(style_color("red; background: url(x)"), "");
    assert_eq!(style_color("a&lt;b"), "");
    let body = sanitized_color_page(Some("red;position:fixed"));
    assert!(body.contains("<body style=\"color: ;\">"));
    assert!(body.contains("Color set to 'red;position:fixed'"));
}

#[test]
fn secure_page_heading_is_unmodified() {
    let body = secure_color_page();
    assert!(body.contains("<h1>This color is being applied: <span id=\"color-name\"></span></h1>"));
    assert!(body.contains(".textContent = color"));
    assert!(!body.contains(".innerHTML"));
    assert_eq!(body, secure_color_page());
}

#[test]
fn vulnerable_page_keeps_markup_sink() {
    let body = vulnerable_color_page();
    assert!(body.contains("document.getElementById('color-name').innerHTML = color;"));
}

#[test]
fn csp_page_has_no_dynamic_input() {
    let body = csp_page();
    assert!(body.contains("<h1>This page is protected by a Content Security Policy.</h1>"));
    assert!(!body.contains("<script"));
}
