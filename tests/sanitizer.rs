use xss_guard::sanitizer::{is_sanitized_text, sanitize, scrub};

#[test]
fn plain_color_passes_through() {
    assert_eq!(sanitize("red"), "red");
    assert_eq!(sanitize(""), "");
    assert_eq!(sanitize("rgb(255, 0, 0)"), "rgb(255, 0, 0)");
}

#[test]
fn img_onerror_is_neutralized() {
    let out = sanitize("<img src=x onerror=alert(1)>");
    assert!(!out.contains("onerror="));
    assert!(!out.contains("<img"));
    assert!(!out.contains('<'));
}

#[test]
fn script_element_is_removed() {
    let out = sanitize("<script>alert(1)</script>");
    assert!(!out.contains("<script"));
    assert!(!out.contains('<'));
    assert!(!out.contains("alert"));
}

#[test]
fn event_handler_text_loses_its_equals_sign() {
    assert_eq!(sanitize("onerror=x"), "onerrorx");
    assert_eq!(sanitize("OnClick=go"), "OnClickgo");
    assert_eq!(sanitize("on=x"), "on=x");
    assert_eq!(sanitize("a=b"), "a=b");
}

#[test]
fn javascript_scheme_loses_its_colon() {
    assert_eq!(sanitize("JavaScript:alert(1)"), "JavaScriptalert(1)");
    assert_eq!(sanitize("time: noon"), "time: noon");
}

#[test]
fn quote_breakout_is_neutralized() {
    let out = sanitize("red\" onmouseover=\"alert(1)");
    assert_eq!(out, "red onmouseoveralert(1)");
    assert!(!out.contains('"'));
}

#[test]
fn text_angle_bracket_becomes_entity() {
    assert_eq!(sanitize("a < b"), "a &lt; b");
    assert_eq!(sanitize("a<b"), "a");
    assert_eq!(sanitize("a > b"), "a &gt; b");
}

#[test]
fn sanitize_is_idempotent() {
    let inputs = [
        "",
        "red",
        "<img src=x onerror=alert(1)>",
        "<script>alert(1)</script>",
        "a<b",
        "a&b",
        "JAVASCRIPT:x",
        "onload=<b>x</b>",
        "red\" onmouseover=\"alert(1)",
        "<a href=\"javascript:alert(1)\">link</a>",
    ];
    for x in inputs {
        let once = sanitize(x);
        assert_eq!(sanitize(&once), once);
    }
}

#[test]
fn sanitized_output_has_no_markup() {
    let inputs = [
        "<svg onload=alert(1)>",
        "<IMG SRC=x OnError=alert(1)>",
        "<<script>script>alert(1)<</script>/script>",
        "x onfocus=y",
        "<a href='javascript:alert(1)'>x</a>",
    ];
    for x in inputs {
        let out = sanitize(x);
        assert!(!out.contains('<'));
        assert!(!out.contains('>'));
        assert!(!out.to_lowercase().contains("javascript:"));
        let lower = out.to_lowercase();
        let bytes = lower.as_bytes();
        for i in 0..bytes.len() {
            if bytes[i] == b'o' && i + 2 < bytes.len() && bytes[i + 1] == b'n' {
                let mut j = i + 2;
                while j < bytes.len() && bytes[j].is_ascii_lowercase() {
                    j += 1;
                }
                assert!(!(j > i + 2 && j < bytes.len() && bytes[j] == b'='));
            }
        }
    }
}

#[test]
fn scrub_drops_tags_and_quotes() {
    assert_eq!(scrub("<b>bold</b> text"), "bold text");
    assert_eq!(scrub("x<unclosed"), "x");
    assert_eq!(scrub("a'b\"c`d>e"), "abcde");
    assert_eq!(scrub("onload=1"), "onload1");
    assert_eq!(scrub("on<i>click</i>=1"), "onclick1");
    assert_eq!(scrub("java<b></b>script:1"), "javascript1");
    assert_eq!(scrub(""), "");
}

#[test]
fn sanitized_text_check() {
    assert!(is_sanitized_text("red"));
    assert!(is_sanitized_text(""));
    assert!(is_sanitized_text("a&lt;b"));
    assert!(!is_sanitized_text("a<b"));
    assert!(!is_sanitized_text("it's"));
    assert!(!is_sanitized_text("xonerror=1"));
    assert!(!is_sanitized_text("JavaScript:1"));
    assert!(is_sanitized_text("javascript"));
}
