//! The HTML bodies of the four pages, one for each rendering path.
use vstd::prelude::*;
use crate::chars::chars_of;
use crate::sanitizer::{
    ammonia_cleaned, is_markup_char, is_sanitized, lemma_scrubbed_is_sanitized, sanitize, sanitized,
};

verus! {

/// Writes the `color` parameter into a markup-interpreting sink (`innerHTML`)
/// without sanitizing it. Kept unsafe on purpose: it shows the vulnerability.
pub const VULNERABLE_COLOR_PAGE: &'static str = r#"
        <!DOCTYPE html>
        <html>
        <head>
            <title>Vulnerable Color Example</title>
        </head>
        <body>
            <h1>This color is being applied: <span id="color-name"></span></h1>

            <script>
                const urlParams = new URLSearchParams(window.location.search);
                const color = urlParams.get('color');

                if (color) {
                    // Apply the color to the header (this part is safe)
                    document.querySelector('h1').style.color = color;

                    // DANGEROUS SINK: Display the color name using .innerHTML
                    // .innerHTML parses the string as HTML, allowing script execution
                    // through event handlers like 'onerror'.
                    document.getElementById('color-name').innerHTML = color;
                }
            </script>
        </body>
        </html>
    "#;

/// Writes the `color` parameter into a text-only sink (`textContent`).
pub const SECURE_COLOR_PAGE: &'static str = r#"
        <!DOCTYPE html>
        <html>
        <head>
            <title>Secure Color Example</title>
        </head>
        <body>
            <h1>This color is being applied: <span id="color-name"></span></h1>

            <script>
                const urlParams = new URLSearchParams(window.location.search);
                const color = urlParams.get('color');

                if (color) {
                    document.querySelector('h1').style.color = color;

                    // SAFE SINK: .textContent treats the entire string as plain text.
                    // It will be displayed, but never interpreted as HTML or executed.
                    document.getElementById('color-name').textContent = color;
                }
            </script>
        </body>
        </html>
    "#;

/// A page with no dynamic input, protected by the policy header alone.
pub const CSP_PAGE: &'static str = r#"
        <!DOCTYPE html>
        <html>
        <head><title>CSP Protected Page</title></head>
        <body>
            <h1>This page is protected by a Content Security Policy.</h1>
            </body>
        </html>
    "#;

/// The server-sanitized page, up to the color in the `style` attribute.
pub const SANITIZED_PAGE_HEAD: &'static str = r#"
        <!DOCTYPE html>
        <html>
        <head><title>Sanitized Page</title></head>
        <body style="color: "#;

/// The server-sanitized page, from the `style` attribute to the color in the heading.
pub const SANITIZED_PAGE_MIDDLE: &'static str = r#";">
            <h1>Color set to '"#;

/// The server-sanitized page, after the color in the heading.
pub const SANITIZED_PAGE_TAIL: &'static str = r#"' via server-side sanitization.</h1>
        </body>
        </html>
    "#;

pub fn vulnerable_color_page() -> (r: String)
    ensures
        r@ == VULNERABLE_COLOR_PAGE@,
{
    VULNERABLE_COLOR_PAGE.to_owned()
}

pub fn secure_color_page() -> (r: String)
    ensures
        r@ == SECURE_COLOR_PAGE@,
{
    SECURE_COLOR_PAGE.to_owned()
}

pub fn csp_page() -> (r: String)
    ensures
        r@ == CSP_PAGE@,
{
    CSP_PAGE.to_owned()
}

/// Characters allowed in a CSS color value: names, `#rrggbb`, and functional
/// notations such as `rgb(255, 0, 0)` or `hsl(0, 100%, 50%)`.
pub open spec fn is_css_color_char(c: char) -> bool {
    ||| ('a' <= c && c <= 'z')
    ||| ('A' <= c && c <= 'Z')
    ||| ('0' <= c && c <= '9')
    ||| c == '#' || c == '(' || c == ')' || c == ',' || c == '.' || c == '%' || c == ' '
}

/// What the `style` attribute receives: the value itself when it holds only
/// color characters, else nothing. No `;`, `:` or `\` can reach the
/// declaration, so no other property can be added to it.
pub open spec fn css_color(s: Seq<char>) -> Seq<char> {
    if forall|i: int| 0 <= i < s.len() ==> is_css_color_char(#[trigger] s[i]) {
        s
    } else {
        Seq::empty()
    }
}

/// The value of the request parameter, an absent one being empty.
pub open spec fn color_param(color: Option<Seq<char>>) -> Seq<char> {
    match color {
        Some(s) => s,
        None => Seq::empty(),
    }
}

/// The server-sanitized page for a sanitized color `c`: as the value of the
/// `style` attribute's color, and as text of the heading.
pub open spec fn sanitized_page(c: Seq<char>) -> Seq<char> {
    SANITIZED_PAGE_HEAD@ + css_color(c) + SANITIZED_PAGE_MIDDLE@ + c + SANITIZED_PAGE_TAIL@
}

fn css_color_char(c: char) -> (r: bool)
    ensures
        r == is_css_color_char(c),
{
    ('a' <= c && c <= 'z') || ('A' <= c && c <= 'Z') || ('0' <= c && c <= '9') || c == '#' || c
        == '(' || c == ')' || c == ',' || c == '.' || c == '%' || c == ' '
}

/// The color as the `style` attribute may hold it.
pub fn style_color(s: &str) -> (r: String)
    ensures
        r@ == css_color(s@),
{
    let cs = chars_of(s);
    let mut i: usize = 0;
    while i < cs.len()
        invariant
            cs@ == s@,
            i <= cs.len(),
            forall|k: int| 0 <= k < i ==> is_css_color_char(#[trigger] cs@[k]),
        decreases cs.len() - i,
    {
        if !css_color_char(cs[i]) {
            return String::new();
        }
        i = i + 1;
    }
    s.to_owned()
}

/// The server-sanitized page for the `color` parameter, an absent one being
/// treated as empty.
pub fn sanitized_color_page(color: Option<&str>) -> (r: String)
    ensures
        r@ == sanitized_page(
            sanitized(
                color_param(
                    match color {
                        Some(s) => Some(s@),
                        None => None,
                    },
                ),
            ),
        ),
{
    let raw = match color {
        Some(s) => s,
        None => "",
    };
    proof {
        reveal_strlit("");
    }
    let safe = sanitize(raw);
    let mut page = SANITIZED_PAGE_HEAD.to_owned();
    let style = style_color(safe.as_str());
    page.append(style.as_str());
    page.append(SANITIZED_PAGE_MIDDLE);
    page.append(safe.as_str());
    page.append(SANITIZED_PAGE_TAIL);
    page
}

/// An absent `color` parameter gives the same page as an empty one.
pub proof fn lemma_absent_color_is_empty()
    ensures
        sanitized_page(sanitized(color_param(None))) == sanitized_page(
            sanitized(color_param(Some(Seq::empty()))),
        ),
{
}

/// Whatever the `color` parameter, the page is the fixed template with the
/// color in two places, and no character placed there can open or close a
/// tag or a quoted attribute value.
pub proof fn lemma_color_adds_no_markup(color: Option<Seq<char>>)
    ensures
        ({
            let c = sanitized(color_param(color));
            &&& sanitized_page(c) == SANITIZED_PAGE_HEAD@ + css_color(c) + SANITIZED_PAGE_MIDDLE@ + c
                + SANITIZED_PAGE_TAIL@
            &&& forall|i: int| 0 <= i < css_color(c).len() ==> !is_markup_char(#[trigger] css_color(c)[i])
            &&& forall|i: int| 0 <= i < c.len() ==> !is_markup_char(#[trigger] c[i])
        }),
{
    let x = color_param(color);
    if !is_sanitized(x) {
        lemma_scrubbed_is_sanitized(ammonia_cleaned(x));
    }
}

} // verus!
