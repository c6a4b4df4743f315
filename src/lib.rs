//! Cross-site-scripting mitigations: a sanitizer for untrusted strings and a
//! builder for Content-Security-Policy header values, plus the page bodies
//! that show each rendering path.
mod chars;
pub mod pages;
pub mod policy;
pub mod sanitizer;
