//! The sanitizer: turns an untrusted string into one that can be embedded in
//! an HTML document, as text or inside a quoted attribute value, without
//! introducing an element, an attribute or an event handler.
//!
//! The markup itself is parsed and cleaned by ammonia. A scrubbing pass then
//! enforces the invariant that every sanitized string keeps: no character that
//! can open or close a tag or a quoted attribute, no `on...=` event-handler
//! assignment and no `javascript:` scheme, in any letter case.
use vstd::prelude::*;
use crate::chars::{chars_of, string_of};

verus! {

/// Characters that can open or close a tag, or end a quoted attribute value.
pub open spec fn is_markup_char(c: char) -> bool {
    c == '<' || c == '>' || c == '"' || c == '\'' || c == '`'
}

pub open spec fn is_ascii_letter(c: char) -> bool {
    ('a' <= c && c <= 'z') || ('A' <= c && c <= 'Z')
}

/// `c` equals `l` when ASCII letter case is ignored; `l` is given in lower case.
pub open spec fn same_ignoring_case(c: char, l: char) -> bool {
    c == l || ('a' <= l && l <= 'z' && c as u32 + 32 == l as u32)
}

/// An event-handler assignment `on<letters>=` with its `o` at `k` and its `=` at `j`.
pub open spec fn handler_at(s: Seq<char>, k: int, j: int) -> bool {
    &&& 0 <= k
    &&& k + 2 < j < s.len()
    &&& same_ignoring_case(s[k], 'o')
    &&& same_ignoring_case(s[k + 1], 'n')
    &&& forall|m: int| k + 2 <= m < j ==> is_ascii_letter(#[trigger] s[m])
    &&& s[j] == '='
}

pub open spec fn has_event_handler(s: Seq<char>) -> bool {
    exists|k: int, j: int| handler_at(s, k, j)
}

pub open spec fn js_scheme() -> Seq<char> {
    seq!['j', 'a', 'v', 'a', 's', 'c', 'r', 'i', 'p', 't', ':']
}

/// The scheme `javascript:` starts at `k`, in any letter case.
pub open spec fn js_at(s: Seq<char>, k: int) -> bool {
    &&& 0 <= k
    &&& k + 11 <= s.len()
    &&& forall|i: int| 0 <= i < 11 ==> same_ignoring_case(#[trigger] s[k + i], js_scheme()[i])
}

pub open spec fn has_js_scheme(s: Seq<char>) -> bool {
    exists|k: int| js_at(s, k)
}

/// The invariant of a sanitized string.
pub open spec fn is_sanitized(s: Seq<char>) -> bool {
    &&& forall|i: int| 0 <= i < s.len() ==> !is_markup_char(#[trigger] s[i])
    &&& !has_event_handler(s)
    &&& !has_js_scheme(s)
}

/// `s` ends in `on<letters>` with at least one letter after `on`: an `=` now
/// would complete an event-handler assignment.
pub open spec fn ends_in_handler_name(s: Seq<char>) -> bool {
    exists|k: int|
        0 <= k && k + 2 < s.len() && same_ignoring_case(s[k], 'o') && same_ignoring_case(s[k + 1], 'n')
            && forall|m: int| k + 2 <= m < s.len() ==> is_ascii_letter(#[trigger] s[m])
}

/// `s` ends in `javascript`: a `:` now would complete the scheme.
pub open spec fn ends_in_js_name(s: Seq<char>) -> bool {
    &&& s.len() >= 10
    &&& forall|i: int| 0 <= i < 10 ==> same_ignoring_case(#[trigger] s[s.len() - 10 + i], js_scheme()[i])
}

/// Whether the scrubbing pass drops `c` when it follows the output `out`
/// outside a tag.
pub open spec fn drops(out: Seq<char>, c: char) -> bool {
    ||| is_markup_char(c)
    ||| (c == '=' && ends_in_handler_name(out))
    ||| (c == ':' && ends_in_js_name(out))
}

/// The scrubbing pass on the rest `s` of its input, inside a tag or not, with
/// output `out` so far. A tag runs from `<` to the next `>` and is dropped
/// whole; an unclosed tag runs to the end.
pub open spec fn scrub_from(s: Seq<char>, in_tag: bool, out: Seq<char>) -> Seq<char>
    decreases s.len(),
{
    if s.len() == 0 {
        out
    } else {
        let c = s[0];
        let rest = s.drop_first();
        if in_tag {
            scrub_from(rest, c != '>', out)
        } else if c == '<' {
            scrub_from(rest, true, out)
        } else if drops(out, c) {
            scrub_from(rest, false, out)
        } else {
            scrub_from(rest, false, out.push(c))
        }
    }
}

/// What the scrubbing pass makes of `s`.
pub open spec fn scrubbed(s: Seq<char>) -> Seq<char> {
    scrub_from(s, false, Seq::empty())
}

/// Appending a character that the scrubbing pass keeps preserves the invariant.
pub proof fn lemma_push_keeps(out: Seq<char>, c: char)
    requires
        is_sanitized(out),
        !drops(out, c),
    ensures
        is_sanitized(out.push(c)),
{
    let s = out.push(c);
    assert forall|k: int, j: int| !handler_at(s, k, j) by {
        if handler_at(s, k, j) {
            if j < out.len() {
                assert forall|m: int| k + 2 <= m < j implies is_ascii_letter(#[trigger] out[m]) by {
                    assert(s[m] == out[m]);
                }
                assert(handler_at(out, k, j));
            } else {
                assert forall|m: int| k + 2 <= m < out.len() implies is_ascii_letter(
                    #[trigger] out[m],
                ) by {
                    assert(s[m] == out[m]);
                }
                assert(ends_in_handler_name(out));
            }
        }
    }
    assert forall|k: int| !js_at(s, k) by {
        if js_at(s, k) {
            if k + 11 <= out.len() {
                assert forall|i: int| 0 <= i < 11 implies same_ignoring_case(
                    #[trigger] out[k + i],
                    js_scheme()[i],
                ) by {
                    assert(s[k + i] == out[k + i]);
                }
                assert(js_at(out, k));
            } else {
                assert(same_ignoring_case(s[k + 10], js_scheme()[10]));
                assert forall|i: int| 0 <= i < 10 implies same_ignoring_case(
                    #[trigger] out[out.len() - 10 + i],
                    js_scheme()[i],
                ) by {
                    assert(s[k + i] == out[k + i]);
                }
                assert(ends_in_js_name(out));
            }
        }
    }
}

/// Appending a character that the scrubbing pass drops breaks the invariant.
pub proof fn lemma_push_breaks(out: Seq<char>, c: char)
    requires
        drops(out, c),
    ensures
        !is_sanitized(out.push(c)),
{
    let s = out.push(c);
    if is_markup_char(c) {
        assert(is_markup_char(s[out.len() as int]));
    } else if c == '=' && ends_in_handler_name(out) {
        let k = choose|k: int|
            0 <= k && k + 2 < out.len() && same_ignoring_case(out[k], 'o') && same_ignoring_case(
                out[k + 1],
                'n',
            ) && forall|m: int| k + 2 <= m < out.len() ==> is_ascii_letter(#[trigger] out[m]);
        assert forall|m: int| k + 2 <= m < out.len() implies is_ascii_letter(#[trigger] s[m]) by {
            assert(s[m] == out[m]);
        }
        assert(handler_at(s, k, out.len() as int));
    } else {
        let k = out.len() - 10;
        assert forall|i: int| 0 <= i < 11 implies same_ignoring_case(
            #[trigger] s[k + i],
            js_scheme()[i],
        ) by {
            if i < 10 {
                assert(s[k + i] == out[out.len() - 10 + i]);
            }
        }
        assert(js_at(s, k));
    }
}

/// A prefix of a sanitized string is sanitized.
pub proof fn lemma_prefix_keeps(s: Seq<char>, n: int)
    requires
        is_sanitized(s),
        0 <= n <= s.len(),
    ensures
        is_sanitized(s.subrange(0, n)),
{
    let p = s.subrange(0, n);
    assert forall|k: int, j: int| !handler_at(p, k, j) by {
        if handler_at(p, k, j) {
            assert forall|m: int| k + 2 <= m < j implies is_ascii_letter(#[trigger] s[m]) by {
                assert(p[m] == s[m]);
            }
            assert(handler_at(s, k, j));
        }
    }
    assert forall|k: int| !js_at(p, k) by {
        if js_at(p, k) {
            assert forall|i: int| 0 <= i < 11 implies same_ignoring_case(
                #[trigger] s[k + i],
                js_scheme()[i],
            ) by {
                assert(p[k + i] == s[k + i]);
            }
            assert(js_at(s, k));
        }
    }
}

/// Whatever the input, the scrubbing pass keeps the invariant of its output.
pub proof fn lemma_scrub_from_keeps(s: Seq<char>, in_tag: bool, out: Seq<char>)
    requires
        is_sanitized(out),
    ensures
        is_sanitized(scrub_from(s, in_tag, out)),
    decreases s.len(),
{
    if s.len() > 0 {
        let c = s[0];
        let rest = s.drop_first();
        if in_tag {
            lemma_scrub_from_keeps(rest, c != '>', out);
        } else if c == '<' {
            lemma_scrub_from_keeps(rest, true, out);
        } else if drops(out, c) {
            lemma_scrub_from_keeps(rest, false, out);
        } else {
            lemma_push_keeps(out, c);
            lemma_scrub_from_keeps(rest, false, out.push(c));
        }
    }
}

/// The scrubbing pass always yields a sanitized string.
pub proof fn lemma_scrubbed_is_sanitized(s: Seq<char>)
    ensures
        is_sanitized(scrubbed(s)),
{
    lemma_scrub_from_keeps(s, false, Seq::empty());
}

fn markup_char(c: char) -> (r: bool)
    ensures
        r == is_markup_char(c),
{
    c == '<' || c == '>' || c == '"' || c == '\'' || c == '`'
}

fn ascii_letter(c: char) -> (r: bool)
    ensures
        r == is_ascii_letter(c),
{
    ('a' <= c && c <= 'z') || ('A' <= c && c <= 'Z')
}

fn same_case_blind(c: char, l: char) -> (r: bool)
    ensures
        r == same_ignoring_case(c, l),
{
    c == l || ('a' <= l && l <= 'z' && c as u32 == l as u32 - 32)
}

/// Whether `s` ends in `on` followed by one or more ASCII letters.
fn ends_in_handler_name_check(s: &Vec<char>) -> (r: bool)
    ensures
        r == ends_in_handler_name(s@),
{
    let n = s.len();
    if n < 3 {
        return false;
    }
    if !ascii_letter(s[n - 1]) {
        return false;
    }
    let mut k: usize = n - 3;
    loop
        invariant
            n == s.len(),
            n >= 3,
            k + 3 <= n,
            forall|m: int| k + 2 <= m < n ==> is_ascii_letter(#[trigger] s@[m]),
            forall|k2: int|
                k < k2 && k2 + 2 < n ==> !(same_ignoring_case(s@[k2], 'o') && same_ignoring_case(
                    #[trigger] s@[k2 + 1],
                    'n',
                )),
        decreases k,
    {
        if same_case_blind(s[k], 'o') && same_case_blind(s[k + 1], 'n') {
            return true;
        }
        if k == 0 || !ascii_letter(s[k + 1]) {
            assert forall|k2: int|
                !(0 <= k2 && k2 + 2 < n && same_ignoring_case(s@[k2], 'o') && same_ignoring_case(
                    s@[k2 + 1],
                    'n',
                ) && forall|m: int| k2 + 2 <= m < n ==> is_ascii_letter(#[trigger] s@[m])) by {
                if 0 <= k2 && k2 < k {
                    assert(k2 + 2 <= k + 1 < n);
                }
            }
            return false;
        }
        k = k - 1;
    }
}

/// Whether `s` ends in `javascript`, in any letter case.
fn ends_in_js_name_check(s: &Vec<char>) -> (r: bool)
    ensures
        r == ends_in_js_name(s@),
{
    let n = s.len();
    if n < 10 {
        return false;
    }
    let b = n - 10;
    let r = same_case_blind(s[b], 'j') && same_case_blind(s[b + 1], 'a') && same_case_blind(
        s[b + 2],
        'v',
    ) && same_case_blind(s[b + 3], 'a') && same_case_blind(s[b + 4], 's') && same_case_blind(
        s[b + 5],
        'c',
    ) && same_case_blind(s[b + 6], 'r') && same_case_blind(s[b + 7], 'i') && same_case_blind(
        s[b + 8],
        'p',
    ) && same_case_blind(s[b + 9], 't');
    let ghost js = js_scheme();
    assert(js[0] == 'j' && js[1] == 'a' && js[2] == 'v' && js[3] == 'a' && js[4] == 's' && js[5]
        == 'c' && js[6] == 'r' && js[7] == 'i' && js[8] == 'p' && js[9] == 't');
    if r {
        assert forall|i: int| 0 <= i < 10 implies same_ignoring_case(
            #[trigger] s@[s@.len() - 10 + i],
            js_scheme()[i],
        ) by {
            assert(s@.len() - 10 + i == b + i);
        }
    } else {
        assert(!ends_in_js_name(s@)) by {
            if ends_in_js_name(s@) {
                assert(same_ignoring_case(s@[s@.len() - 10 + 0], js[0]));
                assert(same_ignoring_case(s@[s@.len() - 10 + 1], js[1]));
                assert(same_ignoring_case(s@[s@.len() - 10 + 2], js[2]));
                assert(same_ignoring_case(s@[s@.len() - 10 + 3], js[3]));
                assert(same_ignoring_case(s@[s@.len() - 10 + 4], js[4]));
                assert(same_ignoring_case(s@[s@.len() - 10 + 5], js[5]));
                assert(same_ignoring_case(s@[s@.len() - 10 + 6], js[6]));
                assert(same_ignoring_case(s@[s@.len() - 10 + 7], js[7]));
                assert(same_ignoring_case(s@[s@.len() - 10 + 8], js[8]));
                assert(same_ignoring_case(s@[s@.len() - 10 + 9], js[9]));
            }
        }
    }
    r
}

/// The scrubbing pass: drops every tag (from `<` to the next `>`), every
/// stray tag or quote character, and each `=` or `:` that would complete an
/// event-handler assignment or a `javascript:` scheme.
pub fn scrub(s: &str) -> (r: String)
    ensures
        r@ == scrubbed(s@),
        is_sanitized(r@),
{
    let cs = chars_of(s);
    let n = cs.len();
    let mut out: Vec<char> = Vec::new();
    let mut in_tag = false;
    let mut i: usize = 0;
    proof {
        assert(cs@.subrange(0, n as int) == cs@);
    }
    while i < n
        invariant
            n == cs.len(),
            cs@ == s@,
            i <= n,
            scrubbed(s@) == scrub_from(cs@.subrange(i as int, n as int), in_tag, out@),
            is_sanitized(out@),
        decreases n - i,
    {
        let c = cs[i];
        proof {
            let rest = cs@.subrange(i as int, n as int);
            assert(rest[0] == c);
            assert(rest.drop_first() == cs@.subrange(i + 1, n as int));
        }
        if in_tag {
            in_tag = c != '>';
        } else if c == '<' {
            in_tag = true;
        } else if markup_char(c) || (c == '=' && ends_in_handler_name_check(&out)) || (c == ':'
            && ends_in_js_name_check(&out)) {
        } else {
            proof {
                lemma_push_keeps(out@, c);
            }
            out.push(c);
        }
        i = i + 1;
    }
    proof {
        assert(cs@.subrange(n as int, n as int).len() == 0);
    }
    string_of(&out)
}

/// Whether `s` already keeps the invariant of a sanitized string.
pub fn is_sanitized_text(s: &str) -> (r: bool)
    ensures
        r == is_sanitized(s@),
{
    let cs = chars_of(s);
    let n = cs.len();
    let mut seen: Vec<char> = Vec::new();
    let mut i: usize = 0;
    while i < n
        invariant
            n == cs.len(),
            cs@ == s@,
            i <= n,
            seen@ == cs@.subrange(0, i as int),
            is_sanitized(seen@),
        decreases n - i,
    {
        let c = cs[i];
        if markup_char(c) || (c == '=' && ends_in_handler_name_check(&seen)) || (c == ':'
            && ends_in_js_name_check(&seen)) {
            proof {
                lemma_push_breaks(seen@, c);
                assert(seen@.push(c) == cs@.subrange(0, i + 1));
                if is_sanitized(s@) {
                    lemma_prefix_keeps(s@, i + 1);
                }
            }
            return false;
        }
        proof {
            lemma_push_keeps(seen@, c);
            assert(seen@.push(c) == cs@.subrange(0, i + 1));
        }
        seen.push(c);
        i = i + 1;
    }
    proof {
        assert(seen@ == s@);
    }
    true
}

/// What ammonia's default cleaning makes of a string.
pub uninterp spec fn ammonia_cleaned(s: Seq<char>) -> Seq<char>;

/// Relies on `ammonia::clean`: parses `s` as an HTML fragment and serializes
/// what its default policy keeps; the result depends on `s` alone.
#[verifier::external_body]
fn ammonia_clean(s: &str) -> (r: String)
    ensures
        r@ == ammonia_cleaned(s@),
{
    ammonia::clean(s)
}

/// What `sanitize` returns: a string that already keeps the invariant is
/// returned as it is; any other is cleaned by ammonia and then scrubbed.
pub open spec fn sanitized(s: Seq<char>) -> Seq<char> {
    if is_sanitized(s) {
        s
    } else {
        scrubbed(ammonia_cleaned(s))
    }
}

/// Sanitizes an untrusted string. Never fails: adversarial input degrades to
/// a stripped, possibly empty, string.
pub fn sanitize(input: &str) -> (r: String)
    ensures
        r@ == sanitized(input@),
        is_sanitized(r@),
{
    if is_sanitized_text(input) {
        input.to_owned()
    } else {
        let cleaned = ammonia_clean(input);
        scrub(cleaned.as_str())
    }
}

/// Sanitizing a sanitized string changes nothing.
pub proof fn lemma_sanitize_idempotent(x: Seq<char>)
    ensures
        sanitized(sanitized(x)) == sanitized(x),
{
    lemma_scrubbed_is_sanitized(ammonia_cleaned(x));
}

/// A sanitized string holds no `<` at all, so none that opens an element, and
/// no event-handler assignment `on<letters>=` in any letter case.
pub proof fn lemma_sanitized_has_no_markup(x: Seq<char>)
    ensures
        forall|i: int| 0 <= i < sanitized(x).len() ==> #[trigger] sanitized(x)[i] != '<',
        forall|k: int, j: int| !handler_at(sanitized(x), k, j),
        forall|k: int| !js_at(sanitized(x), k),
{
    lemma_scrubbed_is_sanitized(ammonia_cleaned(x));
}

} // verus!
