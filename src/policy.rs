//! Content-Security-Policy header values, built from an ordered set of
//! directives, each a name and a list of source expressions.
use vstd::prelude::*;
use crate::chars::chars_of;

verus! {

/// A directive as the contracts see it: its name and its sources.
pub type DirectiveView = (Seq<char>, Seq<Seq<char>>);

/// Why a directive was not added to a set.
#[derive(Debug, Clone, Copy, PartialEq, Eq, Structural)]
pub enum PolicyError {
    /// The name is empty or holds a character other than an ASCII letter, a digit or `-`.
    InvalidName,
    /// A source is empty or holds a character outside `!`..=`~`, or a `;` or `,`.
    InvalidSource,
    /// The set already has a directive of that name.
    DuplicateDirective,
}

pub open spec fn is_name_char(c: char) -> bool {
    ('a' <= c && c <= 'z') || ('A' <= c && c <= 'Z') || ('0' <= c && c <= '9') || c == '-'
}

pub open spec fn is_source_char(c: char) -> bool {
    '!' <= c && c <= '~' && c != ';' && c != ','
}

pub open spec fn valid_name(s: Seq<char>) -> bool {
    s.len() > 0 && forall|i: int| 0 <= i < s.len() ==> is_name_char(#[trigger] s[i])
}

pub open spec fn valid_source(s: Seq<char>) -> bool {
    s.len() > 0 && forall|i: int| 0 <= i < s.len() ==> is_source_char(#[trigger] s[i])
}

pub open spec fn valid_sources(ss: Seq<Seq<char>>) -> bool {
    forall|i: int| 0 <= i < ss.len() ==> valid_source(#[trigger] ss[i])
}

pub open spec fn has_name(ds: Seq<DirectiveView>, name: Seq<char>) -> bool {
    exists|i: int| 0 <= i < ds.len() && (#[trigger] ds[i]).0 == name
}

/// Names are unique, and every name and source is well formed.
pub open spec fn well_formed(ds: Seq<DirectiveView>) -> bool {
    &&& forall|i: int| 0 <= i < ds.len() ==> valid_name(#[trigger] ds[i].0) && valid_sources(ds[i].1)
    &&& forall|i: int, j: int| 0 <= i < j < ds.len() ==> (#[trigger] ds[i]).0 != (#[trigger] ds[j]).0
}

/// The sources of a directive, each after one space.
pub open spec fn render_sources(ss: Seq<Seq<char>>) -> Seq<char>
    decreases ss.len(),
{
    if ss.len() == 0 {
        Seq::empty()
    } else {
        render_sources(ss.drop_last()) + seq![' '] + ss.last()
    }
}

pub open spec fn render_directive(d: DirectiveView) -> Seq<char> {
    d.0 + render_sources(d.1)
}

/// The header value: the directives in order, separated by `"; "`.
pub open spec fn render_policy(ds: Seq<DirectiveView>) -> Seq<char>
    decreases ds.len(),
{
    if ds.len() == 0 {
        Seq::empty()
    } else if ds.len() == 1 {
        render_directive(ds[0])
    } else {
        render_policy(ds.drop_last()) + seq![';', ' '] + render_directive(ds.last())
    }
}

pub open spec fn strings_view(v: Seq<String>) -> Seq<Seq<char>> {
    v.map_values(|s: String| s@)
}

/// An ordered set of directives with unique names, kept in insertion order.
pub struct PolicyDirectiveSet {
    directives: Vec<(String, Vec<String>)>,
}

impl View for PolicyDirectiveSet {
    type V = Seq<DirectiveView>;

    closed spec fn view(&self) -> Seq<DirectiveView> {
        self.directives@.map_values(|d: (String, Vec<String>)| (d.0@, strings_view(d.1@)))
    }
}

fn name_char(c: char) -> (r: bool)
    ensures
        r == is_name_char(c),
{
    ('a' <= c && c <= 'z') || ('A' <= c && c <= 'Z') || ('0' <= c && c <= '9') || c == '-'
}

fn source_char(c: char) -> (r: bool)
    ensures
        r == is_source_char(c),
{
    '!' <= c && c <= '~' && c != ';' && c != ','
}

/// Whether `s` is a well-formed directive name.
pub fn is_valid_name(s: &str) -> (r: bool)
    ensures
        r == valid_name(s@),
{
    let cs = chars_of(s);
    if cs.len() == 0 {
        return false;
    }
    let mut i: usize = 0;
    while i < cs.len()
        invariant
            cs@ == s@,
            i <= cs.len(),
            forall|k: int| 0 <= k < i ==> is_name_char(#[trigger] cs@[k]),
        decreases cs.len() - i,
    {
        if !name_char(cs[i]) {
            return false;
        }
        i = i + 1;
    }
    true
}

/// Whether `s` is a well-formed source expression.
pub fn is_valid_source(s: &str) -> (r: bool)
    ensures
        r == valid_source(s@),
{
    let cs = chars_of(s);
    if cs.len() == 0 {
        return false;
    }
    let mut i: usize = 0;
    while i < cs.len()
        invariant
            cs@ == s@,
            i <= cs.len(),
            forall|k: int| 0 <= k < i ==> is_source_char(#[trigger] cs@[k]),
        decreases cs.len() - i,
    {
        if !source_char(cs[i]) {
            return false;
        }
        i = i + 1;
    }
    true
}

impl PolicyDirectiveSet {
    /// An empty set.
    pub fn new() -> (r: PolicyDirectiveSet)
        ensures
            r@ == Seq::<DirectiveView>::empty(),
            well_formed(r@),
    {
        let r = PolicyDirectiveSet { directives: Vec::new() };
        assert(r@ =~= Seq::<DirectiveView>::empty());
        r
    }

    /// The number of directives.
    pub fn len(&self) -> (r: usize)
        ensures
            r == self@.len(),
    {
        self.directives.len()
    }

    /// Adds a directive after the others. The set is left unchanged when the
    /// name is malformed, already present, or a source is malformed.
    pub fn insert(&mut self, name: String, sources: Vec<String>) -> (r: Result<(), PolicyError>)
        requires
            well_formed(old(self)@),
        ensures
            well_formed(final(self)@),
            !valid_name(name@) ==> r == Err::<(), PolicyError>(PolicyError::InvalidName),
            valid_name(name@) && has_name(old(self)@, name@) ==> r == Err::<(), PolicyError>(
                PolicyError::DuplicateDirective,
            ),
            valid_name(name@) && !has_name(old(self)@, name@) && !valid_sources(
                strings_view(sources@),
            ) ==> r == Err::<(), PolicyError>(PolicyError::InvalidSource),
            r is Ok <==> valid_name(name@) && !has_name(old(self)@, name@) && valid_sources(
                strings_view(sources@),
            ),
            r is Ok ==> final(self)@ == old(self)@.push((name@, strings_view(sources@))),
            r is Err ==> final(self)@ == old(self)@,
    {
        if !is_valid_name(name.as_str()) {
            return Err(PolicyError::InvalidName);
        }
        let mut j: usize = 0;
        while j < self.directives.len()
            invariant
                j <= self.directives.len(),
                self@ == old(self)@,
                well_formed(old(self)@),
                valid_name(name@),
                forall|k: int| 0 <= k < j ==> (#[trigger] self@[k]).0 != name@,
            decreases self.directives.len() - j,
        {
            if self.directives[j].0 == name {
                assert(self@[j as int].0 == name@);
                return Err(PolicyError::DuplicateDirective);
            }
            j = j + 1;
        }
        let mut i: usize = 0;
        while i < sources.len()
            invariant
                i <= sources.len(),
                self@ == old(self)@,
                well_formed(old(self)@),
                valid_name(name@),
                !has_name(old(self)@, name@),
                forall|k: int| 0 <= k < i ==> valid_source(#[trigger] strings_view(sources@)[k]),
            decreases sources.len() - i,
        {
            if !is_valid_source(sources[i].as_str()) {
                assert(!valid_source(strings_view(sources@)[i as int]));
                return Err(PolicyError::InvalidSource);
            }
            i = i + 1;
        }
        let ghost before = self@;
        self.directives.push((name, sources));
        assert(self@ =~= before.push((name@, strings_view(sources@))));
        Ok(())
    }
}

/// Appends to `out` one directive: its name, then each source after a space.
fn render_directive_into(out: &mut String, d: &(String, Vec<String>))
    ensures
        final(out)@ == old(out)@ + render_directive((d.0@, strings_view(d.1@))),
{
    out.append(d.0.as_str());
    let ghost start = old(out)@ + d.0@;
    let ghost ss = strings_view(d.1@);
    let mut k: usize = 0;
    assert(ss.subrange(0, 0) =~= Seq::<Seq<char>>::empty());
    while k < d.1.len()
        invariant
            k <= d.1.len(),
            ss == strings_view(d.1@),
            out@ == start + render_sources(ss.subrange(0, k as int)),
        decreases d.1.len() - k,
    {
        proof {
            reveal_strlit(" ");
            assert(ss.subrange(0, k + 1).drop_last() == ss.subrange(0, k as int));
        }
        out.append(" ");
        out.append(d.1[k].as_str());
        k = k + 1;
        proof {
            assert(out@ =~= start + render_sources(ss.subrange(0, k as int)));
        }
    }
    assert(ss.subrange(0, d.1.len() as int) == ss);
    assert(out@ =~= old(out)@ + render_directive((d.0@, ss)));
}

/// The header value for `directives`: each directive's name followed by its
/// sources, space-separated, and the directives in insertion order separated
/// by `"; "`.
pub fn build_csp_header(directives: &PolicyDirectiveSet) -> (r: String)
    ensures
        r@ == render_policy(directives@),
{
    let ghost ds = directives@;
    let mut out = String::new();
    let mut i: usize = 0;
    assert(ds.subrange(0, 0) =~= Seq::<DirectiveView>::empty());
    while i < directives.directives.len()
        invariant
            i <= directives.directives.len(),
            ds == directives@,
            out@ == render_policy(ds.subrange(0, i as int)),
        decreases directives.directives.len() - i,
    {
        proof {
            reveal_strlit("; ");
            assert(ds.subrange(0, i + 1).drop_last() == ds.subrange(0, i as int));
            assert(ds.subrange(0, i + 1).last() == ds[i as int]);
        }
        if i > 0 {
            out.append("; ");
        }
        render_directive_into(&mut out, &directives.directives[i]);
        i = i + 1;
        proof {
            if i == 1 {
                assert(ds.subrange(0, 1)[0] == ds[0]);
            }
            assert(out@ =~= render_policy(ds.subrange(0, i as int)));
        }
    }
    assert(ds.subrange(0, ds.len() as int) == ds);
    out
}

/// The policy served here: everything, scripts included, may load only from
/// the page's own origin; with no `'unsafe-inline'` source, inline scripts
/// are refused.
pub open spec fn self_only_policy() -> Seq<DirectiveView> {
    seq![("default-src"@, seq!["'self'"@]), ("script-src"@, seq!["'self'"@])]
}

fn self_only_sources() -> (r: Vec<String>)
    ensures
        strings_view(r@) == seq!["'self'"@],
{
    let mut v: Vec<String> = Vec::new();
    v.push("'self'".to_owned());
    assert(strings_view(v@) =~= seq!["'self'"@]);
    v
}

/// The fixed directive set: `default-src 'self'` and `script-src 'self'`, in that order.
pub fn default_policy() -> (r: PolicyDirectiveSet)
    ensures
        r@ == self_only_policy(),
        well_formed(r@),
{
    proof {
        reveal_strlit("default-src");
        reveal_strlit("script-src");
        reveal_strlit("'self'");
    }
    let mut set = PolicyDirectiveSet::new();
    let _ = set.insert("default-src".to_owned(), self_only_sources());
    let _ = set.insert("script-src".to_owned(), self_only_sources());
    assert(set@ =~= self_only_policy());
    set
}

/// The header value of the fixed policy.
pub fn csp_header_value() -> (r: String)
    ensures
        r@ == "default-src 'self'; script-src 'self'"@,
{
    let set = default_policy();
    let r = build_csp_header(&set);
    proof {
        reveal_strlit("default-src");
        reveal_strlit("script-src");
        reveal_strlit("'self'");
        reveal_strlit("default-src 'self'; script-src 'self'");
        let ds = self_only_policy();
        let one = seq!["'self'"@];
        assert(one.drop_last() =~= Seq::<Seq<char>>::empty());
        assert(render_sources(one.drop_last()) == Seq::<char>::empty());
        assert(one.last() == "'self'"@);
        assert(render_sources(one) =~= seq![' '] + "'self'"@);
        assert(ds.drop_last() =~= seq![ds[0]]);
        assert(render_policy(ds.drop_last()) == render_directive(ds[0]));
        assert(ds.last() == ds[1]);
        assert(render_policy(ds) == render_directive(ds[0]) + seq![';', ' '] + render_directive(
            ds[1],
        ));
        assert(r@ =~= "default-src 'self'; script-src 'self'"@);
    }
    r
}

} // verus!
