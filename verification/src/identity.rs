//! Identity reconnaissance: where the player's name came from, and the
//! defensive normalisation every candidate name goes through. Reading the
//! environment and the profile path belongs to the application; it hands
//! the raw values to this module.

use vstd::prelude::*;
use crate::text::{is_ascii_alnum, ascii_upper, is_ascii_lower, strip_both, strip_start, strip_end, str_chars, to_ascii_upper, push_char};

verus! {

/// Where a display name was found.
#[derive(Clone, Copy, Debug, PartialEq, Eq)]
pub enum NameSource {
    EnvironmentVariable(&'static str),
    ProfileDirectory,
    TerminalPrompt,
}

#[derive(Clone, Debug)]
pub struct PlayerIdentity {
    pub display_name: String,
    pub source: NameSource,
}

/// The longest display name kept, in characters.
pub const MAX_NAME_LEN: usize = 24;

/// Characters a display name may contain.
pub open spec fn name_char_ok(c: char) -> bool {
    is_ascii_alnum(c) || c == ' ' || c == '.' || c == '-' || c == '_' || c == '\''
}

pub open spec fn is_space(c: char) -> bool {
    c == ' '
}

/// Punctuation stripped from both ends of a name.
pub open spec fn is_edge_punct(c: char) -> bool {
    c == '.' || c == '-' || c == '_'
}

/// `raw` restricted to name characters, then trimmed of spaces, of edge
/// punctuation, and of spaces again.
pub open spec fn cleaned_spec(raw: Seq<char>) -> Seq<char> {
    let f = raw.filter(|c: char| name_char_ok(c));
    let t1 = strip_both(f, |c: char| is_space(c));
    let t2 = strip_both(t1, |c: char| is_edge_punct(c));
    strip_both(t2, |c: char| is_space(c))
}

/// `s` with its first character in ASCII upper case.
pub open spec fn capitalized(s: Seq<char>) -> Seq<char> {
    if s.len() == 0 { s } else { s.update(0, ascii_upper(s[0])) }
}

/// The display name made from `raw`: `None` when nothing printable is
/// left after cleaning, otherwise the cleaned name, capitalised and cut to
/// `MAX_NAME_LEN` characters.
pub open spec fn sanitize_spec(raw: Seq<char>) -> Option<Seq<char>> {
    let c = cleaned_spec(raw);
    if c.len() == 0 {
        None
    } else {
        let o = capitalized(c);
        Some(if o.len() > MAX_NAME_LEN { o.take(MAX_NAME_LEN as int) } else { o })
    }
}

fn is_name_char(c: char) -> (r: bool)
    ensures
        r == name_char_ok(c),
{
    ('0' <= c && c <= '9') || ('A' <= c && c <= 'Z') || ('a' <= c && c <= 'z')
        || c == ' ' || c == '.' || c == '-' || c == '_' || c == '\''
}

/// The selected character class: spaces, or edge punctuation.
pub open spec fn strip_class(spaces: bool) -> spec_fn(char) -> bool {
    if spaces { |c: char| is_space(c) } else { |c: char| is_edge_punct(c) }
}

fn in_class(c: char, spaces: bool) -> (r: bool)
    ensures
        r == strip_class(spaces)(c),
{
    if spaces { c == ' ' } else { c == '.' || c == '-' || c == '_' }
}

/// Narrows `a..b` of `v` to the part left after stripping the class from
/// both ends.
fn strip_range(v: &Vec<char>, a: usize, b: usize, spaces: bool) -> (r: (usize, usize))
    requires
        a <= b <= v@.len(),
    ensures
        a <= r.0 <= r.1 <= b,
        v@.subrange(r.0 as int, r.1 as int) == strip_both(v@.subrange(a as int, b as int), strip_class(spaces)),
{
    let ghost p = strip_class(spaces);
    let mut lo = a;
    while lo < b && in_class(v[lo], spaces)
        invariant
            a <= lo <= b <= v@.len(),
            p == strip_class(spaces),
            strip_start(v@.subrange(a as int, b as int), p) == strip_start(v@.subrange(lo as int, b as int), p),
        decreases b - lo,
    {
        assert(v@.subrange(lo as int, b as int).drop_first() =~= v@.subrange(lo + 1, b as int));
        lo += 1;
    }
    assert(strip_start(v@.subrange(lo as int, b as int), p) == v@.subrange(lo as int, b as int));
    let mut hi = b;
    while hi > lo && in_class(v[hi - 1], spaces)
        invariant
            a <= lo <= hi <= b <= v@.len(),
            p == strip_class(spaces),
            strip_end(v@.subrange(lo as int, b as int), p) == strip_end(v@.subrange(lo as int, hi as int), p),
        decreases hi - lo,
    {
        assert(v@.subrange(lo as int, hi as int).drop_last() =~= v@.subrange(lo as int, hi - 1));
        hi -= 1;
    }
    (lo, hi)
}

/// Defensive normalisation of an untrusted name: keep ASCII letters,
/// digits, spaces and `. - _ '`, trim spaces and edge punctuation, capitalise
/// the first letter and cut to `MAX_NAME_LEN` characters.
pub fn sanitize(raw: &str) -> (r: Option<String>)
    ensures
        r matches Some(s) ==> sanitize_spec(raw@) == Some(s@),
        r is None <==> sanitize_spec(raw@) is None,
{
    let chars = str_chars(raw);
    let ghost pred = |c: char| name_char_ok(c);
    let mut kept: Vec<char> = Vec::new();
    let mut i: usize = 0;
    while i < chars.len()
        invariant
            chars@ == raw@,
            0 <= i <= chars@.len(),
            pred == (|c: char| name_char_ok(c)),
            kept@ == chars@.take(i as int).filter(pred),
        decreases chars@.len() - i,
    {
        let c = chars[i];
        proof {
            reveal_with_fuel(Seq::<_>::filter, 1);
            assert(chars@.take(i + 1).drop_last() =~= chars@.take(i as int));
            assert(chars@.take(i + 1).last() == c);
        }
        if is_name_char(c) {
            kept.push(c);
        }
        i += 1;
    }
    assert(chars@.take(chars@.len() as int) =~= chars@);
    let n = kept.len();
    assert(kept@.subrange(0, n as int) =~= kept@);
    let (a1, b1) = strip_range(&kept, 0, n, true);
    let (a2, b2) = strip_range(&kept, a1, b1, false);
    let (a3, b3) = strip_range(&kept, a2, b2, true);
    let ghost cleaned = kept@.subrange(a3 as int, b3 as int);
    assert(cleaned == cleaned_spec(raw@));
    if a3 == b3 {
        return None;
    }
    let mut out = String::new();
    let mut k = a3;
    let end = if b3 - a3 > MAX_NAME_LEN { a3 + MAX_NAME_LEN } else { b3 };
    let ghost full = capitalized(cleaned);
    while k < end
        invariant
            a3 < b3 <= kept@.len(),
            a3 <= k <= end <= b3,
            end - a3 <= MAX_NAME_LEN,
            end == (if b3 - a3 > MAX_NAME_LEN { a3 + MAX_NAME_LEN } else { b3 as int }),
            cleaned == kept@.subrange(a3 as int, b3 as int),
            full == capitalized(cleaned),
            out@ == full.take(k - a3),
        decreases end - k,
    {
        let c = if k == a3 { to_ascii_upper(kept[k]) } else { kept[k] };
        push_char(&mut out, c);
        proof {
            assert(full.take(k + 1 - a3) =~= full.take(k - a3).push(c));
        }
        k += 1;
    }
    proof {
        let o = capitalized(cleaned);
        if o.len() > MAX_NAME_LEN {
            assert(out@ =~= o.take(MAX_NAME_LEN as int));
        } else {
            assert(out@ =~= o);
        }
    }
    Some(out)
}

/// Human-readable provenance of a name.
pub open spec fn describe_spec(src: NameSource) -> Seq<char> {
    match src {
        NameSource::EnvironmentVariable(k) => "$"@ + k@,
        NameSource::ProfileDirectory => "profile directory basename"@,
        NameSource::TerminalPrompt => "manual terminal identification"@,
    }
}

impl NameSource {
    /// Human-readable provenance: `$KEY`, `profile directory basename`, or
    /// `manual terminal identification`.
    pub fn describe(&self) -> (r: String)
        ensures
            r@ == describe_spec(*self),
    {
        match self {
            NameSource::EnvironmentVariable(k) => {
                let mut s = String::from_str("$");
                s.append(k);
                s
            },
            NameSource::ProfileDirectory => String::from_str("profile directory basename"),
            NameSource::TerminalPrompt => String::from_str("manual terminal identification"),
        }
    }
}

// ----------------------------------------------------------------------
// Reconnaissance layers (the raw values come from the application)
// ----------------------------------------------------------------------

/// Layer 1: the environment variables consulted, in order (Windows ships
/// `USERNAME`, every Unix ships `USER` and legacy `LOGNAME`).
pub const ENV_CANDIDATES: [&'static str; 3] = ["USERNAME", "USER", "LOGNAME"];

pub open spec fn opt_string_view(o: Option<String>) -> Option<Seq<char>> {
    match o {
        Some(s) => Some(s@),
        None => None,
    }
}

pub open spec fn identity_view(o: Option<PlayerIdentity>) -> Option<(Seq<char>, NameSource)> {
    match o {
        Some(id) => Some((id.display_name@, id.source)),
        None => None,
    }
}

/// The name variable `k` yields, if it is set and sanitises to something.
pub open spec fn env_name_at(values: Seq<Option<Seq<char>>>, k: int) -> Option<Seq<char>> {
    match values[k] {
        Some(v) => sanitize_spec(v),
        None => None,
    }
}

/// The first candidate, from `k` on, that yields a name.
pub open spec fn first_env_hit(values: Seq<Option<Seq<char>>>, k: int) -> Option<int>
    decreases 3 - k,
{
    if k >= 3 || k < 0 {
        None
    } else if env_name_at(values, k) is Some {
        Some(k)
    } else {
        first_env_hit(values, k + 1)
    }
}

/// The identity layer 1 finds, given the values of `ENV_CANDIDATES` (each
/// `None` when unset or not Unicode).
pub open spec fn env_identity_spec(values: Seq<Option<Seq<char>>>) -> Option<(Seq<char>, NameSource)> {
    match first_env_hit(values, 0) {
        Some(k) => Some((env_name_at(values, k).unwrap(), NameSource::EnvironmentVariable(ENV_CANDIDATES[k]))),
        None => None,
    }
}

/// Layer 1: the first of `ENV_CANDIDATES` whose value sanitises to a name.
/// `values[k]` is the value of `ENV_CANDIDATES[k]`.
pub fn resolve_from_environment(values: &[Option<String>; 3]) -> (r: Option<PlayerIdentity>)
    ensures
        identity_view(r) == env_identity_spec(values@.map_values(|o: Option<String>| opt_string_view(o))),
{
    let ghost vs = values@.map_values(|o: Option<String>| opt_string_view(o));
    let mut k: usize = 0;
    while k < 3
        invariant
            0 <= k <= 3,
            vs == values@.map_values(|o: Option<String>| opt_string_view(o)),
            first_env_hit(vs, 0) == first_env_hit(vs, k as int),
        decreases 3 - k,
    {
        match &values[k] {
            Some(value) => {
                match sanitize(value.as_str()) {
                    Some(name) => {
                        assert(vs[k as int] == Some(value@));
                        return Some(PlayerIdentity { display_name: name, source: NameSource::EnvironmentVariable(ENV_CANDIDATES[k]) });
                    },
                    None => {
                        assert(vs[k as int] == Some(value@));
                    },
                }
            },
            None => {
                assert(vs[k as int] is None);
            },
        }
        k += 1;
    }
    None
}

/// Layer 2: a name from the final component of the profile directory
/// (`"C:\\Users\\alice"` gives `alice`), as extracted by the caller.
pub fn resolve_from_profile_metadata(basename: &str) -> (r: Option<PlayerIdentity>)
    ensures
        identity_view(r) == match sanitize_spec(basename@) {
            Some(n) => Some((n, NameSource::ProfileDirectory)),
            None => None,
        },
{
    match sanitize(basename) {
        Some(name) => Some(PlayerIdentity { display_name: name, source: NameSource::ProfileDirectory }),
        None => None,
    }
}

/// A path made of ASCII letters, digits and `/` only, with at least one
/// letter or digit, and not starting with `//`: one that every platform
/// splits the same way, at its slashes.
pub open spec fn plain_path(p: Seq<char>) -> bool {
    &&& forall|i: int| 0 <= i < p.len() ==> is_ascii_alnum(#[trigger] p[i]) || p[i] == '/'
    &&& exists|i: int| 0 <= i < p.len() && is_ascii_alnum(#[trigger] p[i])
    &&& !(p.len() >= 2 && p[0] == '/' && p[1] == '/')
}

/// The part of `p` after its last `/` (all of `p` when it has none).
pub open spec fn after_last_slash(p: Seq<char>) -> Seq<char>
    decreases p.len(),
{
    if p.len() == 0 {
        p
    } else if p.last() == '/' {
        Seq::empty()
    } else {
        after_last_slash(p.drop_last()).push(p.last())
    }
}

/// The last non-empty `/`-separated segment of `p`.
pub open spec fn last_path_segment(p: Seq<char>) -> Seq<char> {
    after_last_slash(strip_end(p, |c: char| c == '/'))
}

/// A final path component made of name characters, other than `.` and
/// `..`: no platform reads any of its characters as a separator.
pub open spec fn name_segment(s: Seq<char>) -> bool {
    &&& s.len() > 0
    &&& forall|i: int| 0 <= i < s.len() ==> name_char_ok(#[trigger] s[i])
    &&& s != seq!['.']
    &&& s != seq!['.', '.']
}

/// `b` is a non-empty run of consecutive characters of `p`.
pub open spec fn is_piece_of(b: Seq<char>, p: Seq<char>) -> bool {
    &&& b.len() > 0
    &&& exists|i: int| 0 <= i && i + b.len() <= p.len() && #[trigger] p.subrange(i, i + b.len()) == b
}

/// The final component of the path `raw` (`std::path::Path::file_name`),
/// when there is one and it is valid Unicode. The contract states what
/// holds on every platform: a component is a non-empty run of the path's
/// characters, an empty path has none, a plain path (see `plain_path`)
/// ends in its last slash-separated segment, and so does a plain path
/// followed by `/` and a segment of name characters (see `name_segment`). Which other characters
/// separate components, and how prefixes such as drive letters are read,
/// depends on the platform the program is built for and is left unsaid.
#[verifier::external_body]
fn path_basename(raw: &str) -> (r: Option<String>)
    ensures
        r is Some ==> is_piece_of(r.unwrap()@, raw@),
        raw@.len() == 0 ==> r is None,
        plain_path(raw@) ==> r is Some && r.unwrap()@ == last_path_segment(raw@),
        forall|p: Seq<char>, s: Seq<char>|
            #![trigger plain_path(p), name_segment(s)]
            plain_path(p) && name_segment(s) && raw@ == p + seq!['/'] + s ==> r is Some && r.unwrap()@ == s,
{
    match std::path::Path::new(raw).file_name() {
        Some(os) => match os.to_str() {
            Some(b) => Some(b.to_string()),
            None => None,
        },
        None => None,
    }
}

/// Layer 2 from the raw profile directory path: the final component of the
/// path, sanitised (`"/home/bob"` gives `Bob`); `None` when the path has no
/// final component or nothing printable is left of it.
pub fn resolve_from_profile_path(raw: &str) -> (r: Option<PlayerIdentity>)
    ensures
        raw@.len() == 0 ==> r is None,
        plain_path(raw@) ==> identity_view(r) == match sanitize_spec(last_path_segment(raw@)) {
            Some(n) => Some((n, NameSource::ProfileDirectory)),
            None => None,
        },
        r matches Some(id) ==> {
            &&& id.source == NameSource::ProfileDirectory
            &&& exists|b: Seq<char>| is_piece_of(b, raw@) && sanitize_spec(b) == Some(id.display_name@)
        },
        forall|p: Seq<char>, s: Seq<char>|
            #![trigger plain_path(p), name_segment(s)]
            plain_path(p) && name_segment(s) && raw@ == p + seq!['/'] + s ==> identity_view(r) == match sanitize_spec(s) {
                Some(n) => Some((n, NameSource::ProfileDirectory)),
                None => None,
            },
{
    match path_basename(raw) {
        Some(base) => {
            let r = resolve_from_profile_metadata(base.as_str());
            assert(r matches Some(id) ==> is_piece_of(base@, raw@) && sanitize_spec(base@) == Some(id.display_name@));
            r
        },
        None => None,
    }
}

// ----------------------------------------------------------------------
// Laws
// ----------------------------------------------------------------------

proof fn lemma_strip_start_keeps(s: Seq<char>, p: spec_fn(char) -> bool, q: spec_fn(char) -> bool)
    requires
        forall|i: int| 0 <= i < s.len() ==> q(#[trigger] s[i]),
    ensures
        forall|i: int| 0 <= i < strip_start(s, p).len() ==> q(#[trigger] strip_start(s, p)[i]),
        strip_start(s, p).len() > 0 ==> !p(strip_start(s, p)[0]),
        strip_start(s, p).len() <= s.len(),
    decreases s.len(),
{
    if s.len() > 0 && p(s[0]) {
        assert forall|i: int| 0 <= i < s.drop_first().len() implies q(#[trigger] s.drop_first()[i]) by {
            assert(s.drop_first()[i] == s[i + 1]);
        }
        lemma_strip_start_keeps(s.drop_first(), p, q);
    }
}

proof fn lemma_strip_end_keeps(s: Seq<char>, p: spec_fn(char) -> bool, q: spec_fn(char) -> bool)
    requires
        forall|i: int| 0 <= i < s.len() ==> q(#[trigger] s[i]),
    ensures
        forall|i: int| 0 <= i < strip_end(s, p).len() ==> q(#[trigger] strip_end(s, p)[i]),
        strip_end(s, p).len() > 0 ==> strip_end(s, p)[0] == s[0],
        strip_end(s, p).len() <= s.len(),
    decreases s.len(),
{
    if s.len() > 0 && p(s.last()) {
        assert forall|i: int| 0 <= i < s.drop_last().len() implies q(#[trigger] s.drop_last()[i]) by {
            assert(s.drop_last()[i] == s[i]);
        }
        lemma_strip_end_keeps(s.drop_last(), p, q);
    }
}

proof fn lemma_strip_both_keeps(s: Seq<char>, p: spec_fn(char) -> bool, q: spec_fn(char) -> bool)
    requires
        forall|i: int| 0 <= i < s.len() ==> q(#[trigger] s[i]),
    ensures
        forall|i: int| 0 <= i < strip_both(s, p).len() ==> q(#[trigger] strip_both(s, p)[i]),
        strip_both(s, p).len() > 0 ==> !p(strip_both(s, p)[0]),
{
    lemma_strip_start_keeps(s, p, q);
    lemma_strip_end_keeps(strip_start(s, p), p, q);
}

/// A sanitised name is short, printable and starts with a capital: it has
/// 1 to `MAX_NAME_LEN` characters, all of them name characters, and its
/// first character is neither a space nor a lower-case letter.
pub proof fn lemma_sanitize_shape(raw: Seq<char>)
    ensures
        sanitize_spec(raw) matches Some(s) ==> {
            &&& 1 <= s.len() <= MAX_NAME_LEN
            &&& forall|i: int| 0 <= i < s.len() ==> name_char_ok(#[trigger] s[i])
            &&& s[0] != ' '
            &&& !is_ascii_lower(s[0])
        },
{
    let q = |c: char| name_char_ok(c);
    let f = raw.filter(q);
    assert forall|i: int| 0 <= i < f.len() implies q(#[trigger] f[i]) by {
        raw.lemma_filter_pred(q, i);
    }
    let sp = |c: char| is_space(c);
    let pu = |c: char| is_edge_punct(c);
    lemma_strip_both_keeps(f, sp, q);
    let t1 = strip_both(f, sp);
    lemma_strip_both_keeps(t1, pu, q);
    let t2 = strip_both(t1, pu);
    lemma_strip_both_keeps(t2, sp, q);
    let c = strip_both(t2, sp);
    assert(c == cleaned_spec(raw));
    if c.len() > 0 {
        let o = capitalized(c);
        let c0 = c[0];
        assert(!is_space(c0));
        assert(o[0] == ascii_upper(c0));
        assert(name_char_ok(ascii_upper(c0)));
        assert forall|i: int| 0 <= i < o.len() implies name_char_ok(#[trigger] o[i]) by {
            if i > 0 {
                assert(o[i] == c[i]);
                assert(q(c[i]));
            }
        }
        let r = if o.len() > MAX_NAME_LEN { o.take(MAX_NAME_LEN as int) } else { o };
        assert(r[0] == o[0]);
        assert forall|i: int| 0 <= i < r.len() implies name_char_ok(#[trigger] r[i]) by {
            assert(r[i] == o[i]);
        }
    }
}


/// Keeping only the elements that satisfy `q` keeps a sequence whose
/// elements all do.
proof fn lemma_filter_keeps_all(s: Seq<char>, q: spec_fn(char) -> bool)
    requires
        forall|i: int| 0 <= i < s.len() ==> q(#[trigger] s[i]),
    ensures
        s.filter(q) == s,
    decreases s.len(),
{
    reveal(Seq::filter);
    if s.len() > 0 {
        let d = s.drop_last();
        assert forall|i: int| 0 <= i < d.len() implies q(#[trigger] d[i]) by {
            assert(d[i] == s[i]);
        }
        lemma_filter_keeps_all(d, q);
        assert(q(s[s.len() - 1]));
        assert(d.push(s.last()) =~= s);
    }
}

/// Stripping a class from both ends keeps a sequence that neither starts
/// nor ends in it.
proof fn lemma_strip_both_keeps_unpadded(s: Seq<char>, p: spec_fn(char) -> bool)
    requires
        s.len() > 0 ==> !p(s[0]) && !p(s.last()),
    ensures
        strip_both(s, p) == s,
{
    assert(strip_start(s, p) == s);
    assert(strip_end(s, p) == s);
}

/// Sanitising is idempotent on the names it produces whose first and last
/// characters are letters, digits or apostrophes.
pub proof fn lemma_sanitize_idempotent(raw: Seq<char>)
    requires
        sanitize_spec(raw) is Some,
        is_ascii_alnum(sanitize_spec(raw).unwrap()[0]) || sanitize_spec(raw).unwrap()[0] == '\'',
        is_ascii_alnum(sanitize_spec(raw).unwrap().last()) || sanitize_spec(raw).unwrap().last() == '\'',
    ensures
        sanitize_spec(sanitize_spec(raw).unwrap()) == sanitize_spec(raw),
{
    let s = sanitize_spec(raw).unwrap();
    lemma_sanitize_shape(raw);
    let q = |c: char| name_char_ok(c);
    assert forall|i: int| 0 <= i < s.len() implies q(#[trigger] s[i]) by {
        assert(name_char_ok(s[i]));
    }
    lemma_filter_keeps_all(s, q);
    let sp = |c: char| is_space(c);
    let pu = |c: char| is_edge_punct(c);
    lemma_strip_both_keeps_unpadded(s, sp);
    lemma_strip_both_keeps_unpadded(s, pu);
    assert(cleaned_spec(s) == s);
    assert(ascii_upper(s[0]) == s[0]);
    assert(capitalized(s) =~= s);
}

} // verus!
