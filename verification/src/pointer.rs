//! JSON Pointer segments and pointers (RFC 6901).
//!
//! A pointer addresses a location in a JSON document: `/`-separated segments
//! in which a literal `~` is written `~0` and a literal `/` is written `~1`.
//! The empty pointer addresses the whole document.

use vstd::prelude::*;

use crate::text::{push_all, push_str_chars, str_chars, string_from_chars, vec_skip};

verus! {

/// How one character of an unescaped segment is written inside a pointer.
pub open spec fn escape_char(c: char) -> Seq<char> {
    if c == '~' {
        seq!['~', '0']
    } else if c == '/' {
        seq!['~', '1']
    } else {
        seq![c]
    }
}

/// RFC 6901 escaping of a whole segment: `~` -> `~0`, `/` -> `~1`.
pub open spec fn escape_spec(s: Seq<char>) -> Seq<char>
    decreases s.len(),
{
    if s.len() == 0 {
        Seq::empty()
    } else {
        escape_char(s[0]) + escape_spec(s.skip(1))
    }
}

/// RFC 6901 unescaping, scanning left to right: `~1` -> `/`, `~0` -> `~`;
/// a `~` followed by anything else is kept as it stands.
pub open spec fn unescape_spec(s: Seq<char>) -> Seq<char>
    decreases s.len(),
{
    if s.len() == 0 {
        Seq::empty()
    } else if s[0] == '~' && s.len() >= 2 && s[1] == '1' {
        seq!['/'] + unescape_spec(s.skip(2))
    } else if s[0] == '~' && s.len() >= 2 && s[1] == '0' {
        seq!['~'] + unescape_spec(s.skip(2))
    } else {
        seq![s[0]] + unescape_spec(s.skip(1))
    }
}

/// Every `~` in the segment is followed by `0` or `1`.
pub open spec fn valid_escapes(s: Seq<char>) -> bool
    decreases s.len(),
{
    if s.len() == 0 {
        true
    } else if s[0] == '~' {
        s.len() >= 2 && (s[1] == '0' || s[1] == '1') && valid_escapes(s.skip(2))
    } else {
        valid_escapes(s.skip(1))
    }
}

/// Escaping a segment and unescaping the result gives the segment back.
pub proof fn lemma_escape_roundtrip(s: Seq<char>)
    ensures
        unescape_spec(escape_spec(s)) == s,
        valid_escapes(escape_spec(s)),
    decreases s.len(),
{
    if s.len() == 0 {
        assert(unescape_spec(escape_spec(s)) =~= s);
    } else {
        lemma_escape_roundtrip(s.skip(1));
        let e = escape_spec(s);
        if s[0] == '~' {
            assert(e =~= seq!['~', '0'] + escape_spec(s.skip(1)));
            assert(e.skip(2) =~= escape_spec(s.skip(1)));
            assert(unescape_spec(e) =~= seq!['~'] + unescape_spec(e.skip(2)));
            assert(unescape_spec(e) =~= s);
        } else if s[0] == '/' {
            assert(e =~= seq!['~', '1'] + escape_spec(s.skip(1)));
            assert(e.skip(2) =~= escape_spec(s.skip(1)));
            assert(unescape_spec(e) =~= seq!['/'] + unescape_spec(e.skip(2)));
            assert(unescape_spec(e) =~= s);
        } else {
            assert(e =~= seq![s[0]] + escape_spec(s.skip(1)));
            assert(e.skip(1) =~= escape_spec(s.skip(1)));
            if e[0] == '~' {
                assert(false);
            }
            assert(unescape_spec(e) =~= seq![s[0]] + unescape_spec(e.skip(1)));
            assert(unescape_spec(e) =~= s);
        }
    }
}

/// An escaped segment never contains a bare `/`.
pub proof fn lemma_escape_no_slash(s: Seq<char>)
    ensures
        forall|i: int| 0 <= i < escape_spec(s).len() ==> escape_spec(s)[i] != '/',
    decreases s.len(),
{
    if s.len() > 0 {
        lemma_escape_no_slash(s.skip(1));
        let h = escape_char(s[0]);
        assert forall|i: int| 0 <= i < escape_spec(s).len() implies escape_spec(s)[i] != '/' by {
            if i < h.len() {
                assert(escape_spec(s)[i] == h[i]);
            } else {
                assert(escape_spec(s)[i] == escape_spec(s.skip(1))[i - h.len()]);
            }
        }
    }
}

/// Escapes a segment held as characters.
pub fn escape_chars(s: &Vec<char>) -> (r: Vec<char>)
    ensures
        r@ == escape_spec(s@),
{
    let mut out: Vec<char> = Vec::new();
    let mut i: usize = 0;
    proof {
        assert(s@.skip(0) =~= s@);
    }
    while i < s.len()
        invariant
            i <= s.len(),
            escape_spec(s@) == out@ + escape_spec(s@.skip(i as int)),
        decreases s.len() - i,
    {
        let c = s[i];
        proof {
            assert(s@.skip(i as int)[0] == s@[i as int]);
            assert(s@.skip(i as int).skip(1) =~= s@.skip(i + 1 as int));
        }
        if c == '~' {
            out.push('~');
            out.push('0');
        } else if c == '/' {
            out.push('~');
            out.push('1');
        } else {
            out.push(c);
        }
        i = i + 1;
    }
    proof {
        assert(s@.skip(s@.len() as int) =~= Seq::<char>::empty());
        assert(escape_spec(s@) =~= out@);
    }
    out
}

/// Unescapes a segment held as characters.
pub fn unescape_chars(s: &Vec<char>) -> (r: Vec<char>)
    ensures
        r@ == unescape_spec(s@),
{
    let mut out: Vec<char> = Vec::new();
    let mut i: usize = 0;
    proof {
        assert(s@.skip(0) =~= s@);
    }
    while i < s.len()
        invariant
            i <= s.len(),
            unescape_spec(s@) == out@ + unescape_spec(s@.skip(i as int)),
        decreases s.len() - i,
    {
        let c = s[i];
        proof {
            assert(s@.skip(i as int)[0] == s@[i as int]);
            assert(s@.skip(i as int).skip(1) =~= s@.skip(i + 1 as int));
        }
        if c == '~' && i + 1 < s.len() && s[i + 1] == '1' {
            proof {
                assert(s@.skip(i as int).skip(2) =~= s@.skip(i + 2 as int));
            }
            out.push('/');
            i = i + 2;
        } else if c == '~' && i + 1 < s.len() && s[i + 1] == '0' {
            proof {
                assert(s@.skip(i as int).skip(2) =~= s@.skip(i + 2 as int));
            }
            out.push('~');
            i = i + 2;
        } else {
            out.push(c);
            i = i + 1;
        }
    }
    proof {
        assert(s@.skip(s@.len() as int) =~= Seq::<char>::empty());
        assert(unescape_spec(s@) =~= out@);
    }
    out
}

/// Unescape a single JSON Pointer segment: `~1` -> `/`, `~0` -> `~`.
pub fn unescape_segment(seg: &str) -> (r: String)
    ensures
        r@ == unescape_spec(seg@),
{
    let cs = str_chars(seg);
    let out = unescape_chars(&cs);
    string_from_chars(&out)
}

/// Re-escape a segment for embedding back into a JSON Pointer string:
/// `~` -> `~0`, `/` -> `~1`.
pub fn escape_segment(seg: &str) -> (r: String)
    ensures
        r@ == escape_spec(seg@),
{
    let cs = str_chars(seg);
    let out = escape_chars(&cs);
    string_from_chars(&out)
}


/// Index of the first `/` in `s`, or `-1` if there is none.
pub open spec fn find_slash(s: Seq<char>) -> int
    decreases s.len(),
{
    if s.len() == 0 {
        -1
    } else if s[0] == '/' {
        0
    } else if find_slash(s.skip(1)) < 0 {
        -1
    } else {
        1 + find_slash(s.skip(1))
    }
}

pub proof fn lemma_find_slash(s: Seq<char>)
    ensures
        -1 <= find_slash(s) < s.len(),
        find_slash(s) >= 0 ==> s[find_slash(s)] == '/',
        forall|j: int| 0 <= j < s.len() && s[j] == '/' ==> find_slash(s) >= 0 && find_slash(s) <= j,
    decreases s.len(),
{
    if s.len() > 0 && s[0] != '/' {
        lemma_find_slash(s.skip(1));
        assert forall|j: int|
            0 <= j < s.len() && s[j] == '/' implies find_slash(s) >= 0 && find_slash(s)
            <= j by {
            if j > 0 {
                assert(s.skip(1)[j - 1] == '/');
            }
        }
    }
}

/// The parts of `s` between its `/` separators (the way `str::split('/')`
/// cuts a string: `n` separators give `n + 1` parts, possibly empty).
pub open spec fn split_slash(s: Seq<char>) -> Seq<Seq<char>>
    decreases s.len(),
    via split_slash_decreases
{
    let k = find_slash(s);
    if k < 0 {
        seq![s]
    } else {
        seq![s.take(k)] + split_slash(s.skip(k + 1))
    }
}

#[via_fn]
proof fn split_slash_decreases(s: Seq<char>) {
    lemma_find_slash(s);
}

/// No separator: the whole string is the single part.
pub proof fn lemma_split_no_slash(u: Seq<char>)
    requires
        forall|j: int| 0 <= j < u.len() ==> u[j] != '/',
    ensures
        split_slash(u) == seq![u],
{
    lemma_find_slash(u);
    if find_slash(u) >= 0 {
        assert(u[find_slash(u)] == '/');
    }
}

/// Splitting at the first separator peels off the first part.
pub proof fn lemma_split_concat(u: Seq<char>, v: Seq<char>)
    requires
        forall|j: int| 0 <= j < u.len() ==> u[j] != '/',
    ensures
        split_slash(u + seq!['/'] + v) == seq![u] + split_slash(v),
{
    let w = u + seq!['/'] + v;
    lemma_find_slash(w);
    assert(w[u.len() as int] == '/');
    let k = find_slash(w);
    assert(0 <= k <= u.len());
    assert(w[k] == '/');
    if k < u.len() {
        assert(w[k] == u[k]);
        assert(false);
    }
    assert(k == u.len());
    assert(w.take(k) =~= u);
    assert(w.skip(k + 1) =~= v);
    assert(split_slash(w) =~= seq![u] + split_slash(v));
}

/// The views of a sequence of character vectors.
pub open spec fn views_of(v: Seq<Vec<char>>) -> Seq<Seq<char>> {
    v.map_values(|t: Vec<char>| t@)
}

pub proof fn lemma_views_push(v: Seq<Vec<char>>, x: Vec<char>)
    ensures
        views_of(v.push(x)) == views_of(v).push(x@),
{
    assert(views_of(v.push(x)) =~= views_of(v).push(x@));
}

/// Splits characters on `/`.
pub fn split_slash_chars(s: &Vec<char>) -> (r: Vec<Vec<char>>)
    ensures
        views_of(r@) == split_slash(s@),
{
    let mut out: Vec<Vec<char>> = Vec::new();
    let mut cur: Vec<char> = Vec::new();
    let mut i: usize = 0;
    proof {
        assert(cur@ + s@.skip(0) =~= s@);
        assert(views_of(out@) =~= Seq::<Seq<char>>::empty());
    }
    while i < s.len()
        invariant
            i <= s.len(),
            forall|j: int| 0 <= j < cur@.len() ==> cur@[j] != '/',
            split_slash(s@) == views_of(out@) + split_slash(cur@ + s@.skip(i as int)),
        decreases s.len() - i,
    {
        let c = s[i];
        proof {
            assert(s@.skip(i as int)[0] == s@[i as int]);
        }
        if c == '/' {
            proof {
                assert(cur@ + s@.skip(i as int) =~= cur@ + seq!['/'] + s@.skip(i + 1 as int));
                lemma_split_concat(cur@, s@.skip(i + 1 as int));
                lemma_views_push(out@, cur);
            }
            let ghost curv = cur@;
            out.push(cur);
            cur = Vec::new();
            proof {
                assert(views_of(out@) + split_slash(cur@ + s@.skip(i + 1 as int)) =~= (views_of(
                    out@.drop_last(),
                ) + seq![curv]) + split_slash(s@.skip(i + 1 as int))) by {
                    assert(out@.drop_last() =~= out@.subrange(0, out@.len() - 1));
                    assert(cur@ + s@.skip(i + 1 as int) =~= s@.skip(i + 1 as int));
                    assert(views_of(out@) =~= views_of(out@.drop_last()).push(curv)) by {
                        assert(out@.drop_last().push(out@.last()) =~= out@);
                        lemma_views_push(out@.drop_last(), out@.last());
                    }
                }
            }
        } else {
            let ghost curv = cur@;
            cur.push(c);
            proof {
                assert(cur@ + s@.skip(i + 1 as int) =~= curv + s@.skip(i as int));
            }
        }
        i = i + 1;
    }
    proof {
        assert(cur@ + s@.skip(s@.len() as int) =~= cur@);
        lemma_split_no_slash(cur@);
        lemma_views_push(out@, cur);
    }
    out.push(cur);
    proof {
        assert(out@.drop_last().push(out@.last()) =~= out@);
        assert(views_of(out@) =~= split_slash(s@)) by {
            assert(out@.drop_last() =~= out@.subrange(0, out@.len() - 1));
            lemma_views_push(out@.drop_last(), out@.last());
            assert(views_of(out@.drop_last()) + seq![out@.last()@] =~= views_of(
                out@.drop_last(),
            ).push(out@.last()@));
        }
    }
    out
}


/// Error raised when text cannot be read as a JSON Pointer.
#[derive(Clone, Copy, Debug)]
pub enum PointerError {
    /// A `~` escape in a segment is followed by this character instead of
    /// `0` or `1`.
    InvalidEscape(char),
    /// A segment ends with a bare `~`.
    InvalidEscapeAtEnd,
    /// A non-empty pointer does not start with `/`.
    NotAPointer,
}

/// The error names a fault that the segment really has.
pub open spec fn escape_fault(s: Seq<char>, e: PointerError) -> bool {
    match e {
        PointerError::InvalidEscape(c) => !(c == '0' || c == '1') && (exists|i: int|
            0 <= i < s.len() - 1 && s[i] == '~' && #[trigger] s[i + 1] == c),
        PointerError::InvalidEscapeAtEnd => s.len() > 0 && s[s.len() - 1] == '~',
        PointerError::NotAPointer => false,
    }
}

/// The description of a pointer error, naming the offending escape.
pub open spec fn pointer_error_text(e: PointerError) -> Seq<char> {
    match e {
        PointerError::InvalidEscape(c) => "Invalid JSON Pointer escape '~"@ + seq![c]
            + "' in segment"@,
        PointerError::InvalidEscapeAtEnd => "Invalid JSON Pointer escape '~' at end of segment"@,
        PointerError::NotAPointer => "JSON Pointer must start with '/'"@,
    }
}

impl PointerError {
    /// A short description of the error, naming the offending escape.
    pub fn message(&self) -> (r: String)
        ensures
            r@ == pointer_error_text(*self),
    {
        match self {
            PointerError::InvalidEscape(c) => {
                let mut out: Vec<char> = Vec::new();
                push_str_chars(&mut out, "Invalid JSON Pointer escape '~");
                out.push(*c);
                push_str_chars(&mut out, "' in segment");
                proof {
                    assert(out@ =~= pointer_error_text(*self));
                }
                string_from_chars(&out)
            },
            PointerError::InvalidEscapeAtEnd => {
                String::from_str("Invalid JSON Pointer escape '~' at end of segment")
            },
            PointerError::NotAPointer => {
                String::from_str("JSON Pointer must start with '/'")
            },
        }
    }
}

/// The views of a sequence of strings.
pub open spec fn string_views(v: Seq<String>) -> Seq<Seq<char>> {
    v.map_values(|t: String| t@)
}

/// Every raw segment uses only well-formed escapes.
pub open spec fn all_valid(raw: Seq<Seq<char>>) -> bool {
    forall|i: int| 0 <= i < raw.len() ==> valid_escapes(raw[i])
}

/// Each raw segment, unescaped.
pub open spec fn unescaped_all(raw: Seq<Seq<char>>) -> Seq<Seq<char>> {
    raw.map_values(|t: Seq<char>| unescape_spec(t))
}

/// Reading the segments of a pointer that starts with `/`: split the rest on
/// `/`, demand well-formed escapes, unescape each part.
pub open spec fn parse_segments_spec(p: Seq<char>) -> Option<Seq<Seq<char>>> {
    let raw = split_slash(p.skip(1));
    if all_valid(raw) {
        Some(unescaped_all(raw))
    } else {
        None
    }
}

/// Reading a whole pointer: the empty pointer addresses the root (no
/// segments); any other pointer must start with `/`.
pub open spec fn parse_pointer_spec(p: Seq<char>) -> Option<Seq<Seq<char>>> {
    if p.len() == 0 {
        Some(Seq::empty())
    } else if p[0] != '/' {
        None
    } else {
        parse_segments_spec(p)
    }
}

/// The pointer text for the segments from position `k` on: `/` followed by
/// the escaped segment, repeated.
pub open spec fn join_tail(segs: Seq<Seq<char>>, k: int) -> Seq<char>
    decreases segs.len() - k,
{
    if k < 0 || k >= segs.len() {
        Seq::empty()
    } else {
        seq!['/'] + escape_spec(segs[k]) + join_tail(segs, k + 1)
    }
}

/// The pointer text for a list of unescaped segments; empty for no segments.
pub open spec fn built_pointer_spec(segs: Seq<Seq<char>>) -> Seq<char> {
    join_tail(segs, 0)
}

/// Canonical pointer text for error messages: the root stays empty, a valid
/// pointer is rebuilt in canonical escaped form, an invalid one is kept, and
/// a bare slash path has each of its parts escaped.
pub open spec fn normalize_spec(p: Seq<char>) -> Seq<char> {
    if p.len() == 0 {
        Seq::empty()
    } else if p[0] == '/' {
        match parse_segments_spec(p) {
            Some(segs) => built_pointer_spec(segs),
            None => p,
        }
    } else {
        built_pointer_spec(split_slash(p))
    }
}

/// Finds a malformed escape in one segment held as characters, naming the
/// offending character.
pub fn find_invalid_escape(s: &Vec<char>) -> (r: Option<PointerError>)
    ensures
        r is None <==> valid_escapes(s@),
        match r {
            Some(e) => escape_fault(s@, e),
            None => true,
        },
{
    let mut i: usize = 0;
    proof {
        assert(s@.skip(0) =~= s@);
    }
    while i < s.len()
        invariant
            i <= s.len(),
            valid_escapes(s@) == valid_escapes(s@.skip(i as int)),
        decreases s.len() - i,
    {
        let c = s[i];
        proof {
            assert(s@.skip(i as int)[0] == s@[i as int]);
            assert(s@.skip(i as int).skip(1) =~= s@.skip(i + 1 as int));
        }
        if c == '~' {
            if i + 1 >= s.len() {
                proof {
                    assert(s@[s@.len() - 1] == '~');
                }
                return Some(PointerError::InvalidEscapeAtEnd);
            }
            let nxt = s[i + 1];
            if !(nxt == '0' || nxt == '1') {
                proof {
                    assert(s@[i as int] == '~' && s@[i + 1] == nxt);
                }
                return Some(PointerError::InvalidEscape(nxt));
            }
            proof {
                assert(s@.skip(i as int).skip(2) =~= s@.skip(i + 2 as int));
            }
            i = i + 2;
        } else {
            i = i + 1;
        }
    }
    proof {
        assert(s@.skip(s@.len() as int) =~= Seq::<char>::empty());
    }
    None
}

/// Validate that all `~` escapes in a pointer segment are well-formed; the
/// error names the offending escape.
pub fn validate_escaped_segment(seg: &str) -> (r: Result<(), PointerError>)
    ensures
        r is Ok <==> valid_escapes(seg@),
        match r {
            Ok(_) => true,
            Err(e) => escape_fault(seg@, e),
        },
{
    let cs = str_chars(seg);
    match find_invalid_escape(&cs) {
        None => Ok(()),
        Some(e) => Err(e),
    }
}

/// Parses the segments of a pointer held as characters.
fn parse_segments_chars(cs: &Vec<char>, out: &mut Vec<String>) -> (r: Result<(), PointerError>)
    requires
        cs@.len() >= 1,
        old(out)@.len() == 0,
    ensures
        match r {
            Ok(_) => parse_segments_spec(cs@) == Some(string_views(final(out)@)),
            Err(e) => parse_segments_spec(cs@) is None && !(e is NotAPointer),
        },
{
    let rest = vec_skip(cs, 1);
    let parts = split_slash_chars(&rest);
    let ghost raw = split_slash(cs@.skip(1));
    let mut k: usize = 0;
    while k < parts.len()
        invariant
            k <= parts.len(),
            raw == split_slash(cs@.skip(1)),
            views_of(parts@) == raw,
            forall|j: int| 0 <= j < k ==> valid_escapes(raw[j]),
            string_views(out@) =~= unescaped_all(raw).take(k as int),
        decreases parts.len() - k,
    {
        let ghost outv = out@;
        match find_invalid_escape(&parts[k]) {
            Some(e) => {
                proof {
                    assert(raw[k as int] == parts@[k as int]@);
                    assert(!all_valid(raw)) by {
                        assert(0 <= k < raw.len() && !valid_escapes(raw[k as int]));
                    }
                }
                return Err(e);
            },
            None => {},
        }
        let un = unescape_chars(&parts[k]);
        out.push(string_from_chars(&un));
        proof {
            assert(string_views(out@) =~= string_views(outv).push(un@));
            assert(unescaped_all(raw).take(k + 1 as int) =~= unescaped_all(raw).take(
                k as int,
            ).push(unescape_spec(raw[k as int])));
        }
        k = k + 1;
    }
    proof {
        assert(all_valid(raw));
        assert(unescaped_all(raw).take(raw.len() as int) =~= unescaped_all(raw));
    }
    Ok(())
}

/// Parses a non-empty pointer (which must start with `/`) into unescaped
/// segments.
pub fn parse_pointer_segments(pointer: &str) -> (r: Result<Vec<String>, PointerError>)
    requires
        pointer@.len() >= 1,
    ensures
        match r {
            Ok(segs) => pointer@[0] == '/' && parse_segments_spec(pointer@) == Some(
                string_views(segs@),
            ),
            Err(e) => e is NotAPointer && pointer@[0] != '/' || !(e is NotAPointer)
                && parse_segments_spec(pointer@) is None,
        },
{
    let cs = str_chars(pointer);
    if cs[0] != '/' {
        return Err(PointerError::NotAPointer);
    }
    let mut out: Vec<String> = Vec::new();
    match parse_segments_chars(&cs, &mut out) {
        Ok(_) => Ok(out),
        Err(e) => Err(e),
    }
}

/// Parse a JSON Pointer string into a vector of unescaped segments.
/// The empty string means the root document (no segments); any other pointer
/// must start with `/`.
pub fn parse_pointer(pointer: &str) -> (r: Result<Vec<String>, PointerError>)
    ensures
        match r {
            Ok(segs) => parse_pointer_spec(pointer@) == Some(string_views(segs@)),
            Err(_) => parse_pointer_spec(pointer@) is None,
        },
{
    let cs = str_chars(pointer);
    if cs.len() == 0 {
        let segs: Vec<String> = Vec::new();
        proof {
            assert(string_views(segs@) =~= Seq::<Seq<char>>::empty());
        }
        return Ok(segs);
    }
    if cs[0] != '/' {
        return Err(PointerError::NotAPointer);
    }
    let mut out: Vec<String> = Vec::new();
    match parse_segments_chars(&cs, &mut out) {
        Ok(_) => Ok(out),
        Err(e) => Err(e),
    }
}

/// Builds pointer text from unescaped segments held as characters.
pub fn build_pointer_chars(parts: &Vec<Vec<char>>) -> (r: Vec<char>)
    ensures
        r@ == built_pointer_spec(views_of(parts@)),
{
    let ghost segs = views_of(parts@);
    let mut out: Vec<char> = Vec::new();
    let mut k: usize = 0;
    while k < parts.len()
        invariant
            k <= parts.len(),
            segs == views_of(parts@),
            join_tail(segs, 0) == out@ + join_tail(segs, k as int),
        decreases parts.len() - k,
    {
        out.push('/');
        let esc = escape_chars(&parts[k]);
        push_all(&mut out, &esc);
        k = k + 1;
    }
    out
}

/// Build a JSON Pointer string from unescaped segments.
pub fn build_pointer_from_segments(segments: &Vec<String>) -> (r: String)
    ensures
        r@ == built_pointer_spec(string_views(segments@)),
{
    let mut parts: Vec<Vec<char>> = Vec::new();
    let mut k: usize = 0;
    while k < segments.len()
        invariant
            k <= segments.len(),
            views_of(parts@) =~= string_views(segments@).take(k as int),
        decreases segments.len() - k,
    {
        let ghost pv = parts@;
        parts.push(str_chars(segments[k].as_str()));
        proof {
            lemma_views_push(pv, parts@.last());
            assert(parts@ =~= pv.push(parts@.last()));
            assert(string_views(segments@).take(k + 1 as int) =~= string_views(
                segments@,
            ).take(k as int).push(segments@[k as int]@));
        }
        k = k + 1;
    }
    proof {
        assert(string_views(segments@).take(segments@.len() as int) =~= string_views(segments@));
    }
    let out = build_pointer_chars(&parts);
    string_from_chars(&out)
}

/// Normalize pointer text for error messages: keep the root pointer empty,
/// rebuild a valid pointer in canonical escaped form, keep an invalid pointer
/// as it stands, and escape each slash-separated part of a bare path.
pub fn normalize_pointer_for_error(path: &str) -> (r: String)
    ensures
        r@ == normalize_spec(path@),
{
    let cs = str_chars(path);
    if cs.len() == 0 {
        let out: Vec<char> = Vec::new();
        return string_from_chars(&out);
    }
    if cs[0] == '/' {
        let mut segs: Vec<String> = Vec::new();
        match parse_segments_chars(&cs, &mut segs) {
            Ok(_) => build_pointer_from_segments(&segs),
            Err(_) => String::from_str(path),
        }
    } else {
        let parts = split_slash_chars(&cs);
        let out = build_pointer_chars(&parts);
        string_from_chars(&out)
    }
}

/// Escapes one segment for use in a pointer path.
pub fn escape_pointer_segment(seg: &str) -> (r: String)
    ensures
        r@ == escape_spec(seg@),
{
    escape_segment(seg)
}

/// Appending a segment extends the pointer text by `/` and the escaped
/// segment.
pub proof fn lemma_join_snoc(segs: Seq<Seq<char>>, x: Seq<char>, k: int)
    requires
        0 <= k <= segs.len(),
    ensures
        join_tail(segs.push(x), k) == join_tail(segs, k) + seq!['/'] + escape_spec(x),
    decreases segs.len() - k,
{
    if k == segs.len() {
        assert(segs.push(x)[k] == x);
        assert(join_tail(segs.push(x), k + 1) =~= Seq::<char>::empty());
        assert(join_tail(segs, k) =~= Seq::<char>::empty());
        assert(join_tail(segs.push(x), k) =~= join_tail(segs, k) + seq!['/'] + escape_spec(x));
    } else {
        lemma_join_snoc(segs, x, k + 1);
        assert(segs.push(x)[k] == segs[k]);
        assert(join_tail(segs.push(x), k) =~= join_tail(segs, k) + seq!['/'] + escape_spec(x));
    }
}

/// A pointer built from one more segment is the shorter pointer, `/`, and the
/// escaped segment.
pub proof fn lemma_built_snoc(segs: Seq<Seq<char>>, x: Seq<char>)
    ensures
        built_pointer_spec(segs.push(x)) == built_pointer_spec(segs) + seq!['/'] + escape_spec(x),
{
    lemma_join_snoc(segs, x, 0);
}

/// Only the empty segment escapes to the empty string.
pub proof fn lemma_escape_empty(s: Seq<char>)
    ensures
        escape_spec(s).len() == 0 ==> s.len() == 0,
{
    lemma_escape_roundtrip(s);
    if escape_spec(s).len() == 0 {
        assert(escape_spec(s) =~= Seq::<char>::empty());
        assert(unescape_spec(Seq::<char>::empty()).len() == 0);
    }
}

/// The escaped raw segments for the tail of a segment list.
pub open spec fn raw_from(segs: Seq<Seq<char>>, k: int) -> Seq<Seq<char>> {
    Seq::new((segs.len() - k) as nat, |i: int| escape_spec(segs[k + i]))
}

proof fn lemma_join_split(segs: Seq<Seq<char>>, k: int)
    requires
        0 <= k < segs.len(),
    ensures
        split_slash(join_tail(segs, k).skip(1)) == raw_from(segs, k),
    decreases segs.len() - k,
{
    let body = join_tail(segs, k).skip(1);
    assert(body =~= escape_spec(segs[k]) + join_tail(segs, k + 1));
    lemma_escape_no_slash(segs[k]);
    if k + 1 >= segs.len() {
        assert(body =~= escape_spec(segs[k]));
        lemma_split_no_slash(body);
        assert(split_slash(body) =~= raw_from(segs, k));
    } else {
        lemma_join_split(segs, k + 1);
        assert(body =~= escape_spec(segs[k]) + seq!['/'] + join_tail(segs, k + 1).skip(1));
        lemma_split_concat(escape_spec(segs[k]), join_tail(segs, k + 1).skip(1));
        assert(split_slash(body) =~= seq![escape_spec(segs[k])] + raw_from(segs, k + 1));
        assert(split_slash(body) =~= raw_from(segs, k));
    }
}

/// A pointer built from segments parses back to exactly those segments.
pub proof fn lemma_built_pointer_parses(segs: Seq<Seq<char>>)
    ensures
        parse_pointer_spec(built_pointer_spec(segs)) == Some(segs),
{
    let p = built_pointer_spec(segs);
    if segs.len() == 0 {
        assert(p =~= Seq::<char>::empty());
        assert(parse_pointer_spec(p) == Some(Seq::<Seq<char>>::empty()));
    } else {
        assert(p =~= seq!['/'] + escape_spec(segs[0]) + join_tail(segs, 1));
        assert(p[0] == '/');
        lemma_join_split(segs, 0);
        let raw = split_slash(p.skip(1));
        assert(raw == raw_from(segs, 0));
        assert(all_valid(raw)) by {
            assert forall|i: int| 0 <= i < raw.len() implies valid_escapes(raw[i]) by {
                lemma_escape_roundtrip(segs[i]);
            }
        }
        assert(unescaped_all(raw) =~= segs) by {
            assert forall|i: int| 0 <= i < segs.len() implies unescaped_all(raw)[i] == segs[i] by {
                lemma_escape_roundtrip(segs[i]);
            }
        }
    }
}

} // verus!

