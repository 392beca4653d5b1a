//! Pre-checks of filter expressions before they reach the expression
//! evaluator: the bang forms it cannot take, with the hints to show.

use vstd::prelude::*;

use crate::text::str_chars;

verus! {

/// The filter contains an escaped bang (`\!`).
pub open spec fn has_escaped_bang(s: Seq<char>) -> bool {
    exists|i: int| 0 <= i < s.len() - 1 && s[i] == '\\' && #[trigger] s[i + 1] == '!'
}

/// The filter begins with a unary bang once leading spaces are gone.
pub open spec fn starts_with_bang(s: Seq<char>) -> bool {
    crate::search::trim_front(s).len() > 0 && crate::search::trim_front(s)[0] == '!'
}

/// Does the filter contain an escaped bang?
#[verifier::loop_isolation(false)]
pub fn filter_has_escaped_bang(filter: &str) -> (r: bool)
    ensures
        r == has_escaped_bang(filter@),
{
    let cs = str_chars(filter);
    if cs.len() == 0 {
        return false;
    }
    let mut i: usize = 0;
    while i < cs.len() - 1
        invariant
            cs@.len() > 0,
            i <= cs@.len(),
            forall|j: int| 0 <= j < i ==> !(cs@[j] == '\\' && #[trigger] cs@[j + 1] == '!'),
        decreases cs.len() - i,
    {
        if cs[i] == '\\' && cs[i + 1] == '!' {
            return true;
        }
        i = i + 1;
    }
    proof {
        if has_escaped_bang(filter@) {
            let j = choose|j: int|
                0 <= j < filter@.len() - 1 && filter@[j] == '\\' && #[trigger] filter@[j + 1]
                    == '!';
            assert(false);
        }
    }
    false
}

/// Does the filter begin with a unary bang?
#[verifier::loop_isolation(false)]
pub fn filter_starts_with_bang(filter: &str) -> (r: bool)
    ensures
        r == starts_with_bang(filter@),
{
    let cs = str_chars(filter);
    let mut i: usize = 0;
    proof {
        assert(cs@.skip(0) =~= cs@);
    }
    while i < cs.len() && (cs[i] == ' ' || cs[i] == '\t' || cs[i] == '\n' || cs[i] == '\r')
        invariant
            i <= cs@.len(),
            crate::search::trim_front(cs@) == crate::search::trim_front(cs@.skip(i as int)),
        decreases cs.len() - i,
    {
        proof {
            assert(cs@.skip(i as int)[0] == cs@[i as int]);
            assert(cs@.skip(i as int).skip(1) =~= cs@.skip(i + 1 as int));
        }
        i = i + 1;
    }
    proof {
        if i < cs@.len() {
            assert(crate::search::trim_front(cs@) =~= cs@.skip(i as int));
        } else {
            assert(cs@.skip(i as int).len() == 0);
            assert(crate::search::trim_front(cs@) =~= cs@.skip(i as int));
        }
    }
    if i < cs.len() {
        cs[i] == '!'
    } else {
        false
    }
}

/// The hint shown for an escaped bang.
pub fn escaped_bang_hint() -> (r: String)
    ensures
        r@ == "`\\!` detected. Use `!=` (no backslash) or `== ... | not`."@,
{
    String::from_str("`\\!` detected. Use `!=` (no backslash) or `== ... | not`.")
}

/// The hint shown for a unary bang.
pub fn unary_bang_hint() -> (r: String)
    ensures
        r@ == "Unary `!` is unsupported. Use `not`."@,
{
    String::from_str("Unary `!` is unsupported. Use `not`.")
}

} // verus!
