//! Decimal text for unsigned integers: rendering and parsing.

use vstd::prelude::*;

use crate::text::string_from_chars;

verus! {

/// The character is an ASCII decimal digit.
pub open spec fn is_digit(c: char) -> bool {
    48 <= c as u32 && c as u32 <= 57
}

/// Numeric value of an ASCII digit character.
pub open spec fn digit_val(c: char) -> int {
    c as u32 - 48
}

/// The digit character for a value below ten.
pub open spec fn digit_char(d: int) -> char {
    if d == 0 {
        '0'
    } else if d == 1 {
        '1'
    } else if d == 2 {
        '2'
    } else if d == 3 {
        '3'
    } else if d == 4 {
        '4'
    } else if d == 5 {
        '5'
    } else if d == 6 {
        '6'
    } else if d == 7 {
        '7'
    } else if d == 8 {
        '8'
    } else {
        '9'
    }
}

/// Decimal rendering of `n`, most significant digit first, no leading zeros
/// (except for `0` itself).
pub open spec fn dec_str(n: nat) -> Seq<char>
    decreases n,
{
    if n < 10 {
        seq![digit_char(n as int)]
    } else {
        dec_str(n / 10) + seq![digit_char((n % 10) as int)]
    }
}

/// Value of a digit string, most significant digit first.
pub open spec fn digits_val(s: Seq<char>) -> int
    decreases s.len(),
{
    if s.len() == 0 {
        0
    } else {
        digits_val(s.take(s.len() - 1)) * 10 + digit_val(s[s.len() - 1])
    }
}

/// Every character is an ASCII decimal digit.
pub open spec fn all_digits(s: Seq<char>) -> bool {
    forall|i: int| 0 <= i < s.len() ==> is_digit(s[i])
}

/// How `str::parse::<usize>` reads a string: an optional leading `+`, then
/// one or more ASCII digits whose value fits in `usize`.
pub open spec fn parse_usize_spec(s: Seq<char>) -> Option<int> {
    let d = if s.len() >= 1 && s[0] == '+' {
        s.skip(1)
    } else {
        s
    };
    if d.len() > 0 && all_digits(d) && digits_val(d) <= usize::MAX {
        Some(digits_val(d))
    } else {
        None
    }
}

pub proof fn lemma_digits_val_nonneg(s: Seq<char>)
    requires
        all_digits(s),
    ensures
        digits_val(s) >= 0,
    decreases s.len(),
{
    if s.len() > 0 {
        assert(all_digits(s.take(s.len() - 1))) by {
            assert(forall|i: int|
                0 <= i < s.take(s.len() - 1).len() ==> s.take(s.len() - 1)[i] == s[i]);
        }
        lemma_digits_val_nonneg(s.take(s.len() - 1));
    }
}

/// Extending a digit string can only grow its value.
pub proof fn lemma_digits_val_prefix(s: Seq<char>, j: int)
    requires
        all_digits(s),
        0 <= j <= s.len(),
    ensures
        digits_val(s.take(j)) <= digits_val(s),
    decreases s.len() - j,
{
    if j < s.len() {
        lemma_digits_val_prefix(s, j + 1);
        assert(all_digits(s.take(j))) by {
            assert(forall|i: int| 0 <= i < j ==> s.take(j)[i] == s[i]);
        }
        lemma_digits_val_nonneg(s.take(j));
        assert(s.take(j + 1).take(j) =~= s.take(j));
        assert(digits_val(s.take(j + 1)) == digits_val(s.take(j)) * 10 + digit_val(
            s.take(j + 1)[j],
        ));
    } else {
        assert(s.take(j) =~= s);
    }
}

/// The decimal rendering consists of digits and parses back to `n`.
pub proof fn lemma_dec_str_val(n: nat)
    ensures
        dec_str(n).len() >= 1,
        all_digits(dec_str(n)),
        digits_val(dec_str(n)) == n,
    decreases n,
{
    if n < 10 {
        assert(dec_str(n).take(0) =~= Seq::<char>::empty());
        assert(digit_char(n as int) as u32 == 48 + n);
        assert(digits_val(Seq::<char>::empty()) == 0);
        assert(digits_val(dec_str(n)) == digits_val(dec_str(n).take(0)) * 10 + digit_val(
            dec_str(n)[0],
        ));
    } else {
        lemma_dec_str_val(n / 10);
        assert(digit_char((n % 10) as int) as u32 == 48 + n % 10);
        let s = dec_str(n);
        assert(s.take(s.len() - 1) =~= dec_str(n / 10));
        assert(all_digits(s)) by {
            assert(forall|i: int| 0 <= i < s.len() - 1 ==> s[i] == dec_str(n / 10)[i]);
        }
        assert(digits_val(s) == digits_val(dec_str(n / 10)) * 10 + digit_val(
            digit_char((n % 10) as int),
        ));
    }
}

/// A value that fits in `usize` parses back from its decimal rendering.
pub proof fn lemma_parse_dec_str(n: nat)
    requires
        n <= usize::MAX,
    ensures
        parse_usize_spec(dec_str(n)) == Some(n as int),
{
    lemma_dec_str_val(n);
}

/// The digit character for a value below ten (executable form).
pub fn digit_of(d: usize) -> (c: char)
    requires
        d < 10,
    ensures
        c == digit_char(d as int),
{
    if d == 0 {
        '0'
    } else if d == 1 {
        '1'
    } else if d == 2 {
        '2'
    } else if d == 3 {
        '3'
    } else if d == 4 {
        '4'
    } else if d == 5 {
        '5'
    } else if d == 6 {
        '6'
    } else if d == 7 {
        '7'
    } else if d == 8 {
        '8'
    } else {
        '9'
    }
}

/// Decimal rendering of `n` as characters.
pub fn usize_to_chars(n: usize) -> (r: Vec<char>)
    ensures
        r@ == dec_str(n as nat),
    decreases n,
{
    if n < 10 {
        let mut v: Vec<char> = Vec::new();
        v.push(digit_of(n));
        proof {
            assert(v@ =~= dec_str(n as nat));
        }
        v
    } else {
        let mut v = usize_to_chars(n / 10);
        v.push(digit_of(n % 10));
        proof {
            assert(v@ =~= dec_str((n / 10) as nat) + seq![digit_char((n % 10) as int)]);
        }
        v
    }
}

/// Parses a `usize` the way `str::parse` does: optional `+`, digits, value
/// in range; anything else gives `None`.
pub fn parse_usize_chars(s: &Vec<char>) -> (r: Option<usize>)
    ensures
        match r {
            Some(n) => parse_usize_spec(s@) == Some(n as int),
            None => parse_usize_spec(s@) is None,
        },
{
    let ghost d: Seq<char> = if s@.len() >= 1 && s@[0] == '+' {
        s@.skip(1)
    } else {
        s@
    };
    let start: usize = if s.len() >= 1 && s[0] == '+' {
        1
    } else {
        0
    };
    if s.len() == start {
        return None;
    }
    let mut acc: usize = 0;
    let mut i: usize = start;
    proof {
        assert(d.take(0) =~= Seq::<char>::empty());
    }
    while i < s.len()
        invariant
            start <= i <= s.len(),
            start <= 1,
            s@.len() > start,
            d == s@.skip(start as int),
            d == (if s@.len() >= 1 && s@[0] == '+' {
                s@.skip(1)
            } else {
                s@
            }),
            forall|k: int| 0 <= k < i - start ==> is_digit(d[k]),
            all_digits(d.take(i - start)),
            acc as int == digits_val(d.take(i - start)),
        decreases s.len() - i,
    {
        let c = s[i];
        proof {
            assert(d[i - start] == s@[i as int]);
        }
        let v = c as u32;
        if v < 48 || v > 57 {
            proof {
                assert(!all_digits(d)) by {
                    assert(0 <= i - start < d.len() && !is_digit(d[i - start]));
                }
            }
            return None;
        }
        let dv: usize = (v - 48) as usize;
        if acc > (usize::MAX - dv) / 10 {
            proof {
                assert(is_digit(d[i - start]));
                assert(d.take(i - start + 1).take(i - start) =~= d.take(i - start));
                assert(digits_val(d.take(i - start + 1)) == acc as int * 10 + dv);
                assert(acc as int * 10 + dv > usize::MAX) by (nonlinear_arith)
                    requires
                        acc as int > (usize::MAX as int - dv) / 10,
                        0 <= dv <= 9,
                        acc as int >= 0,
                ;
                if all_digits(d) {
                    lemma_digits_val_prefix(d, i - start + 1);
                    assert(digits_val(d) > usize::MAX);
                }
            }
            return None;
        }
        acc = acc * 10 + dv;
        proof {
            assert(d.take(i - start + 1).take(i - start) =~= d.take(i - start));
            assert(digits_val(d.take(i - start + 1)) == digits_val(d.take(i - start)) * 10
                + digit_val(d[i - start]));
        }
        i = i + 1;
    }
    proof {
        assert(d.take(d.len() as int) =~= d);
        assert(all_digits(d));
    }
    Some(acc)
}

/// Decimal rendering of `n` as a string.
pub fn usize_to_string(n: usize) -> (r: String)
    ensures
        r@ == dec_str(n as nat),
{
    let cs = usize_to_chars(n);
    string_from_chars(&cs)
}

} // verus!
