//! Recognition of floating-point numerals, per the grammar documented for
//! `f64::from_str`:
//!
//! ```text
//! Float  ::= Sign? ( 'inf' | 'infinity' | 'nan' | Number )
//! Number ::= ( Digit+ | Digit+ '.' Digit* | Digit* '.' Digit+ ) Exp?
//! Exp    ::= ('e' | 'E') Sign? Digit+
//! ```
//!
//! with `inf`, `infinity` and `nan` matched case-insensitively.  Such a
//! numeral passes through expression translation unchanged.

use vstd::prelude::*;

use crate::text::{find_sub, lemma_find_sub_props, spec_find_sub};

verus! {

pub open spec fn spec_is_digit(c: char) -> bool {
    let u = c as u32;
    0x30 <= u && u <= 0x39
}

pub open spec fn spec_all_digits(s: Seq<char>) -> bool {
    forall|i: int| 0 <= i < s.len() ==> spec_is_digit(s[i])
}

fn all_digits(s: &str) -> (r: bool)
    ensures
        r == spec_all_digits(s@),
{
    let n = s.unicode_len();
    let mut i: usize = 0;
    while i < n
        invariant
            i <= n,
            n == s@.len(),
            forall|j: int| 0 <= j < i ==> spec_is_digit(s@[j]),
        decreases n - i,
    {
        let u = s.get_char(i) as u32;
        if !(0x30 <= u && u <= 0x39) {
            return false;
        }
        i += 1;
    }
    true
}

/// The input without one leading `+` or `-`.
pub open spec fn spec_strip_sign(s: Seq<char>) -> Seq<char> {
    if s.len() >= 1 && (s[0] == '+' || s[0] == '-') {
        s.skip(1)
    } else {
        s
    }
}

fn strip_sign<'a>(s: &'a str) -> (r: &'a str)
    ensures
        r@ == spec_strip_sign(s@),
{
    let n = s.unicode_len();
    if n >= 1 {
        let c = s.get_char(0);
        if c == '+' || c == '-' {
            let r = s.substring_char(1, n);
            proof {
                assert(r@ =~= s@.skip(1));
            }
            return r;
        }
    }
    s
}

/// `c` equals the (lowercase) letter `lo`, up to ASCII case.
pub open spec fn spec_ci_match(c: char, lo: char) -> bool {
    c == lo || (lo as u32 >= 32 && c as u32 == lo as u32 - 32)
}

pub open spec fn spec_eq_ci(s: Seq<char>, w: Seq<char>) -> bool {
    s.len() == w.len() && forall|i: int| 0 <= i < s.len() ==> spec_ci_match(s[i], w[i])
}

fn eq_ci(s: &str, w: &str) -> (r: bool)
    ensures
        r == spec_eq_ci(s@, w@),
{
    let n = s.unicode_len();
    let m = w.unicode_len();
    if n != m {
        return false;
    }
    let mut i: usize = 0;
    while i < n
        invariant
            i <= n,
            n == s@.len(),
            n == w@.len(),
            forall|j: int| 0 <= j < i ==> spec_ci_match(s@[j], w@[j]),
        decreases n - i,
    {
        let c = s.get_char(i);
        let lo = w.get_char(i);
        if !(c == lo || (lo as u32 >= 32 && c as u32 == lo as u32 - 32)) {
            return false;
        }
        i += 1;
    }
    true
}

/// Position of the first `e` or `E` in `s`.
pub open spec fn spec_find_e(s: Seq<char>) -> Option<int> {
    match (spec_find_sub(s, "e"@), spec_find_sub(s, "E"@)) {
        (None, None) => None,
        (Some(i), None) => Some(i),
        (None, Some(j)) => Some(j),
        (Some(i), Some(j)) => Some(
            if i <= j {
                i
            } else {
                j
            },
        ),
    }
}

fn find_e(s: &str) -> (r: Option<usize>)
    ensures
        match r {
            None => spec_find_e(s@) is None,
            Some(i) => spec_find_e(s@) == Some(i as int),
        },
{
    proof {
        reveal_strlit("e");
        reveal_strlit("E");
    }
    let a = find_sub(s, "e");
    let b = find_sub(s, "E");
    match (a, b) {
        (None, None) => None,
        (Some(i), None) => Some(i),
        (None, Some(j)) => Some(j),
        (Some(i), Some(j)) => Some(
            if i <= j {
                i
            } else {
                j
            },
        ),
    }
}

/// `Digit+ | Digit+ '.' Digit* | Digit* '.' Digit+`
pub open spec fn spec_is_mantissa(m: Seq<char>) -> bool {
    match spec_find_sub(m, "."@) {
        None => m.len() >= 1 && spec_all_digits(m),
        Some(i) => m.len() >= 2 && spec_all_digits(m.take(i)) && spec_all_digits(m.skip(i + 1)),
    }
}

fn is_mantissa(m: &str) -> (r: bool)
    ensures
        r == spec_is_mantissa(m@),
{
    proof {
        reveal_strlit(".");
    }
    let n = m.unicode_len();
    match find_sub(m, ".") {
        None => n >= 1 && all_digits(m),
        Some(i) => {
            proof {
                lemma_find_sub_props(m@, "."@);
            }
            let before = m.substring_char(0, i);
            let after = m.substring_char(i + 1, n);
            proof {
                assert(before@ =~= m@.take(i as int));
                assert(after@ =~= m@.skip(i as int + 1));
            }
            n >= 2 && all_digits(before) && all_digits(after)
        },
    }
}

/// `Sign? Digit+`
pub open spec fn spec_is_exp(e: Seq<char>) -> bool {
    let b = spec_strip_sign(e);
    b.len() >= 1 && spec_all_digits(b)
}

fn is_exp(e: &str) -> (r: bool)
    ensures
        r == spec_is_exp(e@),
{
    let b = strip_sign(e);
    b.unicode_len() >= 1 && all_digits(b)
}

/// `Mantissa Exp?`
pub open spec fn spec_is_number(x: Seq<char>) -> bool {
    match spec_find_e(x) {
        None => spec_is_mantissa(x),
        Some(i) => spec_is_mantissa(x.take(i)) && spec_is_exp(x.skip(i + 1)),
    }
}

fn is_number(x: &str) -> (r: bool)
    ensures
        r == spec_is_number(x@),
{
    let n = x.unicode_len();
    match find_e(x) {
        None => is_mantissa(x),
        Some(i) => {
            proof {
                reveal_strlit("e");
                reveal_strlit("E");
                lemma_find_sub_props(x@, "e"@);
                lemma_find_sub_props(x@, "E"@);
            }
            let mant = x.substring_char(0, i);
            let ex = x.substring_char(i + 1, n);
            proof {
                assert(mant@ =~= x@.take(i as int));
                assert(ex@ =~= x@.skip(i as int + 1));
            }
            is_mantissa(mant) && is_exp(ex)
        },
    }
}

/// The whole numeral grammar: what `str::parse::<f64>` accepts.
pub open spec fn spec_is_numeral(s: Seq<char>) -> bool {
    let b = spec_strip_sign(s);
    spec_eq_ci(b, "inf"@) || spec_eq_ci(b, "infinity"@) || spec_eq_ci(b, "nan"@)
        || spec_is_number(b)
}

pub fn is_numeral(s: &str) -> (r: bool)
    ensures
        r == spec_is_numeral(s@),
{
    let b = strip_sign(s);
    if eq_ci(b, "inf") || eq_ci(b, "infinity") || eq_ci(b, "nan") {
        return true;
    }
    is_number(b)
}

} // verus!
