//! The expression translator: renders one Flow expression as C++ expression
//! text, recording which headers the rendered text requires.
//!
//! Priority order: the keyword `phi`, a double-quoted string literal, the
//! literals `true`/`false`, a floating-point numeral (passed through
//! unchanged), the power operator `" ^ "`, and finally the whole-string
//! keyword substitutions `" and "`, `" or "`, `"not "`.

use vstd::prelude::*;

use crate::numeral::{is_numeral, spec_is_numeral};
use crate::text::{
    find_sub, lemma_find_sub_props, lemma_trim_len, replace, spec_find_sub, spec_replace,
    spec_trim, str_eq, trim,
};

verus! {

/// Header flags for the generated translation unit.  Flags are only ever set,
/// never cleared, within one translation run.
pub struct IncludeSet {
    pub iostream: bool,
    pub string: bool,
    pub cmath: bool,
}

impl Default for IncludeSet {
    fn default() -> (r: Self)
        ensures
            !r.iostream,
            !r.string,
            !r.cmath,
    {
        IncludeSet { iostream: false, string: false, cmath: false }
    }
}

/// The rendered text of one Flow expression, together with whether it needs
/// the string header and whether it needs the math header.
pub open spec fn spec_translate_expr(s: Seq<char>) -> (Seq<char>, bool, bool)
    decreases s.len(),
{
    let t = spec_trim(s);
    if t == "phi"@ {
        ("1.6180339887498948"@, false, false)
    } else if t.len() >= 1 && t[0] == '"' && t[t.len() - 1] == '"' {
        ("std::string("@ + t + ")"@, true, false)
    } else if t == "true"@ {
        (t, false, false)
    } else if t == "false"@ {
        (t, false, false)
    } else if spec_is_numeral(t) {
        (t, false, false)
    } else {
        match spec_find_sub(t, " ^ "@) {
            Some(i) => {
                proof {
                    reveal_strlit(" ^ ");
                    lemma_trim_len(s);
                    lemma_find_sub_props(t, " ^ "@);
                }
                let l = spec_translate_expr(t.take(i));
                let r = spec_translate_expr(t.skip(i + 3));
                ("std::pow("@ + l.0 + ", "@ + r.0 + ")"@, l.1 || r.1, true)
            },
            None => (
                spec_replace(
                    spec_replace(spec_replace(t, " and "@, " && "@), " or "@, " || "@),
                    "not "@,
                    "!"@,
                ),
                false,
                false,
            ),
        }
    }
}

/// Renders one Flow expression as C++ text, setting the `string` and `cmath`
/// flags of `includes` when the expression requires those headers.
pub fn translate_expr(s: &str, includes: &mut IncludeSet) -> (r: String)
    ensures
        r@ == spec_translate_expr(s@).0,
        final(includes).string == (old(includes).string || spec_translate_expr(s@).1),
        final(includes).cmath == (old(includes).cmath || spec_translate_expr(s@).2),
        final(includes).iostream == old(includes).iostream,
    decreases s@.len(),
{
    let t = trim(s);
    proof {
        lemma_trim_len(s@);
    }
    if str_eq(t, "phi") {
        return String::from_str("1.6180339887498948");
    }
    let n = t.unicode_len();
    if n >= 1 && t.get_char(0) == '"' && t.get_char(n - 1) == '"' {
        includes.string = true;
        let mut r = String::from_str("std::string(");
        r.append(t);
        r.append(")");
        return r;
    }
    if str_eq(t, "true") {
        return String::from_str("true");
    }
    if str_eq(t, "false") {
        return String::from_str("false");
    }
    if is_numeral(t) {
        return String::from_str(t);
    }
    proof {
        reveal_strlit(" ^ ");
    }
    match find_sub(t, " ^ ") {
        Some(i) => {
            includes.cmath = true;
            proof {
                lemma_find_sub_props(t@, " ^ "@);
            }
            let left = t.substring_char(0, i);
            let right = t.substring_char(i + 3, n);
            proof {
                assert(left@ =~= t@.take(i as int));
                assert(right@ =~= t@.skip(i as int + 3));
            }
            let lt = translate_expr(left, includes);
            let rt = translate_expr(right, includes);
            let mut r = String::from_str("std::pow(");
            r.append(lt.as_str());
            r.append(", ");
            r.append(rt.as_str());
            r.append(")");
            r
        },
        None => {
            proof {
                reveal_strlit(" and ");
                reveal_strlit(" or ");
                reveal_strlit("not ");
            }
            let a = replace(t, " and ", " && ");
            let b = replace(a.as_str(), " or ", " || ");
            let c = replace(b.as_str(), "not ", "!");
            c
        },
    }
}

} // verus!
