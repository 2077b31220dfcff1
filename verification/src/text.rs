//! Verified building blocks for working with text as sequences of characters:
//! whitespace trimming, prefix/suffix tests, substring search and substring
//! replacement.  Every executable function is specified against a spec
//! function over `Seq<char>`.

use vstd::prelude::*;

verus! {

/// The Unicode `White_Space` code points: exactly the characters that
/// `str::trim` removes.
pub open spec fn spec_is_space(c: char) -> bool {
    let u = c as u32;
    u == 0x09 || u == 0x0A || u == 0x0B || u == 0x0C || u == 0x0D || u == 0x20 || u == 0x85
        || u == 0xA0 || u == 0x1680 || (0x2000 <= u && u <= 0x200A) || u == 0x2028 || u == 0x2029
        || u == 0x202F || u == 0x205F || u == 0x3000
}

pub fn is_space(c: char) -> (r: bool)
    ensures
        r == spec_is_space(c),
{
    let u = c as u32;
    u == 0x09 || u == 0x0A || u == 0x0B || u == 0x0C || u == 0x0D || u == 0x20 || u == 0x85
        || u == 0xA0 || u == 0x1680 || (0x2000 <= u && u <= 0x200A) || u == 0x2028 || u == 0x2029
        || u == 0x202F || u == 0x205F || u == 0x3000
}

pub open spec fn spec_starts_with(s: Seq<char>, p: Seq<char>) -> bool {
    p.len() <= s.len() && s.subrange(0, p.len() as int) == p
}

pub open spec fn spec_ends_with(s: Seq<char>, p: Seq<char>) -> bool {
    p.len() <= s.len() && s.subrange(s.len() - p.len(), s.len() as int) == p
}

pub fn starts_with(s: &str, p: &str) -> (r: bool)
    ensures
        r == spec_starts_with(s@, p@),
{
    let n = s.unicode_len();
    let m = p.unicode_len();
    if m > n {
        return false;
    }
    let mut i: usize = 0;
    while i < m
        invariant
            i <= m,
            m <= n,
            n == s@.len(),
            m == p@.len(),
            forall|j: int| 0 <= j < i ==> s@[j] == p@[j],
        decreases m - i,
    {
        if s.get_char(i) != p.get_char(i) {
            assert(s@.subrange(0, p@.len() as int)[i as int] == s@[i as int]);
            return false;
        }
        i += 1;
    }
    assert(s@.subrange(0, p@.len() as int) =~= p@);
    true
}

pub fn ends_with(s: &str, p: &str) -> (r: bool)
    ensures
        r == spec_ends_with(s@, p@),
{
    let n = s.unicode_len();
    let m = p.unicode_len();
    if m > n {
        return false;
    }
    let d = n - m;
    let mut i: usize = 0;
    while i < m
        invariant
            i <= m,
            m <= n,
            d == n - m,
            n == s@.len(),
            m == p@.len(),
            forall|j: int| 0 <= j < i ==> s@[d + j] == p@[j],
        decreases m - i,
    {
        if s.get_char(d + i) != p.get_char(i) {
            assert(s@.subrange(s@.len() - p@.len(), s@.len() as int)[i as int] == s@[d + i as int]);
            return false;
        }
        i += 1;
    }
    assert(s@.subrange(s@.len() - p@.len(), s@.len() as int) =~= p@);
    true
}

pub fn str_eq(a: &str, b: &str) -> (r: bool)
    ensures
        r == (a@ == b@),
{
    let n = a.unicode_len();
    let m = b.unicode_len();
    if n != m {
        return false;
    }
    let mut i: usize = 0;
    while i < n
        invariant
            i <= n,
            n == a@.len(),
            n == b@.len(),
            forall|j: int| 0 <= j < i ==> a@[j] == b@[j],
        decreases n - i,
    {
        if a.get_char(i) != b.get_char(i) {
            return false;
        }
        i += 1;
    }
    assert(a@ =~= b@);
    true
}

pub open spec fn spec_trim_start(s: Seq<char>) -> Seq<char>
    decreases s.len(),
{
    if s.len() > 0 && spec_is_space(s[0]) {
        spec_trim_start(s.skip(1))
    } else {
        s
    }
}

pub open spec fn spec_trim_end(s: Seq<char>) -> Seq<char>
    decreases s.len(),
{
    if s.len() > 0 && spec_is_space(s[s.len() - 1]) {
        spec_trim_end(s.take(s.len() - 1))
    } else {
        s
    }
}

/// What `str::trim` leaves: the input without leading and trailing whitespace.
pub open spec fn spec_trim(s: Seq<char>) -> Seq<char> {
    spec_trim_end(spec_trim_start(s))
}

pub proof fn lemma_trim_start_skip(s: Seq<char>, i: int)
    requires
        0 <= i <= s.len(),
        forall|k: int| 0 <= k < i ==> spec_is_space(s[k]),
        i == s.len() || !spec_is_space(s[i]),
    ensures
        spec_trim_start(s) == s.skip(i),
    decreases i,
{
    if i == 0 {
        assert(s.skip(0) =~= s);
    } else {
        assert(spec_is_space(s[0]));
        assert forall|k: int| 0 <= k < i - 1 implies spec_is_space(s.skip(1)[k]) by {
            assert(s.skip(1)[k] == s[k + 1]);
        }
        if i < s.len() {
            assert(s.skip(1)[i - 1] == s[i]);
        }
        lemma_trim_start_skip(s.skip(1), i - 1);
        assert(s.skip(1).skip(i - 1) =~= s.skip(i));
    }
}

pub proof fn lemma_trim_end_take(s: Seq<char>, j: int)
    requires
        0 <= j <= s.len(),
        forall|k: int| j <= k < s.len() ==> spec_is_space(s[k]),
        j == 0 || !spec_is_space(s[j - 1]),
    ensures
        spec_trim_end(s) == s.take(j),
    decreases s.len(),
{
    if j == s.len() {
        assert(s.take(j) =~= s);
    } else {
        assert(spec_is_space(s[s.len() - 1]));
        let t = s.take(s.len() - 1);
        assert forall|k: int| j <= k < t.len() implies spec_is_space(t[k]) by {
            assert(t[k] == s[k]);
        }
        if j > 0 {
            assert(t[j - 1] == s[j - 1]);
        }
        lemma_trim_end_take(t, j);
        assert(t.take(j) =~= s.take(j));
    }
}

pub proof fn lemma_trim_start_len(s: Seq<char>)
    ensures
        spec_trim_start(s).len() <= s.len(),
    decreases s.len(),
{
    if s.len() > 0 && spec_is_space(s[0]) {
        lemma_trim_start_len(s.skip(1));
    }
}

pub proof fn lemma_trim_end_len(s: Seq<char>)
    ensures
        spec_trim_end(s).len() <= s.len(),
    decreases s.len(),
{
    if s.len() > 0 && spec_is_space(s[s.len() - 1]) {
        lemma_trim_end_len(s.take(s.len() - 1));
    }
}

pub proof fn lemma_trim_len(s: Seq<char>)
    ensures
        spec_trim(s).len() <= s.len(),
{
    lemma_trim_start_len(s);
    lemma_trim_end_len(spec_trim_start(s));
}

/// Index just past the leading whitespace of `s`.
fn first_non_space(s: &str) -> (i: usize)
    ensures
        i <= s@.len(),
        forall|k: int| 0 <= k < i ==> spec_is_space(s@[k]),
        i == s@.len() || !spec_is_space(s@[i as int]),
{
    let n = s.unicode_len();
    let mut i: usize = 0;
    while i < n
        invariant
            i <= n,
            n == s@.len(),
            forall|k: int| 0 <= k < i ==> spec_is_space(s@[k]),
        decreases n - i,
    {
        if !is_space(s.get_char(i)) {
            return i;
        }
        i += 1;
    }
    i
}

pub fn trim_start<'a>(s: &'a str) -> (r: &'a str)
    ensures
        r@ == spec_trim_start(s@),
{
    let n = s.unicode_len();
    let i = first_non_space(s);
    proof {
        lemma_trim_start_skip(s@, i as int);
    }
    s.substring_char(i, n)
}

/// Index just before the trailing whitespace of `s`, scanning no further left
/// than `i`.
fn last_non_space(s: &str, i: usize) -> (j: usize)
    requires
        i <= s@.len(),
    ensures
        i <= j <= s@.len(),
        forall|k: int| j <= k < s@.len() ==> spec_is_space(s@[k]),
        j == i || !spec_is_space(s@[j - 1]),
{
    let n = s.unicode_len();
    let mut j: usize = n;
    while j > i
        invariant
            i <= j <= n,
            n == s@.len(),
            forall|k: int| j <= k < n ==> spec_is_space(s@[k]),
        decreases j,
    {
        if !is_space(s.get_char(j - 1)) {
            return j;
        }
        j -= 1;
    }
    j
}

pub fn trim<'a>(s: &'a str) -> (r: &'a str)
    ensures
        r@ == spec_trim(s@),
{
    let i = first_non_space(s);
    let j = last_non_space(s, i);
    proof {
        lemma_trim_start_skip(s@, i as int);
        let t = s@.skip(i as int);
        assert forall|k: int| j - i <= k < t.len() implies spec_is_space(t[k]) by {
            assert(t[k] == s@[k + i]);
        }
        if j > i {
            assert(t[j - i - 1] == s@[j - 1]);
        }
        lemma_trim_end_take(t, j - i);
        assert(t.take(j - i) =~= s@.subrange(i as int, j as int));
    }
    s.substring_char(i, j)
}

/// `p` occurs in `s` at position `i`.
pub open spec fn spec_match_at(s: Seq<char>, p: Seq<char>, i: int) -> bool {
    0 <= i && i + p.len() <= s.len() && s.subrange(i, i + p.len() as int) == p
}

/// Position of the first occurrence of `p` in `s`, as `str::find` reports it.
pub open spec fn spec_find_sub(s: Seq<char>, p: Seq<char>) -> Option<int>
    decreases s.len(),
{
    if s.len() < p.len() {
        None
    } else if s.subrange(0, p.len() as int) == p {
        Some(0int)
    } else {
        proof {
            if s.len() == 0 {
                assert(s.subrange(0, p.len() as int) =~= p);
            }
        }
        match spec_find_sub(s.skip(1), p) {
            None => None,
            Some(i) => Some(i + 1),
        }
    }
}

pub proof fn lemma_find_sub_props(s: Seq<char>, p: Seq<char>)
    ensures
        match spec_find_sub(s, p) {
            None => forall|i: int| !spec_match_at(s, p, i),
            Some(i) => spec_match_at(s, p, i) && (forall|j: int|
                0 <= j < i ==> !spec_match_at(s, p, j)),
        },
    decreases s.len(),
{
    if s.len() < p.len() {
        assert forall|i: int| !spec_match_at(s, p, i) by {}
    } else if s.subrange(0, p.len() as int) == p {
        assert(spec_match_at(s, p, 0));
    } else {
        if s.len() == 0 {
            assert(s.subrange(0, p.len() as int) =~= p);
        }
        lemma_find_sub_props(s.skip(1), p);
        assert forall|j: int| 1 <= j implies spec_match_at(s, p, j) == spec_match_at(
            s.skip(1),
            p,
            j - 1,
        ) by {
            if j - 1 + p.len() <= s.skip(1).len() {
                assert(s.skip(1).subrange(j - 1, j - 1 + p.len() as int) =~= s.subrange(
                    j,
                    j + p.len() as int,
                ));
            }
        }
        match spec_find_sub(s.skip(1), p) {
            None => {
                assert forall|i: int| !spec_match_at(s, p, i) by {
                    if i >= 1 {
                        assert(!spec_match_at(s.skip(1), p, i - 1));
                    }
                }
            },
            Some(i) => {
                assert(spec_match_at(s.skip(1), p, i));
                assert(spec_match_at(s, p, i + 1));
                assert forall|j: int| 0 <= j < i + 1 implies !spec_match_at(s, p, j) by {
                    if j >= 1 {
                        assert(!spec_match_at(s.skip(1), p, j - 1));
                    }
                }
            },
        }
    }
}

pub fn match_at(s: &str, p: &str, i: usize) -> (r: bool)
    requires
        s@.len() <= usize::MAX,
        i + p@.len() <= s@.len(),
    ensures
        r == spec_match_at(s@, p@, i as int),
{
    let m = p.unicode_len();
    let mut k: usize = 0;
    while k < m
        invariant
            k <= m,
            m == p@.len(),
            s@.len() <= usize::MAX,
            i + m <= s@.len(),
            forall|t: int| 0 <= t < k ==> s@[i + t] == p@[t],
        decreases m - k,
    {
        if s.get_char(i + k) != p.get_char(k) {
            assert(s@.subrange(i as int, i as int + p@.len() as int)[k as int] == s@[i as int
                + k as int]);
            return false;
        }
        k += 1;
    }
    assert(s@.subrange(i as int, i as int + p@.len() as int) =~= p@);
    true
}

pub fn find_sub(s: &str, p: &str) -> (r: Option<usize>)
    requires
        p@.len() >= 1,
    ensures
        match r {
            None => spec_find_sub(s@, p@) is None,
            Some(i) => spec_find_sub(s@, p@) == Some(i as int),
        },
{
    let n = s.unicode_len();
    let m = p.unicode_len();
    proof {
        lemma_find_sub_props(s@, p@);
    }
    if m > n {
        return None;
    }
    let mut i: usize = 0;
    while i <= n - m
        invariant
            m <= n,
            m >= 1,
            n == s@.len(),
            m == p@.len(),
            i <= n - m + 1,
            forall|j: int| 0 <= j < i ==> !spec_match_at(s@, p@, j),
        decreases n - m - i + 1,
    {
        if match_at(s, p, i) {
            proof {
                lemma_find_sub_props(s@, p@);
                match spec_find_sub(s@, p@) {
                    None => {
                        assert(!spec_match_at(s@, p@, i as int));
                    },
                    Some(k) => {
                        if k < i {
                            assert(!spec_match_at(s@, p@, k));
                        }
                        if k > i {
                            assert(!spec_match_at(s@, p@, i as int));
                        }
                    },
                }
            }
            return Some(i);
        }
        i += 1;
    }
    proof {
        assert forall|j: int| !spec_match_at(s@, p@, j) by {
            if 0 <= j <= n - m {
                assert(!spec_match_at(s@, p@, j));
            }
        }
        if spec_find_sub(s@, p@) is Some {
            let k = spec_find_sub(s@, p@)->Some_0;
            assert(spec_match_at(s@, p@, k));
        }
    }
    None
}

/// The result of `str::replace`: every occurrence of `p` in `s`, scanned left
/// to right without overlap, rewritten to `rep`.
pub open spec fn spec_replace(s: Seq<char>, p: Seq<char>, rep: Seq<char>) -> Seq<char>
    decreases s.len(),
        when p.len() >= 1
{
    if s.len() < p.len() {
        s
    } else if s.subrange(0, p.len() as int) == p {
        rep + spec_replace(s.skip(p.len() as int), p, rep)
    } else {
        s.take(1) + spec_replace(s.skip(1), p, rep)
    }
}

pub fn replace(s: &str, p: &str, rep: &str) -> (r: String)
    requires
        p@.len() >= 1,
    ensures
        r@ == spec_replace(s@, p@, rep@),
{
    let n = s.unicode_len();
    let m = p.unicode_len();
    let mut out = String::new();
    let mut i: usize = 0;
    proof {
        assert(s@.skip(0) =~= s@);
        assert(out@ + spec_replace(s@, p@, rep@) =~= spec_replace(s@, p@, rep@));
    }
    while i < n
        invariant
            i <= n,
            n == s@.len(),
            m == p@.len(),
            m >= 1,
            spec_replace(s@, p@, rep@) == out@ + spec_replace(s@.skip(i as int), p@, rep@),
        decreases n - i,
    {
        let ghost out0 = out@;
        let ghost t = s@.skip(i as int);
        if m <= n - i && match_at(s, p, i) {
            out.append(rep);
            proof {
                assert(t.subrange(0, m as int) =~= s@.subrange(i as int, i as int + m as int));
                assert(t.skip(m as int) =~= s@.skip(i as int + m as int));
                assert(spec_replace(t, p@, rep@) == rep@ + spec_replace(
                    s@.skip(i as int + m as int),
                    p@,
                    rep@,
                ));
                assert(out0 + (rep@ + spec_replace(s@.skip(i as int + m as int), p@, rep@)) =~= (
                out0 + rep@) + spec_replace(s@.skip(i as int + m as int), p@, rep@));
            }
            i += m;
        } else {
            let piece = s.substring_char(i, i + 1);
            out.append(piece);
            proof {
                if m <= n - i {
                    assert(t.subrange(0, m as int) =~= s@.subrange(i as int, i as int + m as int));
                    assert(spec_replace(t, p@, rep@) == t.take(1) + spec_replace(
                        t.skip(1),
                        p@,
                        rep@,
                    ));
                } else {
                    assert(spec_replace(t, p@, rep@) == t);
                    assert(t =~= t.take(1) + t.skip(1));
                    assert(spec_replace(t.skip(1), p@, rep@) == t.skip(1));
                }
                assert(t.take(1) =~= s@.subrange(i as int, i as int + 1));
                assert(t.skip(1) =~= s@.skip(i as int + 1));
                assert(out0 + (t.take(1) + spec_replace(s@.skip(i as int + 1), p@, rep@)) =~= (out0
                    + t.take(1)) + spec_replace(s@.skip(i as int + 1), p@, rep@));
            }
            i += 1;
        }
    }
    proof {
        assert(s@.skip(n as int) =~= Seq::<char>::empty());
        assert(out@ + Seq::<char>::empty() =~= out@);
    }
    out
}

} // verus!
