//! Character-sequence helpers shared by the comment stripper, the rule
//! splitter and the selector rewriter: whitespace classification, trimming,
//! and substring search, each with a specification-level definition and an
//! executable counterpart proved against it.

use vstd::prelude::*;
use vstd::string::StrSliceExecFns;

verus! {

/// The Unicode `White_Space` characters, as documented for
/// `char::is_whitespace`.
pub open spec fn is_space_char(c: char) -> bool {
    let u = c as u32;
    u == 0x20 || (0x09 <= u && u <= 0x0D) || u == 0x85 || u == 0xA0 || u == 0x1680 || (0x2000 <= u
        && u <= 0x200A) || u == 0x2028 || u == 0x2029 || u == 0x202F || u == 0x205F || u == 0x3000
}

/// Executable whitespace test matching `is_space_char`.
pub fn is_space(c: char) -> (b: bool)
    ensures
        b == is_space_char(c),
{
    let u = c as u32;
    u == 0x20 || (0x09 <= u && u <= 0x0D) || u == 0x85 || u == 0xA0 || u == 0x1680 || (0x2000 <= u
        && u <= 0x200A) || u == 0x2028 || u == 0x2029 || u == 0x202F || u == 0x205F || u == 0x3000
}

/// Every character of `s` is whitespace.
pub open spec fn all_space(s: Seq<char>) -> bool {
    forall|k: int| 0 <= k < s.len() ==> is_space_char(s[k])
}

/// Number of leading whitespace characters of `s`; equivalently, the index of
/// the first non-whitespace character, or `s.len()` if there is none.
pub open spec fn first_non_space(s: Seq<char>) -> int
    decreases s.len(),
{
    if s.len() == 0 {
        0
    } else if is_space_char(s[0]) {
        1 + first_non_space(s.drop_first())
    } else {
        0
    }
}

/// One past the index of the last non-whitespace character of `s`, or `0` if
/// there is none.
pub open spec fn last_non_space_end(s: Seq<char>) -> int
    decreases s.len(),
{
    if s.len() == 0 {
        0
    } else if is_space_char(s.last()) {
        last_non_space_end(s.drop_last())
    } else {
        s.len() as int
    }
}

/// `s` with leading and trailing whitespace removed.
pub open spec fn spec_trim(s: Seq<char>) -> Seq<char> {
    let a = first_non_space(s);
    let b = last_non_space_end(s);
    if a >= b {
        Seq::empty()
    } else {
        s.subrange(a, b)
    }
}

pub proof fn lemma_first_non_space(s: Seq<char>)
    ensures
        0 <= first_non_space(s) <= s.len(),
        forall|k: int| 0 <= k < first_non_space(s) ==> is_space_char(s[k]),
        first_non_space(s) < s.len() ==> !is_space_char(s[first_non_space(s)]),
    decreases s.len(),
{
    if s.len() > 0 && is_space_char(s[0]) {
        lemma_first_non_space(s.drop_first());
        assert forall|k: int| 0 <= k < first_non_space(s) implies is_space_char(s[k]) by {
            if k > 0 {
                assert(s[k] == s.drop_first()[k - 1]);
            }
        }
        if first_non_space(s) < s.len() {
            assert(s[first_non_space(s)] == s.drop_first()[first_non_space(s) - 1]);
        }
    }
}

pub proof fn lemma_last_non_space_end(s: Seq<char>)
    ensures
        0 <= last_non_space_end(s) <= s.len(),
        forall|k: int| last_non_space_end(s) <= k < s.len() ==> is_space_char(s[k]),
        last_non_space_end(s) > 0 ==> !is_space_char(s[last_non_space_end(s) - 1]),
    decreases s.len(),
{
    if s.len() > 0 && is_space_char(s.last()) {
        lemma_last_non_space_end(s.drop_last());
        assert forall|k: int| last_non_space_end(s) <= k < s.len() implies is_space_char(
            s[k],
        ) by {
            if k < s.len() - 1 {
                assert(s[k] == s.drop_last()[k]);
            }
        }
        if last_non_space_end(s) > 0 {
            assert(s[last_non_space_end(s) - 1] == s.drop_last()[last_non_space_end(s) - 1]);
        }
    }
}

/// A trimmed sequence is empty exactly when the whole sequence is whitespace.
pub proof fn lemma_trim_empty_iff_all_space(s: Seq<char>)
    ensures
        spec_trim(s).len() == 0 <==> all_space(s),
{
    lemma_first_non_space(s);
    lemma_last_non_space_end(s);
    if first_non_space(s) < last_non_space_end(s) {
        assert(!is_space_char(s[first_non_space(s)]));
        assert(!all_space(s));
    } else {
        if !all_space(s) {
            let k = choose|k: int| 0 <= k < s.len() && !is_space_char(s[k]);
            assert(first_non_space(s) <= k);
            assert(last_non_space_end(s) > k);
        }
    }
}

/// The pattern `pat` occurs in `s` at position `i`.
pub open spec fn match_at(s: Seq<char>, i: int, pat: Seq<char>) -> bool {
    0 <= i && i + pat.len() <= s.len() && s.subrange(i, i + pat.len()) == pat
}

/// Index of the first occurrence of `pat` in `s`, if any.
pub open spec fn find_sub(s: Seq<char>, pat: Seq<char>) -> Option<int>
    decreases s.len(),
{
    if s.len() < pat.len() {
        None
    } else if s.subrange(0, pat.len() as int) == pat {
        Some(0)
    } else {
        proof {
            if pat.len() == 0 {
                assert(s.subrange(0, 0) =~= pat);
            }
        }
        match find_sub(s.drop_first(), pat) {
            Some(i) => Some(i + 1),
            None => None,
        }
    }
}

/// `pat` occurs somewhere in `s`.
pub open spec fn contains_sub(s: Seq<char>, pat: Seq<char>) -> bool {
    find_sub(s, pat) is Some
}

proof fn lemma_match_at_shift(s: Seq<char>, j: int, pat: Seq<char>)
    requires
        s.len() > 0,
        0 <= j,
    ensures
        match_at(s, j + 1, pat) == match_at(s.drop_first(), j, pat),
{
    if j + 1 + pat.len() <= s.len() {
        assert(s.drop_first().subrange(j, j + pat.len()) =~= s.subrange(
            j + 1,
            j + 1 + pat.len(),
        ));
    }
}

/// `find_sub` returns the first match: a matching position with no match
/// before it, or `None` when no position matches.
pub proof fn lemma_find_sub(s: Seq<char>, pat: Seq<char>)
    ensures
        match find_sub(s, pat) {
            Some(i) => match_at(s, i, pat) && forall|j: int| 0 <= j < i ==> !match_at(s, j, pat),
            None => forall|j: int| !match_at(s, j, pat),
        },
    decreases s.len(),
{
    if s.len() < pat.len() {
        assert forall|j: int| !match_at(s, j, pat) by {}
    } else if s.subrange(0, pat.len() as int) == pat {
        assert(match_at(s, 0, pat));
    } else {
        assert(pat.len() > 0) by {
            if pat.len() == 0 {
                assert(s.subrange(0, 0) =~= pat);
            }
        }
        lemma_find_sub(s.drop_first(), pat);
        assert(!match_at(s, 0, pat));
        match find_sub(s.drop_first(), pat) {
            Some(i) => {
                lemma_match_at_shift(s, i, pat);
                assert(match_at(s, i + 1, pat));
                assert forall|j: int| 0 <= j < i + 1 implies !match_at(s, j, pat) by {
                    if j > 0 {
                        lemma_match_at_shift(s, j - 1, pat);
                    }
                }
            },
            None => {
                assert forall|j: int| !match_at(s, j, pat) by {
                    if j > 0 {
                        lemma_match_at_shift(s, j - 1, pat);
                    }
                }
            },
        }
    }
}

/// Executable first-occurrence search over character vectors.
pub fn find_sub_vec(s: &Vec<char>, pat: &Vec<char>) -> (r: Option<usize>)
    ensures
        match find_sub(s@, pat@) {
            Some(i) => r == Some(i as usize),
            None => r is None,
        },
{
    proof {
        lemma_find_sub(s@, pat@);
    }
    let n = s.len();
    let m = pat.len();
    if m == 0 {
        proof {
            assert(s@.subrange(0, 0) =~= pat@);
        }
        return Some(0);
    }
    if m > n {
        return None;
    }
    let mut i: usize = 0;
    while i <= n - m
        invariant
            1 <= m <= n,
            n == s@.len(),
            m == pat@.len(),
            0 <= i <= n - m + 1,
            forall|j: int| 0 <= j < i ==> !match_at(s@, j, pat@),
            match find_sub(s@, pat@) {
                Some(k) => match_at(s@, k, pat@) && forall|j: int|
                    0 <= j < k ==> !match_at(s@, j, pat@),
                None => forall|j: int| !match_at(s@, j, pat@),
            },
        decreases n - m + 1 - i,
    {
        let mut k: usize = 0;
        let mut hit = true;
        let ghost mut bad: int = 0;
        while k < m
            invariant
                0 <= k <= m,
                i + m <= n,
                n == s@.len(),
                m == pat@.len(),
                hit ==> forall|t: int| 0 <= t < k ==> s@[i + t] == pat@[t],
                !hit ==> 0 <= bad < m && s@[i + bad] != pat@[bad],
            decreases m - k,
        {
            if s[i + k] != pat[k] {
                hit = false;
                proof {
                    bad = k as int;
                }
                k = m;
            } else {
                k = k + 1;
            }
        }
        if hit {
            proof {
                assert(s@.subrange(i as int, i + pat@.len()) =~= pat@);
                assert(match_at(s@, i as int, pat@));
            }
            return Some(i);
        }
        proof {
            assert(!match_at(s@, i as int, pat@)) by {
                if match_at(s@, i as int, pat@) {
                    assert(s@.subrange(i as int, i + pat@.len())[bad] == s@[i + bad]);
                }
            }
        }
        i = i + 1;
    }
    None
}

/// Append every character of `src` to `dst`.
pub fn push_all(dst: &mut Vec<char>, src: &Vec<char>)
    ensures
        final(dst)@ == old(dst)@ + src@,
{
    let n = src.len();
    let mut k: usize = 0;
    while k < n
        invariant
            0 <= k <= n,
            n == src@.len(),
            dst@ == old(dst)@ + src@.subrange(0, k as int),
        decreases n - k,
    {
        dst.push(src[k]);
        proof {
            assert(src@.subrange(0, (k + 1) as int) =~= src@.subrange(0, k as int).push(
                src@[k as int],
            ));
        }
        k = k + 1;
    }
    proof {
        assert(src@.subrange(0, n as int) =~= src@);
    }
}

/// Copy of the range `[a, b)` of `v`.
pub fn subvec(v: &Vec<char>, a: usize, b: usize) -> (r: Vec<char>)
    requires
        a <= b <= v@.len(),
    ensures
        r@ == v@.subrange(a as int, b as int),
{
    let mut r: Vec<char> = Vec::new();
    let mut k: usize = a;
    while k < b
        invariant
            a <= k <= b <= v@.len(),
            r@ == v@.subrange(a as int, k as int),
        decreases b - k,
    {
        r.push(v[k]);
        proof {
            assert(v@.subrange(a as int, (k + 1) as int) =~= v@.subrange(a as int, k as int).push(
                v@[k as int],
            ));
        }
        k = k + 1;
    }
    r
}

/// `v` with leading and trailing whitespace removed.
pub fn trim_chars(v: &Vec<char>) -> (r: Vec<char>)
    ensures
        r@ == spec_trim(v@),
{
    proof {
        lemma_first_non_space(v@);
        lemma_last_non_space_end(v@);
    }
    let n = v.len();
    let mut a: usize = 0;
    while a < n && is_space(v[a])
        invariant
            0 <= a <= n,
            n == v@.len(),
            forall|k: int| 0 <= k < a ==> is_space_char(v@[k]),
        decreases n - a,
    {
        a = a + 1;
    }
    proof {
        assert(a as int == first_non_space(v@)) by {
            if (a as int) < first_non_space(v@) {
                assert(is_space_char(v@[a as int]));
            }
            if first_non_space(v@) < a as int {
                assert(is_space_char(v@[first_non_space(v@)]));
            }
        }
    }
    let mut b: usize = n;
    while b > a && is_space(v[b - 1])
        invariant
            a <= b <= n,
            n == v@.len(),
            a as int == first_non_space(v@),
            forall|k: int| b <= k < n ==> is_space_char(v@[k]),
        decreases b,
    {
        b = b - 1;
    }
    if a >= b {
        proof {
            lemma_trim_empty_iff_all_space(v@);
            assert(all_space(v@)) by {
                if !all_space(v@) {
                    let k = choose|k: int| 0 <= k < v@.len() && !is_space_char(v@[k]);
                    assert(a as int <= k);
                    assert(k < b as int);
                }
            }
        }
        Vec::new()
    } else {
        proof {
            assert(!is_space_char(v@[b - 1]));
            assert(b as int == last_non_space_end(v@)) by {
                if (b as int) < last_non_space_end(v@) {
                    assert(is_space_char(v@[last_non_space_end(v@) - 1]));
                }
                if last_non_space_end(v@) < b as int {
                    assert(is_space_char(v@[b - 1]));
                }
            }
        }
        subvec(v, a, b)
    }
}

/// Transfer the characters of a borrowed string slice into a vector.
pub fn str_chars(s: &str) -> (v: Vec<char>)
    ensures
        v@ == s@,
{
    let n = s.unicode_len();
    let mut v: Vec<char> = Vec::new();
    let mut i: usize = 0;
    while i < n
        invariant
            0 <= i <= n,
            n == s@.len(),
            v@ == s@.subrange(0, i as int),
        decreases n - i,
    {
        let c = s.get_char(i);
        v.push(c);
        proof {
            assert(s@.subrange(0, (i + 1) as int) =~= s@.subrange(0, i as int).push(s@[i as int]));
        }
        i = i + 1;
    }
    proof {
        assert(s@.subrange(0, n as int) =~= s@);
    }
    v
}

/// Relies on `String`'s `FromIterator<char>` implementation: collecting an
/// iterator of characters yields the string of exactly those characters, in
/// order.
#[verifier::external_body]
pub fn chars_to_string(v: &Vec<char>) -> (s: String)
    ensures
        s@ == v@,
{
    v.iter().collect()
}

} // verus!
