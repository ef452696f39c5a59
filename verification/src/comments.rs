//! Block-comment removal for the string front end: repeatedly locate the
//! first `/*`…`*/` pair and excise it.  Text whose first `/*` opener is never
//! closed cannot be stripped; the outcome is `None` and callers must keep
//! such input out.

use vstd::prelude::*;

use crate::text::{contains_sub, find_sub, find_sub_vec, lemma_find_sub, match_at, push_all, subvec};

verus! {

/// The comment opener `/*`.
pub open spec fn open_pat() -> Seq<char> {
    seq!['/', '*']
}

/// The comment closer `*/`.
pub open spec fn close_pat() -> Seq<char> {
    seq!['*', '/']
}

/// `s` with every block comment excised, front to back; `None` when an
/// opener has no closer after it.
pub open spec fn spec_strip_comments(s: Seq<char>) -> Option<Seq<char>>
    decreases s.len(),
{
    match find_sub(s, open_pat()) {
        None => Some(s),
        Some(i) => {
            let rest = s.subrange(i + 2, s.len() as int);
            match find_sub(rest, close_pat()) {
                None => None,
                Some(j) => {
                    proof {
                        lemma_find_sub(s, open_pat());
                        lemma_find_sub(rest, close_pat());
                    }
                    spec_strip_comments(s.subrange(0, i) + rest.subrange(j + 2, rest.len() as int))
                },
            }
        },
    }
}

/// Strip all block comments, or report that an opener is unclosed.
pub fn try_strip_comments(v: &Vec<char>) -> (r: Option<Vec<char>>)
    ensures
        match spec_strip_comments(v@) {
            Some(t) => r matches Some(out) && out@ == t,
            None => r is None,
        },
{
    let mut opener: Vec<char> = Vec::new();
    opener.push('/');
    opener.push('*');
    let mut closer: Vec<char> = Vec::new();
    closer.push('*');
    closer.push('/');
    proof {
        assert(opener@ =~= open_pat());
        assert(closer@ =~= close_pat());
    }
    let mut cur = subvec(v, 0, v.len());
    proof {
        assert(cur@ =~= v@);
    }
    loop
        invariant
            opener@ == open_pat(),
            closer@ == close_pat(),
            spec_strip_comments(cur@) == spec_strip_comments(v@),
        decreases cur@.len(),
    {
        match find_sub_vec(&cur, &opener) {
            None => {
                return Some(cur);
            },
            Some(i) => {
                let n = cur.len();
                proof {
                    lemma_find_sub(cur@, open_pat());
                    assert(match_at(cur@, i as int, open_pat()));
                    assert(i + 2 <= cur@.len());
                }
                let rest = subvec(&cur, i + 2, n);
                match find_sub_vec(&rest, &closer) {
                    None => {
                        return None;
                    },
                    Some(j) => {
                        let m = rest.len();
                        proof {
                            lemma_find_sub(rest@, close_pat());
                            assert(match_at(rest@, j as int, close_pat()));
                            assert(j + 2 <= rest@.len());
                        }
                        let mut next = subvec(&cur, 0, i);
                        let tail = subvec(&rest, j + 2, m);
                        push_all(&mut next, &tail);
                        cur = next;
                    },
                }
            },
        }
    }
}

/// Strip all block comments from stylesheet text, or `None` when an opener
/// is unclosed.
pub fn strip_comment_text(s: &str) -> (r: Option<String>)
    ensures
        match spec_strip_comments(s@) {
            Some(t) => r matches Some(out) && out@ == t,
            None => r is None,
        },
{
    let chars = crate::text::str_chars(s);
    match try_strip_comments(&chars) {
        Some(v) => Some(crate::text::chars_to_string(&v)),
        None => None,
    }
}

/// After a successful strip no opener remains in the result.
pub proof fn lemma_strip_no_opener(s: Seq<char>)
    requires
        spec_strip_comments(s) is Some,
    ensures
        !contains_sub(spec_strip_comments(s).unwrap(), open_pat()),
    decreases s.len(),
{
    match find_sub(s, open_pat()) {
        None => {},
        Some(i) => {
            let rest = s.subrange(i + 2, s.len() as int);
            match find_sub(rest, close_pat()) {
                None => {},
                Some(j) => {
                    lemma_find_sub(s, open_pat());
                    lemma_find_sub(rest, close_pat());
                    lemma_strip_no_opener(
                        s.subrange(0, i) + rest.subrange(j + 2, rest.len() as int),
                    );
                },
            }
        },
    }
}

/// Law: comment stripping is idempotent — stripping an already stripped
/// text changes nothing.
pub proof fn lemma_strip_idempotent(s: Seq<char>)
    requires
        spec_strip_comments(s) is Some,
    ensures
        spec_strip_comments(spec_strip_comments(s).unwrap()) == Some(
            spec_strip_comments(s).unwrap(),
        ),
{
    lemma_strip_no_opener(s);
}

} // verus!
