//! The selector rewriter: a character-level state machine over one selector
//! text.  It splices the scoping qualifier into every compound selector,
//! honouring the escape hatches: attribute selectors are copied through and
//! qualified after the closing bracket, `:deep(...)` bodies are copied
//! through unscoped, and a selector mentioning `:root` collapses to the bare
//! global `:root`.  The machine also collects the set of raw (pre-rewrite)
//! compound selectors it saw.

use vstd::prelude::*;

use crate::text::{contains_sub, find_sub_vec, is_space, is_space_char, push_all};

verus! {

/// The scanner state: the rewritten output built so far, the in-progress raw
/// compound selector, the raw selectors already collected, and the mode
/// flags of the machine.
pub struct SelState {
    /// Rewritten selector text accumulated so far.
    pub source: Seq<char>,
    /// The raw compound selector currently being accumulated.
    pub temp: Seq<char>,
    /// Raw compound selectors collected so far, in first-seen order.
    pub sels: Seq<Seq<char>>,
    /// Inside a pseudo-class run started by `:`.
    pub pseudo: bool,
    /// Inside an attribute selector `[`…`]`.
    pub bracket: bool,
    /// A `:deep` lookahead matched; waiting for the opening parenthesis.
    pub deep: bool,
    /// Inside the body of a `:deep(...)` directive.
    pub deep_open: bool,
    /// A `:deep(...)` body just closed; the run of whitespace that follows
    /// it collapses to a single emitted space.
    pub was_deep: bool,
    /// That single space has already been emitted for the current run.
    pub deep_space: bool,
    /// A combinator was just emitted; following whitespace is copied bare.
    pub punct: bool,
}

/// Record a raw compound selector, keeping the collection duplicate-free.
pub open spec fn sel_insert(sels: Seq<Seq<char>>, x: Seq<char>) -> Seq<Seq<char>> {
    if sels.contains(x) {
        sels
    } else {
        sels.push(x)
    }
}

/// The state before any character has been read.
pub open spec fn sel_init() -> SelState {
    SelState {
        source: Seq::empty(),
        temp: Seq::empty(),
        sels: Seq::empty(),
        pseudo: false,
        bracket: false,
        deep: false,
        deep_open: false,
        was_deep: false,
        deep_space: false,
        punct: false,
    }
}

/// One transition of the machine: process the character at position `i` of
/// `sel`, inserting the qualifier fragment `cls` where a compound selector
/// ends.  The machine runs on newline-free text (`spec_drop_newlines`), so
/// the last position really is the end of the selector.  A run of
/// whitespace right after a closed `:deep(...)` collapses to one emitted
/// space; the first character after the run is processed normally.  The
/// remaining branches are tried in fixed priority order.
pub open spec fn sel_step(sel: Seq<char>, cls: Seq<char>, st0: SelState, i: int) -> SelState
    recommends
        0 <= i < sel.len(),
{
    let c = sel[i];
    let n = sel.len() as int;
    if st0.was_deep && is_space_char(c) {
        if st0.deep_space {
            st0
        } else {
            SelState { source: st0.source.push(' '), deep_space: true, ..st0 }
        }
    } else {
        let st = if st0.was_deep {
            SelState { was_deep: false, deep_space: false, ..st0 }
        } else {
            st0
        };
        if st.bracket {
            if c == ']' {
                SelState {
                    source: if !st.deep_open {
                        st.source.push(']') + cls
                    } else {
                        st.source.push(']')
                    },
                    bracket: false,
                    temp: Seq::empty(),
                    sels: sel_insert(st.sels, st.temp.push(']')),
                    ..st
                }
            } else {
                SelState { source: st.source.push(c), temp: st.temp.push(c), ..st }
            }
        } else if c == '[' {
            SelState { bracket: true, source: st.source.push(c), temp: st.temp.push(c), ..st }
        } else if st.deep_open && c != ')' {
            SelState { source: st.source.push(c), ..st }
        } else if st.deep_open {
            SelState { deep: false, deep_open: false, was_deep: true, ..st }
        } else if st.deep && c == '(' {
            SelState { deep_open: true, ..st }
        } else if st.deep {
            st
        } else if c == ':' && i + 5 <= n && sel[i + 1] == 'd' && sel[i + 2] == 'e' && sel[i + 3] == 'e'
            && sel[i + 4] == 'p' {
            SelState { deep: true, ..st }
        } else if st.pseudo {
            if is_space_char(c) || i + 1 == n {
                SelState {
                    source: st.source.push(c),
                    pseudo: false,
                    temp: Seq::empty(),
                    sels: sel_insert(
                        st.sels,
                        if !is_space_char(c) {
                            st.temp.push(c)
                        } else {
                            st.temp
                        },
                    ),
                    ..st
                }
            } else {
                SelState { source: st.source.push(c), temp: st.temp.push(c), ..st }
            }
        } else if c == ':' {
            SelState { pseudo: true, source: st.source + cls + seq![':'], temp: st.temp.push(':'), ..st }
        } else if st.punct && is_space_char(c) {
            SelState { source: st.source.push(c), ..st }
        } else if c == ',' || c == '+' || c == '~' || c == '>' || c == '|' {
            SelState {
                source: st.source + cls + seq![c],
                punct: true,
                temp: Seq::empty(),
                sels: sel_insert(st.sels, st.temp),
                ..st
            }
        } else if c == '*' {
            SelState { source: st.source + cls, sels: sel_insert(st.sels, seq!['*']), punct: false, ..st }
        } else if i + 1 == n {
            SelState {
                source: st.source.push(c) + cls,
                temp: Seq::empty(),
                sels: sel_insert(st.sels, st.temp.push(c)),
                punct: false,
                ..st
            }
        } else if c == ' ' {
            SelState {
                source: st.source + cls + seq![' '],
                temp: Seq::empty(),
                sels: sel_insert(st.sels, st.temp),
                punct: false,
                ..st
            }
        } else {
            SelState { source: st.source.push(c), temp: st.temp.push(c), punct: false, ..st }
        }
    }
}

/// The machine after the first `n` characters of `sel`.
pub open spec fn sel_run(sel: Seq<char>, cls: Seq<char>, n: int) -> SelState
    decreases n,
{
    if n <= 0 {
        sel_init()
    } else {
        sel_step(sel, cls, sel_run(sel, cls, n - 1), n - 1)
    }
}

/// The literal `:root`.
pub open spec fn root_pat() -> Seq<char> {
    seq![':', 'r', 'o', 'o', 't']
}

/// `s` with every newline deleted.  A selector that spans multiple physical
/// lines is joined without inserting a character before the machine runs, so
/// wrapping has no semantic effect.
pub open spec fn spec_drop_newlines(s: Seq<char>) -> Seq<char>
    decreases s.len(),
{
    if s.len() == 0 {
        Seq::empty()
    } else if s.last() == '\n' {
        spec_drop_newlines(s.drop_last())
    } else {
        spec_drop_newlines(s.drop_last()).push(s.last())
    }
}

proof fn lemma_drop_newlines_clean(s: Seq<char>)
    ensures
        forall|k: int|
            0 <= k < spec_drop_newlines(s).len() ==> #[trigger] spec_drop_newlines(s)[k] != '\n',
    decreases s.len(),
{
    if s.len() > 0 {
        lemma_drop_newlines_clean(s.drop_last());
        if s.last() != '\n' {
            let d = spec_drop_newlines(s.drop_last());
            assert forall|k: int|
                0 <= k < d.push(s.last()).len() implies #[trigger] d.push(s.last())[k]
                != '\n' by {
                if k < d.len() {
                    assert(d.push(s.last())[k] == d[k]);
                }
            }
        }
    }
}

proof fn lemma_drop_newlines_identity(s: Seq<char>)
    requires
        forall|k: int| 0 <= k < s.len() ==> #[trigger] s[k] != '\n',
    ensures
        spec_drop_newlines(s) == s,
    decreases s.len(),
{
    if s.len() > 0 {
        lemma_drop_newlines_identity(s.drop_last());
        assert(s.drop_last().push(s.last()) =~= s);
    }
}

/// The rewritten form of one selector text: the machine's output over the
/// newline-joined text, unless that output mentions `:root` anywhere, in
/// which case the whole selector collapses to the bare global `:root`.
pub open spec fn spec_rewrite_selector(sel: Seq<char>, cls: Seq<char>) -> Seq<char> {
    let f = spec_drop_newlines(sel);
    let out = sel_run(f, cls, f.len() as int).source;
    if contains_sub(out, root_pat()) {
        root_pat()
    } else {
        out
    }
}

/// The raw compound selectors seen while rewriting `sel`.
pub open spec fn spec_selector_raws(sel: Seq<char>, cls: Seq<char>) -> Seq<Seq<char>> {
    let f = spec_drop_newlines(sel);
    sel_run(f, cls, f.len() as int).sels
}

/// Law: physical line wrapping has no semantic effect.  A selector and the
/// same selector with every newline deleted rewrite to the same text and
/// yield the same raw compound selectors.
pub proof fn lemma_newlines_no_effect(sel: Seq<char>, cls: Seq<char>)
    ensures
        spec_rewrite_selector(sel, cls) == spec_rewrite_selector(spec_drop_newlines(sel), cls),
        spec_selector_raws(sel, cls) == spec_selector_raws(spec_drop_newlines(sel), cls),
{
    lemma_drop_newlines_clean(sel);
    lemma_drop_newlines_identity(spec_drop_newlines(sel));
}

/// Character-vector equality.
fn eq_chars(a: &Vec<char>, b: &Vec<char>) -> (r: bool)
    ensures
        r == (a@ == b@),
{
    if a.len() != b.len() {
        return false;
    }
    let n = a.len();
    let mut k: usize = 0;
    while k < n
        invariant
            0 <= k <= n,
            n == a@.len() == b@.len(),
            forall|t: int| 0 <= t < k ==> a@[t] == b@[t],
        decreases n - k,
    {
        if a[k] != b[k] {
            return false;
        }
        k = k + 1;
    }
    proof {
        assert(a@ =~= b@);
    }
    true
}

/// The deep view of a vector of character vectors is its sequence of
/// character sequences.
pub proof fn lemma_deep_view_chars(v: Vec<Vec<char>>)
    ensures
        v.deep_view().len() == v@.len(),
        forall|i: int| 0 <= i < v@.len() ==> v.deep_view()[i] == v@[i]@,
{
    assert forall|i: int| 0 <= i < v@.len() implies v.deep_view()[i] == v@[i]@ by {
        assert(v@[i].deep_view() =~= v@[i]@);
    }
}

/// Record a raw compound selector unless it was already seen.
pub(crate) fn insert_raw(sels: &mut Vec<Vec<char>>, x: Vec<char>)
    ensures
        final(sels).deep_view() == sel_insert(old(sels).deep_view(), x@),
{
    proof {
        lemma_deep_view_chars(*old(sels));
    }
    let n = sels.len();
    let mut k: usize = 0;
    while k < n
        invariant
            0 <= k <= n,
            n == sels@.len(),
            *sels == *old(sels),
            forall|t: int| 0 <= t < k ==> old(sels)@[t]@ != x@,
        decreases n - k,
    {
        if eq_chars(&sels[k], &x) {
            proof {
                assert(old(sels).deep_view()[k as int] == x@);
                assert(old(sels).deep_view().contains(x@));
            }
            return;
        }
        k = k + 1;
    }
    proof {
        assert(!old(sels).deep_view().contains(x@)) by {
            if old(sels).deep_view().contains(x@) {
                let t = choose|t: int|
                    0 <= t < old(sels).deep_view().len() && old(sels).deep_view()[t] == x@;
                assert(old(sels)@[t]@ == x@);
            }
        }
    }
    sels.push(x);
    proof {
        lemma_deep_view_chars(*sels);
        assert(x.deep_view() =~= x@);
        assert(sels.deep_view() =~= old(sels).deep_view().push(x@));
    }
}

/// Delete every newline, joining wrapped lines without inserting a
/// character.
fn drop_newlines(v: &Vec<char>) -> (r: Vec<char>)
    ensures
        r@ == spec_drop_newlines(v@),
{
    let n = v.len();
    let mut r: Vec<char> = Vec::new();
    let mut i: usize = 0;
    while i < n
        invariant
            0 <= i <= n,
            n == v@.len(),
            r@ == spec_drop_newlines(v@.subrange(0, i as int)),
        decreases n - i,
    {
        let c = v[i];
        proof {
            assert(v@.subrange(0, i as int + 1).drop_last() =~= v@.subrange(0, i as int));
            assert(v@.subrange(0, i as int + 1).last() == v@[i as int]);
        }
        if c != '\n' {
            r.push(c);
        }
        i = i + 1;
    }
    proof {
        assert(v@.subrange(0, n as int) =~= v@);
    }
    r
}

/// Rewrite one selector text, returning the rewritten characters and the raw
/// compound selectors seen, in first-seen order without duplicates.
pub(crate) fn rewrite_selector_chars(sel: &Vec<char>, cls: &Vec<char>) -> (r: (
    Vec<char>,
    Vec<Vec<char>>,
))
    ensures
        r.0@ == spec_rewrite_selector(sel@, cls@),
        r.1.deep_view() == spec_selector_raws(sel@, cls@),
{
    let f = drop_newlines(sel);
    let n = f.len();
    let mut source: Vec<char> = Vec::new();
    let mut temp: Vec<char> = Vec::new();
    let mut sels: Vec<Vec<char>> = Vec::new();
    let mut pseudo = false;
    let mut bracket = false;
    let mut deep = false;
    let mut deep_open = false;
    let mut was_deep = false;
    let mut deep_space = false;
    let mut punct = false;
    let mut i: usize = 0;
    while i < n
        invariant
            0 <= i <= n,
            n == f@.len(),
            f@ == spec_drop_newlines(sel@),
            source@ == sel_run(f@, cls@, i as int).source,
            temp@ == sel_run(f@, cls@, i as int).temp,
            sels.deep_view() == sel_run(f@, cls@, i as int).sels,
            pseudo == sel_run(f@, cls@, i as int).pseudo,
            bracket == sel_run(f@, cls@, i as int).bracket,
            deep == sel_run(f@, cls@, i as int).deep,
            deep_open == sel_run(f@, cls@, i as int).deep_open,
            was_deep == sel_run(f@, cls@, i as int).was_deep,
            deep_space == sel_run(f@, cls@, i as int).deep_space,
            punct == sel_run(f@, cls@, i as int).punct,
        decreases n - i,
    {
        let c = f[i];
        if was_deep && is_space(c) {
            if !deep_space {
                source.push(' ');
                deep_space = true;
            }
        } else {
            if was_deep {
                was_deep = false;
                deep_space = false;
            }
            if bracket {
                if c == ']' {
                    source.push(']');
                    if !deep_open {
                        push_all(&mut source, cls);
                    }
                    bracket = false;
                    temp.push(']');
                    insert_raw(&mut sels, temp);
                    temp = Vec::new();
                } else {
                    source.push(c);
                    temp.push(c);
                }
            } else if c == '[' {
                bracket = true;
                source.push(c);
                temp.push(c);
            } else if deep_open && c != ')' {
                source.push(c);
            } else if deep_open {
                deep = false;
                deep_open = false;
                was_deep = true;
            } else if deep && c == '(' {
                deep_open = true;
            } else if deep {
                // waiting for the directive body
            } else if c == ':' && n - i >= 5 && f[i + 1] == 'd' && f[i + 2] == 'e' && f[i + 3] == 'e'
                && f[i + 4] == 'p' {
                deep = true;
            } else if pseudo {
                let sp = is_space(c);
                if sp || i + 1 == n {
                    source.push(c);
                    pseudo = false;
                    if !sp {
                        temp.push(c);
                    }
                    insert_raw(&mut sels, temp);
                    temp = Vec::new();
                } else {
                    source.push(c);
                    temp.push(c);
                }
            } else if c == ':' {
                pseudo = true;
                push_all(&mut source, cls);
                source.push(':');
                temp.push(':');
                proof {
                    assert(source@ =~= sel_run(f@, cls@, i as int).source + cls@ + seq![':']);
                }
            } else if punct && is_space(c) {
                source.push(c);
            } else if c == ',' || c == '+' || c == '~' || c == '>' || c == '|' {
                push_all(&mut source, cls);
                source.push(c);
                punct = true;
                insert_raw(&mut sels, temp);
                temp = Vec::new();
                proof {
                    assert(source@ =~= sel_run(f@, cls@, i as int).source + cls@ + seq![c]);
                }
            } else if c == '*' {
                push_all(&mut source, cls);
                let mut star: Vec<char> = Vec::new();
                star.push('*');
                proof {
                    assert(star@ =~= seq!['*']);
                }
                insert_raw(&mut sels, star);
                punct = false;
            } else if i + 1 == n {
                source.push(c);
                push_all(&mut source, cls);
                temp.push(c);
                insert_raw(&mut sels, temp);
                temp = Vec::new();
                punct = false;
            } else if c == ' ' {
                push_all(&mut source, cls);
                source.push(' ');
                insert_raw(&mut sels, temp);
                temp = Vec::new();
                punct = false;
                proof {
                    assert(source@ =~= sel_run(f@, cls@, i as int).source + cls@ + seq![' ']);
                }
            } else {
                source.push(c);
                temp.push(c);
                punct = false;
            }
        }
        i = i + 1;
    }
    let mut root: Vec<char> = Vec::new();
    root.push(':');
    root.push('r');
    root.push('o');
    root.push('o');
    root.push('t');
    proof {
        assert(root@ =~= root_pat());
    }
    match find_sub_vec(&source, &root) {
        Some(_) => (root, sels),
        None => (source, sels),
    }
}

} // verus!
