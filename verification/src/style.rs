//! The token front end: building scoped css from a sequence of lexical
//! tokens (identifiers, literals, punctuation, delimited groups) instead of
//! raw text, as when a style block is extracted live from host source.
//!
//! Tokens do not carry literal inter-token whitespace, so this front end
//! reconstructs spacing from each token's source positions when they are
//! available — one space for a gap on the same line, nothing across a line
//! break — and from a small heuristic (a space between two adjacent
//! word-like tokens) when they are not, before handing the reconstructed
//! text to the same selector-rewriting core used by the string front end.

use vstd::prelude::*;

use crate::class::{spec_selector_fragment, Class};
use crate::selector::{
    insert_raw, rewrite_selector_chars, sel_insert, spec_rewrite_selector, spec_selector_raws,
};
use crate::style_sheet::{
    lemma_rules_view_index, rule_view, rules_view, sheet_view, AtRule, Rule, RuleV, SheetV,
    StyleDeclaration, StyleRule, StyleSheet,
};
use crate::text::{chars_to_string, push_all, str_chars, subvec};

verus! {

/// The delimiter of a token group.
#[derive(Clone, Copy)]
pub enum Delim {
    Brace,
    Parenthesis,
    Bracket,
    NoneDelim,
}

/// Source coordinates of one token: start and end line and column.
#[derive(Clone, Copy)]
pub struct SrcSpan {
    pub start_line: usize,
    pub start_col: usize,
    pub end_line: usize,
    pub end_col: usize,
}

/// One lexical token of a style block.
pub enum Token {
    Group { delim: Delim, inner: Vec<Token>, span: SrcSpan },
    Ident { text: String, span: SrcSpan },
    Literal { text: String, span: SrcSpan },
    Punct { ch: char, span: SrcSpan },
}

/// The span of a token.
pub open spec fn tok_span(t: Token) -> SrcSpan {
    match t {
        Token::Group { span, .. } => span,
        Token::Ident { span, .. } => span,
        Token::Literal { span, .. } => span,
        Token::Punct { span, .. } => span,
    }
}

/// Word-like tokens: identifiers and literals.
pub open spec fn is_wordy(t: Token) -> bool {
    t is Ident || t is Literal
}

/// A token starting past the previous token's end on the same line had
/// whitespace before it in the source, and one space is reconstructed for
/// it.  Tokens separated by a line break are joined without a space, as the
/// string front end joins selectors that span physical lines.
pub open spec fn spec_gap(line: int, col: int, t: Token) -> bool {
    let sp = tok_span(t);
    sp.start_line == line && sp.start_col > col
}

/// Whether a space is reconstructed before `t`: from source positions when
/// they are available, otherwise from the word-adjacency heuristic.
pub open spec fn spec_space_before(positions: bool, line: int, col: int, wordy: bool, t: Token) -> bool {
    if positions {
        spec_gap(line, col, t)
    } else {
        wordy && is_wordy(t)
    }
}

/// Opening character of a group delimiter, if any.
pub open spec fn delim_open(d: Delim) -> Seq<char> {
    match d {
        Delim::Brace => seq!['{'],
        Delim::Parenthesis => seq!['('],
        Delim::Bracket => seq!['['],
        Delim::NoneDelim => Seq::empty(),
    }
}

/// Closing character of a group delimiter, if any.
pub open spec fn delim_close(d: Delim) -> Seq<char> {
    match d {
        Delim::Brace => seq!['}'],
        Delim::Parenthesis => seq![')'],
        Delim::Bracket => seq![']'],
        Delim::NoneDelim => Seq::empty(),
    }
}

// ---------------------------------------------------------------------------
// Rendering token sequences back to text
// ---------------------------------------------------------------------------
/// Rendering state: the text built so far, the previous token's end
/// position, and whether the previous token was word-like.
pub struct RenderState {
    pub out: Seq<char>,
    pub line: int,
    pub col: int,
    pub wordy: bool,
}

/// Rendering starts at the first token's own start, so the first token never
/// receives a reconstructed space.
pub open spec fn render_init(toks: Seq<Token>) -> RenderState {
    RenderState {
        out: Seq::empty(),
        line: if toks.len() > 0 {
            tok_span(toks[0]).start_line as int
        } else {
            0
        },
        col: if toks.len() > 0 {
            tok_span(toks[0]).start_col as int
        } else {
            0
        },
        wordy: false,
    }
}

/// Render one token after the state `st`.
pub open spec fn render_step(st: RenderState, t: Token, positions: bool) -> RenderState
    decreases t, 3int, 0int,
{
    RenderState {
        out: st.out + if spec_space_before(positions, st.line, st.col, st.wordy, t) {
            seq![' ']
        } else {
            Seq::empty()
        } + spec_token_text(t, positions),
        line: tok_span(t).end_line as int,
        col: tok_span(t).end_col as int,
        wordy: is_wordy(t),
    }
}

/// The text of one token: its own text, with group interiors rendered
/// recursively between the group's delimiters.
pub open spec fn spec_token_text(t: Token, positions: bool) -> Seq<char>
    decreases t, 2int, 0int,
{
    match t {
        Token::Ident { text, .. } => text@,
        Token::Literal { text, .. } => text@,
        Token::Punct { ch, .. } => seq![ch],
        Token::Group { delim, inner, .. } => delim_open(delim) + spec_tokens_text(
            inner@,
            positions,
        ) + delim_close(delim),
    }
}

/// The rendering state after the first `n` tokens.
pub open spec fn render_run(toks: Seq<Token>, n: int, positions: bool) -> RenderState
    decreases toks, 0int, n,
{
    if n <= 0 || n > toks.len() {
        render_init(toks)
    } else {
        render_step(render_run(toks, n - 1, positions), toks[n - 1], positions)
    }
}

/// The reconstructed text of a whole token sequence.
pub open spec fn spec_tokens_text(toks: Seq<Token>, positions: bool) -> Seq<char>
    decreases toks, 1int, 0int,
{
    render_run(toks, toks.len() as int, positions).out
}

/// Executable span of a token.
fn token_span(t: &Token) -> (sp: SrcSpan)
    ensures
        sp == tok_span(*t),
{
    match t {
        Token::Group { span, .. } => *span,
        Token::Ident { span, .. } => *span,
        Token::Literal { span, .. } => *span,
        Token::Punct { span, .. } => *span,
    }
}

/// Executable word-likeness test.
fn token_wordy(t: &Token) -> (b: bool)
    ensures
        b == is_wordy(*t),
{
    match t {
        Token::Ident { .. } => true,
        Token::Literal { .. } => true,
        _ => false,
    }
}

/// Executable space-reconstruction decision.
fn space_before(positions: bool, line: usize, col: usize, wordy: bool, t: &Token) -> (b: bool)
    ensures
        b == spec_space_before(positions, line as int, col as int, wordy, *t),
{
    if positions {
        let sp = token_span(t);
        sp.start_line == line && sp.start_col > col
    } else {
        wordy && token_wordy(t)
    }
}

/// Render one token.
fn token_text_chars(t: &Token, positions: bool) -> (v: Vec<char>)
    ensures
        v@ == spec_token_text(*t, positions),
    decreases *t, 2int, 0int,
{
    match t {
        Token::Ident { text, .. } => str_chars(text.as_str()),
        Token::Literal { text, .. } => str_chars(text.as_str()),
        Token::Punct { ch, .. } => {
            let mut v: Vec<char> = Vec::new();
            v.push(*ch);
            proof {
                assert(v@ =~= seq![*ch]);
            }
            v
        },
        Token::Group { delim, inner, .. } => {
            let mut v: Vec<char> = Vec::new();
            match delim {
                Delim::Brace => v.push('{'),
                Delim::Parenthesis => v.push('('),
                Delim::Bracket => v.push('['),
                Delim::NoneDelim => (),
            }
            let body = tokens_text_range(inner, 0, inner.len(), positions);
            push_all(&mut v, &body);
            match delim {
                Delim::Brace => v.push('}'),
                Delim::Parenthesis => v.push(')'),
                Delim::Bracket => v.push(']'),
                Delim::NoneDelim => (),
            }
            proof {
                assert(inner@.subrange(0, inner@.len() as int) =~= inner@);
                assert(v@ =~= spec_token_text(*t, positions));
            }
            v
        },
    }
}

/// Render the tokens `toks[lo..hi]`.
fn tokens_text_range(toks: &Vec<Token>, lo: usize, hi: usize, positions: bool) -> (v: Vec<char>)
    requires
        lo <= hi <= toks@.len(),
    ensures
        v@ == spec_tokens_text(toks@.subrange(lo as int, hi as int), positions),
    decreases toks@, 0int, 0int,
{
    let ghost sub = toks@.subrange(lo as int, hi as int);
    let mut out: Vec<char> = Vec::new();
    let mut line: usize = 0;
    let mut col: usize = 0;
    let mut wordy = false;
    if lo < hi {
        let sp = token_span(&toks[lo]);
        line = sp.start_line;
        col = sp.start_col;
    }
    let mut k: usize = lo;
    while k < hi
        invariant
            lo <= k <= hi <= toks@.len(),
            sub == toks@.subrange(lo as int, hi as int),
            out@ == render_run(sub, (k - lo) as int, positions).out,
            line as int == render_run(sub, (k - lo) as int, positions).line,
            col as int == render_run(sub, (k - lo) as int, positions).col,
            wordy == render_run(sub, (k - lo) as int, positions).wordy,
        decreases hi - k,
    {
        proof {
            assert(sub[(k - lo) as int] == toks@[k as int]);
        }
        if space_before(positions, line, col, wordy, &toks[k]) {
            out.push(' ');
        }
        let piece = token_text_chars(&toks[k], positions);
        push_all(&mut out, &piece);
        let sp = token_span(&toks[k]);
        line = sp.end_line;
        col = sp.end_col;
        wordy = token_wordy(&toks[k]);
        proof {
            let m = (k - lo) as int;
            assert(0 <= m && m + 1 <= sub.len());
            assert(render_run(sub, m + 1, positions) == render_step(
                render_run(sub, m, positions),
                sub[m],
                positions,
            ));
            assert(out@ =~= render_run(sub, m + 1, positions).out);
        }
        k = k + 1;
    }
    out
}

// ---------------------------------------------------------------------------
// Literal quote stripping
// ---------------------------------------------------------------------------
/// Number of leading `"` characters of `s`.
pub open spec fn first_non_quote(s: Seq<char>) -> int
    decreases s.len(),
{
    if s.len() == 0 {
        0
    } else if s[0] == '"' {
        1 + first_non_quote(s.drop_first())
    } else {
        0
    }
}

/// One past the index of the last non-`"` character of `s`, or `0`.
pub open spec fn last_non_quote_end(s: Seq<char>) -> int
    decreases s.len(),
{
    if s.len() == 0 {
        0
    } else if s.last() == '"' {
        last_non_quote_end(s.drop_last())
    } else {
        s.len() as int
    }
}

/// `s` with every leading and trailing `"` removed, as `trim_matches` does.
pub open spec fn spec_trim_quotes(s: Seq<char>) -> Seq<char> {
    let a = first_non_quote(s);
    let b = last_non_quote_end(s);
    if a >= b {
        Seq::empty()
    } else {
        s.subrange(a, b)
    }
}

proof fn lemma_first_non_quote(s: Seq<char>)
    ensures
        0 <= first_non_quote(s) <= s.len(),
        forall|k: int| 0 <= k < first_non_quote(s) ==> s[k] == '"',
        first_non_quote(s) < s.len() ==> s[first_non_quote(s)] != '"',
    decreases s.len(),
{
    if s.len() > 0 && s[0] == '"' {
        lemma_first_non_quote(s.drop_first());
        assert forall|k: int| 0 <= k < first_non_quote(s) implies s[k] == '"' by {
            if k > 0 {
                assert(s[k] == s.drop_first()[k - 1]);
            }
        }
        if first_non_quote(s) < s.len() {
            assert(s[first_non_quote(s)] == s.drop_first()[first_non_quote(s) - 1]);
        }
    }
}

proof fn lemma_last_non_quote_end(s: Seq<char>)
    ensures
        0 <= last_non_quote_end(s) <= s.len(),
        forall|k: int| last_non_quote_end(s) <= k < s.len() ==> s[k] == '"',
        last_non_quote_end(s) > 0 ==> s[last_non_quote_end(s) - 1] != '"',
    decreases s.len(),
{
    if s.len() > 0 && s.last() == '"' {
        lemma_last_non_quote_end(s.drop_last());
        assert forall|k: int| last_non_quote_end(s) <= k < s.len() implies s[k] == '"' by {
            if k < s.len() - 1 {
                assert(s[k] == s.drop_last()[k]);
            }
        }
        if last_non_quote_end(s) > 0 {
            assert(s[last_non_quote_end(s) - 1] == s.drop_last()[last_non_quote_end(s) - 1]);
        }
    }
}

/// Strip leading and trailing `"` characters.
fn trim_quotes_chars(v: &Vec<char>) -> (r: Vec<char>)
    ensures
        r@ == spec_trim_quotes(v@),
{
    proof {
        lemma_first_non_quote(v@);
        lemma_last_non_quote_end(v@);
    }
    let n = v.len();
    let mut a: usize = 0;
    while a < n && v[a] == '"'
        invariant
            0 <= a <= n,
            n == v@.len(),
            forall|k: int| 0 <= k < a ==> v@[k] == '"',
        decreases n - a,
    {
        a = a + 1;
    }
    proof {
        assert(a as int == first_non_quote(v@)) by {
            if (a as int) < first_non_quote(v@) {
                assert(v@[a as int] == '"');
            }
            if first_non_quote(v@) < a as int {
                assert(v@[first_non_quote(v@)] == '"');
            }
        }
    }
    let mut b: usize = n;
    while b > a && v[b - 1] == '"'
        invariant
            a <= b <= n,
            n == v@.len(),
            a as int == first_non_quote(v@),
            forall|k: int| b <= k < n ==> v@[k] == '"',
        decreases b,
    {
        b = b - 1;
    }
    if a >= b {
        proof {
            assert(first_non_quote(v@) >= last_non_quote_end(v@)) by {
                if first_non_quote(v@) < last_non_quote_end(v@) {
                    assert(v@[last_non_quote_end(v@) - 1] != '"');
                    assert(last_non_quote_end(v@) - 1 >= a);
                    assert(last_non_quote_end(v@) - 1 < b || v@[last_non_quote_end(v@) - 1]
                        == '"');
                }
            }
        }
        Vec::new()
    } else {
        proof {
            assert(v@[b - 1] != '"');
            assert(b as int == last_non_quote_end(v@)) by {
                if (b as int) < last_non_quote_end(v@) {
                    assert(v@[last_non_quote_end(v@) - 1] == '"');
                }
                if last_non_quote_end(v@) < b as int {
                    assert(v@[b - 1] == '"');
                }
            }
        }
        subvec(v, a, b)
    }
}

// ---------------------------------------------------------------------------
// Parsing one style rule from tokens
// ---------------------------------------------------------------------------
/// State of the per-rule token scan: the selector text reconstructed so far,
/// the position bookkeeping, and — once the brace-delimited group is seen —
/// the rewritten selector, the declaration text and the raw selectors.
pub struct ParseState {
    pub selector: Seq<char>,
    pub line: int,
    pub col: int,
    pub wordy: bool,
    pub found: bool,
    pub rewritten: Seq<char>,
    pub body: Seq<char>,
    pub raws: Seq<Seq<char>>,
}

/// Per-rule scan state before any token has been read.
pub open spec fn parse_init(toks: Seq<Token>) -> ParseState {
    ParseState {
        selector: Seq::empty(),
        line: if toks.len() > 0 {
            tok_span(toks[0]).start_line as int
        } else {
            0
        },
        col: if toks.len() > 0 {
            tok_span(toks[0]).start_col as int
        } else {
            0
        },
        wordy: false,
        found: false,
        rewritten: Seq::empty(),
        body: Seq::empty(),
        raws: Seq::empty(),
    }
}

/// One per-rule transition.  A brace-delimited group closes the rule: the
/// selector gathered so far is rewritten and the group's interior becomes
/// the declaration text.  Any other token is appended to the selector, with
/// reconstructed spacing; literals lose their surrounding quotes, and
/// punctuation is spaced only for `.`, `#` and `:`.
pub open spec fn parse_step(st: ParseState, t: Token, cls: Seq<char>, positions: bool) -> ParseState {
    match t {
        Token::Group { delim: Delim::Brace, inner, .. } => ParseState {
            found: true,
            rewritten: spec_rewrite_selector(st.selector, cls),
            raws: spec_selector_raws(st.selector, cls),
            body: spec_tokens_text(inner@, positions),
            ..st
        },
        Token::Group { .. } => ParseState {
            selector: st.selector + if spec_space_before(positions, st.line, st.col, st.wordy, t) {
                seq![' ']
            } else {
                Seq::empty()
            } + spec_token_text(t, positions),
            line: tok_span(t).end_line as int,
            col: tok_span(t).end_col as int,
            wordy: false,
            ..st
        },
        Token::Ident { text, .. } => ParseState {
            selector: st.selector + if spec_space_before(positions, st.line, st.col, st.wordy, t) {
                seq![' ']
            } else {
                Seq::empty()
            } + text@,
            line: tok_span(t).end_line as int,
            col: tok_span(t).end_col as int,
            wordy: true,
            ..st
        },
        Token::Literal { text, .. } => ParseState {
            selector: st.selector + if spec_space_before(positions, st.line, st.col, st.wordy, t) {
                seq![' ']
            } else {
                Seq::empty()
            } + spec_trim_quotes(text@),
            line: tok_span(t).end_line as int,
            col: tok_span(t).end_col as int,
            wordy: true,
            ..st
        },
        Token::Punct { ch, .. } => ParseState {
            selector: st.selector + if (ch == '.' || ch == '#' || ch == ':')
                && spec_space_before(positions, st.line, st.col, st.wordy, t) {
                seq![' ']
            } else {
                Seq::empty()
            } + seq![ch],
            line: tok_span(t).end_line as int,
            col: tok_span(t).end_col as int,
            wordy: false,
            ..st
        },
    }
}

/// The per-rule scan after the first `n` tokens.
pub open spec fn parse_run(toks: Seq<Token>, n: int, cls: Seq<char>, positions: bool) -> ParseState
    decreases n,
{
    if n <= 0 || n > toks.len() {
        parse_init(toks)
    } else {
        parse_step(parse_run(toks, n - 1, cls, positions), toks[n - 1], cls, positions)
    }
}

/// The result of scanning one whole rule's tokens.
pub open spec fn spec_parse_rule(toks: Seq<Token>, cls: Seq<char>, positions: bool) -> ParseState {
    parse_run(toks, toks.len() as int, cls, positions)
}

/// Scan the rule tokens `toks[lo..hi]`, returning the rewritten selector,
/// the declaration text, the raw selectors seen, and whether a brace group
/// closed the rule at all.
fn parse_range(toks: &Vec<Token>, lo: usize, hi: usize, frag: &Vec<char>, positions: bool) -> (r: (
    Vec<char>,
    Vec<char>,
    Vec<Vec<char>>,
    bool,
))
    requires
        lo <= hi <= toks@.len(),
    ensures
        r.0@ == spec_parse_rule(toks@.subrange(lo as int, hi as int), frag@, positions).rewritten,
        r.1@ == spec_parse_rule(toks@.subrange(lo as int, hi as int), frag@, positions).body,
        r.2.deep_view() == spec_parse_rule(toks@.subrange(lo as int, hi as int), frag@, positions).raws,
        r.3 == spec_parse_rule(toks@.subrange(lo as int, hi as int), frag@, positions).found,
{
    let ghost sub = toks@.subrange(lo as int, hi as int);
    let mut selector: Vec<char> = Vec::new();
    let mut line: usize = 0;
    let mut col: usize = 0;
    let mut wordy = false;
    let mut found = false;
    let mut rewritten: Vec<char> = Vec::new();
    let mut body: Vec<char> = Vec::new();
    let mut raws: Vec<Vec<char>> = Vec::new();
    if lo < hi {
        let sp = token_span(&toks[lo]);
        line = sp.start_line;
        col = sp.start_col;
    }
    let mut k: usize = lo;
    while k < hi
        invariant
            lo <= k <= hi <= toks@.len(),
            sub == toks@.subrange(lo as int, hi as int),
            selector@ == parse_run(sub, (k - lo) as int, frag@, positions).selector,
            line as int == parse_run(sub, (k - lo) as int, frag@, positions).line,
            col as int == parse_run(sub, (k - lo) as int, frag@, positions).col,
            wordy == parse_run(sub, (k - lo) as int, frag@, positions).wordy,
            found == parse_run(sub, (k - lo) as int, frag@, positions).found,
            rewritten@ == parse_run(sub, (k - lo) as int, frag@, positions).rewritten,
            body@ == parse_run(sub, (k - lo) as int, frag@, positions).body,
            raws.deep_view() == parse_run(sub, (k - lo) as int, frag@, positions).raws,
        decreases hi - k,
    {
        proof {
            assert(sub[(k - lo) as int] == toks@[k as int]);
        }
        match &toks[k] {
            Token::Group { delim: Delim::Brace, inner, .. } => {
                let (sel, rw) = rewrite_selector_chars(&selector, frag);
                found = true;
                rewritten = sel;
                raws = rw;
                body = tokens_text_range(inner, 0, inner.len(), positions);
                proof {
                    assert(inner@.subrange(0, inner@.len() as int) =~= inner@);
                }
            },
            Token::Group { .. } => {
                if space_before(positions, line, col, wordy, &toks[k]) {
                    selector.push(' ');
                }
                let piece = token_text_chars(&toks[k], positions);
                push_all(&mut selector, &piece);
                let sp = token_span(&toks[k]);
                line = sp.end_line;
                col = sp.end_col;
                wordy = false;
            },
            Token::Ident { text, .. } => {
                if space_before(positions, line, col, wordy, &toks[k]) {
                    selector.push(' ');
                }
                let piece = str_chars(text.as_str());
                push_all(&mut selector, &piece);
                let sp = token_span(&toks[k]);
                line = sp.end_line;
                col = sp.end_col;
                wordy = true;
            },
            Token::Literal { text, .. } => {
                if space_before(positions, line, col, wordy, &toks[k]) {
                    selector.push(' ');
                }
                let raw = str_chars(text.as_str());
                let piece = trim_quotes_chars(&raw);
                push_all(&mut selector, &piece);
                let sp = token_span(&toks[k]);
                line = sp.end_line;
                col = sp.end_col;
                wordy = true;
            },
            Token::Punct { ch, .. } => {
                let c = *ch;
                if (c == '.' || c == '#' || c == ':') && space_before(
                    positions,
                    line,
                    col,
                    wordy,
                    &toks[k],
                ) {
                    selector.push(' ');
                }
                selector.push(c);
                let sp = token_span(&toks[k]);
                line = sp.end_line;
                col = sp.end_col;
                wordy = false;
            },
        }
        proof {
            let m = (k - lo) as int;
            assert(0 <= m && m + 1 <= sub.len());
            assert(parse_run(sub, m + 1, frag@, positions) == parse_step(
                parse_run(sub, m, frag@, positions),
                sub[m],
                frag@,
                positions,
            ));
            assert(selector@ =~= parse_run(sub, m + 1, frag@, positions).selector);
        }
        k = k + 1;
    }
    (rewritten, body, raws, found)
}

/// A scan that never saw a brace group has empty results: the rewritten
/// selector, the declaration text and the raw-selector set all stay empty.
pub proof fn lemma_parse_unfound(toks: Seq<Token>, n: int, cls: Seq<char>, positions: bool)
    ensures
        !parse_run(toks, n, cls, positions).found ==> parse_run(toks, n, cls, positions).rewritten
            == Seq::<char>::empty() && parse_run(toks, n, cls, positions).body
            == Seq::<char>::empty() && parse_run(toks, n, cls, positions).raws == Seq::<
            Seq<char>,
        >::empty(),
    decreases n,
{
    if n > 0 && n <= toks.len() {
        lemma_parse_unfound(toks, n - 1, cls, positions);
    }
}

impl StyleRule {
    /// Scan one rule's token stream: gather the selector text before the
    /// brace-delimited group, rewrite it with the qualifier, and capture the
    /// group's interior as the declaration text.  Returns the raw compound
    /// selectors seen.  A stream without a brace group leaves the rule
    /// untouched and returns no raw selectors.
    pub fn parse(&mut self, ts: &Vec<Token>, class: &Class, is_proc_macro: bool) -> (sels: Vec<
        String,
    >)
        ensures
            ({
                let ps = spec_parse_rule(ts@, spec_selector_fragment(class@), is_proc_macro);
                let fin = *final(self);
                &&& ps.found ==> fin.selector_text@ == ps.rewritten && fin.style.text@ == ps.body
                &&& !ps.found ==> fin == *old(self)
                &&& sels.deep_view() == ps.raws
            }),
    {
        let frag = class.selector_chars();
        let n = ts.len();
        let (rewritten, body, raws, found) = parse_range(ts, 0, n, &frag, is_proc_macro);
        proof {
            assert(ts@.subrange(0, ts@.len() as int) =~= ts@);
        }
        if found {
            self.selector_text = chars_to_string(&rewritten);
            self.style = StyleDeclaration { text: chars_to_string(&body) };
        }
        crate::style_sheet::strings_of(&raws)
    }

    /// Parse one rule's token stream into a fresh style rule.  Without a
    /// brace group the rule stays empty, matching the scan's empty results.
    pub fn new(ts: &Vec<Token>, class: &Class, is_proc_macro: bool) -> (r: (StyleRule, Vec<String>))
        ensures
            r.0.selector_text@ == spec_parse_rule(
                ts@,
                spec_selector_fragment(class@),
                is_proc_macro,
            ).rewritten,
            r.0.style.text@ == spec_parse_rule(
                ts@,
                spec_selector_fragment(class@),
                is_proc_macro,
            ).body,
            r.1.deep_view() == spec_parse_rule(
                ts@,
                spec_selector_fragment(class@),
                is_proc_macro,
            ).raws,
    {
        let mut rule = StyleRule {
            selector_text: String::new(),
            style: StyleDeclaration { text: String::new() },
        };
        let sels = rule.parse(ts, class, is_proc_macro);
        proof {
            lemma_parse_unfound(
                ts@,
                ts@.len() as int,
                spec_selector_fragment(class@),
                is_proc_macro,
            );
        }
        (rule, sels)
    }
}

// ---------------------------------------------------------------------------
// Splitting a token stream into rules
// ---------------------------------------------------------------------------
/// Fold `b`'s first `n` raw selectors into `a`, keeping `a` duplicate-free.
pub open spec fn merge_raws(a: Seq<Seq<char>>, b: Seq<Seq<char>>, n: int) -> Seq<Seq<char>>
    decreases n,
{
    if n <= 0 || n > b.len() {
        a
    } else {
        sel_insert(merge_raws(a, b, n - 1), b[n - 1])
    }
}

/// Merge collected raw selectors.
fn merge_raws_exec(dst: &mut Vec<Vec<char>>, src: &Vec<Vec<char>>)
    ensures
        final(dst).deep_view() == merge_raws(
            old(dst).deep_view(),
            src.deep_view(),
            src.deep_view().len() as int,
        ),
{
    proof {
        crate::selector::lemma_deep_view_chars(*src);
    }
    let n = src.len();
    let mut k: usize = 0;
    while k < n
        invariant
            0 <= k <= n,
            n == src@.len(),
            n == src.deep_view().len(),
            forall|t: int| 0 <= t < n ==> src.deep_view()[t] == src@[t]@,
            dst.deep_view() == merge_raws(old(dst).deep_view(), src.deep_view(), k as int),
        decreases n - k,
    {
        let x = subvec(&src[k], 0, src[k].len());
        proof {
            assert(x@ =~= src@[k as int]@);
            assert(x@ == src.deep_view()[k as int]);
        }
        insert_raw(dst, x);
        proof {
            assert(dst.deep_view() == merge_raws(
                old(dst).deep_view(),
                src.deep_view(),
                k as int + 1,
            ));
        }
        k = k + 1;
    }
}

/// Token-splitter state: where the current rule's tokens start, whether that
/// rule is an at-rule, and the rules and raw selectors produced so far.
pub struct TokSheetState {
    pub start: int,
    pub at: bool,
    pub rules: Seq<RuleV>,
    pub raws: Seq<Seq<char>>,
}

/// The token splitter after the first `n` tokens.  A rule ends at a `;`
/// while an at-rule is open (statement form, rendered verbatim) or at a
/// brace-delimited group: an open at-rule keeps the text before the group as
/// its prelude and re-splits the group's interior into a nested sheet; any
/// other rule is a style rule scanned from its tokens.  An `@` punct as the
/// first token of a rule opens an at-rule.
pub open spec fn tok_sheet_run(toks: Seq<Token>, n: int, cls: Seq<char>, positions: bool) -> TokSheetState
    decreases toks, 0int, n,
{
    if n <= 0 || n > toks.len() {
        TokSheetState { start: 0, at: false, rules: Seq::empty(), raws: Seq::empty() }
    } else {
        let st = tok_sheet_run(toks, n - 1, cls, positions);
        let t = toks[n - 1];
        match t {
            Token::Punct { ch, .. } => {
                if ch == ';' && st.at {
                    TokSheetState {
                        start: n,
                        at: false,
                        rules: st.rules.push(
                            RuleV::At {
                                prelude: spec_tokens_text(toks.subrange(st.start, n), positions),
                                inner: None,
                            },
                        ),
                        raws: st.raws,
                    }
                } else if ch == '@' && st.start == n - 1 {
                    TokSheetState { at: true, ..st }
                } else {
                    st
                }
            },
            Token::Group { delim: Delim::Brace, inner, .. } => {
                if st.at {
                    let nested = spec_sheet_from_ts(inner@, cls, positions);
                    TokSheetState {
                        start: n,
                        at: false,
                        rules: st.rules.push(
                            RuleV::At {
                                prelude: spec_tokens_text(
                                    toks.subrange(st.start, n - 1),
                                    positions,
                                ),
                                inner: Some(nested.0),
                            },
                        ),
                        raws: merge_raws(st.raws, nested.1, nested.1.len() as int),
                    }
                } else {
                    let ps = spec_parse_rule(toks.subrange(st.start, n), cls, positions);
                    TokSheetState {
                        start: n,
                        at: false,
                        rules: st.rules.push(
                            RuleV::Style { selector: ps.rewritten, body: ps.body },
                        ),
                        raws: merge_raws(st.raws, ps.raws, ps.raws.len() as int),
                    }
                }
            },
            _ => st,
        }
    }
}

/// The model sheet and merged raw selectors built from a token stream.
pub open spec fn spec_sheet_from_ts(toks: Seq<Token>, cls: Seq<char>, positions: bool) -> (
    SheetV,
    Seq<Seq<char>>,
)
    decreases toks, 1int, 0int,
{
    let st = tok_sheet_run(toks, toks.len() as int, cls, positions);
    (SheetV { rules: st.rules }, st.raws)
}

/// The splitter's start index stays within the consumed prefix.
proof fn lemma_tok_sheet_start(toks: Seq<Token>, n: int, cls: Seq<char>, positions: bool)
    requires
        0 <= n <= toks.len(),
    ensures
        0 <= tok_sheet_run(toks, n, cls, positions).start <= n,
    decreases n,
{
    if n > 0 {
        lemma_tok_sheet_start(toks, n - 1, cls, positions);
    }
}

/// Split a token stream into a stylesheet, collecting every rule's raw
/// selectors into one duplicate-free set.
fn sheet_from_tokens(tokens: &Vec<Token>, class: &Class, is_proc_macro: bool) -> (r: (
    StyleSheet,
    Vec<Vec<char>>,
))
    ensures
        sheet_view(r.0) == spec_sheet_from_ts(
            tokens@,
            spec_selector_fragment(class@),
            is_proc_macro,
        ).0,
        r.1.deep_view() == spec_sheet_from_ts(
            tokens@,
            spec_selector_fragment(class@),
            is_proc_macro,
        ).1,
    decreases tokens@, 2int, 0int,
{
    let ghost cls = spec_selector_fragment(class@);
    let frag = class.selector_chars();
    let n = tokens.len();
    let mut start: usize = 0;
    let mut at = false;
    let mut rules: Vec<Rule> = Vec::new();
    let mut raws: Vec<Vec<char>> = Vec::new();
    let mut i: usize = 0;
    while i < n
        invariant
            0 <= i <= n,
            n == tokens@.len(),
            frag@ == cls,
            cls == spec_selector_fragment(class@),
            start as int == tok_sheet_run(tokens@, i as int, cls, is_proc_macro).start,
            start <= i,
            at == tok_sheet_run(tokens@, i as int, cls, is_proc_macro).at,
            rules@.len() == tok_sheet_run(tokens@, i as int, cls, is_proc_macro).rules.len(),
            forall|t: int|
                0 <= t < rules@.len() ==> rule_view(#[trigger] rules@[t]) == tok_sheet_run(
                    tokens@,
                    i as int,
                    cls,
                    is_proc_macro,
                ).rules[t],
            raws.deep_view() == tok_sheet_run(tokens@, i as int, cls, is_proc_macro).raws,
        decreases n - i,
    {
        proof {
            lemma_tok_sheet_start(tokens@, i as int, cls, is_proc_macro);
        }
        match &tokens[i] {
            Token::Punct { ch, .. } => {
                if *ch == ';' && at {
                    let prelude = tokens_text_range(tokens, start, i + 1, is_proc_macro);
                    rules.push(Rule::AtRule(AtRule { prelude: chars_to_string(&prelude), inner: None }));
                    start = i + 1;
                    at = false;
                } else if *ch == '@' && start == i {
                    at = true;
                }
            },
            Token::Group { delim: Delim::Brace, inner, .. } => {
                if at {
                    let prelude = tokens_text_range(tokens, start, i, is_proc_macro);
                    let (nested, nraws) = sheet_from_tokens(inner, class, is_proc_macro);
                    rules.push(
                        Rule::AtRule(
                            AtRule { prelude: chars_to_string(&prelude), inner: Some(nested) },
                        ),
                    );
                    merge_raws_exec(&mut raws, &nraws);
                    start = i + 1;
                    at = false;
                } else {
                    let (rewritten, body, rraws, _) = parse_range(
                        tokens,
                        start,
                        i + 1,
                        &frag,
                        is_proc_macro,
                    );
                    rules.push(
                        Rule::StyleRule(
                            StyleRule {
                                selector_text: chars_to_string(&rewritten),
                                style: StyleDeclaration { text: chars_to_string(&body) },
                            },
                        ),
                    );
                    merge_raws_exec(&mut raws, &rraws);
                    start = i + 1;
                    at = false;
                }
            },
            _ => {},
        }
        i = i + 1;
    }
    let sheet = StyleSheet { rules };
    proof {
        let st = tok_sheet_run(tokens@, n as int, cls, is_proc_macro);
        lemma_rules_view_index(sheet.rules@, sheet.rules@.len() as int);
        assert(sheet_view(sheet).rules =~= st.rules);
        assert(sheet_view(sheet) =~= spec_sheet_from_ts(tokens@, cls, is_proc_macro).0);
    }
    (sheet, raws)
}

impl StyleSheet {
    /// Split a token stream into a stylesheet, returning it with the raw
    /// compound selectors of all its rules.
    pub fn new(tokens: &Vec<Token>, class: &Class, is_proc_macro: bool) -> (r: (StyleSheet, Vec<
        String,
    >))
        ensures
            sheet_view(r.0) == spec_sheet_from_ts(
                tokens@,
                spec_selector_fragment(class@),
                is_proc_macro,
            ).0,
            r.1.deep_view() == spec_sheet_from_ts(
                tokens@,
                spec_selector_fragment(class@),
                is_proc_macro,
            ).1,
    {
        let (sheet, raws) = sheet_from_tokens(tokens, class, is_proc_macro);
        (sheet, crate::style_sheet::strings_of(&raws))
    }
}

/// Build the scoped css for one style block given as a token stream,
/// returning the css text and the raw compound selectors of its rules.
/// `positions` says whether the tokens carry true source positions; spacing
/// is reconstructed from them, or from a word-adjacency heuristic without
/// them.
pub fn build_style_from_ts(tokens: &Vec<Token>, class: &Class, positions: bool) -> (r: (
    String,
    Vec<String>,
))
    ensures
        r.0@ == crate::style_sheet::sheet_v_css(
            spec_sheet_from_ts(tokens@, spec_selector_fragment(class@), positions).0,
        ),
        r.1.deep_view() == spec_sheet_from_ts(
            tokens@,
            spec_selector_fragment(class@),
            positions,
        ).1,
{
    let (sheet, raws) = sheet_from_tokens(tokens, class, positions);
    let css = sheet.css_text();
    (css, crate::style_sheet::strings_of(&raws))
}

} // verus!

