//! The string front end: splitting comment-stripped stylesheet text into
//! top-level rules, classifying at-rules, recursing into block at-rules, and
//! serializing the resulting stylesheet in source order.

use vstd::pervasive::unreached;
use vstd::prelude::*;

use crate::class::{spec_selector_fragment, Class};
use crate::comments::{spec_strip_comments, try_strip_comments};
use crate::selector::{rewrite_selector_chars, spec_rewrite_selector, spec_selector_raws};
use crate::text::{
    all_space, chars_to_string, find_sub, find_sub_vec, is_space, is_space_char, lemma_find_sub,
    lemma_first_non_space, lemma_last_non_space_end, match_at, push_all, spec_trim, str_chars,
    subvec, trim_chars,
};

verus! {

// ---------------------------------------------------------------------------
// Mathematical model of a parsed stylesheet
// ---------------------------------------------------------------------------
/// Model of a parsed rule: an at-rule (statement form carries its whole text
/// and no body; block form carries a prelude and a nested sheet) or a style
/// rule (rewritten selector text and verbatim declaration text).
#[verifier::ext_equal]
pub enum RuleV {
    At { prelude: Seq<char>, inner: Option<SheetV> },
    Style { selector: Seq<char>, body: Seq<char> },
}

/// Model of a parsed stylesheet: its rules, in source order.
#[verifier::ext_equal]
pub struct SheetV {
    pub rules: Seq<RuleV>,
}

// ---------------------------------------------------------------------------
// Rule splitting (one pass over the characters)
// ---------------------------------------------------------------------------
/// Splitter state: the accumulated span, whether its first non-whitespace
/// character was `@`, the brace counts, and the spans already produced.
pub struct SplitState {
    pub acc: Seq<char>,
    pub at: bool,
    pub opens: int,
    pub closes: int,
    pub spans: Seq<(Seq<char>, bool)>,
}

/// Splitter state before any character has been read.
pub open spec fn split_init() -> SplitState {
    SplitState { acc: Seq::empty(), at: false, opens: 0, closes: 0, spans: Seq::empty() }
}

/// One splitter transition.  A boundary is a `;` while no brace is open in
/// an at-rule span, or a `}` that balances the span's opening braces; the
/// trimmed span is emitted and the accumulator reset.
pub open spec fn split_step(st: SplitState, c: char) -> SplitState {
    let at1 = if all_space(st.acc) && c == '@' {
        true
    } else {
        st.at
    };
    let opens1 = if c == '{' {
        st.opens + 1
    } else {
        st.opens
    };
    let closes1 = if c == '}' {
        st.closes + 1
    } else {
        st.closes
    };
    let acc1 = st.acc.push(c);
    if c == ';' && at1 && opens1 == 0 {
        SplitState {
            acc: Seq::empty(),
            at: false,
            opens: opens1,
            closes: closes1,
            spans: st.spans.push((spec_trim(acc1), true)),
        }
    } else if c == '}' && opens1 != 0 && opens1 == closes1 {
        SplitState {
            acc: Seq::empty(),
            at: false,
            opens: 0,
            closes: 0,
            spans: st.spans.push((spec_trim(acc1), at1)),
        }
    } else {
        SplitState { acc: acc1, at: at1, opens: opens1, closes: closes1, spans: st.spans }
    }
}

/// The splitter after the first `n` characters of `s`.
pub open spec fn split_run(s: Seq<char>, n: int) -> SplitState
    decreases n,
{
    if n <= 0 {
        split_init()
    } else {
        split_step(split_run(s, n - 1), s[n - 1])
    }
}

/// The top-level rule spans of `s`, in source order, each with its at-rule
/// flag.  Trailing text that never reaches a boundary is dropped.
pub open spec fn split_spans(s: Seq<char>) -> Seq<(Seq<char>, bool)> {
    split_run(s, s.len() as int).spans
}

/// A trimmed sequence is never longer than the original.
proof fn lemma_trim_len(s: Seq<char>)
    ensures
        spec_trim(s).len() <= s.len(),
{
    lemma_first_non_space(s);
    lemma_last_non_space_end(s);
}

/// Every span the splitter produces from the first `n` characters is at most
/// `n` characters long, as is the accumulator.
pub proof fn lemma_split_bounds(s: Seq<char>, n: int)
    requires
        0 <= n <= s.len(),
    ensures
        split_run(s, n).acc.len() <= n,
        forall|k: int|
            0 <= k < split_run(s, n).spans.len() ==> (#[trigger] split_run(s, n).spans[k]).0.len()
                <= n,
    decreases n,
{
    if n > 0 {
        lemma_split_bounds(s, n - 1);
        lemma_trim_len(split_run(s, n - 1).acc.push(s[n - 1]));
    }
}

// ---------------------------------------------------------------------------
// Building the model from text
// ---------------------------------------------------------------------------
/// The opening brace as a pattern.
pub open spec fn brace_pat() -> Seq<char> {
    seq!['{']
}

/// The model of one style-rule span: the text before the first `{` is the
/// selector (trimmed, then rewritten); the text between that brace and the
/// span's final character is the declaration body, captured verbatim.
pub open spec fn spec_style_rule_v(span: Seq<char>, cls: Seq<char>) -> RuleV {
    match find_sub(span, brace_pat()) {
        None => RuleV::Style { selector: spec_rewrite_selector(spec_trim(span), cls), body: Seq::empty() },
        Some(i) => {
            let j = span.len() - 1;
            RuleV::Style {
                selector: spec_rewrite_selector(spec_trim(span.subrange(0, i)), cls),
                body: if i + 1 <= j {
                    span.subrange(i + 1, j)
                } else {
                    Seq::empty()
                },
            }
        },
    }
}

/// The model of one rule span.  An at-rule span without braces is statement
/// form, kept verbatim; one with braces re-splits its interior into a nested
/// sheet scoped with the same qualifier.
pub open spec fn spec_rule_from(span: Seq<char>, at: bool, cls: Seq<char>) -> RuleV
    decreases span.len(), 0int, 0int,
{
    if at {
        match find_sub(span, brace_pat()) {
            None => RuleV::At { prelude: span, inner: None },
            Some(i) => {
                proof {
                    lemma_find_sub(span, brace_pat());
                }
                let j = span.len() - 1;
                RuleV::At {
                    prelude: span.subrange(0, i),
                    inner: Some(
                        spec_sheet_from(
                            if i + 1 <= j {
                                span.subrange(i + 1, j)
                            } else {
                                Seq::empty()
                            },
                            cls,
                        ),
                    ),
                }
            },
        }
    } else {
        spec_style_rule_v(span, cls)
    }
}

/// The models of the first `n` spans, in order.  A span longer than the text
/// it was cut from cannot occur; such a span is modelled as a bare statement
/// at-rule so that the definition stays total.
pub open spec fn spec_rules_from(
    text: Seq<char>,
    spans: Seq<(Seq<char>, bool)>,
    n: int,
    cls: Seq<char>,
) -> Seq<RuleV>
    decreases text.len(), 1int, n,
{
    if n <= 0 || n > spans.len() {
        Seq::empty()
    } else {
        let sp = spans[n - 1].0;
        let at = spans[n - 1].1;
        spec_rules_from(text, spans, n - 1, cls).push(
            if sp.len() <= text.len() {
                spec_rule_from(sp, at, cls)
            } else {
                RuleV::At { prelude: sp, inner: None }
            },
        )
    }
}

/// The model built from comment-free stylesheet text: split into spans, each
/// span turned into a rule, in source order.
pub open spec fn spec_sheet_from(text: Seq<char>, cls: Seq<char>) -> SheetV
    decreases text.len(), 2int, 0int,
{
    SheetV {
        rules: spec_rules_from(text, split_spans(text), split_spans(text).len() as int, cls),
    }
}

/// Index form of `spec_rules_from`: the `k`-th rule comes from the `k`-th
/// span.
pub proof fn lemma_spec_rules_from_index(
    text: Seq<char>,
    spans: Seq<(Seq<char>, bool)>,
    n: int,
    cls: Seq<char>,
)
    requires
        0 <= n <= spans.len(),
    ensures
        spec_rules_from(text, spans, n, cls).len() == n,
        forall|k: int|
            0 <= k < n ==> #[trigger] spec_rules_from(text, spans, n, cls)[k] == (
            if spans[k].0.len() <= text.len() {
                spec_rule_from(spans[k].0, spans[k].1, cls)
            } else {
                RuleV::At { prelude: spans[k].0, inner: None }
            }),
    decreases n,
{
    if n > 0 {
        lemma_spec_rules_from_index(text, spans, n - 1, cls);
    }
}

// ---------------------------------------------------------------------------
// Serialization of the model
// ---------------------------------------------------------------------------
/// The css text of one modelled rule: a statement at-rule is its stored text
/// verbatim; a block at-rule is its prelude, braces, and the nested sheet's
/// css; a style rule is its rewritten selector and braced declaration body.
pub open spec fn rule_v_css(r: RuleV) -> Seq<char>
    decreases r, 0int, 0int,
{
    match r {
        RuleV::At { prelude, inner } => match inner {
            None => prelude,
            Some(sv) => prelude + seq!['{'] + sheet_v_css(sv) + seq!['}'],
        },
        RuleV::Style { selector, body } => selector + seq!['{'] + body + seq!['}'],
    }
}

/// The css text of the first `n` modelled rules, concatenated in order.
pub open spec fn rules_v_css(rs: Seq<RuleV>, n: int) -> Seq<char>
    decreases rs, 1int, n,
{
    if n <= 0 || n > rs.len() {
        Seq::empty()
    } else {
        rules_v_css(rs, n - 1) + rule_v_css(rs[n - 1])
    }
}

/// The css text of a modelled sheet: its rules' css, concatenated in source
/// order — no re-sorting, no deduplication.
pub open spec fn sheet_v_css(sv: SheetV) -> Seq<char>
    decreases sv, 2int, 0int,
{
    rules_v_css(sv.rules, sv.rules.len() as int)
}

/// The scoped css of a whole stylesheet text: comments stripped, rules
/// split, each rule scoped with `cls`, and everything serialized in source
/// order.
pub open spec fn spec_build_style(s: Seq<char>, cls: Seq<char>) -> Seq<char>
    recommends
        spec_strip_comments(s) is Some,
{
    sheet_v_css(spec_sheet_from(spec_strip_comments(s).unwrap(), cls))
}

/// Law: serialization preserves rule order.  The css of rules `rs1` followed
/// by rules `rs2` is the css of `rs1` followed by the css of `rs2`; in
/// particular each appended rule appends its css at the end.
pub proof fn lemma_rules_css_concat(rs1: Seq<RuleV>, rs2: Seq<RuleV>)
    ensures
        rules_v_css(rs1 + rs2, (rs1 + rs2).len() as int) == rules_v_css(rs1, rs1.len() as int)
            + rules_v_css(rs2, rs2.len() as int),
    decreases rs2.len(),
{
    if rs2.len() == 0 {
        assert(rs1 + rs2 =~= rs1);
        assert(rules_v_css(rs2, 0) =~= Seq::<char>::empty());
        assert(rules_v_css(rs1, rs1.len() as int) + Seq::<char>::empty() =~= rules_v_css(
            rs1,
            rs1.len() as int,
        ));
    } else {
        let rs2p = rs2.drop_last();
        lemma_rules_css_concat(rs1, rs2p);
        assert((rs1 + rs2).drop_last() =~= rs1 + rs2p);
        assert((rs1 + rs2)[(rs1 + rs2).len() - 1] == rs2[rs2.len() - 1]);
        lemma_rules_css_prefix(rs1 + rs2p, rs1 + rs2, (rs1 + rs2p).len() as int);
        assert(rules_v_css(rs2, rs2.len() as int) == rules_v_css(rs2, rs2.len() - 1) + rule_v_css(
            rs2[rs2.len() - 1],
        ));
        lemma_rules_css_prefix(rs2p, rs2, rs2p.len() as int);
    }
}

/// `rules_v_css` of a prefix only looks at the first `n` rules.
proof fn lemma_rules_css_prefix(rs1: Seq<RuleV>, rs2: Seq<RuleV>, n: int)
    requires
        0 <= n <= rs1.len(),
        n <= rs2.len(),
        forall|k: int| 0 <= k < n ==> rs1[k] == rs2[k],
    ensures
        rules_v_css(rs1, n) == rules_v_css(rs2, n),
    decreases n,
{
    if n > 0 {
        lemma_rules_css_prefix(rs1, rs2, n - 1);
    }
}

// ---------------------------------------------------------------------------
// Executable splitter
// ---------------------------------------------------------------------------
/// One top-level rule span: its trimmed text and its at-rule flag.
pub struct RuleSpan {
    pub text: Vec<char>,
    pub at: bool,
}

impl View for RuleSpan {
    type V = (Seq<char>, bool);

    open spec fn view(&self) -> (Seq<char>, bool) {
        (self.text@, self.at)
    }
}

/// Appending a character keeps a sequence all-whitespace exactly when the
/// sequence was all-whitespace and the character is whitespace.
proof fn lemma_all_space_push(s: Seq<char>, c: char)
    ensures
        all_space(s.push(c)) == (all_space(s) && is_space_char(c)),
{
    if all_space(s) && is_space_char(c) {
        assert forall|k: int| 0 <= k < s.push(c).len() implies is_space_char(s.push(c)[k]) by {
            if k < s.len() {
                assert(s.push(c)[k] == s[k]);
            }
        }
    }
    if all_space(s.push(c)) {
        assert(is_space_char(s.push(c)[s.len() as int]));
        assert forall|k: int| 0 <= k < s.len() implies is_space_char(s[k]) by {
            assert(s.push(c)[k] == s[k]);
        }
    }
}

/// Split comment-free stylesheet text into its top-level rule spans, in
/// source order.
pub fn split_rules(v: &Vec<char>) -> (spans: Vec<RuleSpan>)
    ensures
        spans@.len() == split_spans(v@).len(),
        forall|k: int| 0 <= k < spans@.len() ==> spans@[k]@ == split_spans(v@)[k],
{
    let n = v.len();
    let mut acc: Vec<char> = Vec::new();
    let mut acc_ws = true;
    let mut at = false;
    let mut opens: usize = 0;
    let mut closes: usize = 0;
    let mut out: Vec<RuleSpan> = Vec::new();
    let mut i: usize = 0;
    while i < n
        invariant
            0 <= i <= n,
            n == v@.len(),
            acc@ == split_run(v@, i as int).acc,
            acc_ws == all_space(acc@),
            at == split_run(v@, i as int).at,
            opens as int == split_run(v@, i as int).opens,
            closes as int == split_run(v@, i as int).closes,
            opens <= i,
            closes <= i,
            out@.len() == split_run(v@, i as int).spans.len(),
            forall|k: int| 0 <= k < out@.len() ==> out@[k]@ == split_run(v@, i as int).spans[k],
        decreases n - i,
    {
        let c = v[i];
        if acc_ws && c == '@' {
            at = true;
        }
        if c == '{' {
            opens = opens + 1;
        }
        if c == '}' {
            closes = closes + 1;
        }
        acc.push(c);
        proof {
            lemma_all_space_push(split_run(v@, i as int).acc, c);
        }
        acc_ws = acc_ws && is_space(c);
        if c == ';' && at && opens == 0 {
            let t = trim_chars(&acc);
            out.push(RuleSpan { text: t, at: true });
            acc = Vec::new();
            at = false;
            acc_ws = true;
        } else if c == '}' && opens != 0 && opens == closes {
            let t = trim_chars(&acc);
            out.push(RuleSpan { text: t, at });
            acc = Vec::new();
            at = false;
            opens = 0;
            closes = 0;
            acc_ws = true;
        }
        i = i + 1;
    }
    out
}

// ---------------------------------------------------------------------------
// The parsed stylesheet
// ---------------------------------------------------------------------------
/// A declaration block's text, captured verbatim and never validated.
pub struct StyleDeclaration {
    pub text: String,
}

impl StyleDeclaration {
    /// The declaration block wrapped back in braces.
    pub fn style_css_text(&self) -> (s: String)
        ensures
            s@ == seq!['{'] + self.text@ + seq!['}'],
    {
        let mut v: Vec<char> = Vec::new();
        v.push('{');
        let inner = str_chars(self.text.as_str());
        push_all(&mut v, &inner);
        v.push('}');
        proof {
            assert(v@ =~= seq!['{'] + self.text@ + seq!['}']);
        }
        chars_to_string(&v)
    }
}

/// A style rule: the rewritten selector text and its declaration block.
pub struct StyleRule {
    pub selector_text: String,
    pub style: StyleDeclaration,
}

/// An at-rule: statement form keeps its whole text as the prelude and has no
/// body; block form keeps the prelude before the first brace and the nested
/// stylesheet parsed from the interior.
pub struct AtRule {
    pub prelude: String,
    pub inner: Option<StyleSheet>,
}

/// One rule of a stylesheet.
pub enum Rule {
    AtRule(AtRule),
    StyleRule(StyleRule),
}

/// An ordered stylesheet; rule order is load-bearing and preserved through
/// every transformation.
pub struct StyleSheet {
    pub rules: Vec<Rule>,
}

/// The model of one parsed rule.
pub open spec fn rule_view(r: Rule) -> RuleV
    decreases r, 0int, 0int,
{
    match r {
        Rule::AtRule(a) => RuleV::At {
            prelude: a.prelude@,
            inner: match a.inner {
                Some(sh) => Some(sheet_view(sh)),
                None => None,
            },
        },
        Rule::StyleRule(sr) => RuleV::Style { selector: sr.selector_text@, body: sr.style.text@ },
    }
}

/// The models of the first `n` parsed rules.
pub open spec fn rules_view(rs: Seq<Rule>, n: int) -> Seq<RuleV>
    decreases rs, 1int, n,
{
    if n <= 0 || n > rs.len() {
        Seq::empty()
    } else {
        rules_view(rs, n - 1).push(rule_view(rs[n - 1]))
    }
}

/// The model of a parsed stylesheet.
pub open spec fn sheet_view(s: StyleSheet) -> SheetV
    decreases s, 2int, 0int,
{
    SheetV { rules: rules_view(s.rules@, s.rules@.len() as int) }
}

/// Index form of `rules_view`.
pub proof fn lemma_rules_view_index(rs: Seq<Rule>, n: int)
    requires
        0 <= n <= rs.len(),
    ensures
        rules_view(rs, n).len() == n,
        forall|k: int| 0 <= k < n ==> #[trigger] rules_view(rs, n)[k] == rule_view(rs[k]),
    decreases n,
{
    if n > 0 {
        lemma_rules_view_index(rs, n - 1);
    }
}

/// Serialize one rule.
fn rule_css_chars(r: &Rule) -> (v: Vec<char>)
    ensures
        v@ == rule_v_css(rule_view(*r)),
    decreases *r, 0int,
{
    match r {
        Rule::StyleRule(sr) => {
            let mut v = str_chars(sr.selector_text.as_str());
            v.push('{');
            let body = str_chars(sr.style.text.as_str());
            push_all(&mut v, &body);
            v.push('}');
            proof {
                assert(v@ =~= sr.selector_text@ + seq!['{'] + sr.style.text@ + seq!['}']);
            }
            v
        },
        Rule::AtRule(a) => match &a.inner {
            None => str_chars(a.prelude.as_str()),
            Some(sh) => {
                let mut v = str_chars(a.prelude.as_str());
                v.push('{');
                let inner = sheet_css_chars(sh);
                push_all(&mut v, &inner);
                v.push('}');
                proof {
                    assert(v@ =~= a.prelude@ + seq!['{'] + sheet_v_css(sheet_view(*sh))
                        + seq!['}']);
                }
                v
            },
        },
    }
}

/// Serialize a stylesheet: each rule's css, concatenated in rule order.
fn sheet_css_chars(s: &StyleSheet) -> (v: Vec<char>)
    ensures
        v@ == sheet_v_css(sheet_view(*s)),
    decreases *s, 1int,
{
    let n = s.rules.len();
    proof {
        lemma_rules_view_index(s.rules@, n as int);
    }
    let mut v: Vec<char> = Vec::new();
    let mut k: usize = 0;
    while k < n
        invariant
            0 <= k <= n,
            n == s.rules@.len(),
            rules_view(s.rules@, n as int).len() == n,
            forall|t: int|
                0 <= t < n ==> #[trigger] rules_view(s.rules@, n as int)[t] == rule_view(
                    s.rules@[t],
                ),
            v@ == rules_v_css(rules_view(s.rules@, n as int), k as int),
        decreases n - k,
    {
        let rc = rule_css_chars(&s.rules[k]);
        push_all(&mut v, &rc);
        k = k + 1;
    }
    v
}

/// Law: at-rule spans keep their prelude and braces verbatim, and a block
/// at-rule's nested rules are scoped exactly as top-level rules are.  A span
/// without braces serializes unchanged; one with braces serializes as the
/// text before its first brace, then braces around the css of the sheet
/// built from the interior by the same construction, with the same
/// qualifier, that top-level text goes through.
pub proof fn lemma_at_rule_scoping(span: Seq<char>, cls: Seq<char>)
    ensures
        find_sub(span, brace_pat()) is None ==> rule_v_css(spec_rule_from(span, true, cls))
            == span,
        find_sub(span, brace_pat()) is Some ==> ({
            let i = find_sub(span, brace_pat()).unwrap();
            let j = span.len() - 1;
            let interior = if i + 1 <= j {
                span.subrange(i + 1, j)
            } else {
                Seq::<char>::empty()
            };
            rule_v_css(spec_rule_from(span, true, cls)) == span.subrange(0, i) + seq!['{']
                + sheet_v_css(spec_sheet_from(interior, cls)) + seq!['}']
        }),
{
}

/// Law: rule order in the built model equals span order in the input text,
/// one rule per span; nested at-rule interiors are built by the same
/// construction, so the property holds inside them as well.
pub proof fn lemma_order_preserved(text: Seq<char>, cls: Seq<char>)
    ensures
        spec_sheet_from(text, cls).rules.len() == split_spans(text).len(),
        forall|k: int|
            0 <= k < split_spans(text).len() ==> #[trigger] spec_sheet_from(text, cls).rules[k]
                == spec_rule_from(split_spans(text)[k].0, split_spans(text)[k].1, cls),
{
    let spans = split_spans(text);
    lemma_spec_rules_from_index(text, spans, spans.len() as int, cls);
    lemma_split_bounds(text, text.len() as int);
}

/// Law: nested rules are scoped exactly as top-level rules.  For every
/// block-form at-rule span the splitter produces, the built sheet's rule
/// serializes as that span's prelude and braces verbatim around the css of
/// the sheet that `spec_sheet_from` — the very construction applied to
/// top-level text, with the same qualifier — builds from the span's
/// interior.
pub proof fn lemma_nested_scoping(text: Seq<char>, cls: Seq<char>, k: int)
    requires
        0 <= k < split_spans(text).len(),
        split_spans(text)[k].1,
        find_sub(split_spans(text)[k].0, brace_pat()) is Some,
    ensures
        ({
            let span = split_spans(text)[k].0;
            let i = find_sub(span, brace_pat()).unwrap();
            let j = span.len() - 1;
            let interior = if i + 1 <= j {
                span.subrange(i + 1, j)
            } else {
                Seq::<char>::empty()
            };
            rule_v_css(spec_sheet_from(text, cls).rules[k]) == span.subrange(0, i) + seq!['{']
                + sheet_v_css(spec_sheet_from(interior, cls)) + seq!['}']
        }),
{
    lemma_order_preserved(text, cls);
    lemma_at_rule_scoping(split_spans(text)[k].0, cls);
}

// ---------------------------------------------------------------------------
// Constructors
// ---------------------------------------------------------------------------
/// The deep view of a vector of strings is its sequence of character
/// sequences.
proof fn lemma_deep_view_strings(v: Vec<String>)
    ensures
        v.deep_view().len() == v@.len(),
        forall|i: int| 0 <= i < v@.len() ==> v.deep_view()[i] == v@[i]@,
{
    assert forall|i: int| 0 <= i < v@.len() implies v.deep_view()[i] == v@[i]@ by {
        assert(v@[i].deep_view() =~= v@[i]@);
    }
}

/// Turn collected raw selectors into strings, preserving order.
pub(crate) fn strings_of(raws: &Vec<Vec<char>>) -> (out: Vec<String>)
    ensures
        out.deep_view() == raws.deep_view(),
{
    let n = raws.len();
    let mut out: Vec<String> = Vec::new();
    let mut k: usize = 0;
    while k < n
        invariant
            0 <= k <= n,
            n == raws@.len(),
            out@.len() == k,
            forall|t: int| 0 <= t < k ==> out@[t]@ == raws@[t]@,
        decreases n - k,
    {
        out.push(chars_to_string(&raws[k]));
        k = k + 1;
    }
    proof {
        lemma_deep_view_strings(out);
        crate::selector::lemma_deep_view_chars(*raws);
        assert(out.deep_view() =~= raws.deep_view());
    }
    out
}

impl StyleRule {
    /// Parse one style-rule span: the text before the first `{` is the
    /// selector, rewritten with the qualifier; the text between that brace
    /// and the final character is the declaration body, kept verbatim.
    fn from_chars(span: &Vec<char>, class: &Class) -> (r: StyleRule)
        ensures
            rule_view(Rule::StyleRule(r)) == spec_style_rule_v(
                span@,
                spec_selector_fragment(class@),
            ),
    {
        let frag = class.selector_chars();
        let mut brace: Vec<char> = Vec::new();
        brace.push('{');
        proof {
            assert(brace@ =~= brace_pat());
            lemma_find_sub(span@, brace_pat());
        }
        let n = span.len();
        match find_sub_vec(span, &brace) {
            None => {
                let t = trim_chars(span);
                let (sel, _raws) = rewrite_selector_chars(&t, &frag);
                StyleRule {
                    selector_text: chars_to_string(&sel),
                    style: StyleDeclaration { text: String::new() },
                }
            },
            Some(i) => {
                proof {
                    assert(match_at(span@, i as int, brace_pat()));
                }
                let selpart = subvec(span, 0, i);
                let t = trim_chars(&selpart);
                let (sel, _raws) = rewrite_selector_chars(&t, &frag);
                let body = if i + 1 <= n - 1 {
                    subvec(span, i + 1, n - 1)
                } else {
                    Vec::new()
                };
                StyleRule {
                    selector_text: chars_to_string(&sel),
                    style: StyleDeclaration { text: chars_to_string(&body) },
                }
            },
        }
    }

    /// Parse one style-rule span given as a string.
    pub fn from_str(style: &str, class: &Class) -> (r: StyleRule)
        ensures
            rule_view(Rule::StyleRule(r)) == spec_style_rule_v(
                style@,
                spec_selector_fragment(class@),
            ),
    {
        let chars = str_chars(style);
        Self::from_chars(&chars, class)
    }

    /// Rewrite a selector text with the qualifier, storing the rewritten
    /// form and returning the raw compound selectors seen, in first-seen
    /// order without duplicates.
    pub fn parse_selector(&mut self, selector_text: &str, class: &Class) -> (sels: Vec<String>)
        ensures
            final(self).selector_text@ == spec_rewrite_selector(
                selector_text@,
                spec_selector_fragment(class@),
            ),
            final(self).style == old(self).style,
            sels.deep_view() == spec_selector_raws(selector_text@, spec_selector_fragment(class@)),
    {
        let chars = str_chars(selector_text);
        let frag = class.selector_chars();
        let (sel, raws) = rewrite_selector_chars(&chars, &frag);
        self.selector_text = chars_to_string(&sel);
        strings_of(&raws)
    }

    /// The whole style rule as one string: rewritten selector, then the
    /// braced declaration block.
    pub fn css_text(&self) -> (s: String)
        ensures
            s@ == self.selector_text@ + seq!['{'] + self.style.text@ + seq!['}'],
    {
        let mut v = str_chars(self.selector_text.as_str());
        v.push('{');
        let body = str_chars(self.style.text.as_str());
        push_all(&mut v, &body);
        v.push('}');
        proof {
            assert(v@ =~= self.selector_text@ + seq!['{'] + self.style.text@ + seq!['}']);
        }
        chars_to_string(&v)
    }
}

impl AtRule {
    /// Parse one at-rule span.  Without braces it is statement form, kept
    /// verbatim; with braces the interior between the first `{` and the
    /// final character is re-split into a nested stylesheet scoped with the
    /// same qualifier.
    fn from_chars(span: &Vec<char>, class: &Class) -> (a: AtRule)
        ensures
            rule_view(Rule::AtRule(a)) == spec_rule_from(span@, true, spec_selector_fragment(class@)),
        decreases span@.len(), 0int,
    {
        let mut brace: Vec<char> = Vec::new();
        brace.push('{');
        proof {
            assert(brace@ =~= brace_pat());
            lemma_find_sub(span@, brace_pat());
        }
        let n = span.len();
        match find_sub_vec(span, &brace) {
            None => AtRule { prelude: chars_to_string(span), inner: None },
            Some(i) => {
                proof {
                    assert(match_at(span@, i as int, brace_pat()));
                }
                let interior = if i + 1 <= n - 1 {
                    subvec(span, i + 1, n - 1)
                } else {
                    Vec::new()
                };
                let sheet = StyleSheet::from_parts(&interior, class);
                let prelude = subvec(span, 0, i);
                AtRule { prelude: chars_to_string(&prelude), inner: Some(sheet) }
            },
        }
    }

    /// Parse one at-rule span given as a string.
    pub fn from_str(text: &str, class: &Class) -> (a: AtRule)
        ensures
            rule_view(Rule::AtRule(a)) == spec_rule_from(text@, true, spec_selector_fragment(class@)),
    {
        let chars = str_chars(text);
        Self::from_chars(&chars, class)
    }

    /// The whole at-rule as one string.
    pub fn css_text(&self) -> (s: String)
        ensures
            s@ == rule_v_css(rule_view(Rule::AtRule(*self))),
    {
        match &self.inner {
            None => self.prelude.clone(),
            Some(sh) => {
                let mut v = str_chars(self.prelude.as_str());
                v.push('{');
                let inner = sheet_css_chars(sh);
                push_all(&mut v, &inner);
                v.push('}');
                proof {
                    assert(v@ =~= self.prelude@ + seq!['{'] + sheet_v_css(sheet_view(*sh))
                        + seq!['}']);
                }
                chars_to_string(&v)
            },
        }
    }
}

impl Rule {
    /// The rule as one string, whichever kind it is.
    pub fn css_text(&self) -> (s: String)
        ensures
            s@ == rule_v_css(rule_view(*self)),
    {
        let v = rule_css_chars(self);
        chars_to_string(&v)
    }
}

impl StyleSheet {
    /// Parse comment-free stylesheet text: split it into spans and turn each
    /// span into a rule, in source order.
    pub(crate) fn from_parts(text: &Vec<char>, class: &Class) -> (s: StyleSheet)
        ensures
            sheet_view(s) == spec_sheet_from(text@, spec_selector_fragment(class@)),
        decreases text@.len(), 1int,
    {
        let ghost frag = spec_selector_fragment(class@);
        let ghost gspans = split_spans(text@);
        let spans = split_rules(text);
        proof {
            lemma_split_bounds(text@, text@.len() as int);
            lemma_spec_rules_from_index(text@, gspans, gspans.len() as int, frag);
        }
        let n = spans.len();
        let mut rules: Vec<Rule> = Vec::new();
        let mut k: usize = 0;
        while k < n
            invariant
                0 <= k <= n,
                n == spans@.len(),
                n == gspans.len(),
                frag == spec_selector_fragment(class@),
                gspans == split_spans(text@),
                forall|t: int| 0 <= t < n ==> spans@[t]@ == gspans[t],
                forall|t: int| 0 <= t < n ==> (#[trigger] gspans[t]).0.len() <= text@.len(),
                spec_rules_from(text@, gspans, n as int, frag).len() == n,
                forall|t: int|
                    0 <= t < n ==> #[trigger] spec_rules_from(text@, gspans, n as int, frag)[t]
                        == spec_rule_from(gspans[t].0, gspans[t].1, frag),
                rules@.len() == k,
                forall|t: int|
                    0 <= t < k ==> rule_view(#[trigger] rules@[t]) == spec_rules_from(
                        text@,
                        gspans,
                        n as int,
                        frag,
                    )[t],
            decreases n - k,
        {
            proof {
                assert(spans@[k as int]@ == gspans[k as int]);
                assert(spans@[k as int].text@.len() <= text@.len());
            }
            if spans[k].at {
                let a = AtRule::from_chars(&spans[k].text, class);
                rules.push(Rule::AtRule(a));
            } else {
                let sr = StyleRule::from_chars(&spans[k].text, class);
                rules.push(Rule::StyleRule(sr));
            }
            k = k + 1;
        }
        let s = StyleSheet { rules };
        proof {
            lemma_rules_view_index(s.rules@, n as int);
            assert(sheet_view(s).rules =~= spec_sheet_from(text@, frag).rules);
            assert(sheet_view(s) =~= spec_sheet_from(text@, frag));
        }
        s
    }

    /// Parse whole stylesheet text: strip comments, then split into rules.
    /// Text whose first unmatched `/*` is never closed is left out by the
    /// precondition; `comments_ok` tests it.
    pub fn from_str(style_str: &str, class: &Class) -> (s: StyleSheet)
        requires
            spec_strip_comments(style_str@) is Some,
        ensures
            sheet_view(s) == spec_sheet_from(
                spec_strip_comments(style_str@).unwrap(),
                spec_selector_fragment(class@),
            ),
    {
        let chars = str_chars(style_str);
        match try_strip_comments(&chars) {
            Some(stripped) => Self::from_parts(&stripped, class),
            None => unreached(),
        }
    }

    /// The whole stylesheet as one string: each rule's css, concatenated in
    /// rule order.
    pub fn css_text(&self) -> (s: String)
        ensures
            s@ == sheet_v_css(sheet_view(*self)),
    {
        let v = sheet_css_chars(self);
        chars_to_string(&v)
    }
}

/// Whether `s` can be comment-stripped: every `/*` opener found during
/// stripping has a closer after it.
pub fn comments_ok(s: &str) -> (b: bool)
    ensures
        b == (spec_strip_comments(s@) is Some),
{
    let chars = str_chars(s);
    match try_strip_comments(&chars) {
        Some(_) => true,
        None => false,
    }
}

/// Build the scoped css for whole stylesheet text: strip comments, split
/// into rules, scope every selector with the qualifier, and concatenate the
/// rules' css in source order.
pub fn build_style_from_str(style_str: &str, class: &Class) -> (r: String)
    requires
        spec_strip_comments(style_str@) is Some,
    ensures
        r@ == spec_build_style(style_str@, spec_selector_fragment(class@)),
{
    let sheet = StyleSheet::from_str(style_str, class);
    sheet.css_text()
}

} // verus!
