//! Scenarios for the token front end: spacing reconstruction from source
//! positions, the heuristic fallback, and token-level rule splitting.

use stylers_core::build_style_from_ts;
use stylers_core::Class;
use stylers_core::Delim;
use stylers_core::SrcSpan;
use stylers_core::StyleRule;
use stylers_core::StyleSheet;
use stylers_core::Token;

fn span(start_line: usize, start_col: usize, end_line: usize, end_col: usize) -> SrcSpan {
    SrcSpan { start_line, start_col, end_line, end_col }
}

fn ident(text: &str, start_col: usize) -> Token {
    ident_on(text, 1, start_col)
}

fn ident_on(text: &str, line: usize, start_col: usize) -> Token {
    Token::Ident {
        text: text.to_string(),
        span: span(line, start_col, line, start_col + text.len()),
    }
}

fn punct_on(ch: char, line: usize, start_col: usize) -> Token {
    Token::Punct { ch, span: span(line, start_col, line, start_col + 1) }
}

fn punct(ch: char, start_col: usize) -> Token {
    Token::Punct { ch, span: span(1, start_col, 1, start_col + 1) }
}

/// `div { color: red; }` with contiguous declaration tokens.
fn div_color_red() -> Vec<Token> {
    let decl = vec![ident("color", 5), punct(':', 10), ident("red", 11), punct(';', 14)];
    vec![
        ident("div", 0),
        Token::Group { delim: Delim::Brace, inner: decl, span: span(1, 4, 1, 16) },
    ]
}

#[test]
fn token_rule_is_scoped() {
    let class = Class::new("test".into());
    let (css, raws) = build_style_from_ts(&div_color_red(), &class, true);
    assert_eq!(css, "div.test{color:red;}");
    assert_eq!(raws, vec!["div".to_string()]);
}

#[test]
fn token_rule_heuristic_spacing() {
    let class = Class::new("test".into());
    let (css, _) = build_style_from_ts(&div_color_red(), &class, false);
    assert_eq!(css, "div.test{color:red;}");
}

#[test]
fn token_gap_becomes_single_space() {
    // `div p` with a one-column gap between the identifiers.
    let class = Class::new("test".into());
    let toks = vec![
        ident("div", 0),
        ident("p", 4),
        Token::Group { delim: Delim::Brace, inner: vec![], span: span(1, 6, 1, 8) },
    ];
    let (css, raws) = build_style_from_ts(&toks, &class, true);
    assert_eq!(css, "div.test p.test{}");
    assert_eq!(raws, vec!["div".to_string(), "p".to_string()]);
}

#[test]
fn token_heuristic_spaces_adjacent_words() {
    let class = Class::new("test".into());
    let toks = vec![
        ident("div", 0),
        ident("p", 4),
        Token::Group { delim: Delim::Brace, inner: vec![], span: span(1, 6, 1, 8) },
    ];
    let (css, _) = build_style_from_ts(&toks, &class, false);
    assert_eq!(css, "div.test p.test{}");
}

#[test]
fn token_class_selector_stays_tight() {
    // `div.foo` written without gaps stays one compound selector.
    let class = Class::new("test".into());
    let toks = vec![
        ident("div", 0),
        punct('.', 3),
        ident("foo", 4),
        Token::Group { delim: Delim::Brace, inner: vec![], span: span(1, 8, 1, 10) },
    ];
    let (css, raws) = build_style_from_ts(&toks, &class, true);
    assert_eq!(css, "div.foo.test{}");
    assert_eq!(raws, vec!["div.foo".to_string()]);
}

#[test]
fn token_statement_at_rule_kept() {
    let class = Class::new("test".into());
    let toks = vec![
        punct('@', 0),
        ident("charset", 1),
        Token::Literal { text: "\"utf-8\"".to_string(), span: span(1, 9, 1, 16) },
        punct(';', 16),
    ];
    let (css, raws) = build_style_from_ts(&toks, &class, true);
    assert_eq!(css, "@charset \"utf-8\";");
    assert!(raws.is_empty());
}

#[test]
fn token_media_block_scopes_nested_rule() {
    let class = Class::new("test".into());
    let nested = div_color_red();
    let toks = vec![
        punct('@', 0),
        ident("media", 1),
        ident("print", 7),
        Token::Group { delim: Delim::Brace, inner: nested, span: span(1, 13, 1, 32) },
    ];
    let (css, raws) = build_style_from_ts(&toks, &class, true);
    assert_eq!(css, "@media print{div.test{color:red;}}");
    assert_eq!(raws, vec!["div".to_string()]);
}

#[test]
fn token_literal_quotes_trimmed_in_selector() {
    // A quoted literal in selector position loses its quotes.
    let class = Class::new("test".into());
    let toks = vec![
        Token::Literal { text: "\"a\"".to_string(), span: span(1, 0, 1, 3) },
        Token::Group { delim: Delim::Brace, inner: vec![], span: span(1, 4, 1, 6) },
    ];
    let (css, _) = build_style_from_ts(&toks, &class, true);
    assert_eq!(css, "a.test{}");
}

#[test]
fn token_parenthesized_group_rendered_in_prelude() {
    let class = Class::new("test".into());
    let cond = vec![
        ident("min-width", 14),
        punct(':', 23),
        ident("100px", 25),
    ];
    let toks = vec![
        punct('@', 0),
        ident("media", 1),
        Token::Group { delim: Delim::Parenthesis, inner: cond, span: span(1, 7, 1, 31) },
        Token::Group { delim: Delim::Brace, inner: div_color_red(), span: span(1, 32, 1, 52) },
    ];
    let (css, _) = build_style_from_ts(&toks, &class, true);
    assert_eq!(css, "@media (min-width: 100px){div.test{color:red;}}");
}

#[test]
fn token_line_break_joins_without_space() {
    // declarations on separate source lines are joined with no space, while
    // a same-line gap becomes a single space
    let class = Class::new("test".into());
    let decl = vec![
        ident_on("color", 2, 4),
        punct_on(':', 2, 9),
        ident_on("red", 2, 11),
        punct_on(';', 2, 14),
        ident_on("margin", 3, 4),
        punct_on(':', 3, 10),
        ident_on("0", 3, 11),
        punct_on(';', 3, 12),
    ];
    let toks = vec![
        ident("div", 0),
        Token::Group { delim: Delim::Brace, inner: decl, span: span(1, 4, 4, 1) },
    ];
    let (css, _) = build_style_from_ts(&toks, &class, true);
    assert_eq!(css, "div.test{color: red;margin:0;}");
}

#[test]
fn parse_without_brace_group_leaves_rule_unchanged() {
    let class = Class::new("test".into());
    let (mut rule, _) = StyleRule::new(&div_color_red(), &class, true);
    let sels = rule.parse(&vec![ident("p", 0)], &class, true);
    assert!(sels.is_empty());
    assert_eq!(rule.css_text(), "div.test{color:red;}");
}

#[test]
fn style_rule_new_from_tokens() {
    let class = Class::new("test".into());
    let (rule, raws) = StyleRule::new(&div_color_red(), &class, true);
    assert_eq!(rule.css_text(), "div.test{color:red;}");
    assert_eq!(raws, vec!["div".to_string()]);
}

#[test]
fn sheet_new_merges_raw_selectors() {
    let class = Class::new("test".into());
    let rule1 = div_color_red();
    let mut toks = rule1;
    toks.push(ident("div", 20));
    toks.push(Token::Group { delim: Delim::Brace, inner: vec![], span: span(1, 24, 1, 26) });
    let (sheet, raws) = StyleSheet::new(&toks, &class, true);
    assert_eq!(sheet.css_text(), "div.test{color:red;}div.test{}");
    // the duplicate raw selector is recorded once
    assert_eq!(raws, vec!["div".to_string()]);
}
