//! Scenarios for the string front end: selector scoping, escape hatches,
//! at-rules, comments, and rule ordering.

use stylers_core::build_style_from_str;
use stylers_core::comments_ok;
use stylers_core::strip_comment_text;
use stylers_core::AtRule;
use stylers_core::Class;
use stylers_core::StyleDeclaration;
use stylers_core::StyleRule;
use stylers_core::StyleSheet;

fn scope(css: &str) -> String {
    let class = Class::new("test".into());
    build_style_from_str(css, &class)
}

#[test]
fn plain_tag_selector() {
    assert_eq!(
        scope("div{border:1px solid black;margin:25px 50px 75px 100px;background-color:lightblue;}"),
        "div.test{border:1px solid black;margin:25px 50px 75px 100px;background-color:lightblue;}"
    );
}

#[test]
fn selector_list_keeps_comma_and_space() {
    assert_eq!(scope("h1, h2{color:red;}"), "h1.test, h2.test{color:red;}");
}

#[test]
fn descendant_combinator_scopes_both() {
    assert_eq!(scope("div p{color:red;}"), "div.test p.test{color:red;}");
}

#[test]
fn pseudo_class_qualifier_before_colon() {
    assert_eq!(scope("a:hover{color:red;}"), "a.test:hover{color:red;}");
}

#[test]
fn root_selector_stays_global() {
    assert_eq!(scope(":root{--x:1;}"), ":root{--x:1;}");
}

#[test]
fn attribute_selector_qualified_after_bracket() {
    assert_eq!(
        scope("input[type=\"text\"]{color:red;}"),
        "input[type=\"text\"].test{color:red;}"
    );
}

#[test]
fn media_block_scopes_nested_rule() {
    assert_eq!(
        scope("@media (min-width: 100px){ div{color:red;} }"),
        "@media (min-width: 100px){div.test{color:red;}}"
    );
}

#[test]
fn child_combinator() {
    assert_eq!(scope("div>p{color:red;}"), "div.test>p.test{color:red;}");
}

#[test]
fn universal_selector_replaced_by_qualifier() {
    assert_eq!(scope("*{color:red;}"), ".test{color:red;}");
}

#[test]
fn deep_directive_left_unscoped() {
    assert_eq!(
        scope("div :deep(p){color:red;}"),
        "div.test p{color:red;}"
    );
}

#[test]
fn pseudo_class_with_arguments() {
    assert_eq!(
        scope("a:nth-child(2n){color:red;}"),
        "a.test:nth-child(2n){color:red;}"
    );
}

#[test]
fn deep_directive_trailing_selector_is_scoped() {
    // after the directive closes, the next compound is scoped normally
    assert_eq!(
        scope("div :deep(p) b{color:red;}"),
        "div.test p b.test{color:red;}"
    );
}

#[test]
fn deep_directive_whitespace_run_collapses() {
    // a whole run of whitespace after the directive becomes one space
    assert_eq!(
        scope("div :deep(p)   b{color:red;}"),
        "div.test p b.test{color:red;}"
    );
}

#[test]
fn pseudo_class_run_ends_at_any_whitespace() {
    assert_eq!(
        scope("a:hover\tb{color:red;}"),
        "a.test:hover\tb.test{color:red;}"
    );
}

#[test]
fn nested_at_rules_scope_innermost_rule() {
    assert_eq!(
        scope("@supports (display:grid){@media print{div{color:red;}}}"),
        "@supports (display:grid){@media print{div.test{color:red;}}}"
    );
}

#[test]
fn statement_at_rule_kept_verbatim() {
    assert_eq!(
        scope("@import url(a.css);div{color:red;}"),
        "@import url(a.css);div.test{color:red;}"
    );
}

#[test]
fn rule_order_is_preserved() {
    assert_eq!(
        scope("b{color:red;}a{color:blue;}i{color:green;}"),
        "b.test{color:red;}a.test{color:blue;}i.test{color:green;}"
    );
}

#[test]
fn comment_is_stripped() {
    assert_eq!(scope("/* note */div{color:red;}"), "div.test{color:red;}");
}

#[test]
fn comment_between_rules_is_stripped() {
    assert_eq!(
        scope("a{color:red;}/* x *//* y */b{color:blue;}"),
        "a.test{color:red;}b.test{color:blue;}"
    );
}

#[test]
fn empty_input_gives_empty_output() {
    assert_eq!(scope(""), "");
}

#[test]
fn unterminated_comment_is_rejected() {
    assert!(!comments_ok("div{color:red;}/* open"));
    assert!(comments_ok("div{color:red;}/* closed */"));
}

#[test]
fn comment_stripping_is_idempotent() {
    let once = strip_comment_text("a/*1*/b/*2*/c{color:red;}").unwrap();
    let twice = strip_comment_text(&once).unwrap();
    assert_eq!(once, "abc{color:red;}");
    assert_eq!(twice, once);
}

#[test]
fn multi_line_selector_is_joined() {
    assert_eq!(scope("h2,\nh1{color:red;}"), "h2.test,h1.test{color:red;}");
}

#[test]
fn parse_selector_collects_raw_selectors() {
    let class = Class::new("test".into());
    let mut rule = StyleRule::from_str("div{color:red;}", &class);
    let raws = rule.parse_selector("div p:hover", &class);
    assert_eq!(rule.css_text(), "div.test p.test:hover{color:red;}");
    assert_eq!(raws, vec!["div".to_string(), "p:hover".to_string()]);
}

#[test]
fn trailing_newline_does_not_defeat_qualifier() {
    // newlines are elided before the scan, so wrapping has no effect
    let class = Class::new("test".into());
    let mut rule = StyleRule::from_str("p{}", &class);
    let raws = rule.parse_selector("div\n", &class);
    assert_eq!(rule.css_text(), "div.test{}");
    assert_eq!(raws, vec!["div".to_string()]);
    let mut rule2 = StyleRule::from_str("p{}", &class);
    let raws2 = rule2.parse_selector("div", &class);
    assert_eq!(rule2.css_text(), rule.css_text());
    assert_eq!(raws2, raws);
}

#[test]
fn parse_selector_records_universal() {
    let class = Class::new("test".into());
    let mut rule = StyleRule::from_str("p{}", &class);
    let raws = rule.parse_selector("*", &class);
    assert_eq!(raws, vec!["*".to_string()]);
}

#[test]
fn at_rule_statement_form_from_str() {
    let class = Class::new("test".into());
    let at = AtRule::from_str("@import url(a.css);", &class);
    assert_eq!(at.css_text(), "@import url(a.css);");
    assert!(at.inner.is_none());
}

#[test]
fn at_rule_block_form_from_str() {
    let class = Class::new("test".into());
    let at = AtRule::from_str("@media print{div{color:red;}}", &class);
    assert_eq!(at.css_text(), "@media print{div.test{color:red;}}");
}

#[test]
fn declaration_wraps_text_in_braces() {
    let decl = StyleDeclaration { text: "color:red;".to_string() };
    assert_eq!(decl.style_css_text(), "{color:red;}");
}

#[test]
fn sheet_from_str_serializes_in_order() {
    let class = Class::new("test".into());
    let sheet = StyleSheet::from_str("a{x:1;}@media print{b{y:2;}}", &class);
    assert_eq!(
        sheet.css_text(),
        "a.test{x:1;}@media print{b.test{y:2;}}"
    );
}
