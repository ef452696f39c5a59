//! Scenarios for the scoping qualifier: determinism, seed sensitivity, and
//! the two renderings.

use stylers_core::build_style_from_str;
use stylers_core::Class;

#[test]
fn same_seed_same_class() {
    let a = Class::rand_class_from_seed("div{color:red;}".into());
    let b = Class::rand_class_from_seed("div{color:red;}".into());
    assert_eq!(a.as_name(), b.as_name());
    assert_eq!(a.as_selector(), b.as_selector());
}

#[test]
fn different_seeds_different_classes() {
    let a = Class::rand_class_from_seed("div{color:red;}".into());
    let b = Class::rand_class_from_seed("div{color:blue;}".into());
    assert_ne!(a.as_name(), b.as_name());
}

#[test]
fn selector_form_is_dotted_name() {
    let c = Class::new("test".into());
    assert_eq!(c.as_name(), "test");
    assert_eq!(c.as_selector(), ".test");
}

#[test]
fn derived_class_shape() {
    let c = Class::rand_class_from_seed("seed".into());
    let name = c.as_name();
    assert_eq!(name.len(), 15);
    assert!(name.starts_with("l-"));
    assert!(name[2..].chars().all(|ch| ch.is_ascii_lowercase() || ch.is_ascii_digit()));
}

#[test]
fn derived_class_scopes_like_any_other() {
    let c = Class::rand_class_from_seed("seed".into());
    let css = build_style_from_str("div{color:red;}", &c);
    assert_eq!(css, format!("div.{}{{color:red;}}", c.as_name()));
}
