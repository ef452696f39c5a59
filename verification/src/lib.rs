//! Build-time scoped-CSS generation.
//!
//! Given a block of CSS-like text authored alongside a UI component, every
//! selector is rewritten so that it only matches elements carrying a
//! deterministically derived, per-component class qualifier.  The crate offers
//! two front ends over one rewriting core: a string front end for stylesheet
//! text loaded from a file, and a token front end for style blocks extracted
//! from host source code.

pub mod class;
pub mod comments;
pub mod selector;
pub mod style;
pub mod style_sheet;
pub mod text;

pub use class::Class;
pub use comments::strip_comment_text;
pub use style::{build_style_from_ts, Delim, SrcSpan, Token};
pub use style_sheet::{
    build_style_from_str, comments_ok, AtRule, Rule, StyleDeclaration, StyleRule, StyleSheet,
};
