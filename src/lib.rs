//! Text classification by boolean rules over regular expressions.
//!
//! A [`RuleBox`] holds an ordered list of [`LabelRule`]s. Each pairs a
//! [`Rule`] (all-of, any-of and none-of groups of [`RegexRule`]s) with a
//! label. Once compiled, a rule box assigns to a text the labels of every
//! active rule that matches it.
pub mod combinator;
pub mod engine;
pub mod labels;
pub mod matcher;
pub mod pattern;

pub use combinator::Rule;
pub use engine::{default_true, LabelRule, LabeledText, RuleBox};
pub use pattern::{CompileError, Flag, RegexRule};
