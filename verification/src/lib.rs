//! Security linting engine: inline-ignore directives, rule checks over a
//! syntax tree, and the bookkeeping around findings.

pub mod engine;
pub mod finding;
pub mod ignore;
pub mod parse;
pub mod text;

pub use finding::{Finding, Language, Severity};
pub mod rules;
pub mod syntax;
