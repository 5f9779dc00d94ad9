//! A static-analysis and autocorrection engine: rules walk a syntax tree,
//! report offenses and register text edits, and the edits are merged into
//! one rewrite of the source bytes.

pub mod ast;
pub mod commissioner;
pub mod config;
pub mod cop;
pub mod corrector;
pub mod default;
pub mod expect_offense;
pub mod layout;
pub mod reporter;
pub mod rewriter;
pub mod source;
pub mod style;

pub use rewriter::Rewriter;
