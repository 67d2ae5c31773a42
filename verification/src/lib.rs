//! A source-tree linting engine: it walks a project's files, runs pluggable
//! checks over their content, and renders findings as structured,
//! rustc-style diagnostics.

pub mod fault;
pub mod lint;
pub mod paths;
pub mod span;
pub mod stage;
pub mod text;
pub mod tree;
pub mod util;
pub mod visit;
pub mod walker;
