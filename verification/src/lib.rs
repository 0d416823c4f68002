//! A verified JSX-to-template lowering engine in the style of fine-grained
//! reactive UI frameworks: it turns a parsed element tree into a static HTML
//! template string, declarations that walk a cloned template to the nodes
//! that need live updates, and the runtime statements that wire reactive
//! values to those nodes.

pub mod ast;
pub mod attrs;
pub mod check;
pub mod constants;
pub mod element;
pub mod ir;
pub mod laws;
pub mod lintctx;
pub mod style;
pub mod text;
