//! Block reconstruction engine of a source-code pretty-printer.
//!
//! Given a parsed sequence of syntactic items enclosed in braces, the engine
//! produces correctly indented output text while preserving the original
//! comments and blank-line intent of the source.  The crate also carries the
//! style-option types that configure the engine, and the doc-comment and
//! attribute readers of the configuration-schema generator that lives
//! beside it.

pub mod block;
pub mod comment;
pub mod doc_comment;
pub mod field_attrs;
pub mod options;
pub mod shape;
pub mod span;
pub mod visitor;
