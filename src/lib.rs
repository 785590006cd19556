//! Renders a template against variables merged from several documents: the
//! merge of value trees, and the decisions of a run from loading to writing.
pub mod pipeline;
pub mod value;
