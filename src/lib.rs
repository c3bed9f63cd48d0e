//! A semantic-layer query rewriter: virtual models over physical tables,
//! relationships between them and calculated columns, analysed once and then
//! used to rewrite queries over the models into plans over physical tables.
pub mod analyzer;
pub mod expression;
pub mod laws;
pub mod manifest;
pub mod names;
pub mod placeholder;
pub mod rewrite;
