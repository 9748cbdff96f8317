//! A compiler from an eight-symbol tape language to QBE intermediate
//! representation: a verified parser builds a nested operation tree, and a
//! verified emitter lowers the tree to IR builder calls with correct loop
//! control flow and globally unique loop labels.
//!
//! `ast` holds the operation tree and the parser, `ir` the mathematical
//! shape of the emitted function body, `labels` the loop label text,
//! `backend` the trusted declarations over the outside IR builder, `emit`
//! the emitter and the end-to-end `compile`, and `depth` the relation
//! between bracket nesting in the input and `Loop` nesting in the tree.

pub mod ast;
pub mod backend;
pub mod depth;
pub mod emit;
pub mod ir;
pub mod labels;
