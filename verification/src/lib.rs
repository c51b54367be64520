//! Single-pass, mutation-capable traversal of a tree of tagged nodes: the
//! ancestry trail that every visitor callback can query, the walk that keeps the
//! trail, and the layout generation that fixes how node types are numbered.

pub mod ancestor;
pub mod ast_node;
pub mod context;
pub mod item;
pub mod recorder;
pub mod replace;
pub mod traverse;
pub mod tree;
pub mod visited_node;
