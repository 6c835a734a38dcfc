//! Prime paths over graphs written in the dot language.
//!
//! A prime path is a maximal simple walk or simple cycle: one whose node
//! sequence is not a contiguous subsequence of any other such walk's node
//! sequence. The crate flattens a parsed dot graph into a typed model,
//! enumerates every terminal walk from every start node, filters the walks
//! down to the prime paths, and rebuilds one restricted dot graph per path.

pub mod dot;
pub mod enumerate;
pub mod filter;
pub mod ident;
pub mod model;
pub mod path;
pub mod pipeline;
