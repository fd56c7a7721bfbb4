//! A reverse-mode automatic differentiation engine over a dynamically built
//! scalar computation graph.
//!
//! Scalars live in an arena [`graph::Graph`] and are addressed by stable
//! indices; every arithmetic call appends a node recording its operands, so
//! the graph is acyclic by construction. A reverse pass over a root node
//! sorts the reachable nodes topologically and accumulates each node's
//! gradient into its children.

pub mod arith;
pub mod backward;
pub mod graph;
pub mod laws;
pub mod nn;
