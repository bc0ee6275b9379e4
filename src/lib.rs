//! A combinational logic-circuit core: gate kinds, nodes and wires, the
//! dependency graph compiled from the wires, and an evaluator that treats
//! missing wiring and cycles as an undefined value.

pub mod gate;
pub mod ids;
pub mod node;
pub mod graph;
pub mod eval;
pub mod circuit;

pub use gate::{NodeKind, SocketKind};
pub use ids::IdAllocator;
pub use circuit::{Circuit, ConnectError};
pub use eval::{eval_at, evaluate, feeders_of, find_index};
pub use graph::{Adjacency, DependencyGraph};
pub use node::{Edge, Node, Socket, SocketRef};
