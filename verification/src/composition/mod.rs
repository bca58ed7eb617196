//! Graphs composed of a root graph and batch relations to other graphs.
pub mod model;
pub mod partition;
pub mod validation;
pub mod plan;
pub mod graph;
