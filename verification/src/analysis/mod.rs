//! Reusable analysis of a graph definition: name lookups, topology and projection paths.
pub mod index;
pub mod topology;
pub mod projection;
