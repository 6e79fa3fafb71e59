//! Vertex storage for a Gremlin-style graph database: a byte layout for vertex
//! keys and label lists, and the repository operations built on it.
pub mod codec;
pub mod model;
pub mod store;
pub mod repository;
pub mod laws;
