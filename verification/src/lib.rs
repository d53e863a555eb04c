//! Systems registry and dependency graph of an entity-component-system
//! runtime, with the identifiers, queries and allocation helpers it uses.
pub mod types;
pub mod graph;
pub mod system;
pub mod archetype;
pub mod query;
pub mod world;
