//! Normalizes rows of a recipe table and loads them into a property graph:
//! recipe nodes, ingredient nodes, and "contains" edges between them.
pub mod text;
pub mod decode;
pub mod scalar;
pub mod graph;
pub mod laws;
pub mod record;
pub mod load;
pub mod listlaw;
