pub mod discovery;
pub mod extract;
pub mod graph;
pub mod laws;
pub mod order;
pub mod pipeline;
pub mod render;
pub mod text;
