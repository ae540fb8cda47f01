pub mod cells;
pub mod gl_messages;
pub mod grid;
pub mod input;
pub mod mesh;
pub mod pipeline;
pub mod water;
