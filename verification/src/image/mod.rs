pub mod image;
pub mod render;
pub mod scalars;
