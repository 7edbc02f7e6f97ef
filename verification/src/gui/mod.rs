pub mod components;
pub mod utils;
