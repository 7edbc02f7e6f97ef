pub mod constants;
pub mod errors;
pub mod gui;
pub mod header;
pub mod image;
pub mod numeric;
pub mod text;
