pub mod base;
pub mod container;
pub mod text_box;
