pub mod element;
pub mod image;
