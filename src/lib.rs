pub mod font;
pub mod geometry;
pub mod span;
pub mod tokenizer;
pub mod layout;
pub mod render;
