pub mod buffer;
pub mod canvas;
pub mod color;
pub mod draw;
pub mod error;
pub mod glyph;
pub mod graphics;
pub mod greeter;
pub mod input;
pub mod kms;
pub mod login;
pub mod render;
