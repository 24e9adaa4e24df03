//! A two-colour text codec: every bit of a byte is written as one of two
//! colour names, and colour names or binary digits are read back into text.

pub mod mapping;
pub mod text;
pub mod encode;
pub mod decode;
pub mod colors;
pub mod dispatch;
pub mod laws;
