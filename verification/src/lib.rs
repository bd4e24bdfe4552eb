//! Canonical event streams for XML fragments.

pub mod decode;
pub mod event;
pub mod format;
pub mod laws;
pub mod line;
pub mod markup;
pub mod packing;
pub mod text;
pub mod tokenizer;
pub mod xml;
