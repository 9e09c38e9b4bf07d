//! A JSON codec built from two halves: an incremental encoder that writes
//! each value shape straight into a text buffer, and the decoding side of
//! the protocol, where typed record builders fold keys and values handed to
//! them by a tokenizer.

pub mod decode;
pub mod encoder;
pub mod laws;
pub mod ordered_map;
pub mod records;
pub mod text;
