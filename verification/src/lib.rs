//! A verified lexical analyzer for a Lisp-family textual syntax.
//!
//! The tokenizer wraps a forward-only cursor over a sequence of characters
//! and produces one typed token (or lexical error) per pull, advancing the
//! cursor exactly as far as that token reaches.

pub mod laws;
pub mod scan;
pub mod token;
pub mod tokenizer;
