//! Core of a minimal browser engine: an HTML tokenizer (a character-level
//! finite automaton producing tag, character and end-of-input tokens), an
//! HTTP/1.1 response parser, a URL splitter for the `http` scheme, and the
//! supporting data types, with machine-checked contracts throughout.

pub mod attribute;
pub mod chars;
pub mod client;
pub mod dom;
pub mod error;
pub mod http;
pub mod token;
pub mod url;

pub use error::Error;
