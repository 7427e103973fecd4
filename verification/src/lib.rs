//! A word-level translation engine: per-language dictionaries of words and
//! their meanings in other languages, a segmenter that splits content into
//! translatable units, and a resolver that answers translate requests.

pub mod chains;
pub mod dict;
pub mod dtos;
pub mod laws;
pub mod register;
pub mod resolve;
pub mod segment;
pub mod symbols;
