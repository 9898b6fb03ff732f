//! Metadata-driven tokenization and extraction of address-like text.

pub mod cache;
pub mod clock;
pub mod error;
pub mod extractor;
pub mod normalize;
pub mod offsets;
pub mod regex;
pub mod runs;
mod shared;
pub mod tel;
pub mod text;
pub mod token_model;
pub mod tokenizer;
pub mod unicode;
