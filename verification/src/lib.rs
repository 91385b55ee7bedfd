//! Text processing ahead of embedding: sentence-preserving chunking with
//! overlap, batch chunking, tokenisation, cleaning and entity extraction.
//!
//! - [`text`] and [`segment`]: characters, trimming, and the segments of a
//!   text.
//! - [`params`]: the chunking parameters and the error for unusable ones.
//! - [`chunker`]: the chunker and what it computes; [`laws`]: what holds of
//!   its chunks.
//! - [`batch`]: chunking many texts at once.
//! - [`patterns`], [`clean`], [`entities`]: pattern-based cleaning and
//!   extraction.
//! - [`tokens`]: tokens and token estimates.
//! - [`words`]: a plain chunker that packs whole words.

pub mod batch;
pub mod chunker;
pub mod clean;
pub mod entities;
pub mod laws;
pub mod params;
pub mod patterns;
pub mod segment;
pub mod text;
pub mod tokens;
pub mod words;
