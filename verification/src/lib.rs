//! Tokens built from chemical element symbols, designed for use in LLM
//! contexts, such as `FeAuRnCuXeNdCsPbBiTh`.
//!
//! Each symbol is drawn uniformly from the 104 two-letter element symbols by
//! rejection sampling over 16-bit words, so a symbol carries
//! `log2(104) ≈ 6.7` bits of the source's entropy; `validate` checks that a
//! string is a non-empty concatenation of those symbols.
//!
//! The modules hold the specifications and the proved properties:
//! [`symbols`] the vocabulary, [`rng`] the unbiased sampler, [`generate`] the
//! token builder and [`validate`] the format check.

pub mod error;
pub mod generate;
mod os_random;
pub mod rng;
pub mod symbols;
pub mod validate;

pub use error::Error;
pub use generate::{generate, generate_from, MAX_LENGTH};
pub use rng::{accept_word, random_index, random_index_from};
pub use symbols::{ELEMENT_SYMBOLS, SYMBOL_COUNT};
pub use validate::validate;
