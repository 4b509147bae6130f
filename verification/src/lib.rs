//! Hashed character n-gram features and the cosine between them, in exact
//! integer arithmetic.

pub mod fnv;
pub mod lowercase;
pub mod ngram;
pub mod similarity;
pub mod wide;

pub use ngram::hash_ngrams;
pub use similarity::cosine;
