//! A persisted mapping from word forms to morphological analyses, kept in an
//! embedded key-value store and queried by exact word or by prefix.
//!
//! A store is built from a lexicon, one analysis record per line. Each word
//! holds the JSON array of its analyses, in the order in which they came. An
//! exact query returns that array as it is stored; a prefix query returns it
//! together with the characters that can follow the fragment.

pub mod array;
pub mod continuation;
pub mod engine;
pub mod error;
pub mod ingest;
pub mod json;
pub mod laws;
pub mod record;
pub mod scan;
pub mod store;
pub mod text;

pub use error::{FjallMorphologyError, StoreFault};
pub use record::{AnalysisRecord, StoredAnalysis};
pub use store::FjallMorphology;
