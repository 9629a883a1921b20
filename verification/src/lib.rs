//! Trigram-based fuzzy string similarity.
//!
//! Strings are normalized (case-folded, with the combining dot above removed),
//! split into word runs, and turned into sets of 3-character windows encoded as
//! compact 3-byte keys. Two strings are compared by the Jaccard index of their
//! trigram sets, reported as an exact rational score.

use vstd::prelude::*;

pub mod chars;
pub mod crc;
pub mod encode;
pub mod score;
pub mod search;
pub mod trigram;

pub use chars::pg_downcase;
pub use crc::legacy_crc32;
pub use encode::compact_trigram;
pub use score::Score;
pub use search::best_match;
pub use search::score_all;
pub use search::similarity;
pub use search::similarity_batch;
pub use search::SearchError;
pub use search::PARALLEL_THRESHOLD;
pub use trigram::similarity_from_sets;
pub use trigram::trigrams;
pub use trigram::TrigramSet;

verus! {

} // verus!
