//! Syllabification of polytonic Greek words.
//!
//! A word is cut into extended grapheme clusters, each cluster is classified
//! by its base letter and its diacritics, and a right-to-left scan over the
//! classified clusters decides where syllables begin.

pub mod classify;
pub mod scan;
mod segment;

pub use classify::{categorise, Accent, Breathing};
pub use scan::{is_dipthong, joinable_consonant, split_clusters, syllables};
