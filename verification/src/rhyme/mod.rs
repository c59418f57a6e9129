//! Rhyme detection: pronunciations, syllable spans, and the grouping of
//! matched syllables into colour groups.

pub mod pronounce;
pub mod union_find;
pub mod order;
pub mod groups;
pub mod syllables;
pub mod units;
pub mod lines;
pub mod fallback;
pub mod palette;
pub mod search;
