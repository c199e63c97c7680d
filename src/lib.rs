//! Ranking of related headings and notes.
//!
//! The library holds the discrete part of the recommender: which candidates
//! are compared, how scores are ordered and cut to a limit, how words and tags
//! overlap, how many days ago a note was viewed, and the reasons that give a
//! count in words. Scores themselves are
//! IEEE-754 doubles computed by the host; they reach the library as bit
//! patterns and are compared through an order-preserving integer key.

mod laws;
mod order;
mod overlap;
mod ranking;
mod reasons;
mod recency;

pub use order::{key_of, meets_threshold, is_positive, order_key, SIGN_BIT};
pub use ranking::{
    ahead, heading_candidates, is_heading_candidate, is_note_candidate, is_top_order,
    note_candidates, rank_order, selects, ChunkRef, NoteRef,
};
pub use overlap::{counts_overlap, overlap_counts, texts, word_overlap, words_of, Overlap};
pub use recency::{days_between, days_since, recency_days, recency_days_now, recent_days, MS_PER_DAY, RECENT_DAYS};
pub use laws::{
    lemma_headings_skip_current_note, lemma_notes_skip_current_note, lemma_ranking_bounded_and_sorted,
    lemma_text_overlaps_itself, lemma_wordless_text_shares_nothing,
};
pub use reasons::{decimal, digit_char, recently_viewed_reason, shared_tags_reason, signed_decimal};
