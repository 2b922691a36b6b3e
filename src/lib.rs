//! Word-postings extraction: turns per-document changes into five mergeable
//! posting streams of (key, side, document id) entries, through bounded
//! caches that coalesce the writes made to one key.

mod cache;
mod fieldids_weights_map;
mod keys;
mod position;
mod prompt;
mod word_docids;

pub use cache::{entries_postings, lemma_entries_concat, CboCachedSorter, KeyDocids, Side};
pub use fieldids_weights_map::FieldidsWeightsMap;
pub use keys::{
    contained_in, lemma_fid_count_key_injective, lemma_same_word_key_order, lemma_word_u16_key_order, write_fid_count_key, write_word_u16_key,
    PATH_SEPARATOR,
};
pub use position::{bucketed_position, lemma_bucketed_position_monotone};
pub use prompt::{default_fallback, default_template_text, PromptData, PromptFallbackStrategy};
pub use word_docids::{
    is_exact_attribute, lemma_count_ceiling, lemma_count_postings_own_document,
    lemma_change_tally, lemma_delta_correctness, lemma_exact_routing, lemma_partition,
    lemma_tally_postings_docid, lemma_tokens_postings, count_fid, counts_postings,
    lemma_counts_postings_keys, lemma_counts_postings_membership, lemma_fresh_tally,
    lemma_update_count_net_effect, lemma_write_routing,
    lemma_update_is_deletion_then_insertion, DocumentChange, DocumentToken, Stream,
    WordDocidsCachedSorters, WordDocidsExtractorData, WordDocidsExtractors,
    WordDocidsSorterEntries, CACHE_CAPACITY, MAX_COUNTED_WORDS,
};

use vstd::prelude::*;

verus! {

/// Identifier of a field.
pub type FieldId = u16;

/// Identifier of a document.
pub type DocumentId = u32;

/// Ranking weight of a searchable field.
pub type Weight = u16;

} // verus!
