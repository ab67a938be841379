//! A bounded, single-owner cache from string keys to byte payloads, kept in
//! recency order (front = most recently used) and bounded either by the number
//! of entries or by the total payload size.

mod payload;
mod entry;
mod model;
mod cache;
mod laws;

pub use entry::Entry;
pub use cache::{Cache, Error, LimitType};
pub use model::{
    EntryView, total_size, fit_within, has_key, keys_unique, within_bound, add_rejected, add_model,
    promote,
};
pub use laws::{
    add_each, lemma_add_within_bound, lemma_add_each_within_bound, lemma_capacity_bound,
    lemma_size_bound, lemma_duplicate_add_keeps_first, lemma_clear_idempotent,
};
pub use payload::byte_content;
