//! A bounded, in-memory key/value cache that evicts entries by recency of
//! use, where fullness is measured by a caller-defined *weight* rather than
//! an entry count.
//!
//! Each stored value reports a non-negative integer cost through the
//! [`Weighted`] trait.  The cache guarantees that the sum of the weights of
//! the live entries never exceeds a configured budget of
//! `max_item_weight * max_count`, discarding least-recently-inserted entries
//! as needed to admit new ones.  This supports caching heterogeneously sized
//! payloads (strings, documents, buffers) under a single size budget.
//!
//! Keys are identified through the [`CacheKey`] trait, which gives every key
//! a mathematical identity (an injective byte encoding) that the contracts
//! are stated over.
//!
//! The cache performs no internal locking: it may be moved between threads,
//! but concurrent mutation must be serialized by the caller.

mod cache;
mod key;
mod model;
mod weight;

pub use cache::LruCacheItem;
pub use cache::LruError;
pub use cache::LruWeightedCache;
pub use cache::lemma_replace_keeps_len;
pub use cache::lemma_weight_invariant;
pub use key::CacheKey;
pub use model::distinct_keys;
pub use model::evict_to_fit;
pub use model::has_key;
pub use model::total_weight;
pub use weight::Weighted;
