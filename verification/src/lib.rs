//! Custom and system metadata for stored items.
//!
//! The heart of the crate is the `Custom` key/value store of UTF-8 text,
//! together with its translation to and from the flat record list handed
//! across the native boundary.  The store keeps a lazily-built export cache
//! that every mutation discards, so a cached export is valid exactly as long
//! as the store is unchanged.

mod custom;
mod flat;
mod laws;
mod model;
mod system;

pub use custom::Custom;
pub use custom::ImportError;
pub use custom::pair_views;
pub use flat::Entry;
pub use flat::FlatMetadata;
pub use flat::pairs_of;
pub use laws::lemma_consecutive_exports_identical;
pub use laws::lemma_delete_correct;
pub use laws::lemma_export_import_round_trip;
pub use laws::lemma_insert_overwrite;
pub use laws::lemma_store_of_unique_pairs;
pub use model::Pair;
pub use model::map_of;
pub use model::unique_keys;
pub use system::System;
