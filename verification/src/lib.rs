//! A typed, access-controlled key-value parameter store.
//!
//! Heterogeneous parameter families (each with its own key shape and value
//! shape) are stored behind one uniform map. The codec erases a concrete
//! per-family pair into a single tagged aggregated form, and recovers it with
//! full static type safety per family; the store gates every write through a
//! pluggable authorization check and emits a change notification on every
//! successful write.

pub mod codec;
pub mod store;
