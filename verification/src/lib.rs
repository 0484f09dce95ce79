//! Plato: an embedded slot database for pre-compressed HTML cards.
//!
//! The store holds a fixed table of slots, a metadata row per slot and an
//! append-only byte arena ("tape") in which each slot's compressed card
//! lives. This crate holds the logic of the store: packing slot coordinates,
//! saving, deleting and reading cards, compaction, the on-disk image, the
//! correspondence journal and the dialogue context handed to the agents.
//! I/O, timing and the HTTP layer live outside it.

pub mod layout;
pub mod text;
pub mod codec;
pub mod store;
pub mod cards;
pub mod image;
pub mod defrag;
pub mod slots;
pub mod admin;
pub mod journal;
pub mod context;
