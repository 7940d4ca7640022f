//! Host-side preparation of the inputs of a provable execution run.
//!
//! The crate builds the boot manifest of a claim from its textual parameters,
//! keeps the witness data of the claim in a content-addressed store, encodes
//! both into one byte buffer, and decides how a proving run moves from one
//! phase to the next.
//!
//! - [`manifest`] builds the manifest, from hashes read by [`hash`] and
//!   numbers read by [`number`].
//! - [`store`] is the store; [`key`], [`pairs`] and [`order`] hold the order
//!   of keys, the mathematics of lists of entries, and the sorting of them.
//! - [`loader`] turns the data read for a block into its store.
//! - [`codec`] encodes a manifest and a store, and decodes them again.
//! - [`orchestrator`] says which phase of a run follows which.
//! - [`error`] names what can go wrong in each of these.

pub mod codec;
pub mod error;
pub mod hash;
pub mod key;
pub mod loader;
pub mod manifest;
pub mod number;
pub mod orchestrator;
pub mod order;
pub mod pairs;
pub mod store;
