//! An in-memory fact store that evaluates a fixed set of derivation rules,
//! commits batches of updates as transactions, and drives a reactive scene
//! of windows through a two-phase dispatch of user actions.
//!
//! - `fact`: the facts and relations.
//! - `store`: relation extensions, updates, and signed deltas.
//! - `rules`: rule pipelines (join, anti-join, map) and the scene's rule table.
//! - `arrangement`: keyed indices that joins look facts up in.
//! - `locality`: why a commit need only re-derive the objects it touches.
//! - `txn`: the transaction coordinator.
//! - `engine`: adding entities and dispatching actions in two phases.
//! - `laws`: properties relating several operations.
//! - `convert`: relation numbers and tagged update commands.

pub mod fact;
pub mod store;
pub mod rules;
pub mod arrangement;
pub mod locality;
pub mod txn;
pub mod engine;
pub mod laws;
pub mod convert;
