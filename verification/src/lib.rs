//! Reconciliation core of a local-first key/value extension-storage service.
//!
//! The device holds a local store of current values and a mirror of the last
//! server-confirmed state.  One sync cycle stages a batch of incoming server
//! records, classifies every touched key against local and mirror state,
//! plans an action per key (merging three ways on conflict), applies the
//! actions, diffs the local store for the outgoing batch, and folds a
//! successful upload back into the mirror.

pub mod json;
pub mod table;
pub mod store;
pub mod incoming;
pub mod outgoing;
pub mod laws;

use vstd::prelude::*;

verus! {

/// What a sync phase can fail with.
#[derive(Debug, PartialEq, Eq, Structural)]
pub enum Error {
    /// An incoming record's data is not valid JSON.
    MalformedPayload,
    /// The cancellation signal was raised; the phase had no effect.
    Interrupted,
}

/// A cancellation signal, polled between per-key operations.  All work here
/// is synchronous and single-writer, so within one phase the signal holds one
/// value; a raised signal makes the phase report `Interrupted` with no effect.
pub struct CancelSignal {
    pub raised: bool,
}

impl CancelSignal {
    /// A signal that never interrupts.
    pub fn never() -> (r: CancelSignal)
        ensures
            !r.raised,
    {
        CancelSignal { raised: false }
    }

    /// Polls the signal.
    pub fn was_interrupted(&self) -> (r: bool)
        ensures
            r == self.raised,
    {
        self.raised
    }
}

/// Whether a value is its type's default.
pub fn is_default<T: PartialEq + Default>(v: &T) -> bool {
    *v == T::default()
}

/// Sync bookkeeping status of a stored record.
#[derive(Clone, Copy, Debug, Eq, PartialEq, Ord, PartialOrd, Hash)]
pub enum SyncStatus {
    Unknown,
    New,
    Normal,
}

} // verus!
