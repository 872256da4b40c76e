//! Backend kernel of a desktop sticky-notes application: an in-memory note
//! store, a debounced persistence scheduler, and a deterministic textual
//! encoding of the note sequence for durable storage.

pub mod memo;
pub mod store;
pub mod codec;
pub mod flush;
pub mod service;
