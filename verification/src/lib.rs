//! Bookkeeping core for the synchronization primitives of a deterministic,
//! cooperatively scheduled multi-threaded execution engine.
//!
//! The crate records, for a set of simulated threads, who owns which mutex,
//! which threads hold a read-write lock and how often, and who waits on which
//! condition variable.  The surrounding scheduler consults and mutates this
//! state through the operations of the context trait; blocking and waking of
//! simulated threads is requested through an explicit request log rather than
//! performed here.

pub mod ids;
pub mod laws;
pub mod sync;
