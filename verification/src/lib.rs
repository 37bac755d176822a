//! A fixed-capacity circular buffer with independent reader cursors.
//!
//! One producer appends values; any number of readers drain, each at its own
//! pace, exactly the values written since that reader last looked.  The
//! buffer detects when a lagging reader has had data overwritten underneath
//! it and reports how much was lost together with what could be salvaged.

pub mod laws;
pub mod storage;

pub use storage::{RBError, ReaderId, RingBufferStorage, StorageIterator};
