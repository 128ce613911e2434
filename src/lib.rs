//! An append-oriented key-value store core: observations `(id, label, value)`
//! are folded into per-`(id, label)` summaries by a commutative, associative
//! algebra, and a secondary index maps labels back to the ids that carry them.
//!
//! This crate holds the byte layouts, the value algebra, the merge dispatch and
//! the per-entry decisions of the store; the storage engine itself is driven by
//! the caller.
pub mod bytes;
pub mod error;
pub mod key;
pub mod merge;
pub mod range;
pub mod set32;
pub mod set64;
pub mod store;
pub mod text;
pub mod value;

pub use error::Error;
pub use key::CaseSensitivity;
