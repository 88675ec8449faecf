//! An append-only, deduplicated archive of book records.
//!
//! A book is identified by the Blake2 digest of its case-folded title and
//! author. The archive keeps at most one summary per digest, never changes a
//! summary once stored, and answers point lookups by digest.

pub mod normalize;
pub mod preimage;
pub mod hashing;
pub mod summary;
pub mod store;
pub mod pallet;
pub mod laws;

pub use pallet::{Config, Error, Event, Pallet, RawOrigin};
pub use summary::BookSummary;
