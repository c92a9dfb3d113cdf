//! A verified core for an asynchronous I/O worker pool over a pluggable
//! storage backend: write statistics, a path-keyed in-progress registry,
//! message dispatch against an in-memory backend, and batched recursive
//! listing.

use vstd::prelude::*;

pub mod backend;
pub mod batch;
pub mod bytes;
pub mod digest;
pub mod errors;
pub mod facade;
pub mod lock;
pub mod pending;
pub mod result;
pub mod sgdata;
pub mod shared;
mod stats;
pub mod worker;

pub use errors::IoError;
pub use errors::IoErrorKind;
pub use facade::AsyncIO;
pub use result::AsyncIOResult;
pub use shared::AsyncIOThreadShared;
pub use stats::WriteStats;

verus! {

} // verus!
