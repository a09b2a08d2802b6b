//! Guarded single-object operations on RADOS.
//!
//! One rule shapes the API: a comparison and the write it protects travel in the same
//! operation. There is no entry point that only compares, so no caller can build the
//! TOCTOU between the two. On top of that rule this crate places the leases, the
//! watch and the writer election that single-object operations are enough to build.
//!
//! This crate decides and does not talk to a cluster. For each operation it says what to send
//! and what the answer comes to: a [`Write`] is prepared as one [`WriteOp`](op::WriteOp), and
//! its failure is read back as the guard that caused it. What takes several calls is a state
//! machine: [`Acquire`] asks for one call after the other and takes their answers.
//!
//! Everything here is synchronous, and nothing retries: a [`Rejected`] operation did not
//! happen, and what to do about it belongs to the caller.

use vstd::prelude::*;

pub mod acquisition;
pub mod bytes;
pub mod course;
pub mod election;
pub mod entries;
pub mod epoch;
pub mod errno;
pub mod error;
pub mod guard;
pub mod lock;
pub mod op;
pub mod osd;
pub mod paging;
pub mod read;
pub mod text;
pub mod watch;
pub mod write;

pub use election::{Acquire, Action, Election, Event};
pub use entries::OmapEntries;
pub use epoch::epoch_bytes;
pub use error::{Fence, RadosError, Rejected};
pub use guard::Guard;
pub use lock::Locker;
pub use read::Page;
pub use write::{Mutation, Write};

verus! {

/// The `user_version` of an object.
#[derive(Debug, Clone, Copy, PartialEq, Eq, PartialOrd, Ord, Structural)]
pub struct Version(pub u64);

} // verus!
