//! Trace generation for hash computations that are proved by a succinct-proof
//! backend.
//!
//! A message is turned into committed registers, padded to the block size of
//! the hash, chained block by block through the backend's primitive
//! transforms, and the final state is read back as output words. The
//! registers and the primitive operations of one proving session are recorded
//! in a [`bank::RegisterBank`]; the backend replays that record.

pub mod bank;
pub mod codec;
pub mod error;
pub mod session;
pub mod sha2;
pub mod sha3;
pub mod utils;
pub mod width;
