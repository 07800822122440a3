//! Media retention engine for a federated chat homeserver.
//!
//! The crate decides, for every uploaded blob referenced from chat events,
//! whether the blob is kept, queued for user confirmation, or deleted, and
//! carries those decisions out on an in-memory retention index and blob
//! catalogue.  Durable storage, event transport and the filesystem sit
//! outside the crate and talk to it through plain values.

pub mod codec;
pub mod engine;
pub mod facade;
pub mod hash;
pub mod json;
pub mod kv;
pub mod laws;
pub mod mxc;
pub mod notice;
pub mod records;
pub mod rng;
pub mod set_ops;
pub mod strutil;
pub mod util;

use vstd::prelude::*;

verus! {

} // verus!
