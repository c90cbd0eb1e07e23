//! A peer-to-peer object-streaming engine: servers move immutable
//! byte-objects between the object stores of distinct machines. Clients
//! submit SYNC requests naming (peer, object-list) pairs; the serving
//! node pulls the named objects from each peer over a framed byte
//! protocol and inserts them into its local store. Peers serve the
//! low-level COPY and TAKE requests by streaming objects out, optionally
//! deleting them afterwards.
//!
//! The crate verifies the engine: the wire codec (with its parse/encode
//! round trip), request validation, the sender and receiver pipelines,
//! the shared coordination sets that prevent duplicate transfers and
//! unsafe deletions, the SYNC dispatcher, and the error taxonomy that
//! collapses every failure into a single response byte per peer. The
//! object store itself is modelled in memory as a map from ids to
//! sealed or unsealed objects; the network shell around the engine
//! lives outside the library.

use vstd::prelude::*;

pub mod client;
pub mod codec;
pub mod dispatcher;
pub mod errors;
pub mod handler;
pub mod hexfmt;
pub mod idset;
pub mod listener;
pub mod plasma;
pub mod receiver;
pub mod request;
pub mod sender;
pub mod status_codes;
pub mod store;
pub mod textfmt;
pub mod utils;

verus! {

/// A raw object identifier as it appears on the wire.
pub type ObjectId = [u8; OBJECT_ID_BYTES];

/// Number of bytes in an object identifier.
pub const OBJECT_ID_BYTES: usize = 20;

/// Maximum size of an object's metadata in bytes (64 KB).
pub const MAX_META_SIZE: u64 = 65_536;

/// Maximum size of an object's data in bytes (16 TB).
pub const MAX_DATA_SIZE: u64 = 17_592_186_044_416;

/// Maximum number of object IDs in a single COPY or TAKE request.
pub const MAX_OBJECT_ID_LIST_LEN: usize = 65_536;

/// Maximum number of peer requests in a single SYNC request.
pub const MAX_NUM_SYNC_PEERS: usize = 1024;

} // verus!
