//! The single-byte status codes of the wire protocol.

use vstd::prelude::*;

verus! {

/// Data-plane start marker.
pub const BEGIN: u8 = 0x00;

/// Peer request completed.
pub const SUCCESS: u8 = 0x41;

/// Metadata exceeds the metadata size limit.
pub const OB_META_TOO_LARGE_ERR: u8 = 0x50;

/// Data exceeds the data size limit.
pub const OB_DATA_TOO_LARGE_ERR: u8 = 0x51;

/// Data size is zero.
pub const OB_DATA_ZERO_LENGTH_ERR: u8 = 0x52;

/// Local store error.
pub const PLASMA_STORE_ERR: u8 = 0x60;

/// Peer reported a store error.
pub const PEER_PLASMA_STORE_ERR: u8 = 0x61;

/// Fan-out task panicked.
pub const PEER_REQUEST_PANICKED: u8 = 0x62;

/// Object queued for deletion elsewhere.
pub const OB_DELETION_SCHEDULED_ERR: u8 = 0x70;

/// Object absent from store.
pub const OB_NOT_FOUND_ERR: u8 = 0x71;

/// Duplicate inbound request.
pub const OB_ALREADY_RECEIVING_ERR: u8 = 0x80;

/// Object already locally present.
pub const OB_ALREADY_IN_STORE_ERR: u8 = 0x81;

/// Outbound TCP failure.
pub const PEER_CONNECTION_ERR: u8 = 0x90;

/// Inbound TCP failure.
pub const CLIENT_CONNECTION_ERR: u8 = 0x91;

} // verus!
