//! The error taxonomy: every failure of the transfer engine, and the
//! mapping of each failure onto the single response byte that crosses the
//! wire.

use vstd::prelude::*;

use vstd::string::StringExecFns;

use crate::plasma::{plasma_error_str, PlasmaError};
use crate::textfmt::{addr_str, dec_str, id_lines_str, push_addr, push_decimal, push_id_lines};
use crate::hexfmt::{hex_encode, hex_of};
use crate::request::PeerAddr;
use crate::status_codes;
use crate::ObjectId;

verus! {

/// Errors which can be encountered while sending objects from one server
/// to another.
#[derive(Debug)]
pub enum ObjectSendError {
    ObjectDeletionScheduled(PeerAddr, Vec<ObjectId>),
    ObjectMetaTooLarge(PeerAddr, ObjectId, usize),
    ObjectDataTooLarge(PeerAddr, ObjectId, usize),
    StoreError(PeerAddr, PlasmaError),
    ObjectsNotFound(PeerAddr, Vec<ObjectId>),
    ConnectionError(Option<PeerAddr>, String),
}

/// The response byte a send error maps to, for errors that can occur
/// before any data-plane byte has been written; a connection error has
/// none.
pub open spec fn spec_send_code(e: ObjectSendError) -> Option<u8> {
    match e {
        ObjectSendError::ObjectDeletionScheduled(..) => Some(
            status_codes::OB_DELETION_SCHEDULED_ERR,
        ),
        ObjectSendError::ObjectMetaTooLarge(..) => Some(status_codes::OB_META_TOO_LARGE_ERR),
        ObjectSendError::ObjectDataTooLarge(..) => Some(status_codes::OB_DATA_TOO_LARGE_ERR),
        ObjectSendError::ObjectsNotFound(..) => Some(status_codes::OB_NOT_FOUND_ERR),
        ObjectSendError::StoreError(..) => Some(status_codes::PLASMA_STORE_ERR),
        ObjectSendError::ConnectionError(..) => None,
    }
}

impl ObjectSendError {
    /// The response byte for this error.
    pub fn response_code(&self) -> (r: Option<u8>)
        ensures
            r == spec_send_code(*self),
    {
        match self {
            Self::ObjectDeletionScheduled(_, _) => Some(status_codes::OB_DELETION_SCHEDULED_ERR),
            Self::ObjectMetaTooLarge(_, _, _) => Some(status_codes::OB_META_TOO_LARGE_ERR),
            Self::ObjectDataTooLarge(_, _, _) => Some(status_codes::OB_DATA_TOO_LARGE_ERR),
            Self::ObjectsNotFound(_, _) => Some(status_codes::OB_NOT_FOUND_ERR),
            Self::StoreError(_, _) => Some(status_codes::PLASMA_STORE_ERR),
            Self::ConnectionError(_, _) => None,
        }
    }
}

/// Errors which can be encountered while receiving objects sent from one
/// server to another.
#[derive(Debug)]
pub enum ObjectReceiveError {
    AlreadyReceiving(PeerAddr, Vec<ObjectId>),
    AlreadyInStore(PeerAddr, Vec<ObjectId>),
    ObjectMetaTooLarge(PeerAddr, ObjectId, usize),
    ObjectDataTooLarge(PeerAddr, ObjectId, usize),
    ZeroLengthObjectData(PeerAddr, ObjectId),
    PeerError(PeerAddr, u8),
    StoreError(PeerAddr, PlasmaError),
    ConnectionError(Option<PeerAddr>, String),
}

/// The response byte a receive error maps to. A code forwarded by the
/// peer is passed through, except that a peer's local store error becomes
/// `PEER_PLASMA_STORE_ERR` to distinguish it from our own.
pub open spec fn spec_receive_code(e: ObjectReceiveError) -> u8 {
    match e {
        ObjectReceiveError::AlreadyReceiving(..) => status_codes::OB_ALREADY_RECEIVING_ERR,
        ObjectReceiveError::AlreadyInStore(..) => status_codes::OB_ALREADY_IN_STORE_ERR,
        ObjectReceiveError::ObjectMetaTooLarge(..) => status_codes::OB_META_TOO_LARGE_ERR,
        ObjectReceiveError::ObjectDataTooLarge(..) => status_codes::OB_DATA_TOO_LARGE_ERR,
        ObjectReceiveError::ZeroLengthObjectData(..) => status_codes::OB_DATA_ZERO_LENGTH_ERR,
        ObjectReceiveError::PeerError(_, code) => if code == status_codes::PLASMA_STORE_ERR {
            status_codes::PEER_PLASMA_STORE_ERR
        } else {
            code
        },
        ObjectReceiveError::StoreError(..) => status_codes::PLASMA_STORE_ERR,
        ObjectReceiveError::ConnectionError(..) => status_codes::PEER_CONNECTION_ERR,
    }
}

impl ObjectReceiveError {
    /// The response byte for this error.
    pub fn response_code(&self) -> (r: u8)
        ensures
            r == spec_receive_code(*self),
    {
        match self {
            Self::AlreadyReceiving(_, _) => status_codes::OB_ALREADY_RECEIVING_ERR,
            Self::AlreadyInStore(_, _) => status_codes::OB_ALREADY_IN_STORE_ERR,
            Self::ObjectMetaTooLarge(_, _, _) => status_codes::OB_META_TOO_LARGE_ERR,
            Self::ObjectDataTooLarge(_, _, _) => status_codes::OB_DATA_TOO_LARGE_ERR,
            Self::ZeroLengthObjectData(_, _) => status_codes::OB_DATA_ZERO_LENGTH_ERR,
            Self::PeerError(_, status_code) => {
                if *status_code == status_codes::PLASMA_STORE_ERR {
                    status_codes::PEER_PLASMA_STORE_ERR
                } else {
                    *status_code
                }
            },
            Self::StoreError(_, _) => status_codes::PLASMA_STORE_ERR,
            Self::ConnectionError(_, _) => status_codes::PEER_CONNECTION_ERR,
        }
    }
}

/// Errors which can be encountered when parsing requests.
#[derive(Debug)]
pub enum RequestError {
    InvalidRequestType(u8),
    InvalidPeerRequestType(u8),
    InvalidPeerAddressType(u8),
    ObjectIdListTooShort,
    ObjectIdListTooLong(usize),
    DuplicateObjectIds,
    PeerRequestListTooShort,
    PeerRequestListTooLong(usize),
}

/// Errors which can be encountered while fulfilling SYNC requests.
#[derive(Debug)]
pub enum SyncError {
    PeerConnectionFailed(PeerAddr, String),
    PeerRequestNotSent(PeerAddr, String),
    ReceiverError(ObjectReceiveError),
    PeerRequestPanicked,
    ClientConnectionError(String),
    PeerAddressIsSelf,
}

/// The response byte a SYNC peer-task error maps to.
pub open spec fn spec_sync_code(e: SyncError) -> u8 {
    match e {
        SyncError::PeerConnectionFailed(..) => status_codes::PEER_CONNECTION_ERR,
        SyncError::PeerRequestNotSent(..) => status_codes::PEER_CONNECTION_ERR,
        SyncError::ReceiverError(err) => spec_receive_code(err),
        SyncError::PeerRequestPanicked => status_codes::PEER_REQUEST_PANICKED,
        SyncError::ClientConnectionError(..) => status_codes::CLIENT_CONNECTION_ERR,
        SyncError::PeerAddressIsSelf => status_codes::PEER_CONNECTION_ERR,
    }
}

impl SyncError {
    /// The response byte for this error.
    pub fn response_code(&self) -> (r: u8)
        ensures
            r == spec_sync_code(*self),
    {
        match self {
            Self::PeerConnectionFailed(_, _) => status_codes::PEER_CONNECTION_ERR,
            Self::PeerRequestNotSent(_, _) => status_codes::PEER_CONNECTION_ERR,
            Self::ReceiverError(err) => err.response_code(),
            Self::PeerRequestPanicked => status_codes::PEER_REQUEST_PANICKED,
            Self::ClientConnectionError(_) => status_codes::CLIENT_CONNECTION_ERR,
            Self::PeerAddressIsSelf => status_codes::PEER_CONNECTION_ERR,
        }
    }
}

/// The per-peer outcome of a SYNC request, as decoded from one response
/// byte by the client.
#[derive(Clone, Copy, Debug, PartialEq, Eq, Structural)]
pub enum PeerResult {
    Success,
    ObjectMetaTooLarge,
    ObjectDataTooLarge,
    ZeroLengthObjectData,
    PlasmaStoreError,
    PeerPlasmaStoreError,
    PeerRequestPanicked,
    ObjectDeletionScheduled,
    ObjectsNotFound,
    AlreadyReceiving,
    AlreadyInStore,
    PeerConnectionError,
    UnknownError,
}

/// The outcome a response byte decodes to.
pub open spec fn spec_peer_result(result: u8) -> PeerResult {
    if result == status_codes::SUCCESS {
        PeerResult::Success
    } else if result == status_codes::OB_META_TOO_LARGE_ERR {
        PeerResult::ObjectMetaTooLarge
    } else if result == status_codes::OB_DATA_TOO_LARGE_ERR {
        PeerResult::ObjectDataTooLarge
    } else if result == status_codes::OB_DATA_ZERO_LENGTH_ERR {
        PeerResult::ZeroLengthObjectData
    } else if result == status_codes::PLASMA_STORE_ERR {
        PeerResult::PlasmaStoreError
    } else if result == status_codes::PEER_PLASMA_STORE_ERR {
        PeerResult::PeerPlasmaStoreError
    } else if result == status_codes::PEER_REQUEST_PANICKED {
        PeerResult::PeerRequestPanicked
    } else if result == status_codes::OB_DELETION_SCHEDULED_ERR {
        PeerResult::ObjectDeletionScheduled
    } else if result == status_codes::OB_NOT_FOUND_ERR {
        PeerResult::ObjectsNotFound
    } else if result == status_codes::OB_ALREADY_RECEIVING_ERR {
        PeerResult::AlreadyReceiving
    } else if result == status_codes::OB_ALREADY_IN_STORE_ERR {
        PeerResult::AlreadyInStore
    } else if result == status_codes::PEER_CONNECTION_ERR {
        PeerResult::PeerConnectionError
    } else {
        PeerResult::UnknownError
    }
}

impl PeerResult {
    /// Decodes one response byte.
    pub fn from(result: u8) -> (r: Self)
        ensures
            r == spec_peer_result(result),
    {
        if result == status_codes::SUCCESS {
            Self::Success
        } else if result == status_codes::OB_META_TOO_LARGE_ERR {
            Self::ObjectMetaTooLarge
        } else if result == status_codes::OB_DATA_TOO_LARGE_ERR {
            Self::ObjectDataTooLarge
        } else if result == status_codes::OB_DATA_ZERO_LENGTH_ERR {
            Self::ZeroLengthObjectData
        } else if result == status_codes::PLASMA_STORE_ERR {
            Self::PlasmaStoreError
        } else if result == status_codes::PEER_PLASMA_STORE_ERR {
            Self::PeerPlasmaStoreError
        } else if result == status_codes::PEER_REQUEST_PANICKED {
            Self::PeerRequestPanicked
        } else if result == status_codes::OB_DELETION_SCHEDULED_ERR {
            Self::ObjectDeletionScheduled
        } else if result == status_codes::OB_NOT_FOUND_ERR {
            Self::ObjectsNotFound
        } else if result == status_codes::OB_ALREADY_RECEIVING_ERR {
            Self::AlreadyReceiving
        } else if result == status_codes::OB_ALREADY_IN_STORE_ERR {
            Self::AlreadyInStore
        } else if result == status_codes::PEER_CONNECTION_ERR {
            Self::PeerConnectionError
        } else {
            Self::UnknownError
        }
    }

    /// Whether this outcome reports success.
    pub fn is_ok(&self) -> (r: bool)
        ensures
            r <==> *self == PeerResult::Success,
    {
        matches!(self, Self::Success)
    }
}

/// Errors surfaced to the SYNC client.
#[derive(Debug)]
pub enum ClientError {
    MalformedRequest(RequestError),
    ConnectionError(String, String),
    SyncError(Vec<PeerResult>),
}

/// The message text of a send error.
pub open spec fn send_error_str(e: ObjectSendError) -> Seq<char> {
    match e {
        ObjectSendError::ObjectDeletionScheduled(peer, objects) => "failed to send objects to "@
            + addr_str(peer) + "; object scheduled for deletion:"@ + id_lines_str(
            crate::request::raw_ids_view(objects@),
        ),
        ObjectSendError::ObjectMetaTooLarge(peer, oid, _) => "failed to send objects to "@
            + addr_str(peer) + "; metadata too large for 0x"@ + hex_of(oid@),
        ObjectSendError::ObjectDataTooLarge(peer, oid, _) => "failed to send objects to "@
            + addr_str(peer) + "; data too large for 0x"@ + hex_of(oid@),
        ObjectSendError::ObjectsNotFound(peer, objects) => "failed to send objects to "@
            + addr_str(peer) + "; objects not found:"@ + id_lines_str(
            crate::request::raw_ids_view(objects@),
        ),
        ObjectSendError::StoreError(peer, err) => "failed to send objects to "@ + addr_str(peer)
            + "; plasma store error: "@ + plasma_error_str(err),
        ObjectSendError::ConnectionError(Some(peer), err) => "failed to send objects to "@
            + addr_str(peer) + ": "@ + err@,
        ObjectSendError::ConnectionError(None, err) => "failed to send objects: "@ + err@,
    }
}

/// The message text of a receive error.
pub open spec fn receive_error_str(e: ObjectReceiveError) -> Seq<char> {
    match e {
        ObjectReceiveError::AlreadyReceiving(peer, objects) => "did not request objects from "@
            + addr_str(peer) + "; already receiving objects:"@ + id_lines_str(
            crate::request::raw_ids_view(objects@),
        ),
        ObjectReceiveError::AlreadyInStore(peer, objects) => "did not request objects from "@
            + addr_str(peer) + "; objects already in store:"@ + id_lines_str(
            crate::request::raw_ids_view(objects@),
        ),
        ObjectReceiveError::ObjectMetaTooLarge(peer, oid, _) => "failed to receive objects from "@
            + addr_str(peer) + "; metadata too large for 0x"@ + hex_of(oid@),
        ObjectReceiveError::ObjectDataTooLarge(peer, oid, _) => "failed to receive objects from "@
            + addr_str(peer) + "; data too large for 0x"@ + hex_of(oid@),
        ObjectReceiveError::ZeroLengthObjectData(peer, oid) => "failed to receive objects from "@
            + addr_str(peer) + "; zero-length data for 0x"@ + hex_of(oid@),
        ObjectReceiveError::PeerError(peer, code) => "failed to receive objects from "@ + addr_str(
            peer,
        ) + "; "@ + peer_code_str(code),
        ObjectReceiveError::StoreError(peer, err) => "failed to receive objects from "@ + addr_str(
            peer,
        ) + "; plasma store error: "@ + plasma_error_str(err),
        ObjectReceiveError::ConnectionError(Some(peer), err) => "failed to receive objects from "@
            + addr_str(peer) + ": "@ + err@,
        ObjectReceiveError::ConnectionError(None, err) => "failed to receive objects: "@ + err@,
    }
}

/// The text for a status code forwarded by a peer.
pub open spec fn peer_code_str(code: u8) -> Seq<char> {
    if code == status_codes::OB_DELETION_SCHEDULED_ERR {
        "deletion in progress"@
    } else if code == status_codes::OB_META_TOO_LARGE_ERR {
        "object meta too large"@
    } else if code == status_codes::OB_DATA_TOO_LARGE_ERR {
        "object data too large"@
    } else if code == status_codes::OB_NOT_FOUND_ERR {
        "not found"@
    } else if code == status_codes::PLASMA_STORE_ERR {
        "peer plasma store error"@
    } else {
        "unknown error code: "@ + dec_str(code as nat)
    }
}

/// The message text of a SYNC error.
pub open spec fn sync_error_str(e: SyncError) -> Seq<char> {
    match e {
        SyncError::PeerConnectionFailed(peer, err) => "peer connection to "@ + addr_str(peer)
            + " failed: "@ + err@,
        SyncError::PeerRequestNotSent(peer, err) => "failed to send request to "@ + addr_str(peer)
            + ": "@ + err@,
        SyncError::ReceiverError(err) => receive_error_str(err),
        SyncError::PeerRequestPanicked => "peer request panicked"@,
        SyncError::ClientConnectionError(err) => "client connection failed: "@ + err@,
        SyncError::PeerAddressIsSelf => "cannot make a peer request to self"@,
    }
}

/// The message text of a request parse error.
pub open spec fn request_error_str(e: RequestError) -> Seq<char> {
    match e {
        RequestError::InvalidRequestType(t) => "invalid request type "@ + dec_str(t as nat),
        RequestError::InvalidPeerRequestType(t) => "invalid peer request type "@ + dec_str(
            t as nat,
        ),
        RequestError::InvalidPeerAddressType(t) => "invalid peer address type "@ + dec_str(
            t as nat,
        ),
        RequestError::ObjectIdListTooShort => "object ID list is empty"@,
        RequestError::ObjectIdListTooLong(n) => "object ID list is too long "@ + dec_str(n as nat),
        RequestError::DuplicateObjectIds => "request contains duplicate object IDs"@,
        RequestError::PeerRequestListTooShort => "peer request list is empty"@,
        RequestError::PeerRequestListTooLong(n) => "peer request list is too long "@ + dec_str(
            n as nat,
        ),
    }
}

/// The text of one per-peer outcome.
pub open spec fn peer_result_str(r: PeerResult) -> Seq<char> {
    match r {
        PeerResult::Success => "Ok"@,
        PeerResult::ObjectMetaTooLarge => "object metadata exceeds 65536 bytes"@,
        PeerResult::ObjectDataTooLarge => "object data exceeds 17592186044416 bytes"@,
        PeerResult::ZeroLengthObjectData => "zero-length object data"@,
        PeerResult::PlasmaStoreError => "local plasma store error"@,
        PeerResult::PeerPlasmaStoreError => "peer plasma store error"@,
        PeerResult::PeerRequestPanicked => "peer request panicked"@,
        PeerResult::ObjectDeletionScheduled => "requested object(s) scheduled for deletion"@,
        PeerResult::ObjectsNotFound => "requested object(s) not found"@,
        PeerResult::AlreadyReceiving => "duplicate request for object(s)"@,
        PeerResult::AlreadyInStore => "requested object(s) already in local store"@,
        PeerResult::PeerConnectionError => "connection to peer(s) failed"@,
        PeerResult::UnknownError => "Unknown error"@,
    }
}

/// One line per outcome: a newline and the outcome's text.
pub open spec fn result_lines_str(results: Seq<PeerResult>) -> Seq<char>
    decreases results.len(),
{
    if results.len() == 0 {
        Seq::empty()
    } else {
        seq!['\n'] + peer_result_str(results[0]) + result_lines_str(results.drop_first())
    }
}

/// The message text of a client error.
pub open spec fn client_error_str(e: ClientError) -> Seq<char> {
    match e {
        ClientError::MalformedRequest(err) => "malformed request: "@ + request_error_str(err),
        ClientError::ConnectionError(msg, err) => msg@ + ": "@ + err@,
        ClientError::SyncError(results) => "peer requests resolved as follows:"@ + result_lines_str(
            results@,
        ),
    }
}

impl ObjectSendError {
    /// Renders this error as text.
    pub fn describe(&self) -> (r: String)
        ensures
            r@ == send_error_str(*self),
    {
        let mut out = String::new();
        match self {
            Self::ObjectDeletionScheduled(peer, objects) => {
                out.append("failed to send objects to ");
                push_addr(peer, &mut out);
                out.append("; object scheduled for deletion:");
                push_id_lines(objects, &mut out);
            },
            Self::ObjectMetaTooLarge(peer, oid, _) => {
                out.append("failed to send objects to ");
                push_addr(peer, &mut out);
                out.append("; metadata too large for 0x");
                out.append(hex_encode(oid).as_str());
            },
            Self::ObjectDataTooLarge(peer, oid, _) => {
                out.append("failed to send objects to ");
                push_addr(peer, &mut out);
                out.append("; data too large for 0x");
                out.append(hex_encode(oid).as_str());
            },
            Self::ObjectsNotFound(peer, objects) => {
                out.append("failed to send objects to ");
                push_addr(peer, &mut out);
                out.append("; objects not found:");
                push_id_lines(objects, &mut out);
            },
            Self::StoreError(peer, err) => {
                out.append("failed to send objects to ");
                push_addr(peer, &mut out);
                out.append("; plasma store error: ");
                out.append(err.describe().as_str());
            },
            Self::ConnectionError(Some(peer), err) => {
                out.append("failed to send objects to ");
                push_addr(peer, &mut out);
                out.append(": ");
                out.append(err.as_str());
            },
            Self::ConnectionError(None, err) => {
                out.append("failed to send objects: ");
                out.append(err.as_str());
            },
        }
        proof {
            assert(out@ =~= send_error_str(*self));
        }
        out
    }
}

impl ObjectReceiveError {
    /// Renders this error as text.
    pub fn describe(&self) -> (r: String)
        ensures
            r@ == receive_error_str(*self),
    {
        let mut out = String::new();
        match self {
            Self::AlreadyReceiving(peer, objects) => {
                out.append("did not request objects from ");
                push_addr(peer, &mut out);
                out.append("; already receiving objects:");
                push_id_lines(objects, &mut out);
            },
            Self::AlreadyInStore(peer, objects) => {
                out.append("did not request objects from ");
                push_addr(peer, &mut out);
                out.append("; objects already in store:");
                push_id_lines(objects, &mut out);
            },
            Self::ObjectMetaTooLarge(peer, oid, _) => {
                out.append("failed to receive objects from ");
                push_addr(peer, &mut out);
                out.append("; metadata too large for 0x");
                out.append(hex_encode(oid).as_str());
            },
            Self::ObjectDataTooLarge(peer, oid, _) => {
                out.append("failed to receive objects from ");
                push_addr(peer, &mut out);
                out.append("; data too large for 0x");
                out.append(hex_encode(oid).as_str());
            },
            Self::ZeroLengthObjectData(peer, oid) => {
                out.append("failed to receive objects from ");
                push_addr(peer, &mut out);
                out.append("; zero-length data for 0x");
                out.append(hex_encode(oid).as_str());
            },
            Self::PeerError(peer, code) => {
                out.append("failed to receive objects from ");
                push_addr(peer, &mut out);
                out.append("; ");
                if *code == status_codes::OB_DELETION_SCHEDULED_ERR {
                    out.append("deletion in progress");
                } else if *code == status_codes::OB_META_TOO_LARGE_ERR {
                    out.append("object meta too large");
                } else if *code == status_codes::OB_DATA_TOO_LARGE_ERR {
                    out.append("object data too large");
                } else if *code == status_codes::OB_NOT_FOUND_ERR {
                    out.append("not found");
                } else if *code == status_codes::PLASMA_STORE_ERR {
                    out.append("peer plasma store error");
                } else {
                    out.append("unknown error code: ");
                    push_decimal(*code as u64, &mut out);
                }
            },
            Self::StoreError(peer, err) => {
                out.append("failed to receive objects from ");
                push_addr(peer, &mut out);
                out.append("; plasma store error: ");
                out.append(err.describe().as_str());
            },
            Self::ConnectionError(Some(peer), err) => {
                out.append("failed to receive objects from ");
                push_addr(peer, &mut out);
                out.append(": ");
                out.append(err.as_str());
            },
            Self::ConnectionError(None, err) => {
                out.append("failed to receive objects: ");
                out.append(err.as_str());
            },
        }
        proof {
            assert(out@ =~= receive_error_str(*self));
        }
        out
    }
}

impl SyncError {
    /// Renders this error as text.
    pub fn describe(&self) -> (r: String)
        ensures
            r@ == sync_error_str(*self),
    {
        let mut out = String::new();
        match self {
            Self::PeerConnectionFailed(peer, err) => {
                out.append("peer connection to ");
                push_addr(peer, &mut out);
                out.append(" failed: ");
                out.append(err.as_str());
            },
            Self::PeerRequestNotSent(peer, err) => {
                out.append("failed to send request to ");
                push_addr(peer, &mut out);
                out.append(": ");
                out.append(err.as_str());
            },
            Self::ReceiverError(err) => {
                out.append(err.describe().as_str());
            },
            Self::PeerRequestPanicked => {
                out.append("peer request panicked");
            },
            Self::ClientConnectionError(err) => {
                out.append("client connection failed: ");
                out.append(err.as_str());
            },
            Self::PeerAddressIsSelf => {
                out.append("cannot make a peer request to self");
            },
        }
        proof {
            assert(out@ =~= sync_error_str(*self));
        }
        out
    }
}

impl RequestError {
    /// Renders this error as text.
    pub fn describe(&self) -> (r: String)
        ensures
            r@ == request_error_str(*self),
    {
        let mut out = String::new();
        match self {
            Self::InvalidRequestType(t) => {
                out.append("invalid request type ");
                push_decimal(*t as u64, &mut out);
            },
            Self::InvalidPeerRequestType(t) => {
                out.append("invalid peer request type ");
                push_decimal(*t as u64, &mut out);
            },
            Self::InvalidPeerAddressType(t) => {
                out.append("invalid peer address type ");
                push_decimal(*t as u64, &mut out);
            },
            Self::ObjectIdListTooShort => {
                out.append("object ID list is empty");
            },
            Self::ObjectIdListTooLong(n) => {
                out.append("object ID list is too long ");
                push_decimal(*n as u64, &mut out);
            },
            Self::DuplicateObjectIds => {
                out.append("request contains duplicate object IDs");
            },
            Self::PeerRequestListTooShort => {
                out.append("peer request list is empty");
            },
            Self::PeerRequestListTooLong(n) => {
                out.append("peer request list is too long ");
                push_decimal(*n as u64, &mut out);
            },
        }
        proof {
            assert(out@ =~= request_error_str(*self));
        }
        out
    }
}

impl PeerResult {
    /// Renders this outcome as text.
    pub fn describe(&self) -> (r: String)
        ensures
            r@ == peer_result_str(*self),
    {
        match self {
            Self::Success => String::from_str("Ok"),
            Self::ObjectMetaTooLarge => String::from_str("object metadata exceeds 65536 bytes"),
            Self::ObjectDataTooLarge => String::from_str(
                "object data exceeds 17592186044416 bytes",
            ),
            Self::ZeroLengthObjectData => String::from_str("zero-length object data"),
            Self::PlasmaStoreError => String::from_str("local plasma store error"),
            Self::PeerPlasmaStoreError => String::from_str("peer plasma store error"),
            Self::PeerRequestPanicked => String::from_str("peer request panicked"),
            Self::ObjectDeletionScheduled => String::from_str(
                "requested object(s) scheduled for deletion",
            ),
            Self::ObjectsNotFound => String::from_str("requested object(s) not found"),
            Self::AlreadyReceiving => String::from_str("duplicate request for object(s)"),
            Self::AlreadyInStore => String::from_str("requested object(s) already in local store"),
            Self::PeerConnectionError => String::from_str("connection to peer(s) failed"),
            Self::UnknownError => String::from_str("Unknown error"),
        }
    }
}

impl ClientError {
    /// Renders this error as text.
    pub fn describe(&self) -> (r: String)
        ensures
            r@ == client_error_str(*self),
    {
        let mut out = String::new();
        match self {
            Self::MalformedRequest(err) => {
                out.append("malformed request: ");
                out.append(err.describe().as_str());
            },
            Self::ConnectionError(msg, err) => {
                out.append(msg.as_str());
                out.append(": ");
                out.append(err.as_str());
            },
            Self::SyncError(results) => {
                out.append("peer requests resolved as follows:");
                let n = results.len();
                let mut i: usize = 0;
                while i < n
                    invariant
                        n == results@.len(),
                        i <= n,
                        out@ == "peer requests resolved as follows:"@ + result_lines_str(
                            results@.subrange(0, i as int),
                        ),
                    decreases n - i,
                {
                    let ghost before = out@;
                    out.append("\n");
                    out.append(results[i].describe().as_str());
                    proof {
                        reveal_strlit("\n");
                        assert("\n"@ =~= seq!['\n']);
                        lemma_result_lines_snoc(results@, i as int);
                        assert(out@ =~= "peer requests resolved as follows:"@ + result_lines_str(
                            results@.subrange(0, i + 1),
                        ));
                    }
                    i += 1;
                }
                proof {
                    assert(results@.subrange(0, n as int) =~= results@);
                }
            },
        }
        proof {
            assert(out@ =~= client_error_str(*self));
        }
        out
    }
}

/// Appending one more outcome to the rendered lines.
proof fn lemma_result_lines_snoc(results: Seq<PeerResult>, i: int)
    requires
        0 <= i < results.len(),
    ensures
        result_lines_str(results.subrange(0, i + 1)) == result_lines_str(results.subrange(0, i))
            + (seq!['\n'] + peer_result_str(results[i])),
    decreases i,
{
    if i == 0 {
        let sub = results.subrange(0, 1);
        assert(sub.drop_first() =~= Seq::<PeerResult>::empty());
        assert(sub[0] == results[0]);
        assert(result_lines_str(Seq::<PeerResult>::empty()) =~= Seq::<char>::empty());
        assert(result_lines_str(sub) =~= seq!['\n'] + peer_result_str(results[0]));
        assert(result_lines_str(results.subrange(0, 0)) =~= Seq::<char>::empty());
        assert(result_lines_str(sub) =~= result_lines_str(results.subrange(0, 0)) + (seq!['\n']
            + peer_result_str(results[0])));
    } else {
        let t = results.drop_first();
        assert(results.subrange(0, i + 1).drop_first() =~= t.subrange(0, i));
        assert(results.subrange(0, i).drop_first() =~= t.subrange(0, i - 1));
        lemma_result_lines_snoc(t, i - 1);
        assert(results.subrange(0, i + 1)[0] == results[0]);
        assert(results.subrange(0, i)[0] == results[0]);
        assert(t.subrange(0, i)[i - 1] == results[i]);
        assert(result_lines_str(results.subrange(0, i + 1)) == seq!['\n'] + peer_result_str(
            results[0],
        ) + result_lines_str(t.subrange(0, i)));
        assert(result_lines_str(t.subrange(0, i)) == result_lines_str(t.subrange(0, i - 1)) + (seq!['\n'] + peer_result_str(results[i])));
        assert(result_lines_str(results.subrange(0, i + 1)) =~= result_lines_str(
            results.subrange(0, i),
        ) + (seq!['\n'] + peer_result_str(results[i])));
    }
}

} // verus!
