//! The per-connection handler's decision step: validate one parsed
//! request and turn it into the action the connection loop performs.

use vstd::prelude::*;

use crate::errors::RequestError;
use crate::request::{raw_ids_view, request_valid, PeerAddr, PeerRequest, Request};
use crate::sender::sender_run_post;
use crate::store::Store;

verus! {

/// What the connection loop must do with a request it has read.
pub enum HandlerAction {
    /// Write these bytes back on the connection (a COPY or TAKE was
    /// served by a sender; the bytes are its data-plane output).
    Reply(Vec<u8>),
    /// Fan the peer requests of a SYNC out through the dispatcher.
    RunSync(Vec<PeerRequest>),
}

/// Per-connection handler state: the store handle and the address of the
/// connected peer.
pub struct Handler {
    /// Handle to the local store.
    pub store: Store,
    /// Address of the connected peer, used in error reports.
    pub peer_addr: PeerAddr,
}

impl Handler {
    /// Creates a handler for one accepted connection.
    pub fn new(store: Store, peer_addr: PeerAddr) -> (r: Handler)
        ensures
            r.store == store,
            r.peer_addr == peer_addr,
    {
        Handler { store, peer_addr }
    }

    /// Handles one request read from the connection: validates it, and
    /// either serves it from the local store (COPY and TAKE run a sender
    /// whose output bytes are returned for the connection loop to write)
    /// or hands the peer-request list back for dispatch (SYNC).
    ///
    /// A validation failure is returned as the error that terminates the
    /// connection.
    pub fn handle_request(&mut self, request: Request) -> (r: Result<HandlerAction, RequestError>)
        ensures
            r is Ok <==> request_valid(request),
            final(self).peer_addr == old(self).peer_addr,
            request matches Request::Sync(prs) ==> request_valid(request) ==> (r matches Ok(
                HandlerAction::RunSync(out),
            ) && out@ == prs@ && final(self).store == old(self).store),
            (request matches Request::Copy(_) || request matches Request::Take(_)) ==> final(self).store.receiving == old(self).store.receiving,
            !request_valid(request) ==> *final(self) == *old(self),
            request matches Request::Copy(ids) ==> request_valid(request) ==> (r matches Ok(
                HandlerAction::Reply(out),
            ) && sender_run_post(
                old(self).store,
                raw_ids_view(ids@),
                false,
                out@,
                final(self).store,
            )),
            request matches Request::Take(ids) ==> request_valid(request) ==> (r matches Ok(
                HandlerAction::Reply(out),
            ) && sender_run_post(
                old(self).store,
                raw_ids_view(ids@),
                true,
                out@,
                final(self).store,
            )),
    {
        if let Err(e) = request.validate() {
            return Err(e);
        }
        match request {
            Request::Copy(object_ids) => {
                let sender = self.store.build_sender(self.peer_addr, object_ids, false);
                let (out, _result) = sender.run(&mut self.store);
                Ok(HandlerAction::Reply(out))
            },
            Request::Take(object_ids) => {
                let sender = self.store.build_sender(self.peer_addr, object_ids, true);
                let (out, _result) = sender.run(&mut self.store);
                Ok(HandlerAction::Reply(out))
            },
            Request::Sync(requests) => Ok(HandlerAction::RunSync(requests)),
        }
    }
}

} // verus!
