//! The store handle the transfer engine works against: the local object
//! store together with the two shared coordination sets and the lookup
//! timeout. It vends sender and receiver instances.

use vstd::prelude::*;

use crate::idset::IdSet;
use crate::plasma::PlasmaStore;
use crate::receiver::ObjectReceiver;
use crate::request::PeerAddr;
use crate::sender::ObjectSender;
use crate::ObjectId;

verus! {

/// The local object store plus the coordination state shared by all
/// senders and receivers of one server.
pub struct Store {
    /// The local object store.
    pub plasma: PlasmaStore,
    /// Maximum time in milliseconds allocated to retrieving objects.
    pub timeout_ms: i64,
    /// Ids that some active receiver has committed to pull.
    pub receiving: IdSet,
    /// Ids that some active sender has committed to delete after sending.
    pub deleting: IdSet,
}

impl Store {
    /// Creates a store handle around a connected object store, with empty
    /// coordination sets.
    pub fn new(plasma_client: PlasmaStore, timeout_ms: i64) -> (r: Self)
        ensures
            r.plasma == plasma_client,
            r.timeout_ms == timeout_ms,
            r.receiving@ == Set::<Seq<u8>>::empty(),
            r.deleting@ == Set::<Seq<u8>>::empty(),
    {
        Store { plasma: plasma_client, timeout_ms, receiving: IdSet::new(), deleting: IdSet::new() }
    }

    /// Returns a new ObjectSender for sending objects with the specified
    /// IDs.
    pub fn build_sender(
        &self,
        peer_addr: PeerAddr,
        object_ids: Vec<ObjectId>,
        delete_after_send: bool,
    ) -> (r: ObjectSender)
        ensures
            r.peer_addr == peer_addr,
            r.object_ids@ == object_ids@,
            r.delete_after_send == delete_after_send,
            r.timeout_ms == self.timeout_ms,
    {
        ObjectSender { peer_addr, object_ids, delete_after_send, timeout_ms: self.timeout_ms }
    }

    /// Returns a new ObjectReceiver for receiving objects with the
    /// specified IDs.
    pub fn build_receiver(&self, peer_addr: PeerAddr, object_ids: Vec<ObjectId>) -> (r:
        ObjectReceiver)
        ensures
            r.peer_addr == peer_addr,
            r.object_ids@ == object_ids@,
    {
        ObjectReceiver { peer_addr, object_ids }
    }
}

} // verus!
