//! The SYNC dispatcher: rejects self-addressed peer requests, runs one
//! transfer per peer request, and aggregates one response byte per
//! request.
//!
//! [`process_peer_request`] is the whole control plane of one peer
//! request run against in-memory stores: the local receiver is prepared,
//! the peer's sender produces the data-plane byte stream, and the local
//! receiver consumes it. Its contract pins the outcome exactly through
//! [`exchange_outcome`], including the transfer theorem: when nothing
//! blocks the transfer, every object arrives in the local store with
//! exactly the bytes the peer held. [`Dispatcher::run`] lifts that to a
//! whole SYNC through [`dispatch_outcome`]: each response byte is the
//! outcome of its request, evaluated in the state the earlier requests
//! left behind.

use vstd::prelude::*;

use crate::errors::{spec_sync_code, SyncError};
use crate::idset::any_in;
use crate::plasma::{store_delete_all, ObjectModel};
use crate::receiver::{recv_loop_spec, spec_insert_all};
use crate::request::{
    addr_eq, has_duplicate, peer_request_from, peer_request_ids, PeerAddr, PeerRequest,
};
use crate::sender::{all_fit, all_held, any_deleting, any_held, enc_frames, size_error_code};
use crate::status_codes;
use crate::store::Store;
use crate::ObjectId;

verus! {

/// Whether none of the listed ids has any entry, sealed or not, in the
/// store map.
pub open spec fn all_fresh(m: Map<Seq<u8>, ObjectModel>, ids: Seq<Seq<u8>>) -> bool {
    forall|i: int| 0 <= i < ids.len() ==> !m.contains_key(#[trigger] ids[i])
}

/// Whether every listed object in the source has non-empty data.
pub open spec fn all_nonzero(m: Map<Seq<u8>, ObjectModel>, ids: Seq<Seq<u8>>) -> bool {
    forall|i: int| 0 <= i < ids.len() ==> m[#[trigger] ids[i]].1.len() > 0
}

/// What one peer exchange does, as a function of the local receiving
/// set, the two store maps and the peer's deleting set: the local store
/// map, the peer store map, and the response byte afterwards. The data
/// plane is the peer's sender output fed to the local receiver, so past
/// the guards the outcome is [`recv_loop_spec`] on exactly that stream.
pub open spec fn exchange_outcome(
    rl: Set<Seq<u8>>,
    ml: Map<Seq<u8>, ObjectModel>,
    mp: Map<Seq<u8>, ObjectModel>,
    dp: Set<Seq<u8>>,
    request: PeerRequest,
) -> (Map<Seq<u8>, ObjectModel>, Map<Seq<u8>, ObjectModel>, u8) {
    let ids = peer_request_ids(request);
    if any_in(rl, ids) {
        (ml, mp, status_codes::OB_ALREADY_RECEIVING_ERR)
    } else if any_held(ml, ids) {
        (ml, mp, status_codes::OB_ALREADY_IN_STORE_ERR)
    } else if any_deleting(dp, ids) {
        (ml, mp, status_codes::OB_DELETION_SCHEDULED_ERR)
    } else if !all_held(mp, ids) {
        (ml, mp, status_codes::OB_NOT_FOUND_ERR)
    } else if !all_fit(mp, ids) {
        (ml, mp, size_error_code(mp, ids))
    } else {
        let stream = seq![status_codes::BEGIN] + enc_frames(mp, ids);
        let t = recv_loop_spec(ml, ids, stream, 1, 0);
        let mp2 = if request is Take {
            store_delete_all(mp, ids)
        } else {
            mp
        };
        if t.2 == status_codes::SUCCESS {
            (t.0, mp2, status_codes::SUCCESS)
        } else {
            (store_delete_all(t.0, ids.subrange(0, t.3 + 1)), mp2, t.2)
        }
    }
}

/// Copies a list of raw object ids.
fn copy_ids(ids: &Vec<ObjectId>) -> (r: Vec<ObjectId>)
    ensures
        r@ == ids@,
{
    let n = ids.len();
    let mut r: Vec<ObjectId> = Vec::new();
    let mut i: usize = 0;
    while i < n
        invariant
            n == ids@.len(),
            i <= n,
            r@ =~= ids@.subrange(0, i as int),
        decreases n - i,
    {
        r.push(ids[i]);
        i += 1;
    }
    proof {
        assert(ids@.subrange(0, n as int) =~= ids@);
    }
    r
}

/// Fulfils one SYNC peer request against in-memory stores: builds and
/// prepares a receiver on the local store, lets the peer's sender
/// produce the data-plane stream for the requested ids, and feeds that
/// stream to the receiver. The receiver's ids leave the `receiving` set
/// when the exchange is over, whatever its outcome.
pub fn process_peer_request(store: &mut Store, peer: &mut Store, request: &PeerRequest) -> (r:
    Result<(), SyncError>)
    ensures
        final(store).deleting == old(store).deleting,
        final(store).timeout_ms == old(store).timeout_ms,
        final(peer).receiving == old(peer).receiving,
        final(peer).timeout_ms == old(peer).timeout_ms,
        final(store).receiving@ == old(store).receiving@.difference(
            peer_request_ids(*request).to_set(),
        ),
        final(peer).deleting@ == ({
            let ids = peer_request_ids(*request);
            if any_in(old(store).receiving@, ids) || any_held(old(store).plasma@, ids) {
                old(peer).deleting@
            } else if request is Take {
                old(peer).deleting@.difference(ids.to_set())
            } else {
                old(peer).deleting@
            }
        }),
        ({
            let t = exchange_outcome(
                old(store).receiving@,
                old(store).plasma@,
                old(peer).plasma@,
                old(peer).deleting@,
                *request,
            );
            &&& final(store).plasma@ == t.0
            &&& final(peer).plasma@ == t.1
            &&& (r is Ok <==> t.2 == status_codes::SUCCESS)
            &&& (r matches Err(e) ==> spec_sync_code(e) == t.2)
        }),
        ({
            let ids = peer_request_ids(*request);
            let rl = old(store).receiving@;
            let ml = old(store).plasma@;
            let mp = old(peer).plasma@;
            let dp = old(peer).deleting@;
            if any_in(rl, ids) {
                &&& r matches Err(e) && spec_sync_code(e)
                    == status_codes::OB_ALREADY_RECEIVING_ERR
                &&& final(store).plasma@ == ml
                &&& final(peer).plasma@ == mp
            } else if any_held(ml, ids) {
                &&& r matches Err(e) && spec_sync_code(e) == status_codes::OB_ALREADY_IN_STORE_ERR
                &&& final(store).plasma@ == ml
                &&& final(peer).plasma@ == mp
            } else if any_deleting(dp, ids) {
                &&& r matches Err(e) && spec_sync_code(e)
                    == status_codes::OB_DELETION_SCHEDULED_ERR
                &&& final(store).plasma@ == ml
                &&& final(peer).plasma@ == mp
            } else if !all_held(mp, ids) {
                &&& r matches Err(e) && spec_sync_code(e) == status_codes::OB_NOT_FOUND_ERR
                &&& final(store).plasma@ == ml
                &&& final(peer).plasma@ == mp
            } else if !all_fit(mp, ids) {
                &&& r matches Err(e) && (spec_sync_code(e) == status_codes::OB_META_TOO_LARGE_ERR
                    || spec_sync_code(e) == status_codes::OB_DATA_TOO_LARGE_ERR)
                &&& final(store).plasma@ == ml
                &&& final(peer).plasma@ == mp
            } else if all_fresh(ml, ids) && all_nonzero(mp, ids) && !has_duplicate(ids) {
                &&& r is Ok
                &&& final(store).plasma@ == spec_insert_all(ml, mp, ids)
                &&& final(peer).plasma@ == if request is Take {
                    store_delete_all(mp, ids)
                } else {
                    mp
                }
            } else {
                true
            }
        }),
{
    let ghost ids = peer_request_ids(*request);
    let ghost ml = old(store).plasma@;
    let ghost mp = old(peer).plasma@;
    let (from, objects, take) = match request {
        PeerRequest::Copy { from, objects } => (from, objects, false),
        PeerRequest::Take { from, objects } => (from, objects, true),
    };
    let receiver = store.build_receiver(*from, copy_ids(objects));
    if let Err(e) = receiver.prepare(store) {
        receiver.finish(store);
        proof {
            if !any_in(old(store).receiving@, ids) {
                assert(old(store).receiving@.union(ids.to_set()).difference(ids.to_set())
                    =~= old(store).receiving@.difference(ids.to_set()));
            }
        }
        return Err(SyncError::ReceiverError(e));
    }
    let sender = peer.build_sender(*from, copy_ids(objects), take);
    let (bytes, _send_result) = sender.run(peer);
    let run_result = receiver.run(store, bytes.as_slice());
    receiver.finish(store);
    proof {
        assert(old(store).receiving@.union(ids.to_set()).difference(ids.to_set()) =~= old(
            store,
        ).receiving@.difference(ids.to_set()));
        if !any_deleting(old(peer).deleting@, ids) && all_held(mp, ids) && all_fit(mp, ids) {
            assert(bytes@ == seq![status_codes::BEGIN] + enc_frames(mp, ids));
            assert(bytes@[0] == status_codes::BEGIN);
            if all_fresh(ml, ids) && all_nonzero(mp, ids) && !has_duplicate(ids) {
                assert(bytes@.subrange(1, bytes@.len() as int) =~= enc_frames(mp, ids));
                assert forall|i: int|
                    0 <= i < ids.len() implies {
                        let ob = mp[#[trigger] ids[i]];
                        0 < ob.1.len() <= crate::MAX_DATA_SIZE && ob.0.len()
                            < crate::MAX_META_SIZE
                    } by {
                    assert(crate::sender::object_fits(mp[ids[i]]));
                    assert(mp[ids[i]].1.len() > 0);
                }
                crate::receiver::lemma_recv_frames(ml, mp, ids, bytes@, 1, 0);
            }
        }
    }
    match run_result {
        Ok(()) => Ok(()),
        Err(e) => Err(SyncError::ReceiverError(e)),
    }
}

/// The SYNC request dispatcher, wrapping the store handle of the local
/// server.
/// What a whole SYNC does against one peer store, request by request in
/// order: the local store map, the local receiving set, the peer store
/// map, the peer deleting set, and the response bytes afterwards. Each
/// response byte is the [`exchange_outcome`] code of its request,
/// evaluated in the state the earlier requests left behind.
pub open spec fn dispatch_outcome(
    rl: Set<Seq<u8>>,
    ml: Map<Seq<u8>, ObjectModel>,
    mp: Map<Seq<u8>, ObjectModel>,
    dp: Set<Seq<u8>>,
    requests: Seq<PeerRequest>,
) -> (Map<Seq<u8>, ObjectModel>, Set<Seq<u8>>, Map<Seq<u8>, ObjectModel>, Set<Seq<u8>>, Seq<u8>)
    decreases requests.len(),
{
    if requests.len() == 0 {
        (ml, rl, mp, dp, Seq::empty())
    } else {
        let ids = peer_request_ids(requests[0]);
        let e = exchange_outcome(rl, ml, mp, dp, requests[0]);
        let rl1 = rl.difference(ids.to_set());
        let dp1 = if any_in(rl, ids) || any_held(ml, ids) {
            dp
        } else if requests[0] is Take {
            dp.difference(ids.to_set())
        } else {
            dp
        };
        let rest = dispatch_outcome(rl1, e.0, e.1, dp1, requests.drop_first());
        (rest.0, rest.1, rest.2, rest.3, seq![e.2] + rest.4)
    }
}

pub struct Dispatcher {
    /// Handle to the local store.
    pub store: Store,
}

impl Dispatcher {
    /// Fulfils a SYNC request: if any peer request names the local
    /// address the whole SYNC is rejected; otherwise each peer request
    /// is fulfilled in order against the given peer store. Produces
    /// exactly one response byte per peer request, in request order:
    /// `SUCCESS`, or the response code of the request's failure. The
    /// response bytes and both stores' final contents are exactly those
    /// of [`dispatch_outcome`].
    pub fn run(
        &mut self,
        requests: &Vec<PeerRequest>,
        local_address: &PeerAddr,
        peer: &mut Store,
    ) -> (r: (Vec<u8>, Result<(), SyncError>))
        ensures
            r.0@.len() == requests@.len(),
            (exists|i: int|
                0 <= i < requests@.len() && addr_eq(
                    peer_request_from(#[trigger] requests@[i]),
                    *local_address,
                )) <==> r.1 == Err::<(), SyncError>(SyncError::PeerAddressIsSelf),
            r.1 matches Err(e) ==> e is PeerAddressIsSelf,
            r.1 == Err::<(), SyncError>(SyncError::PeerAddressIsSelf) ==> {
                &&& forall|i: int|
                    0 <= i < r.0@.len() ==> r.0@[i] == status_codes::PEER_CONNECTION_ERR
                &&& final(self).store == old(self).store
                &&& *final(peer) == *old(peer)
            },
            final(self).store.deleting == old(self).store.deleting,
            final(self).store.timeout_ms == old(self).store.timeout_ms,
            final(peer).receiving == old(peer).receiving,
            final(peer).timeout_ms == old(peer).timeout_ms,
            r.1 is Ok ==> ({
                let t = dispatch_outcome(
                    old(self).store.receiving@,
                    old(self).store.plasma@,
                    old(peer).plasma@,
                    old(peer).deleting@,
                    requests@,
                );
                &&& final(self).store.plasma@ == t.0
                &&& final(self).store.receiving@ == t.1
                &&& final(peer).plasma@ == t.2
                &&& final(peer).deleting@ == t.3
                &&& r.0@ == t.4
            }),
    {
        let n = requests.len();
        let mut i: usize = 0;
        while i < n
            invariant
                n == requests@.len(),
                i <= n,
                *self == *old(self),
                *peer == *old(peer),
                forall|j: int|
                    0 <= j < i ==> !addr_eq(peer_request_from(#[trigger] requests@[j]), *local_address),
            decreases n - i,
        {
            if requests[i].contains_peer(local_address) {
                let mut response: Vec<u8> = Vec::new();
                let mut k: usize = 0;
                while k < n
                    invariant
                        k <= n,
                        response@.len() == k,
                        forall|j: int|
                            0 <= j < k ==> response@[j] == status_codes::PEER_CONNECTION_ERR,
                        *self == *old(self),
                        *peer == *old(peer),
                    decreases n - k,
                {
                    response.push(status_codes::PEER_CONNECTION_ERR);
                    k += 1;
                }
                return (response, Err(SyncError::PeerAddressIsSelf));
            }
            i += 1;
        }
        let mut response: Vec<u8> = Vec::new();
        let mut i: usize = 0;
        proof {
            assert(requests@.skip(0) =~= requests@);
            assert(response@ =~= Seq::<u8>::empty());
        }
        while i < n
            invariant
                n == requests@.len(),
                i <= n,
                response@.len() == i,
                self.store.deleting == old(self).store.deleting,
                self.store.timeout_ms == old(self).store.timeout_ms,
                peer.receiving == old(peer).receiving,
                peer.timeout_ms == old(peer).timeout_ms,
                dispatch_outcome(
                    old(self).store.receiving@,
                    old(self).store.plasma@,
                    old(peer).plasma@,
                    old(peer).deleting@,
                    requests@,
                ) == ({
                    let rest = dispatch_outcome(
                        self.store.receiving@,
                        self.store.plasma@,
                        peer.plasma@,
                        peer.deleting@,
                        requests@.skip(i as int),
                    );
                    (rest.0, rest.1, rest.2, rest.3, response@ + rest.4)
                }),
            decreases n - i,
        {
            let ghost rl_c = self.store.receiving@;
            let ghost ml_c = self.store.plasma@;
            let ghost mp_c = peer.plasma@;
            let ghost dp_c = peer.deleting@;
            let ghost rv = response@;
            let ghost remaining = requests@.skip(i as int);
            proof {
                assert(remaining[0] == requests@[i as int]);
                assert(remaining.drop_first() =~= requests@.skip(i + 1));
            }
            let code = match process_peer_request(&mut self.store, peer, &requests[i]) {
                Ok(()) => status_codes::SUCCESS,
                Err(e) => e.response_code(),
            };
            response.push(code);
            proof {
                let e = exchange_outcome(rl_c, ml_c, mp_c, dp_c, requests@[i as int]);
                assert(code == e.2);
                let rest = dispatch_outcome(
                    self.store.receiving@,
                    self.store.plasma@,
                    peer.plasma@,
                    peer.deleting@,
                    requests@.skip(i + 1),
                );
                assert(dispatch_outcome(rl_c, ml_c, mp_c, dp_c, remaining) == (
                    rest.0,
                    rest.1,
                    rest.2,
                    rest.3,
                    seq![e.2] + rest.4,
                ));
                assert(rv + (seq![e.2] + rest.4) =~= response@ + rest.4);
            }
            i += 1;
        }
        proof {
            assert(requests@.skip(n as int) =~= Seq::<PeerRequest>::empty());
            let rest = dispatch_outcome(
                self.store.receiving@,
                self.store.plasma@,
                peer.plasma@,
                peer.deleting@,
                requests@.skip(n as int),
            );
            assert(response@ + rest.4 =~= response@);
        }
        (response, Ok(()))
    }
}

} // verus!
