//! The object receiver: reads an object stream from an incoming byte
//! stream and inserts the objects into the local store, guarding the
//! `receiving` set, with best-effort rollback on failure.
//!
//! The wire state machine is stated once, mathematically, in
//! [`recv_object_spec`] and [`recv_loop_spec`]; the executable receiver
//! is proved to follow it exactly.

use vstd::prelude::*;

use crate::codec::{le_val, read_u64_le, decode_object_header};
use crate::errors::{spec_receive_code, ObjectReceiveError};
use crate::idset::IdSet;
use crate::plasma::{
    ids_view, store_delete_all, store_holds, ObjectModel, PlasmaStore,
};
use crate::request::{raw_ids_view, PeerAddr};
use crate::sender::enc_frames;
use crate::status_codes;
use crate::store::Store;
use crate::utils::map_object_ids;
use crate::{ObjectId, MAX_DATA_SIZE, MAX_META_SIZE};

verus! {

/// What receiving one object at offset `pos` of the input does to the
/// store map: the new map, the offset after the object, and the response
/// code of the outcome (`SUCCESS`, or the code of the failure).
///
/// The stream is checked for completeness before the object is created,
/// so a truncated stream leaves no half-created object behind.
pub open spec fn recv_object_spec(
    m: Map<Seq<u8>, ObjectModel>,
    id: Seq<u8>,
    input: Seq<u8>,
    pos: int,
) -> (Map<Seq<u8>, ObjectModel>, int, u8) {
    if pos + 8 > input.len() {
        (m, pos, status_codes::PEER_CONNECTION_ERR)
    } else {
        let header = le_val(input.subrange(pos, pos + 8));
        let meta_size = header % 0x10000;
        let data_size = header / 0x10000;
        if data_size == 0 {
            (m, pos, status_codes::OB_DATA_ZERO_LENGTH_ERR)
        } else if data_size > MAX_DATA_SIZE {
            (m, pos, status_codes::OB_DATA_TOO_LARGE_ERR)
        } else if meta_size > MAX_META_SIZE {
            (m, pos, status_codes::OB_META_TOO_LARGE_ERR)
        } else if pos + 8 + meta_size > input.len() {
            (m, pos, status_codes::PEER_CONNECTION_ERR)
        } else if pos + 8 + meta_size + data_size > input.len() {
            (m, pos, status_codes::PEER_CONNECTION_ERR)
        } else if m.contains_key(id) {
            (m, pos, status_codes::PLASMA_STORE_ERR)
        } else {
            (
                m.insert(
                    id,
                    (
                        input.subrange(pos + 8, pos + 8 + meta_size),
                        input.subrange(pos + 8 + meta_size, pos + 8 + meta_size + data_size),
                        true,
                    ),
                ),
                pos + 8 + meta_size + data_size,
                status_codes::SUCCESS,
            )
        }
    }
}

/// What receiving the listed objects in order does to the store map:
/// the new map, the final offset, the response code of the outcome, and
/// the index of the object at which the stream stopped (on success, one
/// past the last object).
pub open spec fn recv_loop_spec(
    m: Map<Seq<u8>, ObjectModel>,
    ids: Seq<Seq<u8>>,
    input: Seq<u8>,
    pos: int,
    base: int,
) -> (Map<Seq<u8>, ObjectModel>, int, u8, int)
    decreases ids.len(),
{
    if ids.len() == 0 {
        (m, pos, status_codes::SUCCESS, base)
    } else {
        let (m1, p1, c) = recv_object_spec(m, ids[0], input, pos);
        if c != status_codes::SUCCESS {
            (m1, p1, c, base)
        } else {
            recv_loop_spec(m1, ids.drop_first(), input, p1, base + 1)
        }
    }
}

/// Reads a single object from the input at `pos` and saves it under the
/// specified id into the local store, following [`recv_object_spec`].
fn receive_object(
    pc: &mut PlasmaStore,
    oid: &crate::plasma::ObjectId,
    input: &[u8],
    pos: usize,
    from_peer: PeerAddr,
) -> (r: Result<usize, ObjectReceiveError>)
    requires
        pos <= input@.len(),
    ensures
        ({
            let (m2, p2, c) = recv_object_spec(old(pc)@, oid@, input@, pos as int);
            &&& final(pc)@ == m2
            &&& final(pc).spec_capacity() == old(pc).spec_capacity()
            &&& (c == status_codes::SUCCESS <==> r is Ok)
            &&& (r matches Ok(end) ==> end == p2)
            &&& (r matches Err(e) ==> spec_receive_code(e) == c)
        }),
{
    let (header, after_header) = match read_u64_le(input, pos) {
        Some(x) => x,
        None => {
            return Err(
                ObjectReceiveError::ConnectionError(
                    Some(from_peer),
                    <String as vstd::string::StringExecFns>::from_str("unexpected end of stream"),
                ),
            );
        },
    };
    proof {
        assert(vstd::arithmetic::power::pow(256, 8) == 0x10000000000000000) by {
            reveal_with_fuel(vstd::arithmetic::power::pow, 9);
        }
        crate::codec::lemma_le_val_of_enc_u64(header);
    }
    let (meta_size64, data_size64) = decode_object_header(header);
    if data_size64 == 0 {
        return Err(ObjectReceiveError::ZeroLengthObjectData(from_peer, oid.bytes));
    }
    if data_size64 > MAX_DATA_SIZE {
        return Err(
            ObjectReceiveError::ObjectDataTooLarge(from_peer, oid.bytes, data_size64 as usize),
        );
    }
    if meta_size64 > MAX_META_SIZE {
        return Err(
            ObjectReceiveError::ObjectMetaTooLarge(from_peer, oid.bytes, meta_size64 as usize),
        );
    }
    let meta_size = meta_size64 as usize;
    if input.len() - after_header < meta_size {
        return Err(
            ObjectReceiveError::ConnectionError(
                Some(from_peer),
                <String as vstd::string::StringExecFns>::from_str("unexpected end of stream"),
            ),
        );
    }
    let after_meta = after_header + meta_size;
    if ((input.len() - after_meta) as u64) < data_size64 {
        return Err(
            ObjectReceiveError::ConnectionError(
                Some(from_peer),
                <String as vstd::string::StringExecFns>::from_str("unexpected end of stream"),
            ),
        );
    }
    let data_size = data_size64 as usize;
    let meta_buf = vstd::slice::slice_subrange(input, after_header, after_meta);
    let mut ob = match pc.create(crate::plasma::ObjectId::new(oid.bytes), data_size, meta_buf) {
        Ok(ob) => ob,
        Err(e) => {
            return Err(ObjectReceiveError::StoreError(from_peer, e));
        },
    };
    let data_buf = vstd::slice::slice_to_vec(
        vstd::slice::slice_subrange(input, after_meta, after_meta + data_size),
    );
    ob.set_data(data_buf);
    match ob.seal(pc) {
        Ok(()) => {},
        Err(e) => {
            return Err(ObjectReceiveError::StoreError(from_peer, e));
        },
    }
    proof {
        let (m2, p2, c) = recv_object_spec(old(pc)@, oid@, input@, pos as int);
        assert(pc@ =~= m2);
    }
    Ok(after_meta + data_size)
}

/// A receiver instance: the peer it pulls from and the objects it will
/// receive.
pub struct ObjectReceiver {
    /// Address of the peer from which the objects will be received.
    pub peer_addr: PeerAddr,
    /// IDs for objects to be received by this receiver.
    pub object_ids: Vec<ObjectId>,
}

impl ObjectReceiver {
    /// Reads objects from the input stream and saves them into the local
    /// store; the objects are assumed to arrive in the order given by
    /// `object_ids`. On a failure at object index `i`, the already
    /// received objects `[0..=i]` are deleted again, best-effort.
    ///
    /// After a successful run the store holds every received id; after a
    /// failed run none of the ids is held, provided none had an entry
    /// before the run started.
    pub fn run(&self, store: &mut Store, input: &[u8]) -> (r: Result<(), ObjectReceiveError>)
        ensures
            r is Ok ==> forall|i: int|
                0 <= i < self.object_ids@.len() ==> store_holds(
                    final(store).plasma@,
                    #[trigger] raw_ids_view(self.object_ids@)[i],
                ),
            ((forall|i: int|
                0 <= i < self.object_ids@.len() ==> !old(store).plasma@.contains_key(
                    #[trigger] raw_ids_view(self.object_ids@)[i],
                )) && r is Err) ==> forall|i: int|
                0 <= i < self.object_ids@.len() ==> !store_holds(
                    final(store).plasma@,
                    #[trigger] raw_ids_view(self.object_ids@)[i],
                ),
            final(store).receiving == old(store).receiving,
            final(store).deleting == old(store).deleting,
            final(store).timeout_ms == old(store).timeout_ms,
            input@.len() == 0 ==> {
                &&& r matches Err(e) && spec_receive_code(e) == status_codes::PEER_CONNECTION_ERR
                &&& final(store).plasma@ == old(store).plasma@
            },
            input@.len() > 0 && input@[0] != status_codes::BEGIN ==> {
                &&& r == Err::<(), ObjectReceiveError>(
                    ObjectReceiveError::PeerError(self.peer_addr, input@[0]),
                )
                &&& final(store).plasma@ == old(store).plasma@
            },
            input@.len() > 0 && input@[0] == status_codes::BEGIN ==> {
                let t = recv_loop_spec(
                    old(store).plasma@,
                    raw_ids_view(self.object_ids@),
                    input@,
                    1,
                    0,
                );
                if t.2 == status_codes::SUCCESS {
                    r is Ok && final(store).plasma@ == t.0
                } else {
                    &&& r matches Err(e) && spec_receive_code(e) == t.2
                    &&& final(store).plasma@ == store_delete_all(
                        t.0,
                        raw_ids_view(self.object_ids@).subrange(0, t.3 + 1),
                    )
                }
            },
    {
        let ghost ids = raw_ids_view(self.object_ids@);
        let ghost m0 = old(store).plasma@;
        if input.len() == 0 {
            return Err(
                ObjectReceiveError::ConnectionError(
                    Some(self.peer_addr),
                    <String as vstd::string::StringExecFns>::from_str("connection closed"),
                ),
            );
        }
        let status = input[0];
        if status != status_codes::BEGIN {
            return Err(ObjectReceiveError::PeerError(self.peer_addr, status));
        }
        let plasma_object_ids = map_object_ids(self.object_ids.as_slice());
        let n = plasma_object_ids.len();
        let mut pos: usize = 1;
        let mut i: usize = 0;
        proof {
            assert(ids.skip(0) =~= ids);
        }
        while i < n
            invariant
                n == ids.len(),
                i <= n,
                pos <= input@.len(),
                input@.len() > 0,
                input@[0] == status_codes::BEGIN,
                m0 == old(store).plasma@,
                ids == raw_ids_view(self.object_ids@),
                ids_view(plasma_object_ids@) == ids,
                plasma_object_ids@.len() == n,
                store.receiving == old(store).receiving,
                store.deleting == old(store).deleting,
                store.timeout_ms == old(store).timeout_ms,
                recv_loop_spec(m0, ids, input@, 1, 0) == recv_loop_spec(
                    store.plasma@,
                    ids.skip(i as int),
                    input@,
                    pos as int,
                    i as int,
                ),
            decreases n - i,
        {
            let ghost mc = store.plasma@;
            let ghost rest = ids.skip(i as int);
            let ghost oldpos = pos as int;
            proof {
                assert(rest[0] == ids[i as int]);
                assert(rest.drop_first() =~= ids.skip(i + 1));
            }
            match receive_object(&mut store.plasma, &plasma_object_ids[i], input, pos, self.peer_addr) {
                Ok(next) => {
                    pos = next;
                    proof {
                        let (m2, p2, c) = recv_object_spec(mc, ids[i as int], input@, oldpos);
                        assert(c == status_codes::SUCCESS);
                        assert(store.plasma@ == m2 && pos as int == p2);
                        assert(recv_loop_spec(mc, rest, input@, oldpos, i as int)
                            == recv_loop_spec(m2, rest.drop_first(), input@, p2, i + 1));
                    }
                },
                Err(e) => {
                    let ghost t = recv_loop_spec(m0, ids, input@, 1, 0);
                    proof {
                        assert(t.2 == spec_receive_code(e) && t.2 != status_codes::SUCCESS);
                        assert(t.0 == store.plasma@ && t.3 == i as int);
                    }
                    let prefix = vstd::slice::slice_subrange(
                        plasma_object_ids.as_slice(),
                        0,
                        i + 1,
                    );
                    let _ = store.plasma.delete_many(prefix);
                    proof {
                        assert(ids_view(prefix@) =~= ids.subrange(0, i + 1));
                        if forall|k: int|
                            0 <= k < ids.len() ==> !m0.contains_key(#[trigger] ids[k]) {
                            lemma_recv_rollback(m0, ids, input@, 1);
                        }
                    }
                    return Err(e);
                },
            }
            i += 1;
        }
        proof {
            assert(ids.skip(n as int) =~= Seq::<Seq<u8>>::empty());
            let t = recv_loop_spec(m0, ids, input@, 1, 0);
            assert(t.2 == status_codes::SUCCESS && t.0 == store.plasma@);
            lemma_recv_success_holds(m0, ids, input@, 1, 0);
        }
        Ok(())
    }

    /// Adds all IDs from `object_ids` into the set of objects which are
    /// currently being received; if any of the IDs is already in the set,
    /// this returns an error listing them and inserts nothing. The check
    /// and the insert form one step, so an id is claimed by at most one
    /// receiver at a time; see [`crate::idset::lemma_exclusive_claim`].
    fn add_to_receiving(&self, receiving: &mut IdSet) -> (r: Result<(), ObjectReceiveError>)
        ensures
            ({
                let ids = raw_ids_view(self.object_ids@);
                if crate::idset::any_in(old(receiving)@, ids) {
                    &&& r matches Err(ObjectReceiveError::AlreadyReceiving(a, dups))
                        && a == self.peer_addr && raw_ids_view(dups@) == ids.filter(
                        |id: Seq<u8>| old(receiving)@.contains(id),
                    )
                    &&& final(receiving)@ == old(receiving)@
                } else {
                    &&& r is Ok
                    &&& final(receiving)@ == old(receiving)@.union(ids.to_set())
                }
            }),
    {
        let ghost ids = raw_ids_view(self.object_ids@);
        let ghost pred = |id: Seq<u8>| old(receiving)@.contains(id);
        let n = self.object_ids.len();
        let mut duplicates: Vec<ObjectId> = Vec::new();
        let mut i: usize = 0;
        while i < n
            invariant
                n == self.object_ids@.len(),
                i <= n,
                *receiving == *old(receiving),
                ids == raw_ids_view(self.object_ids@),
                pred == (|id: Seq<u8>| old(receiving)@.contains(id)),
                raw_ids_view(duplicates@) == ids.subrange(0, i as int).filter(pred),
            decreases n - i,
        {
            let ghost prefix = ids.subrange(0, i as int);
            let ghost dv = raw_ids_view(duplicates@);
            let oid = self.object_ids[i];
            if receiving.contains(&oid) {
                duplicates.push(oid);
                proof {
                    assert(raw_ids_view(duplicates@) =~= dv.push(oid@));
                }
            }
            proof {
                prefix.lemma_filter_push(oid@, pred);
                assert(ids.subrange(0, i + 1) =~= prefix.push(oid@));
            }
            i += 1;
        }
        proof {
            assert(ids.subrange(0, n as int) =~= ids);
        }
        if duplicates.len() > 0 {
            proof {
                if !crate::idset::any_in(old(receiving)@, ids) {
                    assert forall|k: int| 0 <= k < ids.len() implies !pred(#[trigger] ids[k]) by {}
                    crate::sender::lemma_filter_none(ids, pred);
                }
            }
            return Err(ObjectReceiveError::AlreadyReceiving(self.peer_addr, duplicates));
        }
        proof {
            if crate::idset::any_in(old(receiving)@, ids) {
                let j = choose|j: int|
                    0 <= j < ids.len() && old(receiving)@.contains(#[trigger] ids[j]);
                ids.lemma_filter_contains(pred, j);
            }
        }
        let mut i: usize = 0;
        while i < n
            invariant
                n == self.object_ids@.len(),
                i <= n,
                ids == raw_ids_view(self.object_ids@),
                receiving@ == old(receiving)@.union(ids.subrange(0, i as int).to_set()),
            decreases n - i,
        {
            let ghost prefix = ids.subrange(0, i as int);
            receiving.insert(self.object_ids[i]);
            proof {
                broadcast use vstd::seq_lib::lemma_seq_contains_after_push;

                assert(ids.subrange(0, i + 1) =~= prefix.push(ids[i as int]));
                assert(ids.subrange(0, i + 1).to_set() =~= prefix.to_set().insert(ids[i as int]));
                assert(receiving@ =~= old(receiving)@.union(ids.subrange(0, i + 1).to_set()));
            }
            i += 1;
        }
        proof {
            assert(ids.subrange(0, n as int) =~= ids);
        }
        Ok(())
    }

    /// Prepares this receiver for receiving objects from its peer: marks
    /// the objects as being received, then makes sure none of them is
    /// already in the local store. When the store already holds some of
    /// the ids, the error is reported with the ids still marked as being
    /// received; they are unmarked when the receiver is finished.
    pub fn prepare(&self, store: &mut Store) -> (r: Result<(), ObjectReceiveError>)
        ensures
            final(store).plasma == old(store).plasma,
            final(store).deleting == old(store).deleting,
            final(store).timeout_ms == old(store).timeout_ms,
            ({
                let ids = raw_ids_view(self.object_ids@);
                let rset = old(store).receiving@;
                let m = old(store).plasma@;
                if crate::idset::any_in(rset, ids) {
                    &&& r matches Err(ObjectReceiveError::AlreadyReceiving(a, dups))
                        && a == self.peer_addr && raw_ids_view(dups@) == ids.filter(
                        |id: Seq<u8>| rset.contains(id),
                    )
                    &&& final(store).receiving@ == rset
                } else if crate::sender::any_held(m, ids) {
                    &&& r matches Err(ObjectReceiveError::AlreadyInStore(a, present))
                        && a == self.peer_addr && raw_ids_view(present@) == ids.filter(
                        |id: Seq<u8>| store_holds(m, id),
                    )
                    &&& final(store).receiving@ == rset.union(ids.to_set())
                } else {
                    &&& r is Ok
                    &&& final(store).receiving@ == rset.union(ids.to_set())
                }
            }),
    {
        let ghost ids = raw_ids_view(self.object_ids@);
        let ghost pred = |id: Seq<u8>| store_holds(old(store).plasma@, id);
        if let Err(e) = self.add_to_receiving(&mut store.receiving) {
            return Err(e);
        }
        let plasma_object_ids = map_object_ids(self.object_ids.as_slice());
        let in_store = match store.plasma.contains_many(plasma_object_ids.as_slice()) {
            Ok(found) => found,
            Err(e) => {
                return Err(ObjectReceiveError::StoreError(self.peer_addr, e));
            },
        };
        proof {
            assert(ids_view(plasma_object_ids@) == ids);
            crate::sender::lemma_filter_equiv(
                ids,
                |id: Seq<u8>| store.plasma.holds(id),
                pred,
            );
            assert(ids_view(in_store@) == ids.filter(pred));
        }
        if in_store.len() > 0 {
            let mut present: Vec<ObjectId> = Vec::new();
            let k = in_store.len();
            let mut i: usize = 0;
            while i < k
                invariant
                    k == in_store@.len(),
                    i <= k,
                    present@.len() == i,
                    forall|j: int| 0 <= j < i ==> (#[trigger] present@[j])@ == in_store@[j]@,
                decreases k - i,
            {
                present.push(in_store[i].bytes);
                i += 1;
            }
            proof {
                assert(raw_ids_view(present@) =~= ids_view(in_store@));
                if !crate::sender::any_held(old(store).plasma@, ids) {
                    assert forall|j: int| 0 <= j < ids.len() implies !pred(#[trigger] ids[j]) by {
                        assert(!store_holds(old(store).plasma@, ids[j]));
                    }
                    crate::sender::lemma_filter_none(ids, pred);
                }
            }
            return Err(ObjectReceiveError::AlreadyInStore(self.peer_addr, present));
        }
        proof {
            if crate::sender::any_held(old(store).plasma@, ids) {
                let j = choose|j: int|
                    0 <= j < ids.len() && store_holds(old(store).plasma@, #[trigger] ids[j]);
                ids.lemma_filter_contains(pred, j);
            }
        }
        Ok(())
    }

    /// Removes this receiver's ids from the receiving set, as the last
    /// step of its lifetime, regardless of outcome.
    pub fn finish(&self, store: &mut Store)
        ensures
            final(store).plasma == old(store).plasma,
            final(store).deleting == old(store).deleting,
            final(store).timeout_ms == old(store).timeout_ms,
            final(store).receiving@ == old(store).receiving@.difference(
                raw_ids_view(self.object_ids@).to_set(),
            ),
    {
        let ghost ids = raw_ids_view(self.object_ids@);
        let n = self.object_ids.len();
        let mut i: usize = 0;
        while i < n
            invariant
                n == self.object_ids@.len(),
                ids == raw_ids_view(self.object_ids@),
                i <= n,
                store.plasma == old(store).plasma,
                store.deleting == old(store).deleting,
                store.timeout_ms == old(store).timeout_ms,
                store.receiving@ == old(store).receiving@.difference(
                    ids.subrange(0, i as int).to_set(),
                ),
            decreases n - i,
        {
            let ghost prefix = ids.subrange(0, i as int);
            store.receiving.remove(&self.object_ids[i]);
            proof {
                broadcast use vstd::seq_lib::lemma_seq_contains_after_push;

                assert(ids.subrange(0, i + 1) =~= prefix.push(ids[i as int]));
                assert(ids.subrange(0, i + 1).to_set() =~= prefix.to_set().insert(ids[i as int]));
                assert(old(store).receiving@.difference(prefix.to_set()).remove(ids[i as int]) =~= old(
                    store,
                ).receiving@.difference(ids.subrange(0, i + 1).to_set()));
            }
            i += 1;
        }
        proof {
            assert(ids.subrange(0, n as int) =~= ids);
        }
    }
}

/// The store map after inserting, sealed, each listed object with the
/// metadata and data it has in the source map.
pub open spec fn spec_insert_all(
    m: Map<Seq<u8>, ObjectModel>,
    src: Map<Seq<u8>, ObjectModel>,
    ids: Seq<Seq<u8>>,
) -> Map<Seq<u8>, ObjectModel>
    decreases ids.len(),
{
    if ids.len() == 0 {
        m
    } else {
        spec_insert_all(m.insert(ids[0], (src[ids[0]].0, src[ids[0]].1, true)), src, ids.drop_first())
    }
}

/// Inserting a list of objects leaves an already-held id held.
pub proof fn lemma_insert_all_keeps_held(
    m: Map<Seq<u8>, ObjectModel>,
    src: Map<Seq<u8>, ObjectModel>,
    ids: Seq<Seq<u8>>,
    id: Seq<u8>,
)
    requires
        store_holds(m, id),
    ensures
        store_holds(spec_insert_all(m, src, ids), id),
    decreases ids.len(),
{
    if ids.len() > 0 {
        let m1 = m.insert(ids[0], (src[ids[0]].0, src[ids[0]].1, true));
        assert(store_holds(m1, id));
        lemma_insert_all_keeps_held(m1, src, ids.drop_first(), id);
    }
}

/// After inserting a list of objects, the store holds every listed id.
pub proof fn lemma_insert_all_holds(
    m: Map<Seq<u8>, ObjectModel>,
    src: Map<Seq<u8>, ObjectModel>,
    ids: Seq<Seq<u8>>,
)
    ensures
        forall|i: int|
            0 <= i < ids.len() ==> store_holds(spec_insert_all(m, src, ids), #[trigger] ids[i]),
    decreases ids.len(),
{
    if ids.len() > 0 {
        let m1 = m.insert(ids[0], (src[ids[0]].0, src[ids[0]].1, true));
        lemma_insert_all_keeps_held(m1, src, ids.drop_first(), ids[0]);
        lemma_insert_all_holds(m1, src, ids.drop_first());
        assert forall|i: int|
            0 <= i < ids.len() implies store_holds(
            spec_insert_all(m, src, ids),
            #[trigger] ids[i],
        ) by {
            if i > 0 {
                assert(ids.drop_first()[i - 1] == ids[i]);
            }
        }
    }
}

/// Structural facts about a receiver run: the stop index stays within
/// the id list; existing store entries are never touched; and every new
/// entry belongs to an id the run actually processed.
pub proof fn lemma_recv_loop_frame(
    m: Map<Seq<u8>, ObjectModel>,
    ids: Seq<Seq<u8>>,
    input: Seq<u8>,
    pos: int,
    base: int,
)
    ensures
        ({
            let t = recv_loop_spec(m, ids, input, pos, base);
            &&& base <= t.3 <= base + ids.len()
            &&& t.2 == status_codes::SUCCESS ==> t.3 == base + ids.len()
            &&& t.2 != status_codes::SUCCESS ==> t.3 < base + ids.len()
            &&& forall|id: Seq<u8>|
                #[trigger] m.contains_key(id) ==> t.0.contains_key(id) && t.0[id] == m[id]
            &&& forall|id: Seq<u8>|
                #[trigger] t.0.contains_key(id) ==> m.contains_key(id) || ids.subrange(
                    0,
                    if t.2 == status_codes::SUCCESS {
                        ids.len() as int
                    } else {
                        t.3 - base + 1
                    },
                ).contains(id)
        }),
    decreases ids.len(),
{
    let t = recv_loop_spec(m, ids, input, pos, base);
    if ids.len() > 0 {
        let (m1, p1, c) = recv_object_spec(m, ids[0], input, pos);
        if c != status_codes::SUCCESS {
            assert(m1 == m);
            assert(ids.subrange(0, 1).contains(ids[0]) == (ids.subrange(0, 1)[0] == ids[0])
                || true);
        } else {
            lemma_recv_loop_frame(m1, ids.drop_first(), input, p1, base + 1);
            let t1 = recv_loop_spec(m1, ids.drop_first(), input, p1, base + 1);
            assert(t == t1);
            assert forall|id: Seq<u8>| #[trigger] m.contains_key(id) implies t.0.contains_key(
                id,
            ) && t.0[id] == m[id] by {
                assert(!m.contains_key(ids[0]));
                assert(m1.contains_key(id) && m1[id] == m[id]);
            }
            let stop = if t.2 == status_codes::SUCCESS {
                ids.len() as int
            } else {
                t.3 - base + 1
            };
            let stop1 = if t1.2 == status_codes::SUCCESS {
                ids.drop_first().len() as int
            } else {
                t1.3 - (base + 1) + 1
            };
            assert forall|id: Seq<u8>| #[trigger] t.0.contains_key(id) implies m.contains_key(id)
                || ids.subrange(0, stop).contains(id) by {
                if !m.contains_key(id) {
                    if id == ids[0] {
                        assert(ids.subrange(0, stop)[0] == ids[0]);
                    } else {
                        assert(m1.contains_key(id) ==> ids.drop_first().subrange(
                            0,
                            stop1,
                        ).contains(id));
                        let k = choose|k: int|
                            0 <= k < stop1 && ids.drop_first().subrange(0, stop1)[k] == id;
                        assert(ids.drop_first()[k] == id);
                        assert(ids.subrange(0, stop)[k + 1] == id);
                    }
                }
            }
        }
    }
}

/// After a receiver run completes successfully, the local store holds
/// every id the run was asked to receive.
pub proof fn lemma_recv_success_holds(
    m: Map<Seq<u8>, ObjectModel>,
    ids: Seq<Seq<u8>>,
    input: Seq<u8>,
    pos: int,
    base: int,
)
    ensures
        ({
            let t = recv_loop_spec(m, ids, input, pos, base);
            t.2 == status_codes::SUCCESS ==> forall|i: int|
                0 <= i < ids.len() ==> store_holds(t.0, #[trigger] ids[i])
        }),
    decreases ids.len(),
{
    let t = recv_loop_spec(m, ids, input, pos, base);
    if ids.len() > 0 && t.2 == status_codes::SUCCESS {
        let (m1, p1, c) = recv_object_spec(m, ids[0], input, pos);
        assert(c == status_codes::SUCCESS);
        lemma_recv_success_holds(m1, ids.drop_first(), input, p1, base + 1);
        lemma_recv_loop_frame(m1, ids.drop_first(), input, p1, base + 1);
        assert(store_holds(m1, ids[0]));
        assert(store_holds(t.0, ids[0]));
        assert forall|i: int| 0 <= i < ids.len() implies store_holds(t.0, #[trigger] ids[i]) by {
            if i > 0 {
                assert(ids.drop_first()[i - 1] == ids[i]);
            }
        }
    }
}

/// After a receiver run fails and rolls back, none of the ids it was
/// asked to receive is held by the store, provided none of them was
/// present before the run.
pub proof fn lemma_recv_rollback(
    m: Map<Seq<u8>, ObjectModel>,
    ids: Seq<Seq<u8>>,
    input: Seq<u8>,
    pos: int,
)
    requires
        forall|i: int| 0 <= i < ids.len() ==> !m.contains_key(#[trigger] ids[i]),
    ensures
        ({
            let t = recv_loop_spec(m, ids, input, pos, 0);
            t.2 != status_codes::SUCCESS ==> forall|i: int|
                0 <= i < ids.len() ==> !store_holds(
                    store_delete_all(t.0, ids.subrange(0, t.3 + 1)),
                    #[trigger] ids[i],
                )
        }),
{
    let t = recv_loop_spec(m, ids, input, pos, 0);
    if t.2 != status_codes::SUCCESS {
        lemma_recv_loop_frame(m, ids, input, pos, 0);
        let rolled = store_delete_all(t.0, ids.subrange(0, t.3 + 1));
        assert forall|i: int| 0 <= i < ids.len() implies !store_holds(
            rolled,
            #[trigger] ids[i],
        ) by {
            if store_holds(t.0, ids[i]) {
                assert(t.0.contains_key(ids[i]));
                assert(!m.contains_key(ids[i]));
                assert(ids.subrange(0, t.3 + 1).contains(ids[i]));
                crate::plasma::lemma_delete_all_not_held(t.0, ids.subrange(0, t.3 + 1), ids[i]);
            } else {
                crate::plasma::lemma_delete_all_frame(t.0, ids.subrange(0, t.3 + 1), ids[i]);
            }
        }
    }
}

/// A receiver fed exactly the stream a well-behaved sender produces for
/// the same ids receives every object: the run succeeds and the store
/// gains each id with the metadata and data the source held, sealed.
pub proof fn lemma_recv_frames(
    m: Map<Seq<u8>, ObjectModel>,
    src: Map<Seq<u8>, ObjectModel>,
    ids: Seq<Seq<u8>>,
    input: Seq<u8>,
    pos: int,
    base: int,
)
    requires
        0 <= pos <= input.len(),
        input.subrange(pos, input.len() as int) == enc_frames(src, ids),
        forall|i: int|
            0 <= i < ids.len() ==> {
                let ob = src[#[trigger] ids[i]];
                0 < ob.1.len() <= MAX_DATA_SIZE && ob.0.len() < MAX_META_SIZE
            },
        forall|i: int| 0 <= i < ids.len() ==> !m.contains_key(#[trigger] ids[i]),
        !crate::request::has_duplicate(ids),
    ensures
        ({
            let t = recv_loop_spec(m, ids, input, pos, base);
            &&& t.2 == status_codes::SUCCESS
            &&& t.0 == spec_insert_all(m, src, ids)
        }),
    decreases ids.len(),
{
    if ids.len() > 0 {
        let meta = src[ids[0]].0;
        let data = src[ids[0]].1;
        let ms = meta.len() as int;
        let ds = data.len() as int;
        let h = ms + ds * 0x10000;
        let frame = crate::sender::enc_frame(meta, data);
        let rest_frames = enc_frames(src, ids.drop_first());
        assert(enc_frames(src, ids) == frame + rest_frames);
        assert(frame == crate::codec::enc_u64(h as u64) + meta + data);
        assert(crate::codec::enc_u64(h as u64).len() == 8) by {
            crate::codec::lemma_le_bytes_len(h as nat, 8);
        }
        assert(frame.len() == 8 + ms + ds);
        let suffix = input.subrange(pos, input.len() as int);
        assert(input.len() - pos == frame.len() + rest_frames.len());
        assert(input.subrange(pos, pos + 8) =~= crate::codec::enc_u64(h as u64)) by {
            assert forall|k: int| 0 <= k < 8 implies #[trigger] input.subrange(pos, pos + 8)[k]
                == crate::codec::enc_u64(h as u64)[k] by {
                assert(suffix[k] == (frame + rest_frames)[k]);
                assert(frame[k] == crate::codec::enc_u64(h as u64)[k]);
            }
        }
        assert((h as u64) as nat == h) by {
            assert(ms < 0x10000 && ds <= MAX_DATA_SIZE);
            assert(h < 0x10000000000000000) by (nonlinear_arith)
                requires
                    ms < 0x10000,
                    0 < ds <= MAX_DATA_SIZE,
                    h == ms + ds * 0x10000,
                    MAX_DATA_SIZE == 0x100000000000,
            ;
        }
        crate::codec::lemma_le_val_of_enc_u64(h as u64);
        let header = le_val(input.subrange(pos, pos + 8));
        assert(header == h);
        assert(header % 0x10000 == ms && header / 0x10000 == ds) by (nonlinear_arith)
            requires
                header == ms + ds * 0x10000,
                0 <= ms < 0x10000,
                0 <= ds,
        ;
        assert(input.subrange(pos + 8, pos + 8 + ms) =~= meta) by {
            assert forall|k: int|
                0 <= k < ms implies #[trigger] input.subrange(pos + 8, pos + 8 + ms)[k]
                == meta[k] by {
                assert(suffix[8 + k] == (frame + rest_frames)[8 + k]);
                assert(frame[8 + k] == meta[k]);
            }
        }
        assert(input.subrange(pos + 8 + ms, pos + 8 + ms + ds) =~= data) by {
            assert forall|k: int|
                0 <= k < ds implies #[trigger] input.subrange(pos + 8 + ms, pos + 8 + ms + ds)[k]
                == data[k] by {
                assert(suffix[8 + ms + k] == (frame + rest_frames)[8 + ms + k]);
                assert(frame[8 + ms + k] == data[k]);
            }
        }
        let (m1, p1, c) = recv_object_spec(m, ids[0], input, pos);
        assert(c == status_codes::SUCCESS);
        assert(m1 == m.insert(ids[0], (meta, data, true)));
        assert(p1 == pos + 8 + ms + ds);
        assert(input.subrange(p1, input.len() as int) =~= rest_frames) by {
            assert forall|k: int|
                0 <= k < input.len() - p1 implies #[trigger] input.subrange(p1, input.len() as int)[k]
                == rest_frames[k] by {
                assert(suffix[frame.len() + k] == (frame + rest_frames)[frame.len() + k]);
            }
        }
        assert forall|i: int| 0 <= i < ids.drop_first().len() implies !m1.contains_key(
            #[trigger] ids.drop_first()[i],
        ) by {
            assert(ids.drop_first()[i] == ids[i + 1]);
            assert(!m.contains_key(ids[i + 1]));
            if ids[i + 1] == ids[0] {
                assert(crate::request::has_duplicate(ids));
            }
        }
        assert forall|i: int|
            0 <= i < ids.drop_first().len() implies {
                let ob = src[#[trigger] ids.drop_first()[i]];
                0 < ob.1.len() <= MAX_DATA_SIZE && ob.0.len() < MAX_META_SIZE
            } by {
            assert(ids.drop_first()[i] == ids[i + 1]);
        }
        assert forall|i: int, j: int|
            0 <= i < j < ids.drop_first().len() implies ids.drop_first()[i] != ids.drop_first()[j]
        by {
            assert(ids.drop_first()[i] == ids[i + 1] && ids.drop_first()[j] == ids[j + 1]);
        }
        lemma_recv_frames(m1, src, ids.drop_first(), input, p1, base + 1);
    } else {
        assert(spec_insert_all(m, src, ids) == m);
    }
}


} // verus!
