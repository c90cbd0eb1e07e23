//! The object sender: streams a requested list of objects from the local
//! store into an outgoing byte stream, guarding against scheduled
//! deletions and oversized objects, and optionally deleting the objects
//! after they have been sent.

use vstd::prelude::*;

use crate::codec::{enc_u64, encode_object_header, write_bytes, write_u64_le};
use crate::errors::ObjectSendError;
use crate::idset::IdSet;
use crate::plasma::{store_delete_all, store_holds, ObjectBuffer, ObjectModel, PlasmaStore};
use crate::request::{raw_ids_view, PeerAddr};
use crate::status_codes;
use crate::store::Store;
use crate::utils::map_object_ids;
use crate::{ObjectId, MAX_DATA_SIZE, MAX_META_SIZE};

verus! {

/// Whether an object's sizes fit the data plane: the metadata must fit
/// the 16-bit header field and the data must not exceed the data cap.
pub open spec fn object_fits(ob: ObjectModel) -> bool {
    ob.0.len() < MAX_META_SIZE && ob.1.len() <= MAX_DATA_SIZE
}

/// Whether the store holds every listed id.
pub open spec fn all_held(m: Map<Seq<u8>, ObjectModel>, ids: Seq<Seq<u8>>) -> bool {
    forall|i: int| 0 <= i < ids.len() ==> store_holds(m, #[trigger] ids[i])
}

/// Whether every listed object fits the data plane.
pub open spec fn all_fit(m: Map<Seq<u8>, ObjectModel>, ids: Seq<Seq<u8>>) -> bool {
    forall|i: int| 0 <= i < ids.len() ==> object_fits(m[#[trigger] ids[i]])
}

/// The response code of the first size violation in the listed objects,
/// in list order, metadata checked before data within one object;
/// `SUCCESS` when every object fits.
pub open spec fn size_error_code(m: Map<Seq<u8>, ObjectModel>, ids: Seq<Seq<u8>>) -> u8
    decreases ids.len(),
{
    if ids.len() == 0 {
        status_codes::SUCCESS
    } else if m[ids[0]].0.len() >= MAX_META_SIZE {
        status_codes::OB_META_TOO_LARGE_ERR
    } else if m[ids[0]].1.len() > MAX_DATA_SIZE {
        status_codes::OB_DATA_TOO_LARGE_ERR
    } else {
        size_error_code(m, ids.drop_first())
    }
}

/// Whether some listed id is in the deleting set. This is the same
/// guard, [`crate::idset::any_in`], that protects the receiving set, so
/// the exclusive-claim law applies to both coordination sets.
pub open spec fn any_deleting(d: Set<Seq<u8>>, ids: Seq<Seq<u8>>) -> bool {
    crate::idset::any_in(d, ids)
}

/// One object's data-plane frame: the header (metadata size in the low
/// 16 bits, data size above), then the metadata, then the data.
pub open spec fn enc_frame(meta: Seq<u8>, data: Seq<u8>) -> Seq<u8>
    recommends
        meta.len() < 0x10000,
        data.len() < 0x1000000000000,
{
    enc_u64((meta.len() + data.len() * 0x10000) as u64) + meta + data
}

/// The frames of the listed objects, in order, as stored in `m`.
pub open spec fn enc_frames(m: Map<Seq<u8>, ObjectModel>, ids: Seq<Seq<u8>>) -> Seq<u8>
    decreases ids.len(),
{
    if ids.len() == 0 {
        Seq::empty()
    } else {
        enc_frame(m[ids[0]].0, m[ids[0]].1) + enc_frames(m, ids.drop_first())
    }
}

/// Appending one more object to the frame stream.
pub proof fn lemma_enc_frames_snoc(m: Map<Seq<u8>, ObjectModel>, ids: Seq<Seq<u8>>, i: int)
    requires
        0 <= i < ids.len(),
    ensures
        enc_frames(m, ids.subrange(0, i + 1)) == enc_frames(m, ids.subrange(0, i)) + enc_frame(
            m[ids[i]].0,
            m[ids[i]].1,
        ),
    decreases i,
{
    if i == 0 {
        let sub = ids.subrange(0, 1);
        assert(sub.drop_first() =~= Seq::<Seq<u8>>::empty());
        assert(sub[0] == ids[0]);
        assert(enc_frames(m, Seq::<Seq<u8>>::empty()) =~= Seq::<u8>::empty());
        assert(enc_frames(m, sub) =~= enc_frame(m[ids[0]].0, m[ids[0]].1) + enc_frames(
            m,
            sub.drop_first(),
        ));
        assert(enc_frames(m, ids.subrange(0, 0)) =~= Seq::<u8>::empty());
        assert(enc_frames(m, sub) =~= enc_frames(m, ids.subrange(0, 0)) + enc_frame(
            m[ids[0]].0,
            m[ids[0]].1,
        ));
    } else {
        let t = ids.drop_first();
        assert(ids.subrange(0, i + 1).drop_first() =~= t.subrange(0, i));
        assert(ids.subrange(0, i).drop_first() =~= t.subrange(0, i - 1));
        lemma_enc_frames_snoc(m, t, i - 1);
        assert(ids.subrange(0, i + 1)[0] == ids[0]);
        assert(ids.subrange(0, i)[0] == ids[0]);
        assert(t.subrange(0, i)[i - 1] == ids[i]);
        assert(enc_frames(m, ids.subrange(0, i + 1)) == enc_frame(m[ids[0]].0, m[ids[0]].1)
            + enc_frames(m, t.subrange(0, i)));
        assert(enc_frames(m, t.subrange(0, i)) == enc_frames(m, t.subrange(0, i - 1)) + enc_frame(
            m[ids[i]].0,
            m[ids[i]].1,
        ));
        assert(enc_frames(m, ids.subrange(0, i + 1)) =~= enc_frames(m, ids.subrange(0, i))
            + enc_frame(m[ids[i]].0, m[ids[i]].1));
    }
}

/// Whether the store holds any of the listed ids.
pub open spec fn any_held(m: Map<Seq<u8>, ObjectModel>, ids: Seq<Seq<u8>>) -> bool {
    exists|i: int| 0 <= i < ids.len() && store_holds(m, #[trigger] ids[i])
}

/// Filtering with a predicate that holds of no element yields the empty
/// sequence.
pub proof fn lemma_filter_none<A>(s: Seq<A>, pred: spec_fn(A) -> bool)
    requires
        forall|k: int| 0 <= k < s.len() ==> !pred(#[trigger] s[k]),
    ensures
        s.filter(pred).len() == 0,
    decreases s.len(),
{
    reveal(Seq::filter);
    if s.len() > 0 {
        lemma_filter_none(s.drop_last(), pred);
    }
}

/// Filtering with pointwise-equal predicates yields the same sequence.
pub proof fn lemma_filter_equiv<A>(s: Seq<A>, p1: spec_fn(A) -> bool, p2: spec_fn(A) -> bool)
    requires
        forall|k: int| 0 <= k < s.len() ==> p1(#[trigger] s[k]) == p2(s[k]),
    ensures
        s.filter(p1) == s.filter(p2),
    decreases s.len(),
{
    reveal(Seq::filter);
    if s.len() > 0 {
        lemma_filter_equiv(s.drop_last(), p1, p2);
        assert(p1(s.last()) == p2(s.last()));
    }
}

/// Writes one object's frame into the output buffer.
fn send_object(ob: &ObjectBuffer, out: &mut Vec<u8>)
    requires
        ob.spec_meta().len() < MAX_META_SIZE,
        ob.spec_data().len() <= MAX_DATA_SIZE,
    ensures
        final(out)@ == old(out)@ + enc_frame(ob.spec_meta(), ob.spec_data()),
{
    let meta = ob.meta();
    let data = ob.data();
    let meta_size = meta.len() as u64;
    let data_size = data.len() as u64;
    let header = encode_object_header(meta_size, data_size);
    write_u64_le(header, out);
    write_bytes(meta, out);
    write_bytes(data, out);
    proof {
        assert(header as nat == ob.spec_meta().len() + ob.spec_data().len() * 0x10000);
        assert(out@ =~= old(out)@ + enc_frame(ob.spec_meta(), ob.spec_data()));
    }
}

/// What one sender run does, as a relation between the store before,
/// the bytes written, and the store after: the deletion guard, the
/// lookup, the size guard, and then the BEGIN marker and the frames; on
/// a pre-BEGIN failure only the single response-code byte is written.
pub open spec fn sender_run_post(
    pre: Store,
    ids: Seq<Seq<u8>>,
    delete_after_send: bool,
    out: Seq<u8>,
    post: Store,
) -> bool {
    let m = pre.plasma@;
    let d = pre.deleting@;
    &&& post.receiving == pre.receiving
    &&& post.timeout_ms == pre.timeout_ms
    &&& post.deleting@ == if delete_after_send {
        d.difference(ids.to_set())
    } else {
        d
    }
    &&& if any_deleting(d, ids) {
        out == seq![crate::status_codes::OB_DELETION_SCHEDULED_ERR] && post.plasma@ == m
    } else if !all_held(m, ids) {
        out == seq![crate::status_codes::OB_NOT_FOUND_ERR] && post.plasma@ == m
    } else if !all_fit(m, ids) {
        out == seq![size_error_code(m, ids)] && post.plasma@ == m
    } else {
        out == seq![crate::status_codes::BEGIN] + enc_frames(m, ids) && post.plasma@
            == if delete_after_send {
            store_delete_all(m, ids)
        } else {
            m
        }
    }
}

/// Ties [`size_error_code`] to the first offending object of a
/// retrieved object list whose entries mirror the store contents.
proof fn lemma_size_code(
    m: Map<Seq<u8>, ObjectModel>,
    ids: Seq<Seq<u8>>,
    objs: Seq<ObjectBuffer>,
    i: int,
)
    requires
        objs.len() == ids.len(),
        forall|k: int|
            0 <= k < ids.len() ==> (#[trigger] objs[k]).spec_meta() == m[ids[k]].0
                && objs[k].spec_data() == m[ids[k]].1,
        0 <= i < objs.len(),
        forall|j: int|
            0 <= j < i ==> (#[trigger] objs[j]).spec_meta().len() < MAX_META_SIZE
                && objs[j].spec_data().len() <= MAX_DATA_SIZE,
        objs[i].spec_meta().len() >= MAX_META_SIZE || objs[i].spec_data().len() > MAX_DATA_SIZE,
    ensures
        size_error_code(m, ids) == if objs[i].spec_meta().len() >= MAX_META_SIZE {
            status_codes::OB_META_TOO_LARGE_ERR
        } else {
            status_codes::OB_DATA_TOO_LARGE_ERR
        },
    decreases i,
{
    if i == 0 {
        assert(m[ids[0]].0 == objs[0].spec_meta());
    } else {
        assert(objs[0].spec_meta().len() < MAX_META_SIZE && objs[0].spec_data().len()
            <= MAX_DATA_SIZE);
        assert forall|k: int|
            0 <= k < ids.drop_first().len() implies (#[trigger] objs.drop_first()[k]).spec_meta()
            == m[ids.drop_first()[k]].0 && objs.drop_first()[k].spec_data()
            == m[ids.drop_first()[k]].1 by {
            assert(objs.drop_first()[k] == objs[k + 1]);
            assert(ids.drop_first()[k] == ids[k + 1]);
        }
        assert forall|j: int|
            0 <= j < i - 1 implies (#[trigger] objs.drop_first()[j]).spec_meta().len()
            < MAX_META_SIZE && objs.drop_first()[j].spec_data().len() <= MAX_DATA_SIZE by {
            assert(objs.drop_first()[j] == objs[j + 1]);
        }
        assert(objs.drop_first()[i - 1] == objs[i]);
        lemma_size_code(m, ids.drop_first(), objs.drop_first(), i - 1);
    }
}

/// When some listed object does not fit, the size code is one of the
/// two size-error responses.
pub proof fn lemma_size_code_bad(m: Map<Seq<u8>, ObjectModel>, ids: Seq<Seq<u8>>)
    requires
        !all_fit(m, ids),
    ensures
        size_error_code(m, ids) == status_codes::OB_META_TOO_LARGE_ERR || size_error_code(m, ids)
            == status_codes::OB_DATA_TOO_LARGE_ERR,
    decreases ids.len(),
{
    let bad = choose|i: int| 0 <= i < ids.len() && !object_fits(m[#[trigger] ids[i]]);
    if m[ids[0]].0.len() >= MAX_META_SIZE || m[ids[0]].1.len() > MAX_DATA_SIZE {
    } else {
        assert(ids.drop_first()[bad - 1] == ids[bad]);
        assert(!all_fit(m, ids.drop_first()));
        lemma_size_code_bad(m, ids.drop_first());
    }
}

/// The error produced by the size guard carries exactly the response
/// code of [`size_error_code`].
proof fn lemma_size_error_matches(
    m: Map<Seq<u8>, ObjectModel>,
    ids: Seq<Seq<u8>>,
    objs: Seq<ObjectBuffer>,
    e: ObjectSendError,
)
    requires
        objs.len() == ids.len(),
        forall|k: int|
            0 <= k < ids.len() ==> (#[trigger] objs[k]).spec_meta() == m[ids[k]].0
                && objs[k].spec_data() == m[ids[k]].1,
        e matches ObjectSendError::ObjectMetaTooLarge(a, oid, sz) ==> exists|i: int|
            {
                &&& 0 <= i < objs.len()
                &&& (#[trigger] objs[i]).spec_meta().len() == sz >= MAX_META_SIZE
                &&& forall|j: int|
                    0 <= j < i ==> (#[trigger] objs[j]).spec_meta().len() < MAX_META_SIZE
                        && objs[j].spec_data().len() <= MAX_DATA_SIZE
            },
        e matches ObjectSendError::ObjectDataTooLarge(a, oid, sz) ==> exists|i: int|
            {
                &&& 0 <= i < objs.len()
                &&& (#[trigger] objs[i]).spec_data().len() == sz > MAX_DATA_SIZE
                &&& objs[i].spec_meta().len() < MAX_META_SIZE
                &&& forall|j: int|
                    0 <= j < i ==> (#[trigger] objs[j]).spec_meta().len() < MAX_META_SIZE
                        && objs[j].spec_data().len() <= MAX_DATA_SIZE
            },
        e matches ObjectSendError::ObjectMetaTooLarge(..) || e matches
            ObjectSendError::ObjectDataTooLarge(..),
    ensures
        crate::errors::spec_send_code(e) == Some(size_error_code(m, ids)),
{
    match e {
        ObjectSendError::ObjectMetaTooLarge(_, _, sz) => {
            let i = choose|i: int|
                {
                    &&& 0 <= i < objs.len()
                    &&& (#[trigger] objs[i]).spec_meta().len() == sz >= MAX_META_SIZE
                    &&& forall|j: int|
                        0 <= j < i ==> (#[trigger] objs[j]).spec_meta().len() < MAX_META_SIZE
                            && objs[j].spec_data().len() <= MAX_DATA_SIZE
                };
            lemma_size_code(m, ids, objs, i);
        },
        ObjectSendError::ObjectDataTooLarge(_, _, sz) => {
            let i = choose|i: int|
                {
                    &&& 0 <= i < objs.len()
                    &&& (#[trigger] objs[i]).spec_data().len() == sz > MAX_DATA_SIZE
                    &&& objs[i].spec_meta().len() < MAX_META_SIZE
                    &&& forall|j: int|
                        0 <= j < i ==> (#[trigger] objs[j]).spec_meta().len() < MAX_META_SIZE
                            && objs[j].spec_data().len() <= MAX_DATA_SIZE
                };
            lemma_size_code(m, ids, objs, i);
        },
        _ => {
            assert(false);
        },
    }
}

/// A sender instance: the peer it serves, the objects it will stream,
/// and whether it deletes them afterwards.
pub struct ObjectSender {
    /// Address of the peer to which the objects will be sent.
    pub peer_addr: PeerAddr,
    /// IDs for objects to be sent by this sender.
    pub object_ids: Vec<ObjectId>,
    /// Whether to delete the objects from the local store after they have
    /// been sent.
    pub delete_after_send: bool,
    /// Maximum time allocated to retrieving objects from the store.
    pub timeout_ms: i64,
}

impl ObjectSender {
    /// Checks if any of the IDs in `object_ids` are in the deleting set,
    /// and if they are, returns an error. Also, if objects are to be
    /// deleted after sending, the IDs are added to the deleting set in
    /// the same step. The check and the insert form one step, so an id
    /// is claimed for deletion by at most one sender at a time; see
    /// [`crate::idset::lemma_exclusive_claim`].
    fn check_deleting(&self, deleting: &mut IdSet) -> (r: Result<(), ObjectSendError>)
        ensures
            ({
                let ids = raw_ids_view(self.object_ids@);
                if any_deleting(old(deleting)@, ids) {
                    &&& r matches Err(ObjectSendError::ObjectDeletionScheduled(a, dups))
                        && a == self.peer_addr && raw_ids_view(dups@) == ids.filter(
                        |id: Seq<u8>| old(deleting)@.contains(id),
                    )
                    &&& final(deleting)@ == old(deleting)@
                } else {
                    &&& r is Ok
                    &&& final(deleting)@ == if self.delete_after_send {
                        old(deleting)@.union(ids.to_set())
                    } else {
                        old(deleting)@
                    }
                }
            }),
    {
        let ghost ids = raw_ids_view(self.object_ids@);
        let ghost pred = |id: Seq<u8>| old(deleting)@.contains(id);
        let n = self.object_ids.len();
        let mut in_deleting: Vec<ObjectId> = Vec::new();
        let mut i: usize = 0;
        while i < n
            invariant
                n == self.object_ids@.len(),
                i <= n,
                *deleting == *old(deleting),
                ids == raw_ids_view(self.object_ids@),
                pred == (|id: Seq<u8>| old(deleting)@.contains(id)),
                raw_ids_view(in_deleting@) == ids.subrange(0, i as int).filter(pred),
            decreases n - i,
        {
            let ghost prefix = ids.subrange(0, i as int);
            let ghost dv = raw_ids_view(in_deleting@);
            let oid = self.object_ids[i];
            if deleting.contains(&oid) {
                in_deleting.push(oid);
                proof {
                    assert(raw_ids_view(in_deleting@) =~= dv.push(oid@));
                }
            }
            proof {
                prefix.lemma_filter_push(oid@, pred);
                assert(ids.subrange(0, i + 1) =~= prefix.push(oid@));
            }
            i += 1;
        }
        proof {
            assert(ids.subrange(0, n as int) =~= ids);
        }
        if in_deleting.len() > 0 {
            proof {
                if !any_deleting(old(deleting)@, ids) {
                    assert forall|k: int| 0 <= k < ids.len() implies !pred(#[trigger] ids[k]) by {}
                    lemma_filter_none(ids, pred);
                }
            }
            return Err(ObjectSendError::ObjectDeletionScheduled(self.peer_addr, in_deleting));
        }
        proof {
            assert forall|k: int| 0 <= k < ids.len() implies !old(deleting)@.contains(
                #[trigger] ids[k],
            ) by {
                if old(deleting)@.contains(ids[k]) {
                    ids.lemma_filter_contains(pred, k);
                }
            }
        }
        if self.delete_after_send {
            let mut i: usize = 0;
            while i < n
                invariant
                    n == self.object_ids@.len(),
                    i <= n,
                    ids == raw_ids_view(self.object_ids@),
                    deleting@ == old(deleting)@.union(ids.subrange(0, i as int).to_set()),
                decreases n - i,
            {
                let ghost prefix = ids.subrange(0, i as int);
                deleting.insert(self.object_ids[i]);
                proof {
                    broadcast use vstd::seq_lib::lemma_seq_contains_after_push;

                    assert(ids.subrange(0, i + 1) =~= prefix.push(ids[i as int]));
                    assert(ids.subrange(0, i + 1).to_set() =~= prefix.to_set().insert(
                        ids[i as int],
                    ));
                    assert(deleting@ =~= old(deleting)@.union(ids.subrange(0, i + 1).to_set()));
                }
                i += 1;
            }
            proof {
                assert(ids.subrange(0, n as int) =~= ids);
            }
        } else {
            proof {
                assert(deleting@ =~= old(deleting)@);
            }
        }
        Ok(())
    }

    /// Makes sure that none of the objects in the list is too big. The
    /// metadata must fit the 16-bit size field of the data-plane header,
    /// so metadata of the full cap size or more is rejected; data is
    /// rejected only above the data cap.
    /// The error names the first offending object in list order, with
    /// metadata checked before data for each object.
    fn check_object_sizes(&self, objects: &Vec<ObjectBuffer>) -> (r: Result<(), ObjectSendError>)
        ensures
            r is Ok <==> (forall|i: int|
                0 <= i < objects@.len() ==> (#[trigger] objects@[i]).spec_meta().len()
                    < MAX_META_SIZE && objects@[i].spec_data().len() <= MAX_DATA_SIZE),
            r matches Err(ObjectSendError::ObjectMetaTooLarge(a, oid, sz)) ==> a == self.peer_addr
                && exists|i: int|
                {
                    &&& 0 <= i < objects@.len()
                    &&& (#[trigger] objects@[i]).spec_meta().len() == sz >= MAX_META_SIZE
                    &&& oid@ == objects@[i].spec_id()
                    &&& forall|j: int|
                        0 <= j < i ==> (#[trigger] objects@[j]).spec_meta().len() < MAX_META_SIZE
                            && objects@[j].spec_data().len() <= MAX_DATA_SIZE
                },
            r matches Err(ObjectSendError::ObjectDataTooLarge(a, oid, sz)) ==> a == self.peer_addr
                && exists|i: int|
                {
                    &&& 0 <= i < objects@.len()
                    &&& (#[trigger] objects@[i]).spec_data().len() == sz > MAX_DATA_SIZE
                    &&& objects@[i].spec_meta().len() < MAX_META_SIZE
                    &&& oid@ == objects@[i].spec_id()
                    &&& forall|j: int|
                        0 <= j < i ==> (#[trigger] objects@[j]).spec_meta().len() < MAX_META_SIZE
                            && objects@[j].spec_data().len() <= MAX_DATA_SIZE
                },
            r is Err ==> (r matches Err(ObjectSendError::ObjectMetaTooLarge(..)) || r matches Err(
                ObjectSendError::ObjectDataTooLarge(..),
            )),
    {
        let n = objects.len();
        let mut i: usize = 0;
        while i < n
            invariant
                n == objects@.len(),
                i <= n,
                forall|j: int|
                    0 <= j < i ==> (#[trigger] objects@[j]).spec_meta().len() < MAX_META_SIZE
                        && objects@[j].spec_data().len() <= MAX_DATA_SIZE,
            decreases n - i,
        {
            let ob = &objects[i];
            let meta_size = ob.meta().len();
            if meta_size as u64 >= MAX_META_SIZE {
                let oid = ob.id().clone();
                return Err(ObjectSendError::ObjectMetaTooLarge(self.peer_addr, oid.bytes, meta_size));
            }
            let data_size = ob.data().len();
            if data_size as u64 > MAX_DATA_SIZE {
                let oid = ob.id().clone();
                return Err(ObjectSendError::ObjectDataTooLarge(self.peer_addr, oid.bytes, data_size));
            }
            i += 1;
        }
        Ok(())
    }

    /// Retrieves the specified objects from the local store; returns an
    /// error listing the missing ids if any object is absent or unsealed.
    fn get_objects(&self, plasma: &PlasmaStore, object_ids: &Vec<crate::plasma::ObjectId>) -> (r:
        Result<Vec<ObjectBuffer>, ObjectSendError>)
        requires
            crate::plasma::ids_view(object_ids@) == raw_ids_view(self.object_ids@),
        ensures
            ({
                let ids = raw_ids_view(self.object_ids@);
                if all_held(plasma@, ids) {
                    &&& r is Ok
                    &&& r.unwrap()@.len() == ids.len()
                    &&& forall|i: int|
                        0 <= i < ids.len() ==> {
                            let ob = #[trigger] r.unwrap()@[i];
                            &&& ob.spec_id() == ids[i]
                            &&& ob.spec_meta() == plasma@[ids[i]].0
                            &&& ob.spec_data() == plasma@[ids[i]].1
                        }
                } else {
                    r matches Err(ObjectSendError::ObjectsNotFound(a, missing)) && a
                        == self.peer_addr && raw_ids_view(missing@) == ids.filter(
                        |id: Seq<u8>| !store_holds(plasma@, id),
                    )
                }
            }),
    {
        let ghost ids = raw_ids_view(self.object_ids@);
        let ghost pred = |id: Seq<u8>| !store_holds(plasma@, id);
        let mut buffers = match plasma.get_many(object_ids.as_slice(), self.timeout_ms) {
            Ok(buffers) => buffers,
            Err(e) => {
                return Err(ObjectSendError::StoreError(self.peer_addr, e));
            },
        };
        let ghost orig = buffers@;
        let n = buffers.len();
        let mut missing: Vec<ObjectId> = Vec::new();
        let mut result: Vec<ObjectBuffer> = Vec::new();
        let mut i: usize = 0;
        while i < n
            invariant
                n == ids.len(),
                i <= n,
                ids == raw_ids_view(self.object_ids@),
                pred == (|id: Seq<u8>| !store_holds(plasma@, id)),
                buffers@.len() == n,
                orig.len() == n,
                forall|j: int| i <= j < n ==> buffers@[j] == orig[j],
                forall|j: int|
                    0 <= j < n ==> {
                        &&& (store_holds(plasma@, ids[j]) <==> (#[trigger] orig[j]) is Some)
                        &&& orig[j] is Some ==> {
                            let ob = orig[j].unwrap();
                            &&& ob.spec_id() == ids[j]
                            &&& ob.spec_meta() == plasma@[ids[j]].0
                            &&& ob.spec_data() == plasma@[ids[j]].1
                        }
                    },
                raw_ids_view(missing@) == ids.subrange(0, i as int).filter(pred),
                missing@.len() == 0 ==> result@.len() == i,
                missing@.len() == 0 ==> forall|j: int|
                    0 <= j < i ==> {
                        let ob = #[trigger] result@[j];
                        &&& ob.spec_id() == ids[j]
                        &&& ob.spec_meta() == plasma@[ids[j]].0
                        &&& ob.spec_data() == plasma@[ids[j]].1
                    },
            decreases n - i,
        {
            let ghost prefix = ids.subrange(0, i as int);
            let ghost mv = raw_ids_view(missing@);
            let mut slot: Option<ObjectBuffer> = None;
            std::mem::swap(&mut slot, &mut buffers[i]);
            proof {
                assert(slot == orig[i as int]);
            }
            match slot {
                Some(ob) => {
                    proof {
                        assert(store_holds(plasma@, ids[i as int]));
                        assert(!pred(ids[i as int]));
                    }
                    result.push(ob);
                },
                None => {
                    proof {
                        assert(!store_holds(plasma@, ids[i as int]));
                        assert(pred(ids[i as int]));
                    }
                    missing.push(self.object_ids[i]);
                    proof {
                        assert(raw_ids_view(missing@) =~= mv.push(ids[i as int]));
                    }
                },
            }
            proof {
                prefix.lemma_filter_push(ids[i as int], pred);
                assert(ids.subrange(0, i + 1) =~= prefix.push(ids[i as int]));
            }
            i += 1;
        }
        proof {
            assert(ids.subrange(0, n as int) =~= ids);
        }
        if missing.len() > 0 {
            proof {
                if all_held(plasma@, ids) {
                    assert forall|k: int| 0 <= k < ids.len() implies !pred(#[trigger] ids[k]) by {
                        assert(store_holds(plasma@, ids[k]));
                    }
                    lemma_filter_none(ids, pred);
                }
            }
            return Err(ObjectSendError::ObjectsNotFound(self.peer_addr, missing));
        }
        proof {
            assert forall|k: int| 0 <= k < ids.len() implies store_holds(
                plasma@,
                #[trigger] ids[k],
            ) by {
                if !store_holds(plasma@, ids[k]) {
                    ids.lemma_filter_contains(pred, k);
                }
            }
        }
        Ok(result)
    }

    /// Does the actual work described for the `run()` method: the
    /// deletion guard, retrieval, the size guard, the BEGIN marker and
    /// the object frames, and the optional delete afterwards.
    #[verifier::rlimit(50)]
    fn send_objects(&self, store: &mut Store, out: &mut Vec<u8>) -> (r: Result<(), ObjectSendError>)
        ensures
            final(store).receiving == old(store).receiving,
            final(store).timeout_ms == old(store).timeout_ms,
            ({
                let ids = raw_ids_view(self.object_ids@);
                let m = old(store).plasma@;
                let d = old(store).deleting@;
                let inserted = if self.delete_after_send {
                    d.union(ids.to_set())
                } else {
                    d
                };
                if any_deleting(d, ids) {
                    &&& r matches Err(ObjectSendError::ObjectDeletionScheduled(a, dups))
                        && a == self.peer_addr && raw_ids_view(dups@) == ids.filter(
                        |id: Seq<u8>| d.contains(id),
                    )
                    &&& final(store).plasma@ == m
                    &&& final(store).deleting@ == d
                    &&& final(out)@ == old(out)@
                } else if !all_held(m, ids) {
                    &&& r matches Err(ObjectSendError::ObjectsNotFound(a, missing))
                        && a == self.peer_addr && raw_ids_view(missing@) == ids.filter(
                        |id: Seq<u8>| !store_holds(m, id),
                    )
                    &&& final(store).plasma@ == m
                    &&& final(store).deleting@ == inserted
                    &&& final(out)@ == old(out)@
                } else if !all_fit(m, ids) {
                    &&& (r matches Err(e) && crate::errors::spec_send_code(e) == Some(
                        size_error_code(m, ids),
                    ))
                    &&& (r matches Err(ObjectSendError::ObjectMetaTooLarge(..)) || r matches Err(
                        ObjectSendError::ObjectDataTooLarge(..),
                    ))
                    &&& (r matches Err(ObjectSendError::ObjectMetaTooLarge(a, oid, sz)) ==> a
                        == self.peer_addr && exists|i: int|
                        0 <= i < ids.len() && oid@ == #[trigger] ids[i] && m[ids[i]].0.len() == sz
                            >= MAX_META_SIZE)
                    &&& (r matches Err(ObjectSendError::ObjectDataTooLarge(a, oid, sz)) ==> a
                        == self.peer_addr && exists|i: int|
                        0 <= i < ids.len() && oid@ == #[trigger] ids[i] && m[ids[i]].1.len() == sz
                            > MAX_DATA_SIZE)
                    &&& final(store).plasma@ == m
                    &&& final(store).deleting@ == inserted
                    &&& final(out)@ == old(out)@
                } else {
                    &&& r is Ok
                    &&& final(out)@ == old(out)@ + seq![status_codes::BEGIN] + enc_frames(m, ids)
                    &&& final(store).plasma@ == if self.delete_after_send {
                        store_delete_all(m, ids)
                    } else {
                        m
                    }
                    &&& final(store).deleting@ == inserted
                }
            }),
    {
        let ghost ids = raw_ids_view(self.object_ids@);
        let ghost m = old(store).plasma@;
        if let Err(e) = self.check_deleting(&mut store.deleting) {
            return Err(e);
        }
        let plasma_object_ids = map_object_ids(self.object_ids.as_slice());
        let objects = match self.get_objects(&store.plasma, &plasma_object_ids) {
            Ok(objects) => objects,
            Err(e) => {
                return Err(e);
            },
        };
        if let Err(e) = self.check_object_sizes(&objects) {
            proof {
                if all_fit(m, ids) {
                    assert forall|j: int|
                        0 <= j < objects@.len() implies (#[trigger] objects@[j]).spec_meta().len()
                            < MAX_META_SIZE && objects@[j].spec_data().len() <= MAX_DATA_SIZE by {
                        assert(object_fits(m[ids[j]]));
                    }
                } else {
                    lemma_size_error_matches(m, ids, objects@, e);
                }
            }
            return Err(e);
        }
        proof {
            assert forall|j: int| 0 <= j < ids.len() implies object_fits(
                m[#[trigger] ids[j]],
            ) by {
                assert(objects@[j].spec_meta().len() < MAX_META_SIZE && objects@[j].spec_data().len()
                    <= MAX_DATA_SIZE);
            }
        }
        out.push(status_codes::BEGIN);
        let ghost base = out@;
        let n = objects.len();
        let mut i: usize = 0;
        while i < n
            invariant
                n == ids.len(),
                n == objects@.len(),
                i <= n,
                ids == raw_ids_view(self.object_ids@),
                out@ == base + enc_frames(m, ids.subrange(0, i as int)),
                forall|j: int|
                    0 <= j < n ==> {
                        let ob = #[trigger] objects@[j];
                        &&& ob.spec_meta() == m[ids[j]].0
                        &&& ob.spec_data() == m[ids[j]].1
                    },
                forall|j: int| 0 <= j < ids.len() ==> object_fits(m[#[trigger] ids[j]]),
            decreases n - i,
        {
            send_object(&objects[i], out);
            proof {
                lemma_enc_frames_snoc(m, ids, i as int);
            }
            i += 1;
        }
        proof {
            assert(ids.subrange(0, n as int) =~= ids);
        }
        if self.delete_after_send {
            let _ = store.plasma.delete_many(plasma_object_ids.as_slice());
        }
        Ok(())
    }

    /// Removes this sender's ids from the deleting set, as the last step
    /// of its lifetime, regardless of outcome.
    fn finish(&self, deleting: &mut IdSet)
        ensures
            final(deleting)@ == if self.delete_after_send {
                old(deleting)@.difference(raw_ids_view(self.object_ids@).to_set())
            } else {
                old(deleting)@
            },
    {
        let ghost ids = raw_ids_view(self.object_ids@);
        if !self.delete_after_send {
            return ;
        }
        let n = self.object_ids.len();
        let mut i: usize = 0;
        while i < n
            invariant
                n == self.object_ids@.len(),
                ids == raw_ids_view(self.object_ids@),
                i <= n,
                deleting@ == old(deleting)@.difference(ids.subrange(0, i as int).to_set()),
            decreases n - i,
        {
            let ghost prefix = ids.subrange(0, i as int);
            deleting.remove(&self.object_ids[i]);
            proof {
                broadcast use vstd::seq_lib::lemma_seq_contains_after_push;

                assert(ids.subrange(0, i + 1) =~= prefix.push(ids[i as int]));
                assert(ids.subrange(0, i + 1).to_set() =~= prefix.to_set().insert(ids[i as int]));
                assert(old(deleting)@.difference(prefix.to_set()).remove(ids[i as int]) =~= old(
                    deleting,
                )@.difference(ids.subrange(0, i + 1).to_set()));
            }
            i += 1;
        }
        proof {
            assert(ids.subrange(0, n as int) =~= ids);
        }
    }

    /// Streams the requested objects into an outgoing byte buffer: on
    /// success the buffer holds the BEGIN marker followed by the object
    /// frames in request order; on a pre-BEGIN failure it holds the
    /// single response-code byte for the error.
    pub fn run(&self, store: &mut Store) -> (r: (Vec<u8>, Result<(), ObjectSendError>))
        ensures
            sender_run_post(
                *old(store),
                raw_ids_view(self.object_ids@),
                self.delete_after_send,
                r.0@,
                *final(store),
            ),
            final(store).receiving == old(store).receiving,
            final(store).timeout_ms == old(store).timeout_ms,
            final(store).deleting@ == if self.delete_after_send {
                old(store).deleting@.difference(raw_ids_view(self.object_ids@).to_set())
            } else {
                old(store).deleting@
            },
            ({
                let ids = raw_ids_view(self.object_ids@);
                let m = old(store).plasma@;
                let d = old(store).deleting@;
                if any_deleting(d, ids) {
                    &&& r.1 matches Err(ObjectSendError::ObjectDeletionScheduled(a, dups))
                        && a == self.peer_addr && raw_ids_view(dups@) == ids.filter(
                        |id: Seq<u8>| d.contains(id),
                    )
                    &&& r.0@ == seq![status_codes::OB_DELETION_SCHEDULED_ERR]
                    &&& final(store).plasma@ == m
                } else if !all_held(m, ids) {
                    &&& r.1 matches Err(ObjectSendError::ObjectsNotFound(a, missing))
                        && a == self.peer_addr && raw_ids_view(missing@) == ids.filter(
                        |id: Seq<u8>| !store_holds(m, id),
                    )
                    &&& r.0@ == seq![status_codes::OB_NOT_FOUND_ERR]
                    &&& final(store).plasma@ == m
                } else if !all_fit(m, ids) {
                    &&& (r.1 matches Err(e) && crate::errors::spec_send_code(e) == Some(
                        size_error_code(m, ids),
                    ))
                    &&& r.0@ == seq![size_error_code(m, ids)]
                    &&& (r.1 matches Err(ObjectSendError::ObjectMetaTooLarge(..)) || r.1 matches
                        Err(ObjectSendError::ObjectDataTooLarge(..)))
                    &&& final(store).plasma@ == m
                } else {
                    &&& r.1 is Ok
                    &&& r.0@ == seq![status_codes::BEGIN] + enc_frames(m, ids)
                    &&& final(store).plasma@ == if self.delete_after_send {
                        store_delete_all(m, ids)
                    } else {
                        m
                    }
                }
            }),
    {
        let ghost ids = raw_ids_view(self.object_ids@);
        let mut out: Vec<u8> = Vec::new();
        let result = self.send_objects(store, &mut out);
        match result {
            Ok(()) => {
                self.finish(&mut store.deleting);
                proof {
                    if self.delete_after_send {
                        assert(old(store).deleting@.union(ids.to_set()).difference(ids.to_set())
                            =~= old(store).deleting@.difference(ids.to_set()));
                    }
                    assert(out@ =~= Seq::<u8>::empty() + seq![status_codes::BEGIN] + enc_frames(
                        old(store).plasma@,
                        ids,
                    ));
                }
                (out, Ok(()))
            },
            Err(e) => {
                if let Some(code) = e.response_code() {
                    out.push(code);
                }
                self.finish(&mut store.deleting);
                proof {
                    if self.delete_after_send {
                        if !any_deleting(old(store).deleting@, ids) {
                            assert(old(store).deleting@.union(ids.to_set()).difference(
                                ids.to_set(),
                            ) =~= old(store).deleting@.difference(ids.to_set()));
                        }
                    }
                }
                (out, Err(e))
            },
        }
    }
}

} // verus!
