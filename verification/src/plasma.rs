//! In-memory model of the Plasma object store: the capability surface the
//! transfer engine consumes (create / seal / abort / get / contains /
//! delete), with the store contents modelled as a map from object-id bytes
//! to `(metadata, data, sealed)`.

use vstd::prelude::*;

use crate::hexfmt::{hex_encode, hex_of};
use crate::OBJECT_ID_BYTES;

verus! {

/// Errors reported by the object store.
#[derive(Debug)]
pub enum PlasmaError {
    /// Connecting to the store failed.
    ConnectError(String),
    /// The object already exists in the store.
    AlreadyExists,
    /// The object has already been sealed.
    AlreadySealed,
    /// The object is not mutable.
    NotMutable,
    /// Any other store failure.
    UnknownError(String),
}

/// The message text of a store error.
pub open spec fn plasma_error_str(e: PlasmaError) -> Seq<char> {
    match e {
        PlasmaError::ConnectError(m) => "failed to connect to Plasma Store: "@ + m@,
        PlasmaError::AlreadyExists => "the object already exists in the Plasma Store"@,
        PlasmaError::AlreadySealed => "the object has already been sealed"@,
        PlasmaError::NotMutable => "the object is not mutable"@,
        PlasmaError::UnknownError(m) => "unknown error: "@ + m@,
    }
}

impl PlasmaError {
    /// Renders this error as text.
    pub fn describe(&self) -> (r: String)
        ensures
            r@ == plasma_error_str(*self),
    {
        match self {
            PlasmaError::ConnectError(m) => {
                let mut out = <String as vstd::string::StringExecFns>::from_str(
                    "failed to connect to Plasma Store: ",
                );
                vstd::string::StringExecFns::append(&mut out, m.as_str());
                out
            },
            PlasmaError::AlreadyExists => <String as vstd::string::StringExecFns>::from_str(
                "the object already exists in the Plasma Store",
            ),
            PlasmaError::AlreadySealed => <String as vstd::string::StringExecFns>::from_str(
                "the object has already been sealed",
            ),
            PlasmaError::NotMutable => <String as vstd::string::StringExecFns>::from_str(
                "the object is not mutable",
            ),
            PlasmaError::UnknownError(m) => {
                let mut out = <String as vstd::string::StringExecFns>::from_str("unknown error: ");
                vstd::string::StringExecFns::append(&mut out, m.as_str());
                out
            },
        }
    }
}

/// A 20-byte object identifier.
#[derive(Clone, Copy, Debug)]
pub struct ObjectId {
    pub bytes: [u8; OBJECT_ID_BYTES],
}

impl PartialEq for ObjectId {
    fn eq(&self, other: &ObjectId) -> (r: bool)
        ensures
            r <==> self@ =~= other@,
    {
        let mut i: usize = 0;
        while i < OBJECT_ID_BYTES
            invariant
                i <= OBJECT_ID_BYTES,
                forall|j: int| 0 <= j < i ==> self@[j] == other@[j],
            decreases OBJECT_ID_BYTES - i,
        {
            if self.bytes[i] != other.bytes[i] {
                return false;
            }
            i += 1;
        }
        true
    }
}

impl Eq for ObjectId {}

impl vstd::std_specs::cmp::PartialEqSpecImpl for ObjectId {
    open spec fn obeys_eq_spec() -> bool {
        true
    }

    open spec fn eq_spec(&self, other: &ObjectId) -> bool {
        self@ =~= other@
    }
}

impl View for ObjectId {
    type V = Seq<u8>;

    open spec fn view(&self) -> Seq<u8> {
        self.bytes@
    }
}

impl ObjectId {
    /// Returns a new object ID instantiated from the specified bytes.
    pub fn new(bytes: [u8; OBJECT_ID_BYTES]) -> (r: Self)
        ensures
            r@ == bytes@,
    {
        ObjectId { bytes }
    }

    /// Returns a new object ID instantiated from a random sequence of 20 bytes.
    ///
    /// Relies on rand::thread_rng: nothing is promised of the drawn bytes.
    #[verifier::external_body]
    pub fn rand() -> ObjectId {
        ObjectId { bytes: rand::Rng::gen(&mut rand::thread_rng()) }
    }

    /// Returns binary representation of the object ID.
    pub fn to_bytes(&self) -> (r: &[u8])
        ensures
            r@ == self@,
    {
        self.bytes.as_slice()
    }

    /// Returns hexadecimal representation of the object ID.
    pub fn to_hex(&self) -> (r: String)
        ensures
            r@ == hex_of(self@),
    {
        hex_encode(self.bytes.as_slice())
    }
}

/// The mathematical model of one stored object:
/// metadata bytes, data bytes, and whether the object has been sealed.
pub type ObjectModel = (Seq<u8>, Seq<u8>, bool);

/// Whether the store holds a sealed object under the given id bytes.
pub open spec fn store_holds(m: Map<Seq<u8>, ObjectModel>, id: Seq<u8>) -> bool {
    m.contains_key(id) && m[id].2
}

/// The store after a best-effort delete of one id: a sealed object under
/// the id is removed, anything else is left alone.
pub open spec fn store_delete(m: Map<Seq<u8>, ObjectModel>, id: Seq<u8>) -> Map<
    Seq<u8>,
    ObjectModel,
> {
    if store_holds(m, id) {
        m.remove(id)
    } else {
        m
    }
}

/// The store after a best-effort delete of a list of ids, first to last.
pub open spec fn store_delete_all(m: Map<Seq<u8>, ObjectModel>, ids: Seq<Seq<u8>>) -> Map<
    Seq<u8>,
    ObjectModel,
> {
    ids.fold_left(m, |acc: Map<Seq<u8>, ObjectModel>, id: Seq<u8>| store_delete(acc, id))
}

/// Nothing in the deleted list stays held: deleting a list of ids leaves
/// none of them sealed in the store.
pub proof fn lemma_delete_all_not_held(m: Map<Seq<u8>, ObjectModel>, ids: Seq<Seq<u8>>, id: Seq<u8>)
    requires
        ids.contains(id),
    ensures
        !store_holds(store_delete_all(m, ids), id),
    decreases ids.len(),
{
    let prev = store_delete_all(m, ids.drop_last());
    assert(ids.drop_last().push(ids.last()) =~= ids);
    assert(store_delete_all(m, ids) == store_delete(prev, ids.last()));
    if id == ids.last() {
        assert(!store_holds(store_delete(prev, id), id));
    } else {
        let k = choose|k: int| 0 <= k < ids.len() && ids[k] == id;
        assert(ids.drop_last()[k] == id);
        lemma_delete_all_not_held(m, ids.drop_last(), id);
        assert(!store_holds(store_delete(prev, ids.last()), id));
    }
}

/// Deleting never creates or seals: an id that is not held stays not
/// held, and an id outside the deleted list keeps its entry.
pub proof fn lemma_delete_all_frame(m: Map<Seq<u8>, ObjectModel>, ids: Seq<Seq<u8>>, id: Seq<u8>)
    ensures
        !store_holds(m, id) ==> !store_holds(store_delete_all(m, ids), id),
        !ids.contains(id) ==> (store_delete_all(m, ids).contains_key(id) == m.contains_key(id) && (
        m.contains_key(id) ==> store_delete_all(m, ids)[id] == m[id])),
    decreases ids.len(),
{
    if ids.len() > 0 {
        let prev = store_delete_all(m, ids.drop_last());
        assert(ids.drop_last().push(ids.last()) =~= ids);
        assert(store_delete_all(m, ids) == store_delete(prev, ids.last()));
        lemma_delete_all_frame(m, ids.drop_last(), id);
        if !ids.contains(id) {
            assert(!ids.drop_last().contains(id)) by {
                if ids.drop_last().contains(id) {
                    let k = choose|k: int|
                        0 <= k < ids.drop_last().len() && ids.drop_last()[k] == id;
                    assert(ids[k] == id);
                }
            }
            assert(ids.last() != id) by {
                if ids.last() == id {
                    assert(ids[ids.len() - 1] == id);
                }
            }
        }
    }
}

/// The id bytes of each id in a list.
pub open spec fn ids_view(s: Seq<ObjectId>) -> Seq<Seq<u8>> {
    s.map_values(|o: ObjectId| o@)
}

struct StoreEntry {
    id: ObjectId,
    meta: Vec<u8>,
    data: Vec<u8>,
    sealed: bool,
}

spec fn entry_model(e: StoreEntry) -> ObjectModel {
    (e.meta@, e.data@, e.sealed)
}

spec fn entries_map(s: Seq<StoreEntry>) -> Map<Seq<u8>, ObjectModel>
    decreases s.len(),
{
    if s.len() == 0 {
        Map::empty()
    } else {
        entries_map(s.drop_last()).insert(s.last().id@, entry_model(s.last()))
    }
}

spec fn entries_unique(s: Seq<StoreEntry>) -> bool {
    forall|i: int, j: int| 0 <= i < j < s.len() ==> s[i].id@ != s[j].id@
}

proof fn lemma_entries_map_absent(s: Seq<StoreEntry>, id: Seq<u8>)
    requires
        forall|i: int| 0 <= i < s.len() ==> s[i].id@ != id,
    ensures
        !entries_map(s).contains_key(id),
    decreases s.len(),
{
    if s.len() > 0 {
        lemma_entries_map_absent(s.drop_last(), id);
    }
}

proof fn lemma_entries_map_index(s: Seq<StoreEntry>, i: int)
    requires
        entries_unique(s),
        0 <= i < s.len(),
    ensures
        entries_map(s).contains_key(s[i].id@),
        entries_map(s)[s[i].id@] == entry_model(s[i]),
    decreases s.len(),
{
    if i < s.len() - 1 {
        lemma_entries_map_index(s.drop_last(), i);
    }
}

proof fn lemma_entries_map_remove(s: Seq<StoreEntry>, i: int)
    requires
        entries_unique(s),
        0 <= i < s.len(),
    ensures
        entries_map(s.remove(i)) =~= entries_map(s).remove(s[i].id@),
    decreases s.len(),
{
    if i == s.len() - 1 {
        assert(s.remove(i) =~= s.drop_last());
        lemma_entries_map_absent(s.drop_last(), s[i].id@);
        assert(entries_map(s).remove(s[i].id@) =~= entries_map(s.drop_last()));
    } else {
        let t = s.remove(i);
        assert(t.drop_last() =~= s.drop_last().remove(i));
        assert(t.last() == s.last());
        lemma_entries_map_remove(s.drop_last(), i);
        assert(entries_map(t) == entries_map(s.drop_last().remove(i)).insert(
            s.last().id@,
            entry_model(s.last()),
        ));
        assert(entries_map(s.remove(i)) =~= entries_map(s).remove(s[i].id@));
    }
}

proof fn lemma_entries_map_update(s: Seq<StoreEntry>, i: int, e: StoreEntry)
    requires
        entries_unique(s),
        0 <= i < s.len(),
        e.id@ == s[i].id@,
    ensures
        entries_map(s.update(i, e)) =~= entries_map(s).insert(e.id@, entry_model(e)),
    decreases s.len(),
{
    if i == s.len() - 1 {
        assert(s.update(i, e).drop_last() =~= s.drop_last());
        assert(s.update(i, e).last() == e);
    } else {
        let t = s.update(i, e);
        assert(t.drop_last() =~= s.drop_last().update(i, e));
        assert(t.last() == s.last());
        lemma_entries_map_update(s.drop_last(), i, e);
        assert(entries_map(s.update(i, e)) =~= entries_map(s).insert(e.id@, entry_model(e)));
    }
}

proof fn lemma_entries_push(s: Seq<StoreEntry>, e: StoreEntry)
    requires
        entries_unique(s),
        !entries_map(s).contains_key(e.id@),
    ensures
        entries_unique(s.push(e)),
        entries_map(s.push(e)) == entries_map(s).insert(e.id@, entry_model(e)),
{
    assert forall|k: int| 0 <= k < s.len() implies s[k].id@ != e.id@ by {
        if s[k].id@ == e.id@ {
            lemma_entries_map_index(s, k);
        }
    }
    assert(s.push(e).drop_last() =~= s);
    assert(s.push(e).last() == e);
    assert forall|i: int, j: int| 0 <= i < j < s.push(e).len() implies s.push(e)[i].id@ != s.push(
        e,
    )[j].id@ by {
        if j < s.len() {
            assert(s[i].id@ != s[j].id@);
        } else {
            assert(s[i].id@ != e.id@);
        }
    }
}

proof fn lemma_unique_remove(s: Seq<StoreEntry>, i: int)
    requires
        entries_unique(s),
        0 <= i < s.len(),
    ensures
        entries_unique(s.remove(i)),
{
    s.remove_ensures(i);
    assert forall|k: int, l: int|
        0 <= k < l < s.remove(i).len() implies s.remove(i)[k].id@ != s.remove(i)[l].id@ by {
        let k0 = if k < i { k } else { k + 1 };
        let l0 = if l < i { l } else { l + 1 };
        assert(s[k0].id@ != s[l0].id@);
    }
}

/// A handle to one object in the store. A buffer returned by
/// [`PlasmaStore::create`] is mutable: its data can be filled in and the
/// object then sealed or aborted. A buffer returned by [`PlasmaStore::get`]
/// is an immutable snapshot.
pub struct ObjectBuffer {
    id: ObjectId,
    meta: Vec<u8>,
    data: Vec<u8>,
    is_mutable: bool,
}

impl ObjectBuffer {
    /// The id bytes of the object this buffer belongs to.
    pub closed spec fn spec_id(&self) -> Seq<u8> {
        self.id@
    }

    /// The metadata bytes held by this buffer.
    pub closed spec fn spec_meta(&self) -> Seq<u8> {
        self.meta@
    }

    /// The data bytes held by this buffer.
    pub closed spec fn spec_data(&self) -> Seq<u8> {
        self.data@
    }

    /// Whether the buffer's data may still be written.
    pub closed spec fn spec_mutable(&self) -> bool {
        self.is_mutable
    }

    /// A mutable buffer stands for an unsealed reservation in the store:
    /// the store knows the id and the metadata, while the data still
    /// lives only in the buffer.
    pub open spec fn valid_for(&self, m: Map<Seq<u8>, ObjectModel>) -> bool {
        self.spec_mutable() ==> m.contains_key(self.spec_id()) && m[self.spec_id()] == (
            self.spec_meta(),
            Seq::<u8>::empty(),
            false,
        )
    }

    /// Returns object ID of this object buffer.
    pub fn id(&self) -> (r: &ObjectId)
        ensures
            r@ == self.spec_id(),
    {
        &self.id
    }

    /// Returns read-only data buffer of this object buffer.
    pub fn data(&self) -> (r: &[u8])
        ensures
            r@ == self.spec_data(),
    {
        self.data.as_slice()
    }

    /// Returns metadata buffer of this object buffer.
    pub fn meta(&self) -> (r: &[u8])
        ensures
            r@ == self.spec_meta(),
    {
        self.meta.as_slice()
    }

    /// Returns the size of this object buffer in bytes; this includes size
    /// of data and metadata.
    pub fn size(&self) -> (r: usize)
        requires
            self.spec_meta().len() + self.spec_data().len() <= usize::MAX,
        ensures
            r == self.spec_meta().len() + self.spec_data().len(),
    {
        self.meta.len() + self.data.len()
    }

    /// Returns true if data of this object buffer is mutable.
    pub fn is_mutable(&self) -> (r: bool)
        ensures
            r == self.spec_mutable(),
    {
        self.is_mutable
    }

    /// Replaces the data held by a still-mutable buffer; the replacement
    /// must have exactly the allocated length.
    pub fn set_data(&mut self, bytes: Vec<u8>)
        requires
            old(self).spec_mutable(),
            bytes@.len() == old(self).spec_data().len(),
        ensures
            final(self).spec_id() == old(self).spec_id(),
            final(self).spec_meta() == old(self).spec_meta(),
            final(self).spec_data() == bytes@,
            final(self).spec_mutable(),
    {
        self.data = bytes;
    }

    /// Seals an object in the object store. The object will be immutable
    /// after this call; sealing a buffer that is not mutable (because it
    /// was already sealed, or came from a lookup) fails.
    pub fn seal(&mut self, store: &mut PlasmaStore) -> (r: Result<(), PlasmaError>)
        requires
            old(self).valid_for(old(store)@),
        ensures
            final(self).spec_id() == old(self).spec_id(),
            final(self).spec_meta() == old(self).spec_meta(),
            final(self).spec_data() == old(self).spec_data(),
            final(store).spec_capacity() == old(store).spec_capacity(),
            !old(self).spec_mutable() ==> {
                &&& r == Err::<(), PlasmaError>(PlasmaError::AlreadySealed)
                &&& final(store)@ == old(store)@
                &&& final(self).spec_mutable() == old(self).spec_mutable()
            },
            old(self).spec_mutable() ==> {
                &&& r == Ok::<(), PlasmaError>(())
                &&& final(store)@ == old(store)@.insert(
                    old(self).spec_id(),
                    (old(self).spec_meta(), old(self).spec_data(), true),
                )
                &&& !final(self).spec_mutable()
            },
    {
        if !self.is_mutable {
            return Err(PlasmaError::AlreadySealed);
        }
        store.fill_and_seal(&self.id, &self.meta, &self.data);
        self.is_mutable = false;
        Ok(())
    }

    /// Aborts an unsealed object in the object store. If the abort
    /// succeeds, then it will be as if the object was never created at all.
    pub fn abort(self, store: &mut PlasmaStore) -> (r: Result<(), PlasmaError>)
        requires
            self.valid_for(old(store)@),
        ensures
            final(store).spec_capacity() == old(store).spec_capacity(),
            !self.spec_mutable() ==> r == Err::<(), PlasmaError>(PlasmaError::NotMutable)
                && final(store)@ == old(store)@,
            self.spec_mutable() ==> r == Ok::<(), PlasmaError>(()) && final(store)@ == old(
                store,
            )@.remove(self.spec_id()),
    {
        if !self.is_mutable {
            return Err(PlasmaError::NotMutable);
        }
        store.discard(&self.id);
        Ok(())
    }
}

/// The in-memory object store: a map from 20-byte ids to objects, each
/// either still unsealed (a reservation made by `create`) or sealed and
/// visible to lookups.
pub struct PlasmaStore {
    entries: Vec<StoreEntry>,
    capacity: usize,
}

impl View for PlasmaStore {
    type V = Map<Seq<u8>, ObjectModel>;

    closed spec fn view(&self) -> Map<Seq<u8>, ObjectModel> {
        entries_map(self.entries@)
    }
}

impl PlasmaStore {
    #[verifier::type_invariant]
    spec fn inv(self) -> bool {
        entries_unique(self.entries@)
    }

    /// The advertised memory capacity of the store in bytes.
    pub closed spec fn spec_capacity(&self) -> usize {
        self.capacity
    }

    /// Whether the store holds a sealed object under the given id bytes.
    pub open spec fn holds(&self, id: Seq<u8>) -> bool {
        store_holds(self@, id)
    }

    /// Creates a new, empty store with the given capacity.
    pub fn new(capacity: usize) -> (r: Self)
        ensures
            r@ == Map::<Seq<u8>, ObjectModel>::empty(),
            r.spec_capacity() == capacity,
    {
        PlasmaStore { entries: Vec::new(), capacity }
    }

    /// Returns memory capacity of the store in bytes.
    pub fn store_capacity(&self) -> (r: usize)
        ensures
            r == self.spec_capacity(),
    {
        self.capacity
    }

    fn find(&self, oid: &ObjectId) -> (r: Option<usize>)
        ensures
            match r {
                Some(i) => {
                    &&& i < self.entries@.len()
                    &&& self.entries@[i as int].id@ == oid@
                    &&& self@.contains_key(oid@)
                    &&& self@[oid@] == entry_model(self.entries@[i as int])
                },
                None => !self@.contains_key(oid@),
            },
    {
        proof {
            use_type_invariant(&*self);
        }
        let n = self.entries.len();
        let mut i: usize = 0;
        while i < n
            invariant
                n == self.entries@.len(),
                i <= n,
                forall|j: int| 0 <= j < i ==> self.entries@[j].id@ != oid@,
            decreases n - i,
        {
            if self.entries[i].id == *oid {
                proof {
                    use_type_invariant(&*self);
                    lemma_entries_map_index(self.entries@, i as int);
                }
                return Some(i);
            }
            i += 1;
        }
        proof {
            lemma_entries_map_absent(self.entries@, oid@);
        }
        None
    }

    /// Checks if the object store contains a particular object and the
    /// object has been sealed.
    pub fn contains(&self, oid: &ObjectId) -> (r: Result<bool, PlasmaError>)
        ensures
            r == Ok::<bool, PlasmaError>(self.holds(oid@)),
    {
        match self.find(oid) {
            Some(i) => Ok(self.entries[i].sealed),
            None => Ok(false),
        }
    }

    /// Returns the list of IDs from the given list which are present and
    /// sealed in the store, in input order.
    pub fn contains_many(&self, object_ids: &[ObjectId]) -> (r: Result<Vec<ObjectId>, PlasmaError>)
        ensures
            r is Ok,
            ids_view(r.unwrap()@) == ids_view(object_ids@).filter(|id: Seq<u8>| self.holds(id)),
    {
        broadcast use vstd::prelude::Seq::lemma_filter_push;

        let mut found: Vec<ObjectId> = Vec::new();
        let n = object_ids.len();
        let mut i: usize = 0;
        while i < n
            invariant
                n == object_ids@.len(),
                i <= n,
                ids_view(found@) == ids_view(object_ids@.subrange(0, i as int)).filter(
                    |id: Seq<u8>| self.holds(id),
                ),
            decreases n - i,
        {
            let ghost prefix = ids_view(object_ids@.subrange(0, i as int));
            let ghost fv = ids_view(found@);
            let oid = object_ids[i];
            let in_store = match self.contains(&oid) {
                Ok(b) => b,
                Err(_) => false,
            };
            if in_store {
                found.push(oid);
                proof {
                    assert(ids_view(found@) =~= fv.push(oid@));
                }
            }
            proof {
                prefix.lemma_filter_push(oid@, |id: Seq<u8>| self.holds(id));
                assert(ids_view(object_ids@.subrange(0, i + 1 as int)) =~= prefix.push(oid@));
            }
            i += 1;
        }
        proof {
            assert(object_ids@.subrange(0, n as int) =~= object_ids@);
        }
        Ok(found)
    }

    /// Retrieves an object with the specified ID from the store: a sealed
    /// object is returned as an immutable buffer, anything else as `None`.
    /// The model store answers immediately, so the timeout is not consulted.
    pub fn get(&self, oid: ObjectId, _timeout_ms: i64) -> (r: Result<
        Option<ObjectBuffer>,
        PlasmaError,
    >)
        ensures
            r is Ok,
            self.holds(oid@) <==> r.unwrap() is Some,
            r.unwrap() is Some ==> {
                let ob = r.unwrap().unwrap();
                &&& ob.spec_id() == oid@
                &&& ob.spec_meta() == self@[oid@].0
                &&& ob.spec_data() == self@[oid@].1
                &&& !ob.spec_mutable()
            },
    {
        match self.find(&oid) {
            Some(i) => {
                if self.entries[i].sealed {
                    Ok(
                        Some(
                            ObjectBuffer {
                                id: oid,
                                meta: vstd::slice::slice_to_vec(self.entries[i].meta.as_slice()),
                                data: vstd::slice::slice_to_vec(self.entries[i].data.as_slice()),
                                is_mutable: false,
                            },
                        ),
                    )
                } else {
                    Ok(None)
                }
            },
            None => Ok(None),
        }
    }

    /// Retrieves a list of specified objects from the store, one optional
    /// buffer per requested id, in input order.
    pub fn get_many(&self, object_ids: &[ObjectId], timeout_ms: i64) -> (r: Result<
        Vec<Option<ObjectBuffer>>,
        PlasmaError,
    >)
        ensures
            r is Ok,
            r.unwrap()@.len() == object_ids@.len(),
            forall|i: int|
                0 <= i < object_ids@.len() ==> {
                    &&& (self.holds(object_ids@[i]@) <==> (#[trigger] r.unwrap()@[i]) is Some)
                    &&& r.unwrap()@[i] is Some ==> {
                        let ob = r.unwrap()@[i].unwrap();
                        &&& ob.spec_id() == object_ids@[i]@
                        &&& ob.spec_meta() == self@[object_ids@[i]@].0
                        &&& ob.spec_data() == self@[object_ids@[i]@].1
                        &&& !ob.spec_mutable()
                    }
                },
    {
        let mut result: Vec<Option<ObjectBuffer>> = Vec::new();
        let n = object_ids.len();
        let mut i: usize = 0;
        while i < n
            invariant
                n == object_ids@.len(),
                i <= n,
                result@.len() == i,
                forall|j: int|
                    0 <= j < i ==> {
                        &&& (self.holds(object_ids@[j]@) <==> (#[trigger] result@[j]) is Some)
                        &&& result@[j] is Some ==> {
                            let ob = result@[j].unwrap();
                            &&& ob.spec_id() == object_ids@[j]@
                            &&& ob.spec_meta() == self@[object_ids@[j]@].0
                            &&& ob.spec_data() == self@[object_ids@[j]@].1
                            &&& !ob.spec_mutable()
                        }
                    },
            decreases n - i,
        {
            let entry = match self.get(object_ids[i], timeout_ms) {
                Ok(ob) => ob,
                Err(_) => None,
            };
            result.push(entry);
            i += 1;
        }
        Ok(result)
    }

    /// Creates an object in the store. The returned buffer has a zeroed
    /// data region of exactly `data_size` bytes, which must be filled in
    /// and sealed (or aborted) by the caller. Fails with `AlreadyExists`
    /// if the id is already present, sealed or not.
    pub fn create(&mut self, oid: ObjectId, data_size: usize, meta: &[u8]) -> (r: Result<
        ObjectBuffer,
        PlasmaError,
    >)
        ensures
            old(self)@.contains_key(oid@) ==> {
                &&& r == Err::<ObjectBuffer, PlasmaError>(PlasmaError::AlreadyExists)
                &&& final(self)@ == old(self)@
            },
            !old(self)@.contains_key(oid@) ==> {
                &&& r is Ok
                &&& final(self)@ == old(self)@.insert(oid@, (meta@, Seq::<u8>::empty(), false))
                &&& r.unwrap().spec_id() == oid@
                &&& r.unwrap().spec_meta() == meta@
                &&& r.unwrap().spec_data() =~= Seq::new(data_size as nat, |i: int| 0u8)
                &&& r.unwrap().spec_mutable()
                &&& r.unwrap().valid_for(final(self)@)
            },
            final(self).spec_capacity() == old(self).spec_capacity(),
    {
        proof {
            use_type_invariant(&*self);
        }
        if let Some(_i) = self.find(&oid) {
            return Err(PlasmaError::AlreadyExists);
        }
        let entry = StoreEntry {
            id: oid,
            meta: vstd::slice::slice_to_vec(meta),
            data: Vec::new(),
            sealed: false,
        };
        let ghost old_entries = self.entries@;
        let mut entries: Vec<StoreEntry> = Vec::new();
        std::mem::swap(&mut entries, &mut self.entries);
        proof {
            lemma_entries_push(old_entries, entry);
        }
        entries.push(entry);
        self.entries = entries;
        let mut data: Vec<u8> = Vec::new();
        let mut k: usize = 0;
        while k < data_size
            invariant
                k <= data_size,
                data@ =~= Seq::new(k as nat, |i: int| 0u8),
            decreases data_size - k,
        {
            data.push(0u8);
            proof {
                assert(data@ =~= Seq::new((k + 1) as nat, |i: int| 0u8));
            }
            k += 1;
        }
        Ok(ObjectBuffer { id: oid, meta: vstd::slice::slice_to_vec(meta), data, is_mutable: true })
    }

    /// Creates and seals an object in the object store in one step.
    pub fn create_and_seal(&mut self, oid: ObjectId, data: &[u8], meta: &[u8]) -> (r: Result<
        (),
        PlasmaError,
    >)
        ensures
            old(self)@.contains_key(oid@) ==> {
                &&& r == Err::<(), PlasmaError>(PlasmaError::AlreadyExists)
                &&& final(self)@ == old(self)@
            },
            !old(self)@.contains_key(oid@) ==> {
                &&& r == Ok::<(), PlasmaError>(())
                &&& final(self)@ == old(self)@.insert(oid@, (meta@, data@, true))
            },
            final(self).spec_capacity() == old(self).spec_capacity(),
    {
        proof {
            use_type_invariant(&*self);
        }
        if let Some(_i) = self.find(&oid) {
            return Err(PlasmaError::AlreadyExists);
        }
        let entry = StoreEntry {
            id: oid,
            meta: vstd::slice::slice_to_vec(meta),
            data: vstd::slice::slice_to_vec(data),
            sealed: true,
        };
        let ghost old_entries = self.entries@;
        let mut entries: Vec<StoreEntry> = Vec::new();
        std::mem::swap(&mut entries, &mut self.entries);
        proof {
            lemma_entries_push(old_entries, entry);
        }
        entries.push(entry);
        self.entries = entries;
        Ok(())
    }

    /// Fills in the data of an unsealed reservation and marks it sealed.
    /// Used by [`ObjectBuffer::seal`].
    fn fill_and_seal(&mut self, oid: &ObjectId, meta: &[u8], data: &[u8])
        requires
            old(self)@.contains_key(oid@),
            old(self)@[oid@] == (meta@, Seq::<u8>::empty(), false),
        ensures
            final(self)@ == old(self)@.insert(oid@, (meta@, data@, true)),
            final(self).spec_capacity() == old(self).spec_capacity(),
    {
        proof {
            use_type_invariant(&*self);
        }
        let i = match self.find(oid) {
            Some(i) => i,
            None => {
                return ;
            },
        };
        let entry = StoreEntry {
            id: ObjectId::new(self.entries[i].id.bytes),
            meta: vstd::slice::slice_to_vec(meta),
            data: vstd::slice::slice_to_vec(data),
            sealed: true,
        };
        let ghost old_entries = self.entries@;
        let mut entries: Vec<StoreEntry> = Vec::new();
        std::mem::swap(&mut entries, &mut self.entries);
        entries[i] = entry;
        proof {
            lemma_entries_map_update(old_entries, i as int, entries@[i as int]);
            assert(entries@ =~= old_entries.update(i as int, entries@[i as int]));
            assert forall|k: int, l: int|
                0 <= k < l < entries@.len() implies entries@[k].id@ != entries@[l].id@ by {
                assert(old_entries[k].id@ != old_entries[l].id@);
            }
        }
        self.entries = entries;
    }

    /// Removes an unsealed reservation. Used by [`ObjectBuffer::abort`].
    fn discard(&mut self, oid: &ObjectId)
        ensures
            final(self)@ == old(self)@.remove(oid@),
            final(self).spec_capacity() == old(self).spec_capacity(),
    {
        proof {
            use_type_invariant(&*self);
        }
        let i = match self.find(oid) {
            Some(i) => i,
            None => {
                proof {
                    assert(old(self)@ =~= old(self)@.remove(oid@));
                }
                return ;
            },
        };
        let ghost old_entries = self.entries@;
        let mut entries: Vec<StoreEntry> = Vec::new();
        std::mem::swap(&mut entries, &mut self.entries);
        entries.remove(i);
        proof {
            lemma_entries_map_remove(old_entries, i as int);
            lemma_unique_remove(old_entries, i as int);
        }
        self.entries = entries;
    }

    /// Deletes an object from the object store: a sealed object under the
    /// id is removed; an absent or still-unsealed id is silently skipped.
    pub fn delete(&mut self, oid: &ObjectId) -> (r: Result<(), PlasmaError>)
        ensures
            r == Ok::<(), PlasmaError>(()),
            final(self)@ == store_delete(old(self)@, oid@),
            final(self).spec_capacity() == old(self).spec_capacity(),
    {
        proof {
            use_type_invariant(&*self);
        }
        let i = match self.find(oid) {
            Some(i) => i,
            None => {
                return Ok(());
            },
        };
        if !self.entries[i].sealed {
            return Ok(());
        }
        let ghost old_entries = self.entries@;
        let mut entries: Vec<StoreEntry> = Vec::new();
        std::mem::swap(&mut entries, &mut self.entries);
        entries.remove(i);
        proof {
            lemma_entries_map_remove(old_entries, i as int);
            lemma_unique_remove(old_entries, i as int);
        }
        self.entries = entries;
        Ok(())
    }

    /// Deletes all objects specified by `object_ids` from the store,
    /// best-effort: absent or unsealed ids are skipped.
    pub fn delete_many(&mut self, object_ids: &[ObjectId]) -> (r: Result<(), PlasmaError>)
        ensures
            r == Ok::<(), PlasmaError>(()),
            final(self)@ == store_delete_all(old(self)@, ids_view(object_ids@)),
            final(self).spec_capacity() == old(self).spec_capacity(),
    {
        let n = object_ids.len();
        let mut i: usize = 0;
        while i < n
            invariant
                n == object_ids@.len(),
                self@ == store_delete_all(old(self)@, ids_view(object_ids@.subrange(0, i as int))),
                self.spec_capacity() == old(self).spec_capacity(),
                i <= n,
            decreases n - i,
        {
            let ghost prefix = ids_view(object_ids@.subrange(0, i as int));
            let _ = self.delete(&object_ids[i]);
            proof {
                let ext = prefix.push(object_ids@[i as int]@);
                assert(ids_view(object_ids@.subrange(0, i + 1 as int)) =~= ext);
                assert(ext.drop_last() =~= prefix);
                assert(ext.last() == object_ids@[i as int]@);
            }
            i += 1;
        }
        proof {
            assert(object_ids@.subrange(0, n as int) =~= object_ids@);
        }
        Ok(())
    }
}

} // verus!
