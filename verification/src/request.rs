//! Typed requests: the three request shapes, the per-peer sub-requests of
//! SYNC, and their validation rules (length bounds and duplicate-id
//! detection).

use vstd::prelude::*;

use vstd::string::StringExecFns;

use crate::errors::RequestError;
use crate::textfmt::{addr_str, id_lines_str, push_addr, push_id_lines};
use crate::{ObjectId, MAX_NUM_SYNC_PEERS, MAX_OBJECT_ID_LIST_LEN};

verus! {

/// An IPv4 peer address: four address octets and a port.
#[derive(Clone, Copy, Debug)]
pub struct PeerAddr {
    pub octets: [u8; 4],
    pub port: u16,
}

impl PartialEq for PeerAddr {
    fn eq(&self, other: &PeerAddr) -> (r: bool)
        ensures
            r <==> (self.octets@ =~= other.octets@ && self.port == other.port),
    {
        self.octets[0] == other.octets[0] && self.octets[1] == other.octets[1]
            && self.octets[2] == other.octets[2] && self.octets[3] == other.octets[3] && self.port
            == other.port
    }
}

impl Eq for PeerAddr {}

impl vstd::std_specs::cmp::PartialEqSpecImpl for PeerAddr {
    open spec fn obeys_eq_spec() -> bool {
        true
    }

    open spec fn eq_spec(&self, other: &PeerAddr) -> bool {
        self.octets@ =~= other.octets@ && self.port == other.port
    }
}

/// Whether two addresses hold the same octets and port.
pub open spec fn addr_eq(a: PeerAddr, b: PeerAddr) -> bool {
    a.octets@ =~= b.octets@ && a.port == b.port
}

/// The id bytes of each raw object id in a list.
pub open spec fn raw_ids_view(s: Seq<ObjectId>) -> Seq<Seq<u8>> {
    s.map_values(|a: ObjectId| a@)
}

/// Whether a list of id byte-strings contains the same id twice.
pub open spec fn has_duplicate(ids: Seq<Seq<u8>>) -> bool {
    exists|i: int, j: int| 0 <= i < j < ids.len() && ids[i] == ids[j]
}

/// A request from one server to a peer server, made on behalf of a SYNC
/// client: pull the listed objects from `from`, deleting them at the
/// source if the variant is `Take`.
#[derive(Clone, Debug)]
pub enum PeerRequest {
    Copy { from: PeerAddr, objects: Vec<ObjectId> },
    Take { from: PeerAddr, objects: Vec<ObjectId> },
}

/// The object ids a peer request asks for.
pub open spec fn peer_request_ids(p: PeerRequest) -> Seq<Seq<u8>> {
    match p {
        PeerRequest::Copy { objects, .. } => raw_ids_view(objects@),
        PeerRequest::Take { objects, .. } => raw_ids_view(objects@),
    }
}

/// The `from` address of a peer request.
pub open spec fn peer_request_from(p: PeerRequest) -> PeerAddr {
    match p {
        PeerRequest::Copy { from, .. } => from,
        PeerRequest::Take { from, .. } => from,
    }
}

/// The flattened object ids of a list of peer requests, in order.
pub open spec fn flat_ids(prs: Seq<PeerRequest>) -> Seq<Seq<u8>>
    decreases prs.len(),
{
    if prs.len() == 0 {
        Seq::empty()
    } else {
        peer_request_ids(prs[0]) + flat_ids(prs.drop_first())
    }
}

/// A request received over a server's TCP socket.
#[derive(Clone, Debug)]
pub enum Request {
    Sync(Vec<PeerRequest>),
    Copy(Vec<ObjectId>),
    Take(Vec<ObjectId>),
}

/// Whether a COPY or TAKE id list meets the validation rules: not empty,
/// not over the length cap, and free of duplicates.
pub open spec fn id_list_valid(ids: Seq<Seq<u8>>) -> bool {
    &&& ids.len() > 0
    &&& ids.len() <= MAX_OBJECT_ID_LIST_LEN
    &&& !has_duplicate(ids)
}

/// Whether a SYNC peer-request list meets the validation rules: list and
/// per-peer id lists within bounds, and no id requested twice across the
/// whole request.
pub open spec fn sync_valid(prs: Seq<PeerRequest>) -> bool {
    &&& prs.len() > 0
    &&& prs.len() <= MAX_NUM_SYNC_PEERS
    &&& forall|i: int|
        0 <= i < prs.len() ==> 0 < (#[trigger] peer_request_ids(prs[i])).len()
            <= MAX_OBJECT_ID_LIST_LEN
    &&& !has_duplicate(flat_ids(prs))
}

/// Whether a whole request meets the validation rules.
pub open spec fn request_valid(r: Request) -> bool {
    match r {
        Request::Sync(prs) => sync_valid(prs@),
        Request::Copy(ids) => id_list_valid(raw_ids_view(ids@)),
        Request::Take(ids) => id_list_valid(raw_ids_view(ids@)),
    }
}

/// Compares two raw object ids byte by byte.
pub fn raw_ids_equal(a: &ObjectId, b: &ObjectId) -> (r: bool)
    ensures
        r <==> a@ =~= b@,
{
    let mut i: usize = 0;
    while i < crate::OBJECT_ID_BYTES
        invariant
            i <= crate::OBJECT_ID_BYTES,
            forall|j: int| 0 <= j < i ==> a@[j] == b@[j],
        decreases crate::OBJECT_ID_BYTES - i,
    {
        if a[i] != b[i] {
            return false;
        }
        i += 1;
    }
    true
}

/// Returns true if `seen` holds an id with the same bytes as `id`.
fn seen_contains(seen: &Vec<ObjectId>, id: &ObjectId) -> (r: bool)
    ensures
        r <==> raw_ids_view(seen@).contains(id@),
{
    let n = seen.len();
    let mut i: usize = 0;
    while i < n
        invariant
            n == seen@.len(),
            i <= n,
            forall|j: int| 0 <= j < i ==> raw_ids_view(seen@)[j] != id@,
        decreases n - i,
    {
        if raw_ids_equal(&seen[i], id) {
            assert(raw_ids_view(seen@)[i as int] == id@);
            return true;
        }
        i += 1;
    }
    assert(!raw_ids_view(seen@).contains(id@));
    false
}

/// Appends the ids of `list` to `seen`, stopping at the first id that is
/// already present (within `list` or carried over in `seen`).
///
/// Returns true if no duplicate was found; `seen` then grew by exactly
/// the ids of `list`.
fn extend_unique(seen: &mut Vec<ObjectId>, list: &Vec<ObjectId>) -> (r: bool)
    requires
        !has_duplicate(raw_ids_view(old(seen)@)),
    ensures
        r <==> !has_duplicate(raw_ids_view(old(seen)@) + raw_ids_view(list@)),
        r ==> raw_ids_view(final(seen)@) == raw_ids_view(old(seen)@) + raw_ids_view(list@),
        r ==> !has_duplicate(raw_ids_view(final(seen)@)),
{
    let n = list.len();
    let mut i: usize = 0;
    while i < n
        invariant
            n == list@.len(),
            i <= n,
            raw_ids_view(seen@) == raw_ids_view(old(seen)@) + raw_ids_view(list@.subrange(0, i as int)),
            !has_duplicate(raw_ids_view(seen@)),
        decreases n - i,
    {
        let ghost sv = raw_ids_view(seen@);
        if seen_contains(seen, &list[i]) {
            proof {
                assert(raw_ids_view(list@.subrange(0, i as int)) =~= raw_ids_view(
                    list@,
                ).subrange(0, i as int));
                assert(raw_ids_view(list@)[i as int] == list@[i as int]@);
                lemma_dup_witness(raw_ids_view(old(seen)@), raw_ids_view(list@), i as int);
            }
            return false;
        }
        seen.push(list[i]);
        proof {
            assert(raw_ids_view(seen@) =~= sv.push(list@[i as int]@));
            assert(raw_ids_view(old(seen)@) + raw_ids_view(list@.subrange(0, i + 1)) =~= sv.push(
                list@[i as int]@,
            ));
            lemma_push_no_dup(sv, list@[i as int]@);
        }
        i += 1;
    }
    proof {
        assert(list@.subrange(0, n as int) =~= list@);
    }
    true
}

/// Appending a fresh id keeps an id list duplicate-free.
pub proof fn lemma_push_no_dup_pub(s: Seq<Seq<u8>>, x: Seq<u8>)
    requires
        !has_duplicate(s),
        !s.contains(x),
    ensures
        !has_duplicate(s.push(x)),
{
    lemma_push_no_dup(s, x);
}

proof fn lemma_push_no_dup(s: Seq<Seq<u8>>, x: Seq<u8>)
    requires
        !has_duplicate(s),
        !s.contains(x),
    ensures
        !has_duplicate(s.push(x)),
{
    let t = s.push(x);
    assert forall|i: int, j: int| 0 <= i < j < t.len() implies t[i] != t[j] by {
        if j < s.len() {
            assert(s[i] != s[j]);
        } else {
            assert(!s.contains(x));
            assert(s[i] == t[i]);
            if s[i] == x {
                assert(s.contains(x));
            }
        }
    }
}

proof fn lemma_dup_witness(seen: Seq<Seq<u8>>, list: Seq<Seq<u8>>, i: int)
    requires
        0 <= i < list.len(),
        (seen + raw_prefix(list, i)).contains(list[i]),
    ensures
        has_duplicate(seen + list),
{
    let whole = seen + list;
    let k = choose|k: int|
        0 <= k < (seen + raw_prefix(list, i)).len() && (seen + raw_prefix(list, i))[k] == list[i];
    assert(whole[k] == (seen + raw_prefix(list, i))[k]);
    assert(whole[seen.len() + i] == list[i]);
    assert(k < seen.len() + i);
}

/// The first `i` elements of a list of id byte-strings.
pub open spec fn raw_prefix(list: Seq<Seq<u8>>, i: int) -> Seq<Seq<u8>> {
    list.subrange(0, i)
}


impl PeerRequest {
    /// Checks whether this peer request is valid: its object-id list is
    /// neither empty nor over the length cap.
    pub fn validate(&self) -> (r: Result<(), RequestError>)
        ensures
            r == (if peer_request_ids(*self).len() == 0 {
                Err::<(), RequestError>(RequestError::ObjectIdListTooShort)
            } else if peer_request_ids(*self).len() > MAX_OBJECT_ID_LIST_LEN {
                Err::<(), RequestError>(
                    RequestError::ObjectIdListTooLong(peer_request_ids(*self).len() as usize),
                )
            } else {
                Ok::<(), RequestError>(())
            }),
            peer_request_ids(*self).len() <= usize::MAX,
    {
        let objects = match self {
            PeerRequest::Copy { objects, .. } => objects,
            PeerRequest::Take { objects, .. } => objects,
        };
        if objects.len() == 0 {
            return Err(RequestError::ObjectIdListTooShort);
        }
        if objects.len() > MAX_OBJECT_ID_LIST_LEN {
            return Err(RequestError::ObjectIdListTooLong(objects.len()));
        }
        Ok(())
    }

    /// Gets the list of object IDs which will be received upon execution
    /// of this SYNC peer request.
    pub fn incoming_objects(&self) -> (r: &Vec<ObjectId>)
        ensures
            raw_ids_view(r@) == peer_request_ids(*self),
    {
        match self {
            PeerRequest::Copy { objects, .. } => objects,
            PeerRequest::Take { objects, .. } => objects,
        }
    }

    /// Returns true if this peer request names the specified peer address.
    pub fn contains_peer(&self, address: &PeerAddr) -> (r: bool)
        ensures
            r <==> addr_eq(peer_request_from(*self), *address),
    {
        match self {
            PeerRequest::Copy { from, .. } => *from == *address,
            PeerRequest::Take { from, .. } => *from == *address,
        }
    }
}

impl Request {
    /// Checks if this request is valid: object-id lists and peer-request
    /// lists are within bounds, and no object id occurs twice.
    ///
    /// Success is exact: `Ok` comes back on precisely the requests that
    /// [`request_valid`] admits. Each error names a condition that holds
    /// of the request.
    pub fn validate(&self) -> (r: Result<(), RequestError>)
        ensures
            r is Ok <==> request_valid(*self),
            r == Err::<(), RequestError>(RequestError::DuplicateObjectIds) ==> (match self {
                Request::Sync(prs) => has_duplicate(flat_ids(prs@)),
                Request::Copy(ids) => has_duplicate(raw_ids_view(ids@)),
                Request::Take(ids) => has_duplicate(raw_ids_view(ids@)),
            }),
            r == Err::<(), RequestError>(RequestError::PeerRequestListTooShort) ==> (self matches
                Request::Sync(prs) && prs@.len() == 0),
            (r matches Err(RequestError::PeerRequestListTooLong(n)) ==> self matches Request::Sync(
                prs,
            ) && n == prs@.len() > MAX_NUM_SYNC_PEERS),
            r == Err::<(), RequestError>(RequestError::ObjectIdListTooShort) ==> (match self {
                Request::Sync(prs) => exists|i: int|
                    0 <= i < prs@.len() && (#[trigger] peer_request_ids(prs@[i])).len() == 0,
                Request::Copy(ids) => ids@.len() == 0,
                Request::Take(ids) => ids@.len() == 0,
            }),
            (r matches Err(RequestError::ObjectIdListTooLong(n)) ==> (match self {
                Request::Sync(prs) => exists|i: int|
                    0 <= i < prs@.len() && (#[trigger] peer_request_ids(prs@[i])).len() == n
                        > MAX_OBJECT_ID_LIST_LEN,
                Request::Copy(ids) => ids@.len() == n > MAX_OBJECT_ID_LIST_LEN,
                Request::Take(ids) => ids@.len() == n > MAX_OBJECT_ID_LIST_LEN,
            })),
            (r matches Err(e) ==> (e matches RequestError::ObjectIdListTooShort || e matches
                RequestError::ObjectIdListTooLong(_) || e matches RequestError::DuplicateObjectIds
                || e matches RequestError::PeerRequestListTooShort || e matches
                RequestError::PeerRequestListTooLong(_))),
    {
        match self {
            Request::Sync(peer_requests) => validate_sync(peer_requests),
            Request::Take(object_ids) | Request::Copy(object_ids) => validate_id_list(object_ids),
        }
    }
}

/// Validates the id list of a COPY or TAKE request.
fn validate_id_list(object_ids: &Vec<ObjectId>) -> (r: Result<(), RequestError>)
    ensures
        r is Ok <==> id_list_valid(raw_ids_view(object_ids@)),
        r == Err::<(), RequestError>(RequestError::ObjectIdListTooShort) <==> object_ids@.len()
            == 0,
        (r matches Err(RequestError::ObjectIdListTooLong(n)) ==> n == object_ids@.len()
            > MAX_OBJECT_ID_LIST_LEN),
        r == Err::<(), RequestError>(RequestError::DuplicateObjectIds) ==> has_duplicate(
            raw_ids_view(object_ids@),
        ),
        (r matches Err(e) ==> (e matches RequestError::ObjectIdListTooShort || e matches
            RequestError::ObjectIdListTooLong(_) || e matches RequestError::DuplicateObjectIds)),
{
    if object_ids.len() == 0 {
        return Err(RequestError::ObjectIdListTooShort);
    }
    if object_ids.len() > MAX_OBJECT_ID_LIST_LEN {
        return Err(RequestError::ObjectIdListTooLong(object_ids.len()));
    }
    let mut seen: Vec<ObjectId> = Vec::new();
    if !extend_unique(&mut seen, object_ids) {
        proof {
            assert(Seq::<Seq<u8>>::empty() + raw_ids_view(object_ids@) =~= raw_ids_view(
                object_ids@,
            ));
        }
        return Err(RequestError::DuplicateObjectIds);
    }
    proof {
        assert(Seq::<Seq<u8>>::empty() + raw_ids_view(object_ids@) =~= raw_ids_view(object_ids@));
    }
    Ok(())
}

/// Validates the peer-request list of a SYNC request.
fn validate_sync(peer_requests: &Vec<PeerRequest>) -> (r: Result<(), RequestError>)
    ensures
        r is Ok <==> sync_valid(peer_requests@),
        r == Err::<(), RequestError>(RequestError::PeerRequestListTooShort) <==> peer_requests@.len()
            == 0,
        (r matches Err(RequestError::PeerRequestListTooLong(n)) ==> n == peer_requests@.len()
            > MAX_NUM_SYNC_PEERS),
        r == Err::<(), RequestError>(RequestError::DuplicateObjectIds) ==> has_duplicate(
            flat_ids(peer_requests@),
        ),
        r == Err::<(), RequestError>(RequestError::ObjectIdListTooShort) ==> exists|i: int|
            0 <= i < peer_requests@.len() && (#[trigger] peer_request_ids(peer_requests@[i])).len()
                == 0,
        (r matches Err(RequestError::ObjectIdListTooLong(n)) ==> exists|i: int|
            0 <= i < peer_requests@.len() && (#[trigger] peer_request_ids(peer_requests@[i])).len()
                == n > MAX_OBJECT_ID_LIST_LEN),
        (r matches Err(e) ==> (e matches RequestError::PeerRequestListTooShort || e matches
            RequestError::PeerRequestListTooLong(_) || e matches RequestError::ObjectIdListTooShort
            || e matches RequestError::ObjectIdListTooLong(_) || e matches
            RequestError::DuplicateObjectIds)),
{
    if peer_requests.len() == 0 {
        return Err(RequestError::PeerRequestListTooShort);
    }
    if peer_requests.len() > MAX_NUM_SYNC_PEERS {
        return Err(RequestError::PeerRequestListTooLong(peer_requests.len()));
    }
    let mut seen: Vec<ObjectId> = Vec::new();
    let n = peer_requests.len();
    let mut i: usize = 0;
    while i < n
        invariant
            n == peer_requests@.len(),
            i <= n,
            raw_ids_view(seen@) == flat_ids(peer_requests@.subrange(0, i as int)),
            !has_duplicate(raw_ids_view(seen@)),
            forall|j: int|
                0 <= j < i ==> 0 < (#[trigger] peer_request_ids(peer_requests@[j])).len()
                    <= MAX_OBJECT_ID_LIST_LEN,
        decreases n - i,
    {
        let pr = &peer_requests[i];
        if let Err(e) = pr.validate() {
            proof {
                assert(peer_request_ids(peer_requests@[i as int]).len() == 0 || peer_request_ids(
                    peer_requests@[i as int],
                ).len() > MAX_OBJECT_ID_LIST_LEN);
                assert(!sync_valid(peer_requests@));
            }
            return Err(e);
        }
        let incoming = pr.incoming_objects();
        let ghost sv = raw_ids_view(seen@);
        if !extend_unique(&mut seen, incoming) {
            proof {
                lemma_flat_prefix_dup(peer_requests@, i as int);
            }
            return Err(RequestError::DuplicateObjectIds);
        }
        proof {
            lemma_flat_snoc(peer_requests@, i as int);
        }
        i += 1;
    }
    proof {
        assert(peer_requests@.subrange(0, n as int) =~= peer_requests@);
    }
    Ok(())
}

/// Extending the flattened ids by one more peer request.
proof fn lemma_flat_snoc(prs: Seq<PeerRequest>, i: int)
    requires
        0 <= i < prs.len(),
    ensures
        flat_ids(prs.subrange(0, i + 1)) == flat_ids(prs.subrange(0, i)) + peer_request_ids(
            prs[i],
        ),
    decreases i,
{
    if i == 0 {
        let sub = prs.subrange(0, 1);
        assert(sub.drop_first() =~= Seq::<PeerRequest>::empty());
        assert(sub[0] == prs[0]);
        assert(flat_ids(Seq::<PeerRequest>::empty()) =~~= Seq::<Seq<u8>>::empty());
        assert(flat_ids(sub) =~~= peer_request_ids(prs[0]) + flat_ids(sub.drop_first()));
        assert(flat_ids(sub) =~~= peer_request_ids(prs[0]));
        assert(flat_ids(prs.subrange(0, 0)) =~~= Seq::<Seq<u8>>::empty());
        assert(flat_ids(prs.subrange(0, 1)) =~~= flat_ids(prs.subrange(0, 0)) + peer_request_ids(
            prs[0],
        ));
    } else {
        let t = prs.drop_first();
        assert(prs.subrange(0, i + 1).drop_first() =~= t.subrange(0, i));
        assert(prs.subrange(0, i).drop_first() =~= t.subrange(0, i - 1));
        lemma_flat_snoc(t, i - 1);
        assert(prs.subrange(0, i + 1)[0] == prs[0]);
        assert(prs.subrange(0, i)[0] == prs[0]);
        assert(t.subrange(0, i)[i - 1] == prs[i]);
        assert(flat_ids(prs.subrange(0, i + 1)) == peer_request_ids(prs[0]) + flat_ids(
            t.subrange(0, i),
        ));
        assert(flat_ids(t.subrange(0, i)) == flat_ids(t.subrange(0, i - 1)) + peer_request_ids(
            prs[i],
        ));
        assert(flat_ids(prs.subrange(0, i + 1)) =~~= flat_ids(prs.subrange(0, i))
            + peer_request_ids(prs[i]));
    }
}

/// A duplicate inside the flattened prefix plus the next peer's ids is a
/// duplicate of the whole flattened request.
proof fn lemma_flat_prefix_dup(prs: Seq<PeerRequest>, i: int)
    requires
        0 <= i < prs.len(),
        has_duplicate(flat_ids(prs.subrange(0, i)) + peer_request_ids(prs[i])),
    ensures
        has_duplicate(flat_ids(prs)),
{
    lemma_flat_snoc(prs, i);
    lemma_flat_prefix_embed(prs, i + 1);
}

/// The flattened ids of a prefix of the peer requests form a prefix of
/// the flattened ids of all of them.
proof fn lemma_flat_prefix_embed(prs: Seq<PeerRequest>, i: int)
    requires
        0 <= i <= prs.len(),
        has_duplicate(flat_ids(prs.subrange(0, i))),
    ensures
        has_duplicate(flat_ids(prs)),
    decreases prs.len() - i,
{
    if i == prs.len() {
        assert(prs.subrange(0, i) =~= prs);
    } else {
        lemma_flat_snoc(prs, i);
        let a = flat_ids(prs.subrange(0, i));
        let b = a + peer_request_ids(prs[i]);
        let (x, y) = choose|x: int, y: int| 0 <= x < y < a.len() && a[x] == a[y];
        assert(b[x] == a[x] && b[y] == a[y]);
        assert(has_duplicate(b));
        lemma_flat_prefix_embed(prs, i + 1);
    }
}

/// The text form of a peer request: its kind, the source address, and
/// one hex id per line.
pub open spec fn peer_request_str(p: PeerRequest) -> Seq<char> {
    match p {
        PeerRequest::Copy { from, objects } => "COPY "@ + addr_str(from) + id_lines_str(
            raw_ids_view(objects@),
        ),
        PeerRequest::Take { from, objects } => "TAKE "@ + addr_str(from) + id_lines_str(
            raw_ids_view(objects@),
        ),
    }
}

/// One line per peer request: a newline and the request's text.
pub open spec fn peer_request_lines_str(prs: Seq<PeerRequest>) -> Seq<char>
    decreases prs.len(),
{
    if prs.len() == 0 {
        Seq::empty()
    } else {
        seq!['\n'] + peer_request_str(prs[0]) + peer_request_lines_str(prs.drop_first())
    }
}

/// The text form of a request.
pub open spec fn request_str(r: Request) -> Seq<char> {
    match r {
        Request::Sync(prs) => "SYNC"@ + peer_request_lines_str(prs@),
        Request::Copy(ids) => "COPY"@ + id_lines_str(raw_ids_view(ids@)),
        Request::Take(ids) => "TAKE"@ + id_lines_str(raw_ids_view(ids@)),
    }
}

impl PeerRequest {
    /// Renders this peer request as text.
    pub fn describe(&self) -> (r: String)
        ensures
            r@ == peer_request_str(*self),
    {
        let mut out = String::new();
        match self {
            PeerRequest::Copy { from, objects } => {
                out.append("COPY ");
                push_addr(from, &mut out);
                push_id_lines(objects, &mut out);
            },
            PeerRequest::Take { from, objects } => {
                out.append("TAKE ");
                push_addr(from, &mut out);
                push_id_lines(objects, &mut out);
            },
        }
        proof {
            assert(out@ =~= peer_request_str(*self));
        }
        out
    }
}

impl Request {
    /// Renders this request as text.
    pub fn describe(&self) -> (r: String)
        ensures
            r@ == request_str(*self),
    {
        let mut out = String::new();
        match self {
            Request::Sync(requests) => {
                out.append("SYNC");
                let n = requests.len();
                let mut i: usize = 0;
                while i < n
                    invariant
                        n == requests@.len(),
                        i <= n,
                        out@ == "SYNC"@ + peer_request_lines_str(requests@.subrange(0, i as int)),
                    decreases n - i,
                {
                    out.append("\n");
                    out.append(requests[i].describe().as_str());
                    proof {
                        reveal_strlit("\n");
                        assert("\n"@ =~= seq!['\n']);
                        lemma_peer_request_lines_snoc(requests@, i as int);
                        assert(out@ =~= "SYNC"@ + peer_request_lines_str(
                            requests@.subrange(0, i + 1),
                        ));
                    }
                    i += 1;
                }
                proof {
                    assert(requests@.subrange(0, n as int) =~= requests@);
                }
            },
            Request::Copy(object_ids) => {
                out.append("COPY");
                push_id_lines(object_ids, &mut out);
            },
            Request::Take(object_ids) => {
                out.append("TAKE");
                push_id_lines(object_ids, &mut out);
            },
        }
        proof {
            assert(out@ =~= request_str(*self));
        }
        out
    }
}

/// Appending one more peer request to the rendered lines.
proof fn lemma_peer_request_lines_snoc(prs: Seq<PeerRequest>, i: int)
    requires
        0 <= i < prs.len(),
    ensures
        peer_request_lines_str(prs.subrange(0, i + 1)) == peer_request_lines_str(
            prs.subrange(0, i),
        ) + (seq!['\n'] + peer_request_str(prs[i])),
    decreases i,
{
    if i == 0 {
        let sub = prs.subrange(0, 1);
        assert(sub.drop_first() =~= Seq::<PeerRequest>::empty());
        assert(sub[0] == prs[0]);
        assert(peer_request_lines_str(Seq::<PeerRequest>::empty()) =~= Seq::<char>::empty());
        assert(peer_request_lines_str(sub) =~= seq!['\n'] + peer_request_str(prs[0]));
        assert(peer_request_lines_str(prs.subrange(0, 0)) =~= Seq::<char>::empty());
        assert(peer_request_lines_str(sub) =~= peer_request_lines_str(prs.subrange(0, 0)) + (seq![
            '\n',
        ] + peer_request_str(prs[0])));
    } else {
        let t = prs.drop_first();
        assert(prs.subrange(0, i + 1).drop_first() =~= t.subrange(0, i));
        assert(prs.subrange(0, i).drop_first() =~= t.subrange(0, i - 1));
        lemma_peer_request_lines_snoc(t, i - 1);
        assert(prs.subrange(0, i + 1)[0] == prs[0]);
        assert(prs.subrange(0, i)[0] == prs[0]);
        assert(t.subrange(0, i)[i - 1] == prs[i]);
        assert(peer_request_lines_str(prs.subrange(0, i + 1)) == seq!['\n'] + peer_request_str(
            prs[0],
        ) + peer_request_lines_str(t.subrange(0, i)));
        assert(peer_request_lines_str(t.subrange(0, i)) == peer_request_lines_str(
            t.subrange(0, i - 1),
        ) + (seq!['\n'] + peer_request_str(prs[i])));
        assert(peer_request_lines_str(prs.subrange(0, i + 1)) =~= peer_request_lines_str(
            prs.subrange(0, i),
        ) + (seq!['\n'] + peer_request_str(prs[i])));
    }
}

} // verus!
