//! The wire codec: little-endian, length-prefixed framing of requests,
//! peer requests, object-id lists, peer addresses and the data-plane
//! object header.
//!
//! Every decoder's contract states that the bytes it consumed are exactly
//! the encoding of the value it returned, so parsing followed by
//! re-encoding reproduces the consumed byte stream.

use vstd::prelude::*;

use crate::errors::RequestError;
use crate::request::{PeerAddr, PeerRequest, Request};
use crate::{ObjectId, OBJECT_ID_BYTES};

verus! {

/// Request type tags on the wire.
pub const SYNC_TYPE_ID: u8 = 1;

pub const COPY_TYPE_ID: u8 = 2;

pub const TAKE_TYPE_ID: u8 = 3;

/// Address family tags on the wire.
pub const IPV4_TYPE_ID: u8 = 4;

pub const IPV6_TYPE_ID: u8 = 6;

/// The little-endian bytes of `x`, `n` bytes long (low byte first).
pub open spec fn le_bytes(x: nat, n: nat) -> Seq<u8>
    decreases n,
{
    if n == 0 {
        Seq::empty()
    } else {
        seq![(x % 256) as u8] + le_bytes(x / 256, (n - 1) as nat)
    }
}

/// The value of a little-endian byte string.
pub open spec fn le_val(s: Seq<u8>) -> nat
    decreases s.len(),
{
    if s.len() == 0 {
        0
    } else {
        (s[0] + 256 * le_val(s.drop_first())) as nat
    }
}

/// The two little-endian bytes of a `u16`.
pub open spec fn enc_u16(x: u16) -> Seq<u8> {
    le_bytes(x as nat, 2)
}

/// The eight little-endian bytes of a `u64`.
pub open spec fn enc_u64(x: u64) -> Seq<u8> {
    le_bytes(x as nat, 8)
}

/// The raw bytes of a list of object ids, in order, without a length
/// prefix.
pub open spec fn enc_raw_ids(ids: Seq<ObjectId>) -> Seq<u8>
    decreases ids.len(),
{
    if ids.len() == 0 {
        Seq::empty()
    } else {
        ids[0]@ + enc_raw_ids(ids.drop_first())
    }
}

/// An object-id list on the wire: a `u16` count followed by the raw ids.
pub open spec fn enc_id_list(ids: Seq<ObjectId>) -> Seq<u8>
    recommends
        ids.len() <= 0xffff,
{
    enc_u16(ids.len() as u16) + enc_raw_ids(ids)
}

/// A peer address on the wire: the IPv4 family tag, the port, and the
/// four address octets.
pub open spec fn enc_addr(a: PeerAddr) -> Seq<u8> {
    seq![IPV4_TYPE_ID] + enc_u16(a.port) + a.octets@
}

/// A peer request on the wire: its type tag, the source address, and the
/// object-id list.
pub open spec fn enc_peer_request(p: PeerRequest) -> Seq<u8> {
    match p {
        PeerRequest::Copy { from, objects } => seq![COPY_TYPE_ID] + enc_addr(from) + enc_id_list(
            objects@,
        ),
        PeerRequest::Take { from, objects } => seq![TAKE_TYPE_ID] + enc_addr(from) + enc_id_list(
            objects@,
        ),
    }
}

/// A list of peer requests on the wire, without a count prefix.
pub open spec fn enc_peer_list(prs: Seq<PeerRequest>) -> Seq<u8>
    decreases prs.len(),
{
    if prs.len() == 0 {
        Seq::empty()
    } else {
        enc_peer_request(prs[0]) + enc_peer_list(prs.drop_first())
    }
}

/// A whole request on the wire.
pub open spec fn enc_request(r: Request) -> Seq<u8> {
    match r {
        Request::Sync(prs) => seq![SYNC_TYPE_ID] + enc_u16(prs@.len() as u16) + enc_peer_list(
            prs@,
        ),
        Request::Copy(ids) => seq![COPY_TYPE_ID] + enc_id_list(ids@),
        Request::Take(ids) => seq![TAKE_TYPE_ID] + enc_id_list(ids@),
    }
}

/// Whether a request fits the wire format's `u16` count fields.
pub open spec fn request_encodable(r: Request) -> bool {
    match r {
        Request::Sync(prs) => prs@.len() <= 0xffff && forall|i: int|
            0 <= i < prs@.len() ==> (#[trigger] peer_request_encodable(prs@[i])),
        Request::Copy(ids) => ids@.len() <= 0xffff,
        Request::Take(ids) => ids@.len() <= 0xffff,
    }
}

/// Whether a peer request fits the wire format's `u16` count field.
pub open spec fn peer_request_encodable(p: PeerRequest) -> bool {
    match p {
        PeerRequest::Copy { objects, .. } => objects@.len() <= 0xffff,
        PeerRequest::Take { objects, .. } => objects@.len() <= 0xffff,
    }
}

/// The outcome of reading one frame from a byte buffer: a complete value
/// together with the offset just past it, a signal that more bytes are
/// needed, or a malformed frame.
pub enum ReadOutcome<T> {
    Done(T, usize),
    Incomplete,
    Failed(RequestError),
}

/// Appends the two little-endian bytes of `x`.
pub fn write_u16_le(x: u16, out: &mut Vec<u8>)
    ensures
        final(out)@ == old(out)@ + enc_u16(x),
{
    let ghost start = out@;
    let b0 = (x % 256) as u8;
    let b1 = (x / 256) as u8;
    out.push(b0);
    out.push(b1);
    proof {
        let x1 = x as nat / 256;
        assert(le_bytes(x1 / 256, 0) =~= Seq::<u8>::empty());
        assert(le_bytes(x1, 1) =~= seq![b1]);
        assert(enc_u16(x) =~= seq![b0, b1]);
        assert(out@ =~= start + enc_u16(x));
    }
}

/// Appends the eight little-endian bytes of `x`.
pub fn write_u64_le(x: u64, out: &mut Vec<u8>)
    ensures
        final(out)@ == old(out)@ + enc_u64(x),
{
    let ghost start = out@;
    let b0 = (x % 256) as u8;
    let x1 = x / 256;
    let b1 = (x1 % 256) as u8;
    let x2 = x1 / 256;
    let b2 = (x2 % 256) as u8;
    let x3 = x2 / 256;
    let b3 = (x3 % 256) as u8;
    let x4 = x3 / 256;
    let b4 = (x4 % 256) as u8;
    let x5 = x4 / 256;
    let b5 = (x5 % 256) as u8;
    let x6 = x5 / 256;
    let b6 = (x6 % 256) as u8;
    let x7 = x6 / 256;
    let b7 = (x7 % 256) as u8;
    out.push(b0);
    out.push(b1);
    out.push(b2);
    out.push(b3);
    out.push(b4);
    out.push(b5);
    out.push(b6);
    out.push(b7);
    proof {
        assert(le_bytes(x7 as nat / 256, 0) =~= Seq::<u8>::empty());
        assert(le_bytes(x7 as nat, 1) =~= seq![b7]);
        assert(le_bytes(x6 as nat, 2) =~= seq![b6, b7]);
        assert(le_bytes(x5 as nat, 3) =~= seq![b5, b6, b7]);
        assert(le_bytes(x4 as nat, 4) =~= seq![b4, b5, b6, b7]);
        assert(le_bytes(x3 as nat, 5) =~= seq![b3, b4, b5, b6, b7]);
        assert(le_bytes(x2 as nat, 6) =~= seq![b2, b3, b4, b5, b6, b7]);
        assert(le_bytes(x1 as nat, 7) =~= seq![b1, b2, b3, b4, b5, b6, b7]);
        assert(enc_u64(x) =~= seq![b0, b1, b2, b3, b4, b5, b6, b7]);
        assert(out@ =~= start + enc_u64(x));
    }
}

/// Reads a `u16` from two little-endian bytes.
pub fn read_u16_le(buf: &[u8], pos: usize) -> (r: Option<(u16, usize)>)
    requires
        pos <= buf@.len(),
    ensures
        r is Some <==> pos + 2 <= buf@.len(),
        r matches Some((x, end)) ==> end == pos + 2 && enc_u16(x) == buf@.subrange(
            pos as int,
            end as int,
        ),
{
    if buf.len() - pos < 2 {
        return None;
    }
    let lo = buf[pos];
    let hi = buf[pos + 1];
    let x: u16 = lo as u16 + (hi as u16) * 256;
    proof {
        let s = buf@.subrange(pos as int, pos + 2);
        assert(s.len() == 2);
        assert(s[0] == lo && s[1] == hi);
        assert(x as nat % 256 == lo as nat && x as nat / 256 == hi as nat) by (nonlinear_arith)
            requires
                x as nat == lo as nat + hi as nat * 256,
                lo < 256,
                hi < 256,
        ;
        assert(le_bytes(hi as nat / 256, 0) =~= Seq::<u8>::empty());
        assert(le_bytes(hi as nat, 1) =~= seq![hi]);
        assert(enc_u16(x) =~= seq![lo, hi]);
        assert(enc_u16(x) =~= s);
    }
    Some((x, pos + 2))
}

/// Reads a `u64` from eight little-endian bytes.
pub fn read_u64_le(buf: &[u8], pos: usize) -> (r: Option<(u64, usize)>)
    requires
        pos <= buf@.len(),
    ensures
        r is Some <==> pos + 8 <= buf@.len(),
        r matches Some((x, end)) ==> end == pos + 8 && enc_u64(x) == buf@.subrange(
            pos as int,
            end as int,
        ),
{
    if buf.len() - pos < 8 {
        return None;
    }
    let b0 = buf[pos];
    let b1 = buf[pos + 1];
    let b2 = buf[pos + 2];
    let b3 = buf[pos + 3];
    let b4 = buf[pos + 4];
    let b5 = buf[pos + 5];
    let b6 = buf[pos + 6];
    let b7 = buf[pos + 7];
    let v7: u64 = b7 as u64;
    let v6: u64 = b6 as u64 + 256 * v7;
    let v5: u64 = b5 as u64 + 256 * v6;
    let v4: u64 = b4 as u64 + 256 * v5;
    let v3: u64 = b3 as u64 + 256 * v4;
    let v2: u64 = b2 as u64 + 256 * v3;
    let v1: u64 = b1 as u64 + 256 * v2;
    let v0: u64 = b0 as u64 + 256 * v1;
    proof {
        let s = buf@.subrange(pos as int, pos + 8);
        let s1 = s.drop_first();
        let s2 = s1.drop_first();
        let s3 = s2.drop_first();
        let s4 = s3.drop_first();
        let s5 = s4.drop_first();
        let s6 = s5.drop_first();
        let s7 = s6.drop_first();
        assert(s7.len() == 1 && s7[0] == b7);
        assert(s7.drop_first() =~= Seq::<u8>::empty());
        assert(le_val(Seq::<u8>::empty()) == 0);
        assert(le_val(s7) == b7);
        assert(s6[0] == b6 && le_val(s6) == v6);
        assert(s5[0] == b5 && le_val(s5) == v5);
        assert(s4[0] == b4 && le_val(s4) == v4);
        assert(s3[0] == b3 && le_val(s3) == v3);
        assert(s2[0] == b2 && le_val(s2) == v2);
        assert(s1[0] == b1 && le_val(s1) == v1);
        assert(s[0] == b0 && le_val(s) == v0);
        lemma_le_bytes_of_val(s);
        assert(enc_u64(v0) == buf@.subrange(pos as int, pos + 8));
    }
    Some((v0, pos + 8))
}

/// A byte string is the little-endian encoding of its own value.
proof fn lemma_le_bytes_of_val(s: Seq<u8>)
    ensures
        le_bytes(le_val(s), s.len()) =~= s,
    decreases s.len(),
{
    if s.len() > 0 {
        lemma_le_bytes_of_val(s.drop_first());
        let x = le_val(s);
        assert(x == s[0] + 256 * le_val(s.drop_first()));
        assert(x % 256 == s[0] as nat && x / 256 == le_val(s.drop_first())) by (nonlinear_arith)
            requires
                x == s[0] + 256 * le_val(s.drop_first()),
                s[0] < 256,
        ;
        assert(le_bytes(x, s.len()) =~= seq![(x % 256) as u8] + le_bytes(
            x / 256,
            (s.len() - 1) as nat,
        ));
    }
}

/// Appending one more id to the raw id bytes.
proof fn lemma_enc_raw_ids_snoc(ids: Seq<ObjectId>, i: int)
    requires
        0 <= i < ids.len(),
    ensures
        enc_raw_ids(ids.subrange(0, i + 1)) == enc_raw_ids(ids.subrange(0, i)) + ids[i]@,
    decreases i,
{
    if i == 0 {
        let sub = ids.subrange(0, 1);
        assert(sub.drop_first() =~= Seq::<ObjectId>::empty());
        assert(sub[0] == ids[0]);
        assert(enc_raw_ids(Seq::<ObjectId>::empty()) =~= Seq::<u8>::empty());
        assert(enc_raw_ids(sub) =~= ids[0]@ + enc_raw_ids(sub.drop_first()));
        assert(enc_raw_ids(ids.subrange(0, 0)) =~= Seq::<u8>::empty());
        assert(enc_raw_ids(sub) =~= enc_raw_ids(ids.subrange(0, 0)) + ids[0]@);
    } else {
        let t = ids.drop_first();
        assert(ids.subrange(0, i + 1).drop_first() =~= t.subrange(0, i));
        assert(ids.subrange(0, i).drop_first() =~= t.subrange(0, i - 1));
        lemma_enc_raw_ids_snoc(t, i - 1);
        assert(ids.subrange(0, i + 1)[0] == ids[0]);
        assert(ids.subrange(0, i)[0] == ids[0]);
        assert(t.subrange(0, i)[i - 1] == ids[i]);
        assert(enc_raw_ids(ids.subrange(0, i + 1)) == ids[0]@ + enc_raw_ids(t.subrange(0, i)));
        assert(enc_raw_ids(t.subrange(0, i)) == enc_raw_ids(t.subrange(0, i - 1)) + ids[i]@);
        assert(enc_raw_ids(ids.subrange(0, i + 1)) =~= enc_raw_ids(ids.subrange(0, i)) + ids[i]@);
    }
}

/// Appending one more peer request to the encoded list.
proof fn lemma_enc_peer_list_snoc(prs: Seq<PeerRequest>, i: int)
    requires
        0 <= i < prs.len(),
    ensures
        enc_peer_list(prs.subrange(0, i + 1)) == enc_peer_list(prs.subrange(0, i))
            + enc_peer_request(prs[i]),
    decreases i,
{
    if i == 0 {
        let sub = prs.subrange(0, 1);
        assert(sub.drop_first() =~= Seq::<PeerRequest>::empty());
        assert(sub[0] == prs[0]);
        assert(enc_peer_list(Seq::<PeerRequest>::empty()) =~= Seq::<u8>::empty());
        assert(enc_peer_list(sub) =~= enc_peer_request(prs[0]) + enc_peer_list(sub.drop_first()));
        assert(enc_peer_list(prs.subrange(0, 0)) =~= Seq::<u8>::empty());
        assert(enc_peer_list(sub) =~= enc_peer_list(prs.subrange(0, 0)) + enc_peer_request(
            prs[0],
        ));
    } else {
        let t = prs.drop_first();
        assert(prs.subrange(0, i + 1).drop_first() =~= t.subrange(0, i));
        assert(prs.subrange(0, i).drop_first() =~= t.subrange(0, i - 1));
        lemma_enc_peer_list_snoc(t, i - 1);
        assert(prs.subrange(0, i + 1)[0] == prs[0]);
        assert(prs.subrange(0, i)[0] == prs[0]);
        assert(t.subrange(0, i)[i - 1] == prs[i]);
        assert(enc_peer_list(prs.subrange(0, i + 1)) == enc_peer_request(prs[0]) + enc_peer_list(
            t.subrange(0, i),
        ));
        assert(enc_peer_list(t.subrange(0, i)) == enc_peer_list(t.subrange(0, i - 1))
            + enc_peer_request(prs[i]));
        assert(enc_peer_list(prs.subrange(0, i + 1)) =~= enc_peer_list(prs.subrange(0, i))
            + enc_peer_request(prs[i]));
    }
}

/// Appends raw bytes to the output buffer.
pub fn write_bytes(bytes: &[u8], out: &mut Vec<u8>)
    ensures
        final(out)@ == old(out)@ + bytes@,
{
    let n = bytes.len();
    let mut i: usize = 0;
    while i < n
        invariant
            n == bytes@.len(),
            i <= n,
            out@ == old(out)@ + bytes@.subrange(0, i as int),
        decreases n - i,
    {
        let ghost prev = out@;
        out.push(bytes[i]);
        proof {
            assert(bytes@.subrange(0, i + 1) =~= bytes@.subrange(0, i as int).push(
                bytes@[i as int],
            ));
            assert(out@ =~= old(out)@ + bytes@.subrange(0, i + 1));
        }
        i += 1;
    }
    proof {
        assert(bytes@.subrange(0, n as int) =~= bytes@);
    }
}

/// Writes a list of object IDs into the output buffer: the number of IDs
/// first (as `u16`), followed by the IDs themselves.
pub fn write_object_id_list(object_ids: &Vec<ObjectId>, out: &mut Vec<u8>)
    requires
        object_ids@.len() <= 0xffff,
    ensures
        final(out)@ == old(out)@ + enc_id_list(object_ids@),
{
    let count = object_ids.len() as u16;
    write_u16_le(count, out);
    let ghost head = old(out)@ + enc_u16(count);
    let n = object_ids.len();
    let mut i: usize = 0;
    while i < n
        invariant
            n == object_ids@.len(),
            i <= n,
            out@ == head + enc_raw_ids(object_ids@.subrange(0, i as int)),
        decreases n - i,
    {
        write_bytes(&object_ids[i], out);
        proof {
            lemma_enc_raw_ids_snoc(object_ids@, i as int);
        }
        i += 1;
    }
    proof {
        assert(object_ids@.subrange(0, n as int) =~= object_ids@);
        assert(out@ =~= old(out)@ + enc_id_list(object_ids@));
    }
}

/// Writes the socket address of a peer into the output buffer.
pub fn write_peer_addr(peer_addr: &PeerAddr, out: &mut Vec<u8>)
    ensures
        final(out)@ == old(out)@ + enc_addr(*peer_addr),
{
    out.push(IPV4_TYPE_ID);
    write_u16_le(peer_addr.port, out);
    write_bytes(&peer_addr.octets, out);
    proof {
        assert(out@ =~= old(out)@ + enc_addr(*peer_addr));
    }
}

/// Reads one raw object id.
fn read_id(buf: &[u8], pos: usize) -> (r: ObjectId)
    requires
        pos + OBJECT_ID_BYTES <= buf@.len(),
    ensures
        r@ == buf@.subrange(pos as int, pos + OBJECT_ID_BYTES),
{
    let n = buf.len();
    let mut arr: ObjectId = [0u8; OBJECT_ID_BYTES];
    let mut j: usize = 0;
    while j < OBJECT_ID_BYTES
        invariant
            j <= OBJECT_ID_BYTES,
            n == buf@.len(),
            pos + OBJECT_ID_BYTES <= buf@.len(),
            forall|k: int| 0 <= k < j ==> arr@[k] == buf@[pos + k],
        decreases OBJECT_ID_BYTES - j,
    {
        arr[j] = buf[pos + j];
        j += 1;
    }
    proof {
        assert(arr@ =~= buf@.subrange(pos as int, pos + OBJECT_ID_BYTES));
    }
    arr
}

/// Reads a list of object IDs: a `u16` count, then that many 20-byte ids.
pub fn read_object_id_list(buf: &[u8], pos: usize) -> (r: Option<(Vec<ObjectId>, usize)>)
    requires
        pos <= buf@.len(),
    ensures
        r matches Some((ids, end)) ==> {
            &&& pos <= end <= buf@.len()
            &&& ids@.len() <= 0xffff
            &&& enc_id_list(ids@) == buf@.subrange(pos as int, end as int)
        },
        r is Some <==> pos + 2 <= buf@.len() && pos + 2 + OBJECT_ID_BYTES * le_val(
            buf@.subrange(pos as int, pos + 2),
        ) <= buf@.len(),
{
    let (count, mut cur) = match read_u16_le(buf, pos) {
        Some(x) => x,
        None => {
            return None;
        },
    };
    proof {
        assert(vstd::arithmetic::power::pow(256, 2) == 0x10000) by {
            reveal_with_fuel(vstd::arithmetic::power::pow, 3);
        }
        lemma_le_val_of_bytes(count as nat, 2);
        assert(buf@.subrange(pos as int, pos + 2) == enc_u16(count));
        assert(le_val(buf@.subrange(pos as int, pos + 2)) == count as nat);
    }
    let n = count as usize;
    if (buf.len() - cur) / OBJECT_ID_BYTES < n {
        proof {
            assert(pos + 2 + OBJECT_ID_BYTES * (count as nat) > buf@.len()) by (nonlinear_arith)
                requires
                    (buf@.len() - (pos + 2)) / (OBJECT_ID_BYTES as int) < count as int,
                    OBJECT_ID_BYTES == 20,
                    pos + 2 <= buf@.len(),
            ;
        }
        return None;
    }
    proof {
        assert(pos + 2 + OBJECT_ID_BYTES * (count as nat) <= buf@.len()) by (nonlinear_arith)
            requires
                (buf@.len() - (pos + 2)) / (OBJECT_ID_BYTES as int) >= count as int,
                OBJECT_ID_BYTES == 20,
                pos + 2 <= buf@.len(),
        ;
    }
    let blen = buf.len();
    let mut ids: Vec<ObjectId> = Vec::new();
    let mut i: usize = 0;
    while i < n
        invariant
            n == count as int,
            i <= n,
            blen == buf@.len(),
            cur == pos + 2 + OBJECT_ID_BYTES * i,
            pos + 2 + OBJECT_ID_BYTES * n <= buf@.len(),
            ids@.len() == i,
            enc_raw_ids(ids@) == buf@.subrange(pos + 2, cur as int),
        decreases n - i,
    {
        proof {
            assert(cur + OBJECT_ID_BYTES <= buf@.len()) by (nonlinear_arith)
                requires
                    cur == pos + 2 + OBJECT_ID_BYTES * i,
                    i < n,
                    OBJECT_ID_BYTES == 20,
                    pos + 2 + OBJECT_ID_BYTES * n <= buf@.len(),
            ;
        }
        let id = read_id(buf, cur);
        let ghost prev_ids = ids@;
        ids.push(id);
        proof {
            assert(ids@.subrange(0, i as int) =~= prev_ids);
            lemma_enc_raw_ids_snoc(ids@, i as int);
            assert(ids@.subrange(0, i + 1) =~= ids@);
            assert(buf@.subrange(pos + 2, cur + OBJECT_ID_BYTES) =~= buf@.subrange(
                pos + 2,
                cur as int,
            ) + buf@.subrange(cur as int, cur + OBJECT_ID_BYTES));
            assert(enc_raw_ids(ids@) == buf@.subrange(pos + 2, cur + OBJECT_ID_BYTES));
        }
        cur = cur + OBJECT_ID_BYTES;
        i += 1;
    }
    proof {
        assert(buf@.subrange(pos as int, cur as int) =~= buf@.subrange(pos as int, pos + 2)
            + buf@.subrange(pos + 2, cur as int));
        assert(enc_id_list(ids@) == buf@.subrange(pos as int, cur as int));
    }
    Some((ids, cur))
}

/// The value of the little-endian bytes of `x` is `x` again, when `x`
/// fits in the width.
proof fn lemma_le_val_of_bytes(x: nat, n: nat)
    requires
        x < vstd::arithmetic::power::pow(256, n),
    ensures
        le_val(le_bytes(x, n)) == x,
    decreases n,
{
    if n == 0 {
        assert(vstd::arithmetic::power::pow(256, 0) == 1) by {
            reveal_with_fuel(vstd::arithmetic::power::pow, 1);
        }
        assert(le_val(Seq::<u8>::empty()) == 0);
        assert(le_bytes(x, 0) =~= Seq::<u8>::empty());
    } else {
        assert(vstd::arithmetic::power::pow(256, n) == 256 * vstd::arithmetic::power::pow(
            256,
            (n - 1) as nat,
        )) by {
            reveal_with_fuel(vstd::arithmetic::power::pow, 2);
        }
        assert(x / 256 < vstd::arithmetic::power::pow(256, (n - 1) as nat)) by (nonlinear_arith)
            requires
                x < 256 * vstd::arithmetic::power::pow(256, (n - 1) as nat),
        ;
        lemma_le_val_of_bytes(x / 256, (n - 1) as nat);
        let s = le_bytes(x, n);
        assert(s == seq![(x % 256) as u8] + le_bytes(x / 256, (n - 1) as nat));
        assert(s.drop_first() =~= le_bytes(x / 256, (n - 1) as nat));
        assert(le_val(s) == (x % 256) + 256 * (x / 256));
    }
}

/// A `u16` is the value of its own little-endian encoding.
pub proof fn lemma_le_val_of_enc_u16(x: u16)
    ensures
        le_val(enc_u16(x)) == x,
{
    assert(vstd::arithmetic::power::pow(256, 2) == 0x10000) by {
        reveal_with_fuel(vstd::arithmetic::power::pow, 3);
    }
    lemma_le_val_of_bytes(x as nat, 2);
}

/// The raw bytes of an id list are twenty per id.
pub proof fn lemma_enc_raw_ids_len(ids: Seq<ObjectId>)
    ensures
        enc_raw_ids(ids).len() == OBJECT_ID_BYTES * ids.len(),
    decreases ids.len(),
{
    if ids.len() > 0 {
        lemma_enc_raw_ids_len(ids.drop_first());
    }
}

/// A `u64` is the value of its own little-endian encoding.
pub proof fn lemma_le_val_of_enc_u64(x: u64)
    ensures
        le_val(enc_u64(x)) == x,
{
    assert(vstd::arithmetic::power::pow(256, 8) == 0x10000000000000000) by {
        reveal_with_fuel(vstd::arithmetic::power::pow, 9);
    }
    lemma_le_val_of_bytes(x as nat, 8);
}

/// Reads a peer address: the family tag, the port, then the four IPv4
/// octets. An IPv6 tag is rejected at parse time.
pub fn read_socket_addr(buf: &[u8], pos: usize) -> (r: ReadOutcome<PeerAddr>)
    requires
        pos <= buf@.len(),
    ensures
        r matches ReadOutcome::Done(a, end) ==> {
            &&& end == pos + 7 <= buf@.len()
            &&& enc_addr(a) == buf@.subrange(pos as int, end as int)
        },
        r is Done <==> pos + 3 <= buf@.len() && buf@[pos as int] == IPV4_TYPE_ID && pos + 7
            <= buf@.len(),
        r matches ReadOutcome::Failed(e) ==> {
            &&& pos + 3 <= buf@.len()
            &&& buf@[pos as int] != IPV4_TYPE_ID
            &&& e == RequestError::InvalidPeerAddressType(buf@[pos as int])
        },
        r is Incomplete <==> pos + 3 > buf@.len() || (buf@[pos as int] == IPV4_TYPE_ID && pos + 7
            > buf@.len()),
{
    if buf.len() - pos < 1 {
        return ReadOutcome::Incomplete;
    }
    let addr_type = buf[pos];
    let (port, cur) = match read_u16_le(buf, pos + 1) {
        Some(x) => x,
        None => {
            return ReadOutcome::Incomplete;
        },
    };
    if addr_type != IPV4_TYPE_ID {
        return ReadOutcome::Failed(RequestError::InvalidPeerAddressType(addr_type));
    }
    if buf.len() - cur < 4 {
        return ReadOutcome::Incomplete;
    }
    let mut octets: [u8; 4] = [0u8; 4];
    octets[0] = buf[cur];
    octets[1] = buf[cur + 1];
    octets[2] = buf[cur + 2];
    octets[3] = buf[cur + 3];
    let addr = PeerAddr { octets, port };
    proof {
        assert(octets@ =~= buf@.subrange(cur as int, cur + 4));
        assert(buf@.subrange(pos as int, pos + 7) =~= seq![buf@[pos as int]] + buf@.subrange(
            pos + 1,
            pos + 3,
        ) + buf@.subrange(pos + 3, pos + 7));
        assert(enc_addr(addr) =~= buf@.subrange(pos as int, pos + 7));
    }
    ReadOutcome::Done(addr, cur + 4)
}

/// The data-plane object header: metadata size in the lower 16 bits,
/// data size in the upper 48 bits.
pub fn encode_object_header(meta_size: u64, data_size: u64) -> (r: u64)
    requires
        meta_size < 0x10000,
        data_size < 0x1000000000000,
    ensures
        r == meta_size + data_size * 0x10000,
        r % 0x10000 == meta_size,
        r / 0x10000 == data_size,
{
    proof {
        assert(meta_size + data_size * 0x10000 <= 0xffffffffffffffff && (meta_size + data_size
            * 0x10000) % 0x10000 == meta_size && (meta_size + data_size * 0x10000) / 0x10000
            == data_size) by (nonlinear_arith)
            requires
                meta_size < 0x10000,
                data_size < 0x1000000000000,
        ;
    }
    meta_size + data_size * 0x10000
}

/// Splits an object header into metadata size (lower 16 bits) and data
/// size (upper 48 bits).
pub fn decode_object_header(header: u64) -> (r: (u64, u64))
    ensures
        r.0 == header % 0x10000,
        r.1 == header / 0x10000,
        r.0 < 0x10000,
        r.1 < 0x1000000000000,
        header == r.0 + r.1 * 0x10000,
{
    proof {
        assert(header % 0x10000 < 0x10000 && header / 0x10000 < 0x1000000000000 && header == header
            % 0x10000 + (header / 0x10000) * 0x10000) by (nonlinear_arith)
            requires
                header <= 0xffffffffffffffff,
        ;
    }
    (header % 0x10000, header / 0x10000)
}

/// Whether every peer request in the list fits the wire format.
fn peer_list_fits(prs: &Vec<PeerRequest>) -> (b: bool)
    ensures
        b == (forall|j: int| 0 <= j < prs@.len() ==> (#[trigger] peer_request_encodable(prs@[j]))),
{
    let n = prs.len();
    let mut i: usize = 0;
    while i < n
        invariant
            n == prs@.len(),
            i <= n,
            forall|j: int| 0 <= j < i ==> (#[trigger] peer_request_encodable(prs@[j])),
        decreases n - i,
    {
        let fits = match &prs[i] {
            PeerRequest::Copy { objects, .. } => objects.len() <= 0xffff,
            PeerRequest::Take { objects, .. } => objects.len() <= 0xffff,
        };
        if !fits {
            proof {
                assert(!peer_request_encodable(prs@[i as int]));
            }
            return false;
        }
        i += 1;
    }
    true
}

/// Checks whether a request fits the wire format's `u16` count fields,
/// so that it can be written out.
pub fn request_fits_wire(r: &Request) -> (b: bool)
    ensures
        b == request_encodable(*r),
{
    match r {
        Request::Sync(prs) => prs.len() <= 0xffff && peer_list_fits(prs),
        Request::Copy(ids) => ids.len() <= 0xffff,
        Request::Take(ids) => ids.len() <= 0xffff,
    }
}


/// What a buffer looks like when it starts with the encoding of a leaf
/// (COPY or TAKE) request.
pub open spec fn leaf_encoded_at(req: Request, buf: Seq<u8>, pos: int) -> bool {
    &&& !(req is Sync)
    &&& request_encodable(req)
    &&& 0 <= pos
    &&& pos + enc_request(req).len() <= buf.len()
    &&& buf.subrange(pos, pos + enc_request(req).len()) == enc_request(req)
}

/// Unpacks what [`leaf_encoded_at`] says byte by byte: the tag, the
/// count field, and the id-list region of the buffer.
proof fn lemma_leaf_shape(req: Request, buf: Seq<u8>, pos: int)
    requires
        leaf_encoded_at(req, buf, pos),
    ensures
        pos + 3 <= buf.len(),
        buf[pos] == COPY_TYPE_ID || buf[pos] == TAKE_TYPE_ID,
        req matches Request::Copy(ids) ==> {
            &&& buf[pos] == COPY_TYPE_ID
            &&& ids@.len() <= 0xffff
            &&& enc_request(req).len() == 3 + OBJECT_ID_BYTES * ids@.len()
            &&& le_val(buf.subrange(pos + 1, pos + 3)) == ids@.len()
            &&& buf.subrange(pos + 1, pos + enc_request(req).len()) == enc_id_list(ids@)
        },
        req matches Request::Take(ids) ==> {
            &&& buf[pos] == TAKE_TYPE_ID
            &&& ids@.len() <= 0xffff
            &&& enc_request(req).len() == 3 + OBJECT_ID_BYTES * ids@.len()
            &&& le_val(buf.subrange(pos + 1, pos + 3)) == ids@.len()
            &&& buf.subrange(pos + 1, pos + enc_request(req).len()) == enc_id_list(ids@)
        },
{
    let e = enc_request(req);
    match req {
        Request::Sync(_) => {
            assert(false);
        },
        Request::Copy(ids) => {
            lemma_leaf_shape_list(COPY_TYPE_ID, ids@, e, buf, pos);
        },
        Request::Take(ids) => {
            lemma_leaf_shape_list(TAKE_TYPE_ID, ids@, e, buf, pos);
        },
    }
}

/// The common part of [`lemma_leaf_shape`] for the two leaf tags.
proof fn lemma_leaf_shape_list(tag: u8, ids: Seq<ObjectId>, e: Seq<u8>, buf: Seq<u8>, pos: int)
    requires
        ids.len() <= 0xffff,
        e == seq![tag] + enc_id_list(ids),
        0 <= pos,
        pos + e.len() <= buf.len(),
        buf.subrange(pos, pos + e.len()) == e,
    ensures
        pos + 3 <= buf.len(),
        buf[pos] == tag,
        e.len() == 3 + OBJECT_ID_BYTES * ids.len(),
        le_val(buf.subrange(pos + 1, pos + 3)) == ids.len(),
        buf.subrange(pos + 1, pos + e.len()) == enc_id_list(ids),
{
    lemma_le_bytes_len(ids.len() as u16 as nat, 2);
    lemma_enc_raw_ids_len(ids);
    assert(enc_u16(ids.len() as u16).len() == 2);
    assert(enc_id_list(ids).len() == 2 + OBJECT_ID_BYTES * ids.len());
    assert(e.len() == 3 + OBJECT_ID_BYTES * ids.len());
    assert(buf[pos] == buf.subrange(pos, pos + e.len())[0]);
    assert(e[0] == tag);
    assert(buf.subrange(pos + 1, pos + 3) =~= enc_u16(ids.len() as u16)) by {
        assert forall|k: int| 0 <= k < 2 implies #[trigger] buf.subrange(pos + 1, pos + 3)[k]
            == enc_u16(ids.len() as u16)[k] by {
            assert(buf.subrange(pos, pos + e.len())[1 + k] == e[1 + k]);
            assert(e[1 + k] == enc_id_list(ids)[k]);
            assert(enc_id_list(ids)[k] == enc_u16(ids.len() as u16)[k]);
        }
    }
    lemma_le_val_of_enc_u16(ids.len() as u16);
    assert(buf.subrange(pos + 1, pos + e.len()) =~= enc_id_list(ids)) by {
        assert forall|k: int|
            0 <= k < e.len() - 1 implies #[trigger] buf.subrange(pos + 1, pos + e.len())[k]
            == enc_id_list(ids)[k] by {
            assert(buf.subrange(pos, pos + e.len())[1 + k] == e[1 + k]);
            assert(e[1 + k] == enc_id_list(ids)[k]);
        }
    }
}

/// What a buffer looks like when it starts with the encoding of a peer
/// request.
pub open spec fn peer_encoded_at(p: PeerRequest, buf: Seq<u8>, pos: int) -> bool {
    &&& peer_request_encodable(p)
    &&& 0 <= pos
    &&& pos + enc_peer_request(p).len() <= buf.len()
    &&& buf.subrange(pos, pos + enc_peer_request(p).len()) == enc_peer_request(p)
}

/// Unpacks what [`peer_encoded_at`] says byte by byte: the tag, the
/// address region, the count field, and the id-list region.
proof fn lemma_peer_shape(p: PeerRequest, buf: Seq<u8>, pos: int)
    requires
        peer_encoded_at(p, buf, pos),
    ensures
        ({
            let ids = match p {
                PeerRequest::Copy { objects, .. } => objects@,
                PeerRequest::Take { objects, .. } => objects@,
            };
            &&& pos + 10 <= buf.len()
            &&& buf[pos] == (if p is Copy {
                COPY_TYPE_ID
            } else {
                TAKE_TYPE_ID
            })
            &&& enc_peer_request(p).len() == 10 + OBJECT_ID_BYTES * ids.len()
            &&& buf[pos + 1] == IPV4_TYPE_ID
            &&& buf.subrange(pos + 1, pos + 8) == enc_addr(crate::request::peer_request_from(p))
            &&& le_val(buf.subrange(pos + 8, pos + 10)) == ids.len()
            &&& ids.len() <= 0xffff
            &&& buf.subrange(pos + 8, pos + enc_peer_request(p).len()) == enc_id_list(ids)
        }),
{
    let e = enc_peer_request(p);
    let from = crate::request::peer_request_from(p);
    let ids = match p {
        PeerRequest::Copy { objects, .. } => objects@,
        PeerRequest::Take { objects, .. } => objects@,
    };
    lemma_le_bytes_len(from.port as nat, 2);
    lemma_le_bytes_len(ids.len() as u16 as nat, 2);
    lemma_enc_raw_ids_len(ids);
    assert(enc_addr(from).len() == 7);
    assert(enc_id_list(ids).len() == 2 + OBJECT_ID_BYTES * ids.len());
    assert(e.len() == 10 + OBJECT_ID_BYTES * ids.len());
    assert(e =~= seq![e[0]] + enc_addr(from) + enc_id_list(ids));
    assert(buf[pos] == buf.subrange(pos, pos + e.len())[0]);
    assert(buf.subrange(pos + 1, pos + 8) =~= enc_addr(from)) by {
        assert forall|k: int| 0 <= k < 7 implies #[trigger] buf.subrange(pos + 1, pos + 8)[k]
            == enc_addr(from)[k] by {
            assert(buf.subrange(pos, pos + e.len())[1 + k] == e[1 + k]);
            assert(e[1 + k] == enc_addr(from)[k]);
        }
    }
    assert(enc_addr(from)[0] == IPV4_TYPE_ID);
    assert(buf[pos + 1] == buf.subrange(pos + 1, pos + 8)[0]);
    assert(buf.subrange(pos + 8, pos + 10) =~= enc_u16(ids.len() as u16)) by {
        assert forall|k: int| 0 <= k < 2 implies #[trigger] buf.subrange(pos + 8, pos + 10)[k]
            == enc_u16(ids.len() as u16)[k] by {
            assert(buf.subrange(pos, pos + e.len())[8 + k] == e[8 + k]);
            assert(e[8 + k] == enc_id_list(ids)[k]);
            assert(enc_id_list(ids)[k] == enc_u16(ids.len() as u16)[k]);
        }
    }
    lemma_le_val_of_enc_u16(ids.len() as u16);
    assert(buf.subrange(pos + 8, pos + e.len()) =~= enc_id_list(ids)) by {
        assert forall|k: int|
            0 <= k < e.len() - 8 implies #[trigger] buf.subrange(pos + 8, pos + e.len())[k]
            == enc_id_list(ids)[k] by {
            assert(buf.subrange(pos, pos + e.len())[8 + k] == e[8 + k]);
            assert(e[8 + k] == enc_id_list(ids)[k]);
        }
    }
}

/// What a buffer looks like when it starts with the encoding of a SYNC
/// request.
pub open spec fn sync_encoded_at(req: Request, buf: Seq<u8>, pos: int) -> bool {
    &&& req is Sync
    &&& request_encodable(req)
    &&& 0 <= pos
    &&& pos + enc_request(req).len() <= buf.len()
    &&& buf.subrange(pos, pos + enc_request(req).len()) == enc_request(req)
}

/// The encoded peer list splits at any index.
proof fn lemma_enc_peer_list_split(prs: Seq<PeerRequest>, i: int)
    requires
        0 <= i <= prs.len(),
    ensures
        enc_peer_list(prs) == enc_peer_list(prs.subrange(0, i)) + enc_peer_list(
            prs.subrange(i, prs.len() as int),
        ),
    decreases i,
{
    if i == 0 {
        assert(prs.subrange(0, 0) =~= Seq::<PeerRequest>::empty());
        assert(enc_peer_list(Seq::<PeerRequest>::empty()) =~= Seq::<u8>::empty());
        assert(prs.subrange(0, prs.len() as int) =~= prs);
        assert(enc_peer_list(prs) =~= enc_peer_list(prs.subrange(0, 0)) + enc_peer_list(
            prs.subrange(0, prs.len() as int),
        ));
    } else {
        lemma_enc_peer_list_split(prs, i - 1);
        lemma_enc_peer_list_snoc(prs, i - 1);
        let tail = prs.subrange(i - 1, prs.len() as int);
        assert(tail[0] == prs[i - 1]);
        assert(tail.drop_first() =~= prs.subrange(i, prs.len() as int));
        assert(enc_peer_list(tail) == enc_peer_request(prs[i - 1]) + enc_peer_list(
            prs.subrange(i, prs.len() as int),
        ));
        assert(enc_peer_list(prs) =~= enc_peer_list(prs.subrange(0, i)) + enc_peer_list(
            prs.subrange(i, prs.len() as int),
        ));
    }
}

/// Unpacks what [`sync_encoded_at`] says byte by byte: the tag, the
/// count field, and the peer-list region.
proof fn lemma_sync_shape(req: Request, buf: Seq<u8>, pos: int)
    requires
        sync_encoded_at(req, buf, pos),
    ensures
        ({
            let prs = req->Sync_0@;
            &&& pos + 3 <= buf.len()
            &&& buf[pos] == SYNC_TYPE_ID
            &&& prs.len() <= 0xffff
            &&& enc_request(req).len() == 3 + enc_peer_list(prs).len()
            &&& le_val(buf.subrange(pos + 1, pos + 3)) == prs.len()
            &&& buf.subrange(pos + 3, pos + enc_request(req).len()) == enc_peer_list(prs)
        }),
{
    let prs = req->Sync_0@;
    let e = enc_request(req);
    lemma_le_bytes_len(prs.len() as u16 as nat, 2);
    assert(e =~= seq![SYNC_TYPE_ID] + enc_u16(prs.len() as u16) + enc_peer_list(prs));
    assert(e.len() == 3 + enc_peer_list(prs).len());
    assert(buf[pos] == buf.subrange(pos, pos + e.len())[0]);
    assert(buf.subrange(pos + 1, pos + 3) =~= enc_u16(prs.len() as u16)) by {
        assert forall|k: int| 0 <= k < 2 implies #[trigger] buf.subrange(pos + 1, pos + 3)[k]
            == enc_u16(prs.len() as u16)[k] by {
            assert(buf.subrange(pos, pos + e.len())[1 + k] == e[1 + k]);
            assert(e[1 + k] == enc_u16(prs.len() as u16)[k]);
        }
    }
    lemma_le_val_of_enc_u16(prs.len() as u16);
    assert(buf.subrange(pos + 3, pos + e.len()) =~= enc_peer_list(prs)) by {
        assert forall|k: int|
            0 <= k < e.len() - 3 implies #[trigger] buf.subrange(pos + 3, pos + e.len())[k]
            == enc_peer_list(prs)[k] by {
            assert(buf.subrange(pos, pos + e.len())[3 + k] == e[3 + k]);
            assert(e[3 + k] == enc_peer_list(prs)[k]);
        }
    }
}

/// Inside a SYNC whose peer list occupies a known region of the buffer,
/// the peer request after an already-consumed prefix is itself encoded
/// at the cursor.
proof fn lemma_sync_step(req: Request, buf: Seq<u8>, pos: int, i: int, cur: int)
    requires
        sync_encoded_at(req, buf, pos),
        0 <= i < req->Sync_0@.len(),
        cur == pos + 3 + enc_peer_list(req->Sync_0@.subrange(0, i)).len(),
    ensures
        peer_encoded_at(req->Sync_0@[i], buf, cur),
        cur + enc_peer_request(req->Sync_0@[i]).len() == pos + 3 + enc_peer_list(
            req->Sync_0@.subrange(0, i + 1),
        ).len(),
{
    let prs = req->Sync_0@;
    let p = prs[i];
    lemma_sync_shape(req, buf, pos);
    lemma_enc_peer_list_split(prs, i);
    lemma_enc_peer_list_snoc(prs, i);
    let head = enc_peer_list(prs.subrange(0, i));
    let tail = prs.subrange(i, prs.len() as int);
    assert(tail[0] == p);
    assert(tail.drop_first() =~= prs.subrange(i + 1, prs.len() as int));
    assert(enc_peer_list(tail) == enc_peer_request(p) + enc_peer_list(
        prs.subrange(i + 1, prs.len() as int),
    ));
    let region = buf.subrange(pos + 3, pos + enc_request(req).len());
    assert(buf.subrange(cur, cur + enc_peer_request(p).len()) =~= enc_peer_request(p)) by {
        assert forall|k: int|
            0 <= k < enc_peer_request(p).len() implies #[trigger] buf.subrange(
            cur,
            cur + enc_peer_request(p).len(),
        )[k] == enc_peer_request(p)[k] by {
            assert(region[head.len() + k] == enc_peer_list(prs)[head.len() + k]);
            assert(enc_peer_list(prs)[head.len() + k] == enc_peer_list(tail)[k]);
            assert(enc_peer_list(tail)[k] == enc_peer_request(p)[k]);
        }
    }
    assert(peer_request_encodable(p));
}

/// The little-endian encoding of a value is as long as asked for.
pub proof fn lemma_le_bytes_len(x: nat, n: nat)
    ensures
        le_bytes(x, n).len() == n,
    decreases n,
{
    if n > 0 {
        lemma_le_bytes_len(x / 256, (n - 1) as nat);
    }
}

impl PeerRequest {
    /// Writes a SYNC peer request into the output buffer.
    pub fn write_into(&self, out: &mut Vec<u8>)
        requires
            peer_request_encodable(*self),
        ensures
            final(out)@ == old(out)@ + enc_peer_request(*self),
    {
        match self {
            PeerRequest::Copy { from, objects } => {
                out.push(COPY_TYPE_ID);
                write_peer_addr(from, out);
                write_object_id_list(objects, out);
                proof {
                    assert(out@ =~= old(out)@ + enc_peer_request(*self));
                }
            },
            PeerRequest::Take { from, objects } => {
                out.push(TAKE_TYPE_ID);
                write_peer_addr(from, out);
                write_object_id_list(objects, out);
                proof {
                    assert(out@ =~= old(out)@ + enc_peer_request(*self));
                }
            },
        }
    }

    /// Reads a SYNC peer request: its type tag, the source address, and
    /// the object-id list. A buffer that starts with the encoding of a
    /// peer request parses back to exactly that encoding.
    pub fn read_from(buf: &[u8], pos: usize) -> (r: ReadOutcome<PeerRequest>)
        requires
            pos <= buf@.len(),
        ensures
            forall|hp: PeerRequest|
                #[trigger] peer_encoded_at(hp, buf@, pos as int) ==> (r matches ReadOutcome::Done(
                    p2,
                    end,
                ) && end == pos + enc_peer_request(hp).len() && enc_peer_request(p2)
                    == enc_peer_request(hp)),
            r matches ReadOutcome::Done(p, end) ==> {
                &&& pos <= end <= buf@.len()
                &&& enc_peer_request(p) == buf@.subrange(pos as int, end as int)
                &&& peer_request_encodable(p)
            },
            r matches ReadOutcome::Failed(e) ==> {
                &&& (e matches RequestError::InvalidPeerRequestType(_) || e matches
                    RequestError::InvalidPeerAddressType(_))
                &&& (e matches RequestError::InvalidPeerRequestType(t) ==> pos < buf@.len() && buf@[pos as int]
                    == t && t != COPY_TYPE_ID && t != TAKE_TYPE_ID)
            },
            (pos < buf@.len() && buf@[pos as int] != COPY_TYPE_ID && buf@[pos as int]
                != TAKE_TYPE_ID) ==> (r matches ReadOutcome::Failed(e) && e
                == RequestError::InvalidPeerRequestType(buf@[pos as int])),
    {
        if buf.len() - pos < 1 {
            proof {
                assert forall|hp: PeerRequest| !peer_encoded_at(hp, buf@, pos as int) by {
                    if peer_encoded_at(hp, buf@, pos as int) {
                        lemma_peer_shape(hp, buf@, pos as int);
                    }
                }
            }
            return ReadOutcome::Incomplete;
        }
        let request_type = buf[pos];
        if request_type != COPY_TYPE_ID && request_type != TAKE_TYPE_ID {
            proof {
                assert forall|hp: PeerRequest| !peer_encoded_at(hp, buf@, pos as int) by {
                    if peer_encoded_at(hp, buf@, pos as int) {
                        lemma_peer_shape(hp, buf@, pos as int);
                    }
                }
            }
            return ReadOutcome::Failed(RequestError::InvalidPeerRequestType(request_type));
        }
        let (from, mid) = match read_socket_addr(buf, pos + 1) {
            ReadOutcome::Done(a, mid) => (a, mid),
            ReadOutcome::Incomplete => {
                proof {
                    assert forall|hp: PeerRequest| !peer_encoded_at(hp, buf@, pos as int) by {
                        if peer_encoded_at(hp, buf@, pos as int) {
                            lemma_peer_shape(hp, buf@, pos as int);
                        }
                    }
                }
                return ReadOutcome::Incomplete;
            },
            ReadOutcome::Failed(e) => {
                proof {
                    assert forall|hp: PeerRequest| !peer_encoded_at(hp, buf@, pos as int) by {
                        if peer_encoded_at(hp, buf@, pos as int) {
                            lemma_peer_shape(hp, buf@, pos as int);
                        }
                    }
                }
                return ReadOutcome::Failed(e);
            },
        };
        let (objects, end) = match read_object_id_list(buf, mid) {
            Some(x) => x,
            None => {
                proof {
                    assert forall|hp: PeerRequest| !peer_encoded_at(hp, buf@, pos as int) by {
                        if peer_encoded_at(hp, buf@, pos as int) {
                            lemma_peer_shape(hp, buf@, pos as int);
                        }
                    }
                }
                return ReadOutcome::Incomplete;
            },
        };
        let p = if request_type == COPY_TYPE_ID {
            PeerRequest::Copy { from, objects }
        } else {
            PeerRequest::Take { from, objects }
        };
        proof {
            assert(buf@.subrange(pos as int, end as int) =~= seq![buf@[pos as int]]
                + buf@.subrange(pos + 1, mid as int) + buf@.subrange(mid as int, end as int));
            assert(enc_peer_request(p) =~= buf@.subrange(pos as int, end as int));
            assert forall|hp: PeerRequest|
                peer_encoded_at(hp, buf@, pos as int) implies (end == pos + enc_peer_request(
                hp,
            ).len() && enc_peer_request(p) == enc_peer_request(hp)) by {
                lemma_peer_shape(hp, buf@, pos as int);
                assert(peer_encoded_at(p, buf@, pos as int));
                lemma_peer_shape(p, buf@, pos as int);
            }
        }
        ReadOutcome::Done(p, end)
    }
}

impl Request {
    /// Writes this request into the output buffer.
    pub fn write_into(&self, out: &mut Vec<u8>)
        requires
            request_encodable(*self),
        ensures
            final(out)@ == old(out)@ + enc_request(*self),
    {
        match self {
            Request::Sync(peer_requests) => {
                out.push(SYNC_TYPE_ID);
                write_u16_le(peer_requests.len() as u16, out);
                let ghost head = old(out)@ + seq![SYNC_TYPE_ID] + enc_u16(
                    peer_requests@.len() as u16,
                );
                assert(out@ =~= head);
                let n = peer_requests.len();
                let mut i: usize = 0;
                while i < n
                    invariant
                        n == peer_requests@.len(),
                        i <= n,
                        out@ == head + enc_peer_list(peer_requests@.subrange(0, i as int)),
                        forall|j: int|
                            0 <= j < n ==> (#[trigger] peer_request_encodable(peer_requests@[j])),
                    decreases n - i,
                {
                    peer_requests[i].write_into(out);
                    proof {
                        lemma_enc_peer_list_snoc(peer_requests@, i as int);
                    }
                    i += 1;
                }
                proof {
                    assert(peer_requests@.subrange(0, n as int) =~= peer_requests@);
                    assert(out@ =~= old(out)@ + enc_request(*self));
                }
            },
            Request::Copy(object_ids) => {
                out.push(COPY_TYPE_ID);
                write_object_id_list(object_ids, out);
                proof {
                    assert(out@ =~= old(out)@ + enc_request(*self));
                }
            },
            Request::Take(object_ids) => {
                out.push(TAKE_TYPE_ID);
                write_object_id_list(object_ids, out);
                proof {
                    assert(out@ =~= old(out)@ + enc_request(*self));
                }
            },
        }
    }

    /// Reads a request from a byte buffer. The bytes consumed by a
    /// complete request are exactly its re-encoding, so parsing and then
    /// writing the request back reproduces the received byte stream.
    ///
    /// An empty buffer yields `Incomplete`: whether that is a clean
    /// end-of-stream or a truncated request is for the caller to decide
    /// from the transport.
    ///
    /// A buffer that starts with the encoding of a COPY or TAKE request
    /// parses back to exactly that encoding: the leaf requests servers
    /// exchange always parse.
    pub fn read_from(buf: &[u8], pos: usize) -> (r: ReadOutcome<Request>)
        requires
            pos <= buf@.len(),
        ensures
            forall|hreq: Request|
                #[trigger] leaf_encoded_at(hreq, buf@, pos as int) ==> (r matches
                    ReadOutcome::Done(req2, end) && end == pos + enc_request(hreq).len()
                    && enc_request(req2) == enc_request(hreq)),
            forall|hreq: Request|
                #[trigger] sync_encoded_at(hreq, buf@, pos as int) ==> (r matches
                    ReadOutcome::Done(req2, end) && end == pos + enc_request(hreq).len()
                    && enc_request(req2) == enc_request(hreq)),
            r matches ReadOutcome::Done(req, end) ==> {
                &&& pos < end <= buf@.len()
                &&& enc_request(req) == buf@.subrange(pos as int, end as int)
                &&& request_encodable(req)
            },
            r matches ReadOutcome::Failed(e) ==> {
                &&& (e matches RequestError::InvalidRequestType(_) || e matches
                    RequestError::InvalidPeerRequestType(_) || e matches
                    RequestError::InvalidPeerAddressType(_))
                &&& (e matches RequestError::InvalidRequestType(t) ==> pos < buf@.len()
                    && buf@[pos as int] == t && t != SYNC_TYPE_ID && t != COPY_TYPE_ID && t
                    != TAKE_TYPE_ID)
            },
            pos == buf@.len() ==> r is Incomplete,
            (pos < buf@.len() && buf@[pos as int] != SYNC_TYPE_ID && buf@[pos as int]
                != COPY_TYPE_ID && buf@[pos as int] != TAKE_TYPE_ID) ==> (r matches
                ReadOutcome::Failed(e) && e == RequestError::InvalidRequestType(
                buf@[pos as int],
            )),
    {
        if buf.len() - pos < 1 {
            proof {
                assert forall|hreq: Request| !leaf_encoded_at(hreq, buf@, pos as int) by {
                    if leaf_encoded_at(hreq, buf@, pos as int) {
                        lemma_leaf_shape(hreq, buf@, pos as int);
                    }
                }
                assert forall|hreq: Request| !sync_encoded_at(hreq, buf@, pos as int) by {
                    if sync_encoded_at(hreq, buf@, pos as int) {
                        lemma_sync_shape(hreq, buf@, pos as int);
                    }
                }
            }
            return ReadOutcome::Incomplete;
        }
        let request_type = buf[pos];
        if request_type == SYNC_TYPE_ID {
            proof {
                assert forall|hreq: Request| !leaf_encoded_at(hreq, buf@, pos as int) by {
                    if leaf_encoded_at(hreq, buf@, pos as int) {
                        lemma_leaf_shape(hreq, buf@, pos as int);
                    }
                }
            }
            let (count, mut cur) = match read_u16_le(buf, pos + 1) {
                Some(x) => x,
                None => {
                    proof {
                        assert forall|hreq: Request| !sync_encoded_at(hreq, buf@, pos as int) by {
                            if sync_encoded_at(hreq, buf@, pos as int) {
                                lemma_sync_shape(hreq, buf@, pos as int);
                            }
                        }
                    }
                    return ReadOutcome::Incomplete;
                },
            };
            proof {
                assert forall|hreq: Request|
                    #[trigger] sync_encoded_at(hreq, buf@, pos as int) implies (hreq->Sync_0@.len()
                    == count as int) by {
                    lemma_sync_shape(hreq, buf@, pos as int);
                    lemma_le_val_of_enc_u16(count);
                }
            }
            let ghost head_end = cur;
            let n = count as usize;
            let mut peer_requests: Vec<PeerRequest> = Vec::new();
            let mut i: usize = 0;
            proof {
                assert forall|hreq: Request|
                    #[trigger] sync_encoded_at(hreq, buf@, pos as int) implies (enc_peer_list(
                    peer_requests@,
                ) == enc_peer_list(hreq->Sync_0@.subrange(0, 0)) && cur == pos + 3 + enc_peer_list(
                    hreq->Sync_0@.subrange(0, 0),
                ).len()) by {
                    assert(hreq->Sync_0@.subrange(0, 0) =~= Seq::<PeerRequest>::empty());
                    assert(enc_peer_list(Seq::<PeerRequest>::empty()) =~= Seq::<u8>::empty());
                    assert(peer_requests@ =~= Seq::<PeerRequest>::empty());
                }
            }
            while i < n
                invariant
                    n == count as int,
                    i <= n,
                    pos < buf@.len(),
                    buf@[pos as int] == SYNC_TYPE_ID,
                    forall|hreq: Request| !leaf_encoded_at(hreq, buf@, pos as int),
                    forall|hreq: Request|
                        #[trigger] sync_encoded_at(hreq, buf@, pos as int) ==> (hreq->Sync_0@.len()
                            == n && enc_peer_list(peer_requests@) == enc_peer_list(
                            hreq->Sync_0@.subrange(0, i as int),
                        ) && cur == pos + 3 + enc_peer_list(
                            hreq->Sync_0@.subrange(0, i as int),
                        ).len()),
                    pos + 3 == head_end <= cur <= buf@.len(),
                    peer_requests@.len() == i,
                    enc_peer_list(peer_requests@) == buf@.subrange(head_end as int, cur as int),
                    forall|j: int|
                        0 <= j < i ==> (#[trigger] peer_request_encodable(peer_requests@[j])),
                decreases n - i,
            {
                let ghost cur0 = cur as int;
                let (p, next) = match PeerRequest::read_from(buf, cur) {
                    ReadOutcome::Done(p, next) => (p, next),
                    ReadOutcome::Incomplete => {
                        proof {
                            assert forall|hreq: Request|
                                !sync_encoded_at(hreq, buf@, pos as int) by {
                                if sync_encoded_at(hreq, buf@, pos as int) {
                                    lemma_sync_step(hreq, buf@, pos as int, i as int, cur0);
                                }
                            }
                        }
                        return ReadOutcome::Incomplete;
                    },
                    ReadOutcome::Failed(e) => {
                        proof {
                            assert forall|hreq: Request|
                                !sync_encoded_at(hreq, buf@, pos as int) by {
                                if sync_encoded_at(hreq, buf@, pos as int) {
                                    lemma_sync_step(hreq, buf@, pos as int, i as int, cur0);
                                }
                            }
                        }
                        return ReadOutcome::Failed(e);
                    },
                };
                let ghost prev = peer_requests@;
                peer_requests.push(p);
                proof {
                    assert(peer_requests@.subrange(0, i as int) =~= prev);
                    assert(peer_requests@.subrange(0, i + 1) =~= peer_requests@);
                    lemma_enc_peer_list_snoc(peer_requests@, i as int);
                    assert(buf@.subrange(head_end as int, next as int) =~= buf@.subrange(
                        head_end as int,
                        cur as int,
                    ) + buf@.subrange(cur as int, next as int));
                    assert forall|hreq: Request|
                        #[trigger] sync_encoded_at(hreq, buf@, pos as int) implies (enc_peer_list(
                        peer_requests@,
                    ) == enc_peer_list(hreq->Sync_0@.subrange(0, i + 1)) && next as int == pos + 3
                        + enc_peer_list(hreq->Sync_0@.subrange(0, i + 1)).len()) by {
                        lemma_sync_step(hreq, buf@, pos as int, i as int, cur0);
                        assert(peer_encoded_at(hreq->Sync_0@[i as int], buf@, cur0));
                        assert(enc_peer_request(p) == enc_peer_request(hreq->Sync_0@[i as int]));
                        lemma_enc_peer_list_snoc(hreq->Sync_0@, i as int);
                        assert(enc_peer_list(peer_requests@) == enc_peer_list(prev)
                            + enc_peer_request(p));
                    }
                }
                cur = next;
                i += 1;
            }
            let req = Request::Sync(peer_requests);
            proof {
                assert(buf@.subrange(pos as int, cur as int) =~= seq![buf@[pos as int]]
                    + buf@.subrange(pos + 1, pos + 3) + buf@.subrange(pos + 3, cur as int));
                assert(enc_request(req) =~= buf@.subrange(pos as int, cur as int));
                assert forall|hreq: Request|
                    #[trigger] sync_encoded_at(hreq, buf@, pos as int) implies (cur as int == pos
                    + enc_request(hreq).len() && enc_request(req) == enc_request(hreq)) by {
                    lemma_sync_shape(hreq, buf@, pos as int);
                    assert(hreq->Sync_0@.subrange(0, n as int) =~= hreq->Sync_0@);
                }
            }
            ReadOutcome::Done(req, cur)
        } else if request_type == COPY_TYPE_ID {
            let (object_ids, end) = match read_object_id_list(buf, pos + 1) {
                Some(x) => x,
                None => {
                    proof {
                        assert forall|hreq: Request| !leaf_encoded_at(hreq, buf@, pos as int) by {
                            if leaf_encoded_at(hreq, buf@, pos as int) {
                                lemma_leaf_shape(hreq, buf@, pos as int);
                            }
                        }
                        assert forall|hreq: Request| !sync_encoded_at(hreq, buf@, pos as int) by {
                            if sync_encoded_at(hreq, buf@, pos as int) {
                                lemma_sync_shape(hreq, buf@, pos as int);
                            }
                        }
                    }
                    return ReadOutcome::Incomplete;
                },
            };
            let req = Request::Copy(object_ids);
            proof {
                assert(buf@.subrange(pos as int, end as int) =~= seq![buf@[pos as int]]
                    + buf@.subrange(pos + 1, end as int));
                assert(enc_request(req) =~= buf@.subrange(pos as int, end as int));
                assert forall|hreq: Request|
                    leaf_encoded_at(hreq, buf@, pos as int) implies (end == pos + enc_request(
                    hreq,
                ).len() && enc_request(req) == enc_request(hreq)) by {
                    lemma_leaf_shape(hreq, buf@, pos as int);
                    assert(leaf_encoded_at(req, buf@, pos as int));
                    lemma_leaf_shape(req, buf@, pos as int);
                }
                assert forall|hreq: Request| !sync_encoded_at(hreq, buf@, pos as int) by {
                    if sync_encoded_at(hreq, buf@, pos as int) {
                        lemma_sync_shape(hreq, buf@, pos as int);
                    }
                }
            }
            ReadOutcome::Done(req, end)
        } else if request_type == TAKE_TYPE_ID {
            let (object_ids, end) = match read_object_id_list(buf, pos + 1) {
                Some(x) => x,
                None => {
                    proof {
                        assert forall|hreq: Request| !leaf_encoded_at(hreq, buf@, pos as int) by {
                            if leaf_encoded_at(hreq, buf@, pos as int) {
                                lemma_leaf_shape(hreq, buf@, pos as int);
                            }
                        }
                        assert forall|hreq: Request| !sync_encoded_at(hreq, buf@, pos as int) by {
                            if sync_encoded_at(hreq, buf@, pos as int) {
                                lemma_sync_shape(hreq, buf@, pos as int);
                            }
                        }
                    }
                    return ReadOutcome::Incomplete;
                },
            };
            let req = Request::Take(object_ids);
            proof {
                assert(buf@.subrange(pos as int, end as int) =~= seq![buf@[pos as int]]
                    + buf@.subrange(pos + 1, end as int));
                assert(enc_request(req) =~= buf@.subrange(pos as int, end as int));
                assert forall|hreq: Request|
                    leaf_encoded_at(hreq, buf@, pos as int) implies (end == pos + enc_request(
                    hreq,
                ).len() && enc_request(req) == enc_request(hreq)) by {
                    lemma_leaf_shape(hreq, buf@, pos as int);
                    assert(leaf_encoded_at(req, buf@, pos as int));
                    lemma_leaf_shape(req, buf@, pos as int);
                }
                assert forall|hreq: Request| !sync_encoded_at(hreq, buf@, pos as int) by {
                    if sync_encoded_at(hreq, buf@, pos as int) {
                        lemma_sync_shape(hreq, buf@, pos as int);
                    }
                }
            }
            ReadOutcome::Done(req, end)
        } else {
            proof {
                assert forall|hreq: Request| !leaf_encoded_at(hreq, buf@, pos as int) by {
                    if leaf_encoded_at(hreq, buf@, pos as int) {
                        lemma_leaf_shape(hreq, buf@, pos as int);
                    }
                }
                assert forall|hreq: Request| !sync_encoded_at(hreq, buf@, pos as int) by {
                    if sync_encoded_at(hreq, buf@, pos as int) {
                        lemma_sync_shape(hreq, buf@, pos as int);
                    }
                }
            }
            ReadOutcome::Failed(RequestError::InvalidRequestType(request_type))
        }
    }
}

} // verus!
