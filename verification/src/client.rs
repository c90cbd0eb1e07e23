//! Client-side pieces: decoding a SYNC response into per-peer outcomes,
//! and parsing the ad-hoc `COPY|TAKE <address> <hex-id>...` command line
//! of the interactive client.

use vstd::prelude::*;

use vstd::string::StrSliceExecFns;
use vstd::string::StringExecFns;

use crate::errors::{spec_peer_result, ClientError, PeerResult};
use crate::hexfmt::hex_decode;
use crate::request::{peer_request_from, peer_request_ids, raw_ids_view, PeerAddr, PeerRequest};
use crate::status_codes;
use crate::{ObjectId, OBJECT_ID_BYTES};

verus! {

/// Options of the interactive client.
#[derive(Debug, Clone)]
pub struct ClientOptions {
    /// Address of the server to connect to.
    pub address: String,
}

/// Decodes the response to a SYNC request: one byte per peer request.
/// Succeeds exactly when every peer request succeeded; otherwise the
/// error carries the decoded outcome of every peer request, in order.
pub fn parse_sync_response(response: &[u8]) -> (r: Result<(), ClientError>)
    ensures
        r is Ok <==> (forall|i: int|
            0 <= i < response@.len() ==> response@[i] == status_codes::SUCCESS),
        r matches Err(e) ==> (e matches ClientError::SyncError(results) && results@.len()
            == response@.len() && (forall|i: int|
            0 <= i < response@.len() ==> results@[i] == spec_peer_result(response@[i]))),
{
    let n = response.len();
    let mut results: Vec<PeerResult> = Vec::new();
    let mut err_count: usize = 0;
    let mut i: usize = 0;
    while i < n
        invariant
            n == response@.len(),
            i <= n,
            results@.len() == i,
            forall|j: int| 0 <= j < i ==> results@[j] == spec_peer_result(response@[j]),
            err_count <= i,
            (err_count == 0 <==> (forall|j: int|
                0 <= j < i ==> response@[j] == status_codes::SUCCESS)),
        decreases n - i,
    {
        let result = PeerResult::from(response[i]);
        if !result.is_ok() {
            err_count += 1;
        }
        results.push(result);
        i += 1;
    }
    if err_count > 0 {
        Err(ClientError::SyncError(results))
    } else {
        Ok(())
    }
}

/// The token boundaries of a line split at every space, scanning from
/// position `i` with the current token starting at `start`. Every space
/// ends a token, so consecutive spaces produce empty tokens, and the
/// final token runs to the end of the line.
pub open spec fn token_bounds(s: Seq<char>, start: int, i: int) -> Seq<(int, int)>
    decreases s.len() - i,
{
    if i >= s.len() {
        seq![(start, s.len() as int)]
    } else if s[i] == ' ' {
        seq![(start, i)] + token_bounds(s, i + 1, i + 1)
    } else {
        token_bounds(s, start, i + 1)
    }
}

/// The space-separated tokens of a line.
pub open spec fn line_tokens(s: Seq<char>) -> Seq<Seq<char>> {
    token_bounds(s, 0, 0).map_values(|b: (int, int)| s.subrange(b.0, b.1))
}

/// The integer form of a list of token boundaries.
spec fn bounds_view(b: Seq<(usize, usize)>) -> Seq<(int, int)> {
    b.map_values(|p: (usize, usize)| (p.0 as int, p.1 as int))
}

/// Whether a character string is one or more decimal digits.
pub open spec fn is_digits(s: Seq<char>) -> bool {
    s.len() > 0 && forall|i: int| 0 <= i < s.len() ==> '0' <= #[trigger] s[i] <= '9'
}

/// The number a decimal digit string denotes, most significant digit
/// first.
pub open spec fn dec_value(s: Seq<char>) -> int
    decreases s.len(),
{
    if s.len() == 0 {
        0
    } else {
        dec_value(s.drop_last()) * 10 + (s.last() as u8 - 48)
    }
}

/// One more digit multiplies the prefix value by ten and adds the digit.
proof fn lemma_dec_snoc(s: Seq<char>, from: int, k: int)
    requires
        0 <= from <= k < s.len(),
    ensures
        dec_value(s.subrange(from, k + 1)) == dec_value(s.subrange(from, k)) * 10 + (
        s[k] as u8 - 48),
{
    assert(s.subrange(from, k + 1).drop_last() =~= s.subrange(from, k));
    assert(s.subrange(from, k + 1).last() == s[k]);
}

/// A digit string's value is never negative.
proof fn lemma_dec_nonneg(s: Seq<char>, from: int, k: int)
    requires
        0 <= from <= k <= s.len(),
        forall|j: int| from <= j < k ==> '0' <= #[trigger] s[j] <= '9',
    ensures
        dec_value(s.subrange(from, k)) >= 0,
    decreases k - from,
{
    broadcast use vstd::utf8::is_ascii_chars_nat_bound;

    if k > from {
        lemma_dec_snoc(s, from, k - 1);
        lemma_dec_nonneg(s, from, k - 1);
    }
}

/// Appending digits never shrinks the value, and appending at least one
/// digit multiplies it by at least ten.
proof fn lemma_dec_mono(s: Seq<char>, from: int, k: int, to: int)
    requires
        0 <= from <= k <= to <= s.len(),
        forall|j: int| from <= j < to ==> '0' <= #[trigger] s[j] <= '9',
    ensures
        dec_value(s.subrange(from, to)) >= dec_value(s.subrange(from, k)),
        k < to ==> dec_value(s.subrange(from, to)) >= 10 * dec_value(s.subrange(from, k)),
    decreases to - k,
{
    if k < to {
        lemma_dec_snoc(s, from, k);
        lemma_dec_nonneg(s, from, k);
        lemma_dec_mono(s, from, k + 1, to);
    }
}

/// Parses an unsigned decimal number from an ASCII string slice: it
/// succeeds exactly on a non-empty all-digit range whose value is at
/// most `max`, and then returns that value.
fn parse_decimal(s: &str, from: usize, to: usize, max: u32) -> (r: Option<u32>)
    requires
        s.is_ascii(),
        from <= to <= s@.len(),
    ensures
        r is Some <==> (from < to && is_digits(s@.subrange(from as int, to as int)) && dec_value(
            s@.subrange(from as int, to as int),
        ) <= max),
        r matches Some(v) ==> v == dec_value(s@.subrange(from as int, to as int)),
{
    proof {
        broadcast use vstd::utf8::is_ascii_chars_nat_bound;
    }
    if from == to {
        return None;
    }
    let ghost whole = s@.subrange(from as int, to as int);
    let mut value: u32 = 0;
    let mut i: usize = from;
    proof {
        assert(s@.subrange(from as int, from as int) =~= Seq::<char>::empty());
    }
    while i < to
        invariant
            s.is_ascii(),
            from <= i <= to <= s@.len(),
            value <= max,
            forall|j: int| from <= j < i ==> '0' <= #[trigger] s@[j] <= '9',
            value == dec_value(s@.subrange(from as int, i as int)),
        decreases to - i,
    {
        proof {
            broadcast use vstd::utf8::is_ascii_chars_nat_bound;
        }
        let c = s.get_ascii(i);
        if c < 48 || c > 57 {
            proof {
                assert(!('0' <= s@[i as int] <= '9'));
                assert(s@.subrange(from as int, to as int)[i - from] == s@[i as int]);
                assert(!is_digits(s@.subrange(from as int, to as int)));
            }
            return None;
        }
        proof {
            assert('0' <= s@[i as int] <= '9');
            lemma_dec_snoc(s@, from as int, i as int);
        }
        let digit = (c - 48) as u32;
        if value > max / 10 {
            proof {
                if is_digits(s@.subrange(from as int, to as int)) && dec_value(
                    s@.subrange(from as int, to as int),
                ) <= max {
                    assert forall|j: int| from <= j < to implies '0' <= #[trigger] s@[j]
                        <= '9' by {
                        assert(s@.subrange(from as int, to as int)[j - from] == s@[j]);
                    }
                    lemma_dec_mono(s@, from as int, i as int, to as int);
                }
            }
            return None;
        }
        let next = value * 10;
        if max - next < digit {
            proof {
                if is_digits(s@.subrange(from as int, to as int)) && dec_value(
                    s@.subrange(from as int, to as int),
                ) <= max {
                    assert forall|j: int| from <= j < to implies '0' <= #[trigger] s@[j]
                        <= '9' by {
                        assert(s@.subrange(from as int, to as int)[j - from] == s@[j]);
                    }
                    lemma_dec_mono(s@, from as int, i + 1, to as int);
                }
            }
            return None;
        }
        value = next + digit;
        i += 1;
    }
    proof {
        assert forall|j: int|
            0 <= j < s@.subrange(from as int, to as int).len() implies '0' <= #[trigger] s@.subrange(
            from as int,
            to as int,
        )[j] <= '9' by {
            assert(s@.subrange(from as int, to as int)[j] == s@[from + j]);
        }
        assert(is_digits(s@.subrange(from as int, to as int)));
    }
    Some(value)
}

/// The separator layout of an address token: three dots and a colon
/// splitting the token into five non-empty all-digit fields, the octet
/// fields at most 255 and the port field at most 65535.
pub open spec fn addr_split(s: Seq<char>, p1: int, p2: int, p3: int, pc: int) -> bool {
    &&& 0 <= p1 < p2 < p3 < pc < s.len()
    &&& s[p1] == '.' && s[p2] == '.' && s[p3] == '.' && s[pc] == ':'
    &&& is_digits(s.subrange(0, p1))
    &&& is_digits(s.subrange(p1 + 1, p2))
    &&& is_digits(s.subrange(p2 + 1, p3))
    &&& is_digits(s.subrange(p3 + 1, pc))
    &&& is_digits(s.subrange(pc + 1, s.len() as int))
    &&& dec_value(s.subrange(0, p1)) <= 255
    &&& dec_value(s.subrange(p1 + 1, p2)) <= 255
    &&& dec_value(s.subrange(p2 + 1, p3)) <= 255
    &&& dec_value(s.subrange(p3 + 1, pc)) <= 255
    &&& dec_value(s.subrange(pc + 1, s.len() as int)) <= 65535
}

/// Whether the given address is the one the five fields denote.
pub open spec fn addr_fields(
    s: Seq<char>,
    a: PeerAddr,
    p1: int,
    p2: int,
    p3: int,
    pc: int,
) -> bool {
    &&& a.octets[0] == dec_value(s.subrange(0, p1))
    &&& a.octets[1] == dec_value(s.subrange(p1 + 1, p2))
    &&& a.octets[2] == dec_value(s.subrange(p2 + 1, p3))
    &&& a.octets[3] == dec_value(s.subrange(p3 + 1, pc))
    &&& a.port == dec_value(s.subrange(pc + 1, s.len() as int))
}

/// Whether a token denotes the given IPv4 address with port.
pub open spec fn is_addr_token(s: Seq<char>, a: PeerAddr) -> bool {
    exists|p1: int, p2: int, p3: int, pc: int|
        #[trigger] addr_split(s, p1, p2, p3, pc) && addr_fields(s, a, p1, p2, p3, pc)
}

/// Parses a dotted-quad IPv4 address with port, `a.b.c.d:p`, from an
/// ASCII string slice: it succeeds on exactly the well-formed address
/// tokens, and then returns the address the token denotes.
fn parse_peer_addr(s: &str) -> (r: Option<PeerAddr>)
    requires
        s.is_ascii(),
    ensures
        r matches Some(a) ==> is_addr_token(s@, a),
        forall|a: PeerAddr| #[trigger] is_addr_token(s@, a) ==> r == Some(a),
{
    proof {
        broadcast use vstd::utf8::is_ascii_chars_nat_bound;
    }
    let n = s.unicode_len();
    let mut parts: [u8; 4] = [0u8; 4];
    let mut part: usize = 0;
    let mut start: usize = 0;
    let mut i: usize = 0;
    let ghost mut g1: int = 0;
    let ghost mut g2: int = 0;
    let ghost mut g3: int = 0;
    while i < n
        invariant
            s.is_ascii(),
            n == s@.len(),
            start <= i <= n,
            part <= 3,
            part == 0 ==> start == 0,
            part >= 1 ==> {
                &&& 0 <= g1 < i
                &&& s@[g1] == '.'
                &&& is_digits(s@.subrange(0, g1))
                &&& dec_value(s@.subrange(0, g1)) <= 255
                &&& parts@[0] == dec_value(s@.subrange(0, g1))
            },
            part == 1 ==> start == g1 + 1,
            part >= 2 ==> {
                &&& g1 + 1 < g2 < i
                &&& s@[g2] == '.'
                &&& is_digits(s@.subrange(g1 + 1, g2))
                &&& dec_value(s@.subrange(g1 + 1, g2)) <= 255
                &&& parts@[1] == dec_value(s@.subrange(g1 + 1, g2))
            },
            part == 2 ==> start == g2 + 1,
            part == 3 ==> {
                &&& g2 + 1 < g3 < i
                &&& s@[g3] == '.'
                &&& is_digits(s@.subrange(g2 + 1, g3))
                &&& dec_value(s@.subrange(g2 + 1, g3)) <= 255
                &&& parts@[2] == dec_value(s@.subrange(g2 + 1, g3))
                &&& start == g3 + 1
            },
            forall|p1: int, p2: int, p3: int, pc: int|
                #[trigger] addr_split(s@, p1, p2, p3, pc) ==> {
                    &&& (part == 0 ==> i <= p1)
                    &&& (part == 1 ==> g1 == p1 && i <= p2)
                    &&& (part == 2 ==> g1 == p1 && g2 == p2 && i <= p3)
                    &&& (part == 3 ==> g1 == p1 && g2 == p2 && g3 == p3 && i <= pc)
                },
        decreases n - i,
    {
        proof {
            broadcast use vstd::utf8::is_ascii_chars_nat_bound;
        }
        let c = s.get_ascii(i);
        if part < 3 && c == 46 {
            proof {
                assert(s@[i as int] == '.');
                assert forall|p1: int, p2: int, p3: int, pc: int|
                    #[trigger] addr_split(s@, p1, p2, p3, pc) implies (part == 0 ==> i == p1) && (
                part == 1 ==> i == p2) && (part == 2 ==> i == p3) by {
                    if part == 0 {
                        if i < p1 {
                            assert(s@.subrange(0, p1)[i as int] == s@[i as int]);
                        }
                    } else if part == 1 {
                        if i < p2 {
                            assert(s@.subrange(p1 + 1, p2)[i - (p1 + 1)] == s@[i as int]);
                        }
                    } else if part == 2 {
                        if i < p3 {
                            assert(s@.subrange(p2 + 1, p3)[i - (p2 + 1)] == s@[i as int]);
                        }
                    }
                }
            }
            match parse_decimal(s, start, i, 255) {
                Some(v) => {
                    parts[part] = v as u8;
                },
                None => {
                    proof {
                        assert forall|p1: int, p2: int, p3: int, pc: int|
                            !addr_split(s@, p1, p2, p3, pc) by {
                            if addr_split(s@, p1, p2, p3, pc) {
                            }
                        }
                    }
                    return None;
                },
            }
            proof {
                if part == 0 {
                    g1 = i as int;
                } else if part == 1 {
                    g2 = i as int;
                } else {
                    g3 = i as int;
                }
            }
            part += 1;
            start = i + 1;
        } else if part == 3 && c == 58 {
            proof {
                assert(s@[i as int] == ':');
                assert forall|p1: int, p2: int, p3: int, pc: int|
                    #[trigger] addr_split(s@, p1, p2, p3, pc) implies i == pc by {
                    if i < pc {
                        assert(s@.subrange(p3 + 1, pc)[i - (p3 + 1)] == s@[i as int]);
                    }
                }
            }
            let octet = match parse_decimal(s, start, i, 255) {
                Some(v) => v as u8,
                None => {
                    proof {
                        assert forall|p1: int, p2: int, p3: int, pc: int|
                            !addr_split(s@, p1, p2, p3, pc) by {
                            if addr_split(s@, p1, p2, p3, pc) {
                            }
                        }
                    }
                    return None;
                },
            };
            parts[3] = octet;
            let port = match parse_decimal(s, i + 1, n, 65535) {
                Some(v) => v as u16,
                None => {
                    proof {
                        assert forall|p1: int, p2: int, p3: int, pc: int|
                            !addr_split(s@, p1, p2, p3, pc) by {
                            if addr_split(s@, p1, p2, p3, pc) {
                            }
                        }
                    }
                    return None;
                },
            };
            let result = PeerAddr { octets: parts, port };
            proof {
                broadcast use vstd::array::group_array_axioms;

                assert(addr_split(s@, g1, g2, g3, i as int));
                assert(addr_fields(s@, result, g1, g2, g3, i as int));
                assert(is_addr_token(s@, result));
                assert forall|a: PeerAddr| #[trigger] is_addr_token(s@, a) implies a
                    == result by {
                    let (p1, p2, p3, pc) = choose|p1: int, p2: int, p3: int, pc: int|
                        #[trigger] addr_split(s@, p1, p2, p3, pc) && addr_fields(
                            s@,
                            a,
                            p1,
                            p2,
                            p3,
                            pc,
                        );
                    assert(p1 == g1 && p2 == g2 && p3 == g3 && pc == i as int);
                    assert(a.octets@ =~= result.octets@);
                    assert(a.octets == result.octets);
                }
            }
            return Some(result);
        } else {
            proof {
                assert forall|p1: int, p2: int, p3: int, pc: int|
                    #[trigger] addr_split(s@, p1, p2, p3, pc) implies (part == 0 ==> i < p1) && (
                part == 1 ==> i < p2) && (part == 2 ==> i < p3) && (part == 3 ==> i < pc) by {
                    if part == 0 {
                        if i == p1 {
                            assert(s@[p1] == '.');
                        }
                    } else if part == 1 {
                        if i == p2 {
                            assert(s@[p2] == '.');
                        }
                    } else if part == 2 {
                        if i == p3 {
                            assert(s@[p3] == '.');
                        }
                    } else {
                        if i == pc {
                            assert(s@[pc] == ':');
                        }
                    }
                }
            }
        }
        i += 1;
    }
    proof {
        assert forall|p1: int, p2: int, p3: int, pc: int| !addr_split(s@, p1, p2, p3, pc) by {
            if addr_split(s@, p1, p2, p3, pc) {
            }
        }
    }
    None
}

/// Parses one line of client input: `COPY|TAKE <address> <hex-id>...`,
/// yielding a single peer request naming the given server address and
/// the listed 20-byte object ids.
///
/// On success the request's kind is decided by the first token, its
/// `from` address is the one the second token denotes, and its ids are
/// exactly the hex decodings of the third and later tokens. Every line
/// of that shape is accepted.
pub fn parse_request(line: &str) -> (r: Result<Vec<PeerRequest>, String>)
    ensures
        r matches Ok(v) ==> ({
            let toks = line_tokens(line@);
            &&& line.is_ascii()
            &&& toks.len() >= 3
            &&& v@.len() == 1
            &&& (v@[0] is Copy <==> (toks[0] == "copy"@ || toks[0] == "COPY"@))
            &&& (v@[0] is Take <==> (toks[0] == "take"@ || toks[0] == "TAKE"@))
            &&& is_addr_token(toks[1], peer_request_from(v@[0]))
            &&& peer_request_ids(v@[0]).len() == toks.len() - 2
            &&& forall|k: int|
                2 <= k < toks.len() ==> crate::hexfmt::hex_valid(#[trigger] toks[k])
                    && peer_request_ids(v@[0])[k - 2] == crate::hexfmt::hex_decoded(toks[k])
                    && crate::hexfmt::hex_decoded(toks[k]).len() == OBJECT_ID_BYTES
        }),
        ({
            let toks = line_tokens(line@);
            &&& line.is_ascii()
            &&& toks.len() >= 3
            &&& (toks[0] == "copy"@ || toks[0] == "COPY"@ || toks[0] == "take"@ || toks[0]
                == "TAKE"@)
            &&& (exists|a: PeerAddr| is_addr_token(toks[1], a))
            &&& (forall|k: int|
                2 <= k < toks.len() ==> crate::hexfmt::hex_valid(#[trigger] toks[k])
                    && crate::hexfmt::hex_decoded(toks[k]).len() == OBJECT_ID_BYTES)
        }) ==> r is Ok,
{
    if !line.is_ascii() {
        return Err(String::from_str("invalid request; the request must be ASCII text"));
    }
    let n = line.unicode_len();
    let mut bounds: Vec<(usize, usize)> = Vec::new();
    let mut start: usize = 0;
    let mut i: usize = 0;
    proof {
        assert(bounds_view(bounds@) =~= Seq::<(int, int)>::empty());
        assert(token_bounds(line@, 0, 0) =~= Seq::<(int, int)>::empty() + token_bounds(
            line@,
            0,
            0,
        ));
    }
    while i < n
        invariant
            line.is_ascii(),
            n == line@.len(),
            start <= i <= n,
            token_bounds(line@, 0, 0) == bounds_view(bounds@) + token_bounds(
                line@,
                start as int,
                i as int,
            ),
            forall|j: int|
                0 <= j < bounds@.len() ==> {
                    let b = #[trigger] bounds@[j];
                    b.0 <= b.1 <= n
                },
        decreases n - i,
    {
        proof {
            broadcast use vstd::utf8::is_ascii_chars_nat_bound;
        }
        let ghost prev = bounds_view(bounds@);
        if line.get_ascii(i) == 32 {
            proof {
                assert(line@[i as int] == ' ');
                assert(token_bounds(line@, start as int, i as int) == seq![
                    (start as int, i as int),
                ] + token_bounds(line@, i + 1, i + 1));
            }
            bounds.push((start, i));
            proof {
                assert(bounds_view(bounds@) =~= prev.push((start as int, i as int)));
                assert(prev + (seq![(start as int, i as int)] + token_bounds(line@, i + 1, i + 1))
                    =~= bounds_view(bounds@) + token_bounds(line@, i + 1, i + 1));
            }
            start = i + 1;
        } else {
            proof {
                assert(line@[i as int] != ' ');
                assert(token_bounds(line@, start as int, i as int) == token_bounds(
                    line@,
                    start as int,
                    i + 1,
                ));
            }
        }
        i += 1;
    }
    proof {
        assert(token_bounds(line@, start as int, n as int) == seq![(start as int, n as int)]);
    }
    let ghost prev = bounds_view(bounds@);
    bounds.push((start, n));
    proof {
        assert(bounds_view(bounds@) =~= prev.push((start as int, n as int)));
        assert(prev + seq![(start as int, n as int)] =~= bounds_view(bounds@));
        assert(token_bounds(line@, 0, 0) == bounds_view(bounds@));
    }
    if bounds.len() < 3 {
        proof {
            assert(line_tokens(line@).len() == bounds@.len());
        }
        return Err(
            String::from_str(
                "invalid request; must be [COPY|TAKE] [server address] [object ID list]",
            ),
        );
    }
    let (ts, te) = bounds[0];
    let req_type = line.substring_ascii(ts, te);
    let is_copy = str_eq_token(req_type, true);
    let is_take = str_eq_token(req_type, false);
    proof {
        assert(req_type@ == line_tokens(line@)[0]);
    }
    if !is_copy && !is_take {
        return Err(String::from_str("requests must start with either COPY or TAKE"));
    }
    let (as_, ae) = bounds[1];
    let addr_token = line.substring_ascii(as_, ae);
    proof {
        assert(addr_token@ == line_tokens(line@)[1]);
    }
    let address = match parse_peer_addr(addr_token) {
        Some(a) => a,
        None => {
            proof {
                if exists|a: PeerAddr| is_addr_token(line_tokens(line@)[1], a) {
                    let a = choose|a: PeerAddr| is_addr_token(line_tokens(line@)[1], a);
                    assert(is_addr_token(addr_token@, a));
                }
            }
            return Err(String::from_str("server address is invalid"));
        },
    };
    let mut object_ids: Vec<ObjectId> = Vec::new();
    let m = bounds.len();
    let mut k: usize = 2;
    while k < m
        invariant
            line.is_ascii(),
            n == line@.len(),
            m == bounds@.len(),
            2 <= k <= m,
            token_bounds(line@, 0, 0) == bounds_view(bounds@),
            object_ids@.len() == k - 2,
            forall|j: int|
                0 <= j < bounds@.len() ==> {
                    let b = #[trigger] bounds@[j];
                    b.0 <= b.1 <= n
                },
            forall|j: int|
                2 <= j < k ==> crate::hexfmt::hex_valid(#[trigger] line_tokens(line@)[j])
                    && raw_ids_view(object_ids@)[j - 2] == crate::hexfmt::hex_decoded(
                    line_tokens(line@)[j],
                ) && crate::hexfmt::hex_decoded(line_tokens(line@)[j]).len() == OBJECT_ID_BYTES,
        decreases m - k,
    {
        let (bs, be) = bounds[k];
        let token = line.substring_ascii(bs, be);
        proof {
            assert(token@ == line_tokens(line@)[k as int]);
        }
        let decoded = match hex_decode(token) {
            Some(bytes) => bytes,
            None => {
                return Err(String::from_str("object ID is invalid: not a hex string"));
            },
        };
        if decoded.len() != OBJECT_ID_BYTES {
            return Err(String::from_str("object ID is invalid: must be 20 bytes long"));
        }
        let mut id: ObjectId = [0u8; OBJECT_ID_BYTES];
        let mut j: usize = 0;
        while j < OBJECT_ID_BYTES
            invariant
                j <= OBJECT_ID_BYTES,
                decoded@.len() == OBJECT_ID_BYTES,
                forall|p: int| 0 <= p < j ==> id@[p] == decoded@[p],
            decreases OBJECT_ID_BYTES - j,
        {
            id[j] = decoded[j];
            j += 1;
        }
        let ghost prev_ids = raw_ids_view(object_ids@);
        object_ids.push(id);
        proof {
            assert(id@ =~= decoded@);
            assert(raw_ids_view(object_ids@) =~= prev_ids.push(id@));
        }
        k += 1;
    }
    let peer_req = if is_copy {
        PeerRequest::Copy { from: address, objects: object_ids }
    } else {
        PeerRequest::Take { from: address, objects: object_ids }
    };
    proof {
        reveal_strlit("copy");
        reveal_strlit("COPY");
        reveal_strlit("take");
        reveal_strlit("TAKE");
        assert("copy"@[0] != "take"@[0] && "copy"@[0] != "TAKE"@[0] && "COPY"@[0] != "take"@[0]
            && "COPY"@[0] != "TAKE"@[0]);
    }
    let mut result: Vec<PeerRequest> = Vec::new();
    result.push(peer_req);
    Ok(result)
}

/// Compares a token with `copy`/`COPY` (or `take`/`TAKE`); only the
/// all-lower-case and all-upper-case forms count.
fn str_eq_token(s: &str, copy: bool) -> (r: bool)
    requires
        s.is_ascii(),
    ensures
        copy ==> (r <==> (s@ == "copy"@ || s@ == "COPY"@)),
        !copy ==> (r <==> (s@ == "take"@ || s@ == "TAKE"@)),
{
    proof {
        broadcast use vstd::utf8::is_ascii_chars_nat_bound;

        reveal_strlit("copy");
        reveal_strlit("COPY");
        reveal_strlit("take");
        reveal_strlit("TAKE");
    }
    let n = s.unicode_len();
    if n != 4 {
        return false;
    }
    let c0 = s.get_ascii(0);
    let c1 = s.get_ascii(1);
    let c2 = s.get_ascii(2);
    let c3 = s.get_ascii(3);
    let r = if copy {
        (c0 == 99 && c1 == 111 && c2 == 112 && c3 == 121) || (c0 == 67 && c1 == 79 && c2 == 80
            && c3 == 89)
    } else {
        (c0 == 116 && c1 == 97 && c2 == 107 && c3 == 101) || (c0 == 84 && c1 == 65 && c2 == 75
            && c3 == 69)
    };
    proof {
        if r {
            if copy {
                if c0 == 99 {
                    assert(s@ =~= "copy"@);
                } else {
                    assert(s@ =~= "COPY"@);
                }
            } else {
                if c0 == 116 {
                    assert(s@ =~= "take"@);
                } else {
                    assert(s@ =~= "TAKE"@);
                }
            }
        }
    }
    r
}

} // verus!
