//! Plain-text rendering helpers for log and error messages: decimal
//! numbers, peer addresses, and hex-encoded object-id lists.

use vstd::prelude::*;

use vstd::string::StringExecFns;
use vstd::string::StrSliceExecFns;

use crate::hexfmt::{hex_digit, hex_encode, hex_of};
use crate::request::{raw_ids_view, PeerAddr};
use crate::ObjectId;

verus! {

/// The decimal digits of `n`, most significant first.
pub open spec fn dec_str(n: nat) -> Seq<char>
    decreases n,
{
    if n < 10 {
        seq![hex_digit(n as u8)]
    } else {
        dec_str(n / 10) + seq![hex_digit((n % 10) as u8)]
    }
}

/// The text form of a peer address: dotted quad, colon, port.
pub open spec fn addr_str(a: PeerAddr) -> Seq<char> {
    dec_str(a.octets[0] as nat) + seq!['.'] + dec_str(a.octets[1] as nat) + seq!['.'] + dec_str(
        a.octets[2] as nat,
    ) + seq!['.'] + dec_str(a.octets[3] as nat) + seq![':'] + dec_str(a.port as nat)
}

/// One line per id: a newline, `0x`, and the id in hex.
pub open spec fn id_lines_str(ids: Seq<Seq<u8>>) -> Seq<char>
    decreases ids.len(),
{
    if ids.len() == 0 {
        Seq::empty()
    } else {
        seq!['\n', '0', 'x'] + hex_of(ids[0]) + id_lines_str(ids.drop_first())
    }
}

/// The one-character string for a decimal digit.
fn digit_str(d: u64) -> (r: &'static str)
    requires
        d < 10,
    ensures
        r@ == seq![hex_digit(d as u8)],
{
    if d == 0 {
        proof {
            reveal_strlit("0");
        }
        "0"
    } else if d == 1 {
        proof {
            reveal_strlit("1");
        }
        "1"
    } else if d == 2 {
        proof {
            reveal_strlit("2");
        }
        "2"
    } else if d == 3 {
        proof {
            reveal_strlit("3");
        }
        "3"
    } else if d == 4 {
        proof {
            reveal_strlit("4");
        }
        "4"
    } else if d == 5 {
        proof {
            reveal_strlit("5");
        }
        "5"
    } else if d == 6 {
        proof {
            reveal_strlit("6");
        }
        "6"
    } else if d == 7 {
        proof {
            reveal_strlit("7");
        }
        "7"
    } else if d == 8 {
        proof {
            reveal_strlit("8");
        }
        "8"
    } else {
        proof {
            reveal_strlit("9");
        }
        "9"
    }
}

/// Appends the decimal digits of `n` to `out`.
pub fn push_decimal(n: u64, out: &mut String)
    ensures
        final(out)@ == old(out)@ + dec_str(n as nat),
    decreases n,
{
    if n < 10 {
        out.append(digit_str(n));
    } else {
        push_decimal(n / 10, out);
        out.append(digit_str(n % 10));
    }
}

/// Renders a number in decimal.
pub fn decimal_string(n: u64) -> (r: String)
    ensures
        r@ == dec_str(n as nat),
{
    let mut out = String::new();
    push_decimal(n, &mut out);
    proof {
        assert(out@ =~= dec_str(n as nat));
    }
    out
}

/// Appends the text form of a peer address to `out`.
pub fn push_addr(a: &PeerAddr, out: &mut String)
    ensures
        final(out)@ == old(out)@ + addr_str(*a),
{
    proof {
        reveal_strlit(".");
        reveal_strlit(":");
    }
    push_decimal(a.octets[0] as u64, out);
    out.append(".");
    push_decimal(a.octets[1] as u64, out);
    out.append(".");
    push_decimal(a.octets[2] as u64, out);
    out.append(".");
    push_decimal(a.octets[3] as u64, out);
    out.append(":");
    push_decimal(a.port as u64, out);
    proof {
        assert(out@ =~= old(out)@ + addr_str(*a));
    }
}

/// Renders a peer address as text.
pub fn addr_string(a: &PeerAddr) -> (r: String)
    ensures
        r@ == addr_str(*a),
{
    let mut out = String::new();
    push_addr(a, &mut out);
    proof {
        assert(out@ =~= addr_str(*a));
    }
    out
}

/// Appends one `0x`-prefixed hex id per line to `out`.
pub fn push_id_lines(ids: &Vec<ObjectId>, out: &mut String)
    ensures
        final(out)@ == old(out)@ + id_lines_str(raw_ids_view(ids@)),
{
    proof {
        reveal_strlit("\n0x");
    }
    let n = ids.len();
    let mut i: usize = 0;
    while i < n
        invariant
            n == ids@.len(),
            i <= n,
            out@ == old(out)@ + id_lines_str(raw_ids_view(ids@.subrange(0, i as int))),
        decreases n - i,
    {
        let ghost before = out@;
        out.append("\n0x");
        let hex = hex_encode(&ids[i]);
        out.append(hex.as_str());
        proof {
            reveal_strlit("\n0x");
            assert(out@ =~= before + (seq!['\n', '0', 'x'] + hex_of(ids@[i as int]@)));
            lemma_id_lines_snoc(raw_ids_view(ids@), i as int);
            assert(raw_ids_view(ids@.subrange(0, i + 1)) =~= raw_ids_view(ids@).subrange(
                0,
                i + 1,
            ));
            assert(raw_ids_view(ids@.subrange(0, i as int)) =~= raw_ids_view(ids@).subrange(
                0,
                i as int,
            ));
            assert(out@ =~= old(out)@ + id_lines_str(raw_ids_view(ids@.subrange(0, i + 1))));
        }
        i += 1;
    }
    proof {
        assert(ids@.subrange(0, n as int) =~= ids@);
    }
}

/// Appending one more id to the rendered id lines.
proof fn lemma_id_lines_snoc(ids: Seq<Seq<u8>>, i: int)
    requires
        0 <= i < ids.len(),
    ensures
        id_lines_str(ids.subrange(0, i + 1)) == id_lines_str(ids.subrange(0, i)) + (seq![
            '\n',
            '0',
            'x',
        ] + hex_of(ids[i])),
    decreases i,
{
    if i == 0 {
        let sub = ids.subrange(0, 1);
        assert(sub.drop_first() =~= Seq::<Seq<u8>>::empty());
        assert(sub[0] == ids[0]);
        assert(id_lines_str(Seq::<Seq<u8>>::empty()) =~= Seq::<char>::empty());
        assert(id_lines_str(sub) =~= seq!['\n', '0', 'x'] + hex_of(ids[0]));
        assert(id_lines_str(ids.subrange(0, 0)) =~= Seq::<char>::empty());
        assert(id_lines_str(sub) =~= id_lines_str(ids.subrange(0, 0)) + (seq!['\n', '0', 'x']
            + hex_of(ids[0])));
    } else {
        let t = ids.drop_first();
        assert(ids.subrange(0, i + 1).drop_first() =~= t.subrange(0, i));
        assert(ids.subrange(0, i).drop_first() =~= t.subrange(0, i - 1));
        lemma_id_lines_snoc(t, i - 1);
        assert(ids.subrange(0, i + 1)[0] == ids[0]);
        assert(ids.subrange(0, i)[0] == ids[0]);
        assert(t.subrange(0, i)[i - 1] == ids[i]);
        assert(id_lines_str(ids.subrange(0, i + 1)) == seq!['\n', '0', 'x'] + hex_of(ids[0])
            + id_lines_str(t.subrange(0, i)));
        assert(id_lines_str(t.subrange(0, i)) == id_lines_str(t.subrange(0, i - 1)) + (seq![
            '\n',
            '0',
            'x',
        ] + hex_of(ids[i])));
        assert(id_lines_str(ids.subrange(0, i + 1)) =~= id_lines_str(ids.subrange(0, i)) + (seq![
            '\n',
            '0',
            'x',
        ] + hex_of(ids[i])));
    }
}

} // verus!
