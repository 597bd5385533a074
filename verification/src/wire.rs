//! The wire format: how one [`WireModel`] is laid out as bytes, and how a
//! byte buffer is read back.
//!
//! Every node starts with a tag byte followed by one little-endian 64-bit
//! word — the integer itself, a character or element count, or a capability
//! index — and then its payload. Characters travel as 32-bit scalar values.
//! `dec` is the mathematical decoder: it classifies every byte buffer as one
//! well-formed message, a malformed buffer, or a buffer whose capability
//! index exceeds the delivered handle count.

use vstd::prelude::*;
use vstd::bytes::spec_u32_to_le_bytes;
use vstd::bytes::spec_u32_from_le_bytes;
use vstd::bytes::spec_u64_to_le_bytes;
use vstd::bytes::spec_u64_from_le_bytes;
use vstd::bytes::lemma_auto_spec_u32_to_from_le_bytes;
use vstd::bytes::lemma_auto_spec_u64_to_from_le_bytes;
use crate::model::WireModel;

verus! {

/// Tag of an integer node.
pub const TAG_INT: u8 = 0;

/// Tag of a string node.
pub const TAG_STR: u8 = 1;

/// Tag of a list node.
pub const TAG_LIST: u8 = 2;

/// Tag of a capability-index node.
pub const TAG_CAP: u8 = 3;

/// A 32-bit value that is a Unicode scalar value, i.e. a valid `char`.
pub open spec fn valid_scalar(c: u32) -> bool {
    c < 0xD800 || (0xE000 <= c && c < 0x11_0000)
}

/// The bytes of a character sequence: each scalar value, little-endian.
pub open spec fn chars_bytes(s: Seq<char>) -> Seq<u8>
    decreases s,
{
    if s.len() == 0 {
        Seq::empty()
    } else {
        spec_u32_to_le_bytes(s[0] as u32) + chars_bytes(s.subrange(1, s.len() as int))
    }
}

/// The byte encoding of one wire node.
pub open spec fn wire(w: WireModel) -> Seq<u8>
    decreases w,
{
    match w {
        WireModel::Int(n) => seq![TAG_INT] + spec_u64_to_le_bytes(n),
        WireModel::Str(s) => seq![TAG_STR] + spec_u64_to_le_bytes(s.len() as u64)
            + chars_bytes(s),
        WireModel::List(ws) => seq![TAG_LIST] + spec_u64_to_le_bytes(ws.len() as u64)
            + wire_seq(ws),
        WireModel::Cap(i) => seq![TAG_CAP] + spec_u64_to_le_bytes(i),
    }
}

pub open spec fn wire_seq(ws: Seq<WireModel>) -> Seq<u8>
    decreases ws,
{
    if ws.len() == 0 {
        Seq::empty()
    } else {
        wire(ws[0]) + wire_seq(ws.subrange(1, ws.len() as int))
    }
}

/// Length and element counts of a node fit the 64-bit words that carry them.
pub open spec fn bounded_wire(w: WireModel) -> bool
    decreases w,
{
    match w {
        WireModel::Int(_) => true,
        WireModel::Str(s) => s.len() <= u64::MAX,
        WireModel::List(ws) => ws.len() <= u64::MAX && bounded_wire_seq(ws),
        WireModel::Cap(_) => true,
    }
}

pub open spec fn bounded_wire_seq(ws: Seq<WireModel>) -> bool
    decreases ws,
{
    if ws.len() == 0 {
        true
    } else {
        bounded_wire(ws[0]) && bounded_wire_seq(ws.subrange(1, ws.len() as int))
    }
}

/// Outcome of reading one node.
pub ghost enum DecRes {
    /// The node, and the position just past it.
    Node(WireModel, int),
    /// The bytes are malformed: truncated, an unknown tag, or an invalid
    /// character scalar.
    Malformed,
    /// A capability index is not below the delivered handle count.
    BadIndex,
}

/// Outcome of reading a run of nodes.
pub ghost enum DecSeqRes {
    Run(Seq<WireModel>, int),
    Malformed,
    BadIndex,
}

/// Reads `n` characters of 4 bytes each; `None` when a group is not a valid
/// scalar value. The caller has checked that the bytes are there.
pub open spec fn dec_chars(bytes: Seq<u8>, pos: int, n: nat) -> Option<Seq<char>>
    decreases n,
{
    if n == 0 {
        Some(Seq::empty())
    } else {
        let c = spec_u32_from_le_bytes(bytes.subrange(pos, pos + 4));
        if valid_scalar(c) {
            match dec_chars(bytes, pos + 4, (n - 1) as nat) {
                Some(s) => Some(seq![c as char] + s),
                None => None,
            }
        } else {
            None
        }
    }
}

/// Reads the node at `pos`, with `nh` delivered handles.
pub open spec fn dec(bytes: Seq<u8>, pos: int, nh: nat) -> DecRes
    decreases bytes.len() - pos, 0int, 0int,
{
    if pos < 0 || bytes.len() - pos < 9 {
        DecRes::Malformed
    } else {
        let tag = bytes[pos];
        let n = spec_u64_from_le_bytes(bytes.subrange(pos + 1, pos + 9));
        if tag == TAG_INT {
            DecRes::Node(WireModel::Int(n), pos + 9)
        } else if tag == TAG_STR {
            if bytes.len() - (pos + 9) < 4 * n {
                DecRes::Malformed
            } else {
                match dec_chars(bytes, pos + 9, n as nat) {
                    Some(s) => DecRes::Node(WireModel::Str(s), pos + 9 + 4 * n),
                    None => DecRes::Malformed,
                }
            }
        } else if tag == TAG_LIST {
            match dec_seq(bytes, pos + 9, n as nat, nh) {
                DecSeqRes::Run(ws, p) => DecRes::Node(WireModel::List(ws), p),
                DecSeqRes::Malformed => DecRes::Malformed,
                DecSeqRes::BadIndex => DecRes::BadIndex,
            }
        } else if tag == TAG_CAP {
            if (n as nat) < nh {
                DecRes::Node(WireModel::Cap(n), pos + 9)
            } else {
                DecRes::BadIndex
            }
        } else {
            DecRes::Malformed
        }
    }
}

/// Reads `n` consecutive nodes starting at `pos`.
pub open spec fn dec_seq(bytes: Seq<u8>, pos: int, n: nat, nh: nat) -> DecSeqRes
    decreases bytes.len() - pos, 1int, n,
{
    if pos < 0 || pos > bytes.len() {
        DecSeqRes::Malformed
    } else if n == 0 {
        DecSeqRes::Run(Seq::empty(), pos)
    } else {
        match dec(bytes, pos, nh) {
            DecRes::Node(w, p) => {
                if pos < p <= bytes.len() {
                    match dec_seq(bytes, p, (n - 1) as nat, nh) {
                        DecSeqRes::Run(ws, q) => DecSeqRes::Run(seq![w] + ws, q),
                        DecSeqRes::Malformed => DecSeqRes::Malformed,
                        DecSeqRes::BadIndex => DecSeqRes::BadIndex,
                    }
                } else {
                    DecSeqRes::Malformed
                }
            },
            DecRes::Malformed => DecSeqRes::Malformed,
            DecRes::BadIndex => DecSeqRes::BadIndex,
        }
    }
}

/// Every node occupies at least its 9-byte header.
pub proof fn lemma_wire_len_min(w: WireModel)
    ensures
        wire(w).len() >= 9,
{
    lemma_auto_spec_u64_to_from_le_bytes();
    match w {
        WireModel::Int(_) => {},
        WireModel::Str(_) => {},
        WireModel::List(_) => {},
        WireModel::Cap(_) => {},
    }
}

pub proof fn lemma_chars_bytes_len(s: Seq<char>)
    ensures
        chars_bytes(s).len() == 4 * s.len(),
    decreases s.len(),
{
    vstd::bytes::lemma_auto_spec_u32_to_from_le_bytes();
    if s.len() > 0 {
        lemma_chars_bytes_len(s.subrange(1, s.len() as int));
    }
}

pub proof fn lemma_chars_bytes_snoc(s: Seq<char>, c: char)
    ensures
        chars_bytes(s.push(c)) == chars_bytes(s) + spec_u32_to_le_bytes(c as u32),
    decreases s,
{
    let t = s.push(c);
    if s.len() == 0 {
        assert(t.subrange(1, t.len() as int) =~= Seq::<char>::empty());
        assert(chars_bytes(Seq::<char>::empty()) =~= Seq::<u8>::empty());
        assert(chars_bytes(t) =~= chars_bytes(s) + spec_u32_to_le_bytes(c as u32));
    } else {
        assert(t.subrange(1, t.len() as int) =~= s.subrange(1, s.len() as int).push(c));
        lemma_chars_bytes_snoc(s.subrange(1, s.len() as int), c);
        assert(chars_bytes(t) =~= chars_bytes(s) + spec_u32_to_le_bytes(c as u32));
    }
}

pub proof fn lemma_wire_seq_snoc(ws: Seq<WireModel>, w: WireModel)
    ensures
        wire_seq(ws.push(w)) == wire_seq(ws) + wire(w),
    decreases ws,
{
    let t = ws.push(w);
    if ws.len() == 0 {
        assert(t.subrange(1, t.len() as int) =~= Seq::<WireModel>::empty());
        assert(wire_seq(Seq::<WireModel>::empty()) =~= Seq::<u8>::empty());
        assert(wire_seq(t) =~= wire_seq(ws) + wire(w));
    } else {
        assert(t.subrange(1, t.len() as int) =~= ws.subrange(1, ws.len() as int).push(w));
        lemma_wire_seq_snoc(ws.subrange(1, ws.len() as int), w);
        assert(wire_seq(t) =~= wire_seq(ws) + wire(w));
    }
}

/// A stretch of bytes equal to a concatenation carves into its two parts.
pub proof fn lemma_concat_carve(bytes: Seq<u8>, pos: int, x: Seq<u8>, y: Seq<u8>)
    requires
        0 <= pos,
        pos + x.len() + y.len() <= bytes.len(),
        bytes.subrange(pos, pos + x.len() + y.len()) == x + y,
    ensures
        bytes.subrange(pos, pos + x.len()) == x,
        bytes.subrange(pos + x.len(), pos + x.len() + y.len()) == y,
{
    let a = x.len() as int;
    let b = y.len() as int;
    assert(bytes.subrange(pos, pos + a) =~= x) by {
        assert forall|j: int| 0 <= j < a implies bytes.subrange(pos, pos + a)[j] == x[j] by {
            assert(bytes.subrange(pos, pos + a + b)[j] == (x + y)[j]);
        }
    }
    assert(bytes.subrange(pos + a, pos + a + b) =~= y) by {
        assert forall|j: int| 0 <= j < b implies bytes.subrange(pos + a, pos + a + b)[j]
            == y[j] by {
            assert(bytes.subrange(pos, pos + a + b)[a + j] == (x + y)[a + j]);
        }
    }
}

/// Characters laid down by `chars_bytes` read back as themselves.
pub proof fn lemma_dec_chars(s: Seq<char>, bytes: Seq<u8>, pos: int)
    requires
        0 <= pos,
        pos + 4 * s.len() <= bytes.len(),
        bytes.subrange(pos, pos + 4 * s.len()) == chars_bytes(s),
    ensures
        dec_chars(bytes, pos, s.len()) == Some(s),
    decreases s.len(),
{
    lemma_auto_spec_u32_to_from_le_bytes();
    if s.len() > 0 {
        let c0 = s[0] as u32;
        let enc = spec_u32_to_le_bytes(c0);
        let rest = s.subrange(1, s.len() as int);
        lemma_chars_bytes_len(rest);
        lemma_concat_carve(bytes, pos, enc, chars_bytes(rest));
        assert(spec_u32_from_le_bytes(bytes.subrange(pos, pos + 4)) == c0);
        vstd::utf8::char_is_scalar(s[0]);
        assert(valid_scalar(c0));
        vstd::utf8::char_u32_cast(s[0], c0);
        assert(c0 as char == s[0]);
        lemma_dec_chars(rest, bytes, pos + 4);
        assert(seq![s[0]] + rest =~= s);
    }
}

/// A node laid down by `wire` reads back as itself: the decoder is a left
/// inverse of the encoder, for any in-range capability indices.
pub proof fn lemma_dec_wire(w: WireModel, bytes: Seq<u8>, pos: int, nh: nat)
    requires
        crate::model::wf_wire(w, nh),
        bounded_wire(w),
        0 <= pos,
        pos + wire(w).len() <= bytes.len(),
        bytes.subrange(pos, pos + wire(w).len()) == wire(w),
    ensures
        dec(bytes, pos, nh) == DecRes::Node(w, pos + wire(w).len()),
    decreases w,
{
    lemma_auto_spec_u64_to_from_le_bytes();
    lemma_wire_len_min(w);
    match w {
        WireModel::Int(i) => {
            let word = spec_u64_to_le_bytes(i);
            lemma_concat_carve(bytes, pos, seq![TAG_INT], word);
            lemma_concat_carve(bytes, pos + 1, word, Seq::empty());
            assert(bytes[pos] == bytes.subrange(pos, pos + 1)[0]);
            assert(bytes.subrange(pos + 1, pos + 9) == word);
        },
        WireModel::Cap(i) => {
            let word = spec_u64_to_le_bytes(i);
            lemma_concat_carve(bytes, pos, seq![TAG_CAP], word);
            assert(bytes[pos] == bytes.subrange(pos, pos + 1)[0]);
            assert(bytes.subrange(pos + 1, pos + 9) == word);
        },
        WireModel::Str(s) => {
            let word = spec_u64_to_le_bytes(s.len() as u64);
            lemma_chars_bytes_len(s);
            assert(wire(w) =~= seq![TAG_STR] + (word + chars_bytes(s)));
            lemma_concat_carve(bytes, pos, seq![TAG_STR], word + chars_bytes(s));
            lemma_concat_carve(bytes, pos + 1, word, chars_bytes(s));
            assert(bytes[pos] == bytes.subrange(pos, pos + 1)[0]);
            assert(bytes.subrange(pos + 1, pos + 9) == word);
            let n = spec_u64_from_le_bytes(bytes.subrange(pos + 1, pos + 9));
            assert(n == s.len() as u64);
            assert(4 * n == 4 * s.len());
            lemma_dec_chars(s, bytes, pos + 9);
        },
        WireModel::List(ws) => {
            let word = spec_u64_to_le_bytes(ws.len() as u64);
            assert(wire(w) =~= seq![TAG_LIST] + (word + wire_seq(ws)));
            lemma_concat_carve(bytes, pos, seq![TAG_LIST], word + wire_seq(ws));
            lemma_concat_carve(bytes, pos + 1, word, wire_seq(ws));
            assert(bytes[pos] == bytes.subrange(pos, pos + 1)[0]);
            assert(bytes.subrange(pos + 1, pos + 9) == word);
            let n = spec_u64_from_le_bytes(bytes.subrange(pos + 1, pos + 9));
            assert(n == ws.len() as u64);
            lemma_dec_wire_seq(ws, bytes, pos + 9, nh);
        },
    }
}

pub proof fn lemma_dec_wire_seq(ws: Seq<WireModel>, bytes: Seq<u8>, pos: int, nh: nat)
    requires
        crate::model::wf_wire_seq(ws, nh),
        bounded_wire_seq(ws),
        0 <= pos,
        pos + wire_seq(ws).len() <= bytes.len(),
        bytes.subrange(pos, pos + wire_seq(ws).len()) == wire_seq(ws),
    ensures
        dec_seq(bytes, pos, ws.len(), nh) == DecSeqRes::Run(ws, pos + wire_seq(ws).len()),
    decreases ws,
{
    if ws.len() > 0 {
        let rest = ws.subrange(1, ws.len() as int);
        let head = wire(ws[0]);
        lemma_wire_len_min(ws[0]);
        lemma_concat_carve(bytes, pos, head, wire_seq(rest));
        lemma_dec_wire(ws[0], bytes, pos, nh);
        let p = pos + head.len();
        lemma_dec_wire_seq(rest, bytes, p, nh);
        assert(dec(bytes, pos, nh) == DecRes::Node(ws[0], p));
        assert(pos < p <= bytes.len());
        assert(rest.len() == ws.len() - 1);
        assert(dec_seq(bytes, p, (ws.len() - 1) as nat, nh)
            == DecSeqRes::Run(rest, p + wire_seq(rest).len()));
        assert(seq![ws[0]] + rest =~= ws);
        assert(wire_seq(ws) == head + wire_seq(rest));
        assert(dec_seq(bytes, pos, ws.len(), nh)
            == DecSeqRes::Run(seq![ws[0]] + rest, p + wire_seq(rest).len()));
    } else {
        assert(ws =~= Seq::<WireModel>::empty());
    }
}

} // verus!
