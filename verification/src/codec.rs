//! The codec: executable encoding and decoding of [`Value`]s.
//!
//! `encode_message` lays a value down as bytes while collecting its embedded
//! endpoints, in first-encountered order, into the capability list that
//! travels alongside; the position each endpoint takes in that list is the
//! index written into the byte stream in its place. `decode_message` is its
//! verified inverse: it reproduces exactly the mathematical decoder `dec`,
//! resolving each index against the delivered handle list and reporting a
//! malformed payload or an out-of-range index as an error, never a panic.

use vstd::prelude::*;
use vstd::slice::slice_subrange;
use vstd::bytes::u32_to_le_bytes;
use vstd::bytes::u32_from_le_bytes;
use vstd::bytes::u64_to_le_bytes;
use vstd::bytes::u64_from_le_bytes;
use vstd::string::StrSliceExecFns;
use vstd::string::StringExecFns;
use crate::errors::RecvError;
use crate::model::Value;
use crate::model::ValModel;
use crate::model::WireModel;
use crate::model::val_model_seq;
use crate::model::caps;
use crate::model::caps_seq;
use crate::model::strip;
use crate::model::strip_seq;
use crate::model::conc;
use crate::model::conc_seq;
use crate::model::lemma_val_model_seq_len;
use crate::model::lemma_val_model_seq_snoc;
use crate::model::lemma_caps_seq_snoc;
use crate::model::lemma_strip_seq_snoc;
use crate::model::lemma_strip_seq_len;
use crate::raw::RawSender;
use crate::wire::DecRes;
use crate::wire::DecSeqRes;
use crate::wire::TAG_INT;
use crate::wire::TAG_STR;
use crate::wire::TAG_LIST;
use crate::wire::TAG_CAP;
use crate::wire::valid_scalar;
use crate::wire::chars_bytes;
use crate::wire::dec;
use crate::wire::dec_chars;
use crate::wire::dec_seq;
use crate::wire::wire;
use crate::wire::wire_seq;
use crate::wire::lemma_chars_bytes_snoc;
use crate::wire::lemma_wire_seq_snoc;

verus! {

/// Relies on `char::from_u32`: `Some` exactly for Unicode scalar values,
/// which convert back to the same character.
pub assume_specification[ char::from_u32 ](n: u32) -> (r: Option<char>)
    ensures
        valid_scalar(n) ==> r == Some(n as char),
        !valid_scalar(n) ==> r is None,
;

/// Relies on `String::push`: appends the given character to the string.
pub assume_specification[ String::push ](s: &mut String, c: char)
    ensures
        final(s)@ == old(s)@.push(c),
;

/// Writes the characters of `s`, each as its 32-bit scalar value,
/// little-endian.
#[verifier::loop_isolation(false)]
fn encode_chars(s: &str, out: &mut Vec<u8>)
    ensures
        final(out)@ == old(out)@ + chars_bytes(s@),
{
    let n = s.unicode_len();
    let mut i: usize = 0;
    proof {
        assert(s@.subrange(0, 0) =~= Seq::<char>::empty());
        assert(chars_bytes(Seq::<char>::empty()) =~= Seq::<u8>::empty());
        assert(out@ =~= out@ + chars_bytes(s@.subrange(0, 0)));
    }
    while i < n
        invariant
            i <= n,
            out@ == old(out)@ + chars_bytes(s@.subrange(0, i as int)),
        decreases n - i,
    {
        let c = s.get_char(i);
        let mut cw = u32_to_le_bytes(c as u32);
        out.append(&mut cw);
        proof {
            lemma_chars_bytes_snoc(s@.subrange(0, i as int), s@[i as int]);
            assert(s@.subrange(0, i as int).push(s@[i as int]) =~= s@.subrange(0, i + 1));
            assert(out@ =~= old(out)@ + chars_bytes(s@.subrange(0, i + 1)));
        }
        i = i + 1;
    }
    proof {
        assert(s@.subrange(0, s@.len() as int) =~= s@);
    }
}

/// Appends the encoding of `v` to `out`, and its endpoints to `caps_out`.
/// Each endpoint is written as the index it takes in `caps_out`: the list's
/// length at the moment it is pushed.
#[verifier::loop_isolation(false)]
pub fn encode_value(v: &Value, out: &mut Vec<u8>, caps_out: &mut Vec<RawSender>)
    ensures
        final(out)@ == old(out)@ + wire(strip(v@, old(caps_out)@.len() as nat)),
        final(caps_out)@ == old(caps_out)@ + caps(v@),
    decreases v,
{
    let ghost k0 = caps_out@.len() as nat;
    match v {
        Value::Int(n) => {
            out.push(TAG_INT);
            let mut w = u64_to_le_bytes(*n);
            out.append(&mut w);
            proof {
                assert(out@ =~= old(out)@ + wire(strip(v@, k0)));
                assert(caps_out@ =~= old(caps_out)@ + caps(v@));
            }
        },
        Value::Str(st) => {
            out.push(TAG_STR);
            let len = st.as_str().unicode_len();
            let mut w = u64_to_le_bytes(len as u64);
            out.append(&mut w);
            encode_chars(st.as_str(), out);
            proof {
                assert(out@ =~= old(out)@ + wire(strip(v@, k0)));
                assert(caps_out@ =~= old(caps_out)@ + caps(v@));
            }
        },
        Value::List(vs) => {
            out.push(TAG_LIST);
            let mut w = u64_to_le_bytes(vs.len() as u64);
            out.append(&mut w);
            let ghost mid = out@;
            let mut i: usize = 0;
            proof {
                assert(vs@.subrange(0, 0) =~= Seq::<Value>::empty());
                assert(val_model_seq(Seq::<Value>::empty()) =~= Seq::<ValModel>::empty());
                assert(strip_seq(Seq::<ValModel>::empty(), k0) =~= Seq::<WireModel>::empty());
                assert(wire_seq(Seq::<WireModel>::empty()) =~= Seq::<u8>::empty());
                assert(caps_seq(Seq::<ValModel>::empty()) =~= Seq::<RawSender>::empty());
                assert(out@ =~= mid + wire_seq(strip_seq(val_model_seq(vs@.subrange(0, 0)), k0)));
                assert(caps_out@ =~= old(caps_out)@ + caps_seq(val_model_seq(vs@.subrange(0, 0))));
            }
            while i < vs.len()
                invariant
                    i <= vs@.len(),
                    out@ == mid + wire_seq(strip_seq(val_model_seq(vs@.subrange(0, i as int)), k0)),
                    caps_out@ == old(caps_out)@ + caps_seq(val_model_seq(vs@.subrange(0, i as int))),
                decreases vs@.len() - i,
            {
                let ghost pre = vs@.subrange(0, i as int);
                let ghost kc = caps_out@.len() as nat;
                encode_value(&vs[i], out, caps_out);
                proof {
                    let m = crate::model::val_model(vs@[i as int]);
                    lemma_val_model_seq_snoc(pre, vs@[i as int]);
                    lemma_caps_seq_snoc(val_model_seq(pre), m);
                    lemma_strip_seq_snoc(val_model_seq(pre), m, k0);
                    lemma_wire_seq_snoc(
                        strip_seq(val_model_seq(pre), k0),
                        strip(m, (k0 + caps_seq(val_model_seq(pre)).len()) as nat),
                    );
                    assert(kc == k0 + caps_seq(val_model_seq(pre)).len());
                    assert(pre.push(vs@[i as int]) =~= vs@.subrange(0, i + 1));
                    assert(out@ =~= mid + wire_seq(strip_seq(val_model_seq(
                        vs@.subrange(0, i + 1)), k0)));
                    assert(caps_out@ =~= old(caps_out)@ + caps_seq(val_model_seq(
                        vs@.subrange(0, i + 1))));
                }
                i = i + 1;
            }
            proof {
                assert(vs@.subrange(0, vs@.len() as int) =~= vs@);
                lemma_val_model_seq_len(vs@);
                lemma_strip_seq_len(val_model_seq(vs@), k0);
                assert(out@ =~= old(out)@ + wire(strip(v@, k0)));
            }
        },
        Value::Sender(s) => {
            let idx = caps_out.len();
            out.push(TAG_CAP);
            let mut w = u64_to_le_bytes(idx as u64);
            out.append(&mut w);
            caps_out.push(s.clone());
            proof {
                assert(out@ =~= old(out)@ + wire(strip(v@, k0)));
                assert(caps_out@ =~= old(caps_out)@ + caps(v@));
            }
        },
    }
}

/// Encodes one value as the pair a raw send carries: the byte payload, and
/// the capability list its indices refer into.
pub fn encode_message(v: &Value) -> (r: (Vec<u8>, Vec<RawSender>))
    ensures
        r.0@ == wire(strip(v@, 0)),
        r.1@ == caps(v@),
{
    let mut out: Vec<u8> = Vec::new();
    let mut hs: Vec<RawSender> = Vec::new();
    encode_value(v, &mut out, &mut hs);
    proof {
        assert(out@ =~= wire(strip(v@, 0)));
        assert(hs@ =~= caps(v@));
    }
    (out, hs)
}

/// Reads `n` characters of 4 bytes each, starting at `pos`.
fn decode_chars(bytes: &Vec<u8>, pos: usize, n: u64) -> (r: Result<(String, usize), RecvError>)
    requires
        pos + 4 * n <= bytes@.len(),
    ensures
        match dec_chars(bytes@, pos as int, n as nat) {
            Some(s) => r matches Ok(x) && x.0@ == s && x.1 == pos + 4 * n,
            None => r == Err::<(String, usize), RecvError>(RecvError::Decode),
        },
    decreases n,
{
    if n == 0 {
        Ok((String::new(), pos))
    } else {
        let blen = bytes.len();
        proof {
            assert(4 * n >= 4);
            assert(blen == bytes@.len());
        }
        let s4 = slice_subrange(bytes.as_slice(), pos, pos + 4);
        let code = u32_from_le_bytes(s4);
        match char::from_u32(code) {
            Some(c) => {
                match decode_chars(bytes, pos + 4, n - 1) {
                    Ok((rest, end)) => {
                        let mut s = String::new();
                        s.push(c);
                        s.append(rest.as_str());
                        proof {
                            let spec_rest = dec_chars(bytes@, pos + 4, (n - 1) as nat);
                            assert(s@ =~= seq![c] + spec_rest.unwrap());
                        }
                        Ok((s, end))
                    },
                    Err(e) => Err(e),
                }
            },
            None => Err(RecvError::Decode),
        }
    }
}

/// Reads the node at `pos`, resolving capability indices against `handles`.
/// Mirrors the mathematical decoder `dec` exactly, outcome for outcome.
fn decode_value(bytes: &Vec<u8>, pos: usize, handles: &Vec<RawSender>) -> (r: Result<
    (Value, usize),
    RecvError,
>)
    requires
        pos <= bytes@.len(),
    ensures
        match dec(bytes@, pos as int, handles@.len() as nat) {
            DecRes::Node(w, p) => r matches Ok(x) && x.0@ == conc(w, handles@) && x.1 == p
                && pos < p <= bytes@.len(),
            DecRes::Malformed => r == Err::<(Value, usize), RecvError>(RecvError::Decode),
            DecRes::BadIndex => r == Err::<(Value, usize), RecvError>(
                RecvError::HandleIndexOutOfRange,
            ),
        },
    decreases bytes@.len() - pos, 0int, 0int,
{
    if bytes.len() - pos < 9 {
        Err(RecvError::Decode)
    } else {
        let tag = bytes[pos];
        let s8 = slice_subrange(bytes.as_slice(), pos + 1, pos + 9);
        let n = u64_from_le_bytes(s8);
        if tag == TAG_INT {
            Ok((Value::Int(n), pos + 9))
        } else if tag == TAG_STR {
            let rem = bytes.len() - (pos + 9);
            if (rem as u64) / 4 < n {
                proof {
                    assert(rem < 4 * n) by (nonlinear_arith)
                        requires
                            (rem as u64) / 4 < n,
                            rem <= u64::MAX,
                    ;
                }
                Err(RecvError::Decode)
            } else {
                proof {
                    assert(4 * n <= rem) by (nonlinear_arith)
                        requires
                            n <= (rem as u64) / 4,
                            rem <= u64::MAX,
                    ;
                }
                match decode_chars(bytes, pos + 9, n) {
                    Ok((st, end)) => Ok((Value::Str(st), end)),
                    Err(e) => Err(e),
                }
            }
        } else if tag == TAG_LIST {
            match decode_list(bytes, pos + 9, n, handles) {
                Ok((vs, end)) => {
                    proof {
                        let res = dec_seq(bytes@, pos + 9, n as nat, handles@.len() as nat);
                        assert(res matches DecSeqRes::Run(ws, p) ==> conc(
                            WireModel::List(ws), handles@) == ValModel::List(
                            conc_seq(ws, handles@)));
                    }
                    Ok((Value::List(vs), end))
                },
                Err(e) => Err(e),
            }
        } else if tag == TAG_CAP {
            if n < handles.len() as u64 {
                let h = handles[n as usize].clone();
                Ok((Value::Sender(h), pos + 9))
            } else {
                Err(RecvError::HandleIndexOutOfRange)
            }
        } else {
            Err(RecvError::Decode)
        }
    }
}

/// Reads a run of `n` nodes starting at `pos`; mirrors `dec_seq`.
fn decode_list(bytes: &Vec<u8>, pos: usize, n: u64, handles: &Vec<RawSender>) -> (r: Result<
    (Vec<Value>, usize),
    RecvError,
>)
    requires
        pos <= bytes@.len(),
    ensures
        match dec_seq(bytes@, pos as int, n as nat, handles@.len() as nat) {
            DecSeqRes::Run(ws, p) => r matches Ok(x) && val_model_seq(x.0@) == conc_seq(
                ws, handles@) && x.1 == p && pos <= p <= bytes@.len(),
            DecSeqRes::Malformed => r == Err::<(Vec<Value>, usize), RecvError>(RecvError::Decode),
            DecSeqRes::BadIndex => r == Err::<(Vec<Value>, usize), RecvError>(
                RecvError::HandleIndexOutOfRange,
            ),
        },
    decreases bytes@.len() - pos, 1int, n,
{
    if n == 0 {
        let vs: Vec<Value> = Vec::new();
        proof {
            assert(val_model_seq(vs@) =~= Seq::<ValModel>::empty());
            assert(conc_seq(Seq::<WireModel>::empty(), handles@) =~= Seq::<ValModel>::empty());
        }
        Ok((vs, pos))
    } else {
        match decode_value(bytes, pos, handles) {
            Ok((v, p)) => {
                match decode_list(bytes, p, n - 1, handles) {
                    Ok((mut vs, end)) => {
                        let ghost tail = vs@;
                        vs.insert(0, v);
                        proof {
                            let w = dec(bytes@, pos as int, handles@.len() as nat)->Node_0;
                            let ws = dec_seq(bytes@, p as int, (n - 1) as nat,
                                handles@.len() as nat)->Run_0;
                            let t = vs@;
                            assert(t[0] == v);
                            assert(t.subrange(1, t.len() as int) =~= tail);
                            lemma_decode_cons(v, w, t, ws, handles@);
                        }
                        Ok((vs, end))
                    },
                    Err(e) => Err(e),
                }
            },
            Err(e) => Err(e),
        }
    }
}

/// `val_model_seq` and `conc_seq` agree on a cons cell when they agree on
/// head and tail.
proof fn lemma_decode_cons(
    v: Value,
    w: WireModel,
    t: Seq<Value>,
    ws: Seq<WireModel>,
    hs: Seq<RawSender>,
)
    requires
        t.len() > 0,
        t[0] == v,
        crate::model::val_model(v) == conc(w, hs),
        val_model_seq(t.subrange(1, t.len() as int)) == conc_seq(ws, hs),
    ensures
        val_model_seq(t) == conc_seq(seq![w] + ws, hs),
{
    let u = seq![w] + ws;
    assert(u[0] == w);
    assert(u.subrange(1, u.len() as int) =~= ws);
    assert(val_model_seq(t) =~= conc_seq(u, hs));
}

/// Stripping a bounded value yields a bounded wire node.
proof fn lemma_strip_bounded(m: ValModel, k: nat)
    requires
        crate::model::bounded_val(m),
    ensures
        crate::wire::bounded_wire(strip(m, k)),
    decreases m,
{
    match m {
        ValModel::List(ms) => {
            lemma_strip_seq_len(ms, k);
            lemma_strip_seq_bounded(ms, k);
        },
        _ => {},
    }
}

proof fn lemma_strip_seq_bounded(ms: Seq<ValModel>, k: nat)
    requires
        crate::model::bounded_val_seq(ms),
    ensures
        crate::wire::bounded_wire_seq(strip_seq(ms, k)),
    decreases ms,
{
    if ms.len() > 0 {
        let rest = ms.subrange(1, ms.len() as int);
        let k1 = (k + caps(ms[0]).len()) as nat;
        lemma_strip_bounded(ms[0], k);
        lemma_strip_seq_bounded(rest, k1);
        let sw = strip_seq(ms, k);
        assert(sw[0] == strip(ms[0], k));
        assert(sw.subrange(1, sw.len() as int) =~= strip_seq(rest, k1));
    }
}

/// The codec round trip: for every bounded value model, the bytes that
/// `encode_message` is specified to produce decode — against exactly the
/// capability list it is specified to collect — back to the very same
/// value: the whole payload is consumed, every index resolves, and each
/// embedded endpoint comes back as the endpoint that went in.
pub proof fn lemma_codec_round_trip(m: ValModel)
    requires
        crate::model::bounded_val(m),
        caps(m).len() <= u64::MAX,
    ensures
        dec(wire(strip(m, 0)), 0, caps(m).len()) == DecRes::Node(
            strip(m, 0),
            wire(strip(m, 0)).len() as int,
        ),
        conc(strip(m, 0), caps(m)) == m,
{
    let w = strip(m, 0);
    let bytes = wire(w);
    crate::model::lemma_strip_wf(m, 0);
    lemma_strip_bounded(m, 0);
    assert(bytes.subrange(0, bytes.len() as int) =~= bytes);
    crate::wire::lemma_dec_wire(w, bytes, 0, caps(m).len());
    assert(caps(m).subrange(0, caps(m).len() as int) =~= caps(m));
    crate::model::lemma_conc_strip(m, 0, caps(m));
}

/// Index assignment is deterministic: the encoding of a value writes the
/// capability indices `0, 1, ...` in first-encountered traversal order, one
/// for each embedded endpoint in the collected capability list.
pub proof fn lemma_index_assignment(m: ValModel)
    requires
        caps(m).len() <= u64::MAX,
    ensures
        crate::model::cap_indices(strip(m, 0)) == Seq::new(
            caps(m).len(),
            |i: int| i as u64,
        ),
{
    crate::model::lemma_strip_indices(m, 0);
    assert(Seq::new(caps(m).len(), |i: int| (0 + i) as u64)
        =~= Seq::new(caps(m).len(), |i: int| i as u64));
}

/// Decodes one delivered message: the whole byte payload must form exactly
/// one value, whose capability indices resolve within `handles`.
pub fn decode_message(bytes: &Vec<u8>, handles: &Vec<RawSender>) -> (r: Result<Value, RecvError>)
    ensures
        match dec(bytes@, 0, handles@.len() as nat) {
            DecRes::Node(w, p) => {
                if p == bytes@.len() {
                    r matches Ok(v) && v@ == conc(w, handles@)
                } else {
                    r == Err::<Value, RecvError>(RecvError::Decode)
                }
            },
            DecRes::Malformed => r == Err::<Value, RecvError>(RecvError::Decode),
            DecRes::BadIndex => r == Err::<Value, RecvError>(RecvError::HandleIndexOutOfRange),
        },
{
    match decode_value(bytes, 0, handles) {
        Ok((v, p)) => {
            if p == bytes.len() {
                Ok(v)
            } else {
                Err(RecvError::Decode)
            }
        },
        Err(e) => Err(e),
    }
}

} // verus!
