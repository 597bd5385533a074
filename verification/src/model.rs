//! The structured values a channel carries, and their mathematical models.
//!
//! A [`Value`] is what callers hand to `send` and get back from `recv`:
//! integers, character strings, nested lists, and — recursively — raw sender
//! endpoints. Its model [`ValModel`] is the same tree over mathematical
//! sequences. A [`WireModel`] is the shape of one encoded message: the same
//! tree, but each endpoint replaced by the index it occupies in the
//! out-of-band capability list. `strip` assigns those indices in
//! first-encountered traversal order; `conc` resolves them against a
//! delivered handle sequence; `caps` is the capability list itself.

use vstd::prelude::*;
use crate::raw::RawSender;

verus! {

/// A structured value of a supported shape.
pub enum Value {
    /// An unsigned integer.
    Int(u64),
    /// A character string.
    Str(String),
    /// A sequence of nested values.
    List(Vec<Value>),
    /// A channel endpoint travelling as a capability.
    Sender(RawSender),
}

/// The mathematical model of a [`Value`].
pub ghost enum ValModel {
    Int(u64),
    Str(Seq<char>),
    List(Seq<ValModel>),
    Sender(RawSender),
}

/// The model of one encoded message: endpoints appear as indices into the
/// capability list delivered alongside the bytes.
pub ghost enum WireModel {
    Int(u64),
    Str(Seq<char>),
    List(Seq<WireModel>),
    Cap(u64),
}

pub open spec fn val_model(v: Value) -> ValModel
    decreases v,
{
    match v {
        Value::Int(n) => ValModel::Int(n),
        Value::Str(s) => ValModel::Str(s@),
        Value::List(vs) => ValModel::List(val_model_seq(vs@)),
        Value::Sender(s) => ValModel::Sender(s),
    }
}

pub open spec fn val_model_seq(vs: Seq<Value>) -> Seq<ValModel>
    decreases vs,
{
    if vs.len() == 0 {
        Seq::empty()
    } else {
        seq![val_model(vs[0])] + val_model_seq(vs.subrange(1, vs.len() as int))
    }
}

impl View for Value {
    type V = ValModel;

    open spec fn view(&self) -> ValModel {
        val_model(*self)
    }
}

/// The capability list of a value: its embedded endpoints in
/// first-encountered traversal order.
pub open spec fn caps(m: ValModel) -> Seq<RawSender>
    decreases m,
{
    match m {
        ValModel::Int(_) => Seq::empty(),
        ValModel::Str(_) => Seq::empty(),
        ValModel::List(ms) => caps_seq(ms),
        ValModel::Sender(s) => seq![s],
    }
}

pub open spec fn caps_seq(ms: Seq<ValModel>) -> Seq<RawSender>
    decreases ms,
{
    if ms.len() == 0 {
        Seq::empty()
    } else {
        caps(ms[0]) + caps_seq(ms.subrange(1, ms.len() as int))
    }
}

/// Replaces each embedded endpoint by its index, counting from `k` in
/// first-encountered traversal order.
pub open spec fn strip(m: ValModel, k: nat) -> WireModel
    decreases m,
{
    match m {
        ValModel::Int(n) => WireModel::Int(n),
        ValModel::Str(s) => WireModel::Str(s),
        ValModel::List(ms) => WireModel::List(strip_seq(ms, k)),
        ValModel::Sender(_) => WireModel::Cap(k as u64),
    }
}

pub open spec fn strip_seq(ms: Seq<ValModel>, k: nat) -> Seq<WireModel>
    decreases ms,
{
    if ms.len() == 0 {
        Seq::empty()
    } else {
        seq![strip(ms[0], k)] + strip_seq(
            ms.subrange(1, ms.len() as int),
            k + caps(ms[0]).len(),
        )
    }
}

/// Every capability index of `w` falls below `nh`, the length of the
/// delivered handle sequence.
pub open spec fn wf_wire(w: WireModel, nh: nat) -> bool
    decreases w,
{
    match w {
        WireModel::Int(_) => true,
        WireModel::Str(_) => true,
        WireModel::List(ws) => wf_wire_seq(ws, nh),
        WireModel::Cap(i) => (i as nat) < nh,
    }
}

pub open spec fn wf_wire_seq(ws: Seq<WireModel>, nh: nat) -> bool
    decreases ws,
{
    if ws.len() == 0 {
        true
    } else {
        wf_wire(ws[0], nh) && wf_wire_seq(ws.subrange(1, ws.len() as int), nh)
    }
}

/// Resolves each capability index of `w` to the handle at that position.
pub open spec fn conc(w: WireModel, hs: Seq<RawSender>) -> ValModel
    decreases w,
{
    match w {
        WireModel::Int(n) => ValModel::Int(n),
        WireModel::Str(s) => ValModel::Str(s),
        WireModel::List(ws) => ValModel::List(conc_seq(ws, hs)),
        WireModel::Cap(i) => ValModel::Sender(hs[i as int]),
    }
}

pub open spec fn conc_seq(ws: Seq<WireModel>, hs: Seq<RawSender>) -> Seq<ValModel>
    decreases ws,
{
    if ws.len() == 0 {
        Seq::empty()
    } else {
        seq![conc(ws[0], hs)] + conc_seq(ws.subrange(1, ws.len() as int), hs)
    }
}

/// String lengths and element counts of the value fit the 64-bit words
/// that carry them on the wire. Every value built from real vectors and
/// strings is bounded.
pub open spec fn bounded_val(m: ValModel) -> bool
    decreases m,
{
    match m {
        ValModel::Int(_) => true,
        ValModel::Str(s) => s.len() <= u64::MAX,
        ValModel::List(ms) => ms.len() <= u64::MAX && bounded_val_seq(ms),
        ValModel::Sender(_) => true,
    }
}

pub open spec fn bounded_val_seq(ms: Seq<ValModel>) -> bool
    decreases ms,
{
    if ms.len() == 0 {
        true
    } else {
        bounded_val(ms[0]) && bounded_val_seq(ms.subrange(1, ms.len() as int))
    }
}

/// The positions of a value's capability indices, in the order the wire
/// carries them.
pub open spec fn cap_indices(w: WireModel) -> Seq<u64>
    decreases w,
{
    match w {
        WireModel::Int(_) => Seq::empty(),
        WireModel::Str(_) => Seq::empty(),
        WireModel::List(ws) => cap_indices_seq(ws),
        WireModel::Cap(i) => seq![i],
    }
}

pub open spec fn cap_indices_seq(ws: Seq<WireModel>) -> Seq<u64>
    decreases ws,
{
    if ws.len() == 0 {
        Seq::empty()
    } else {
        cap_indices(ws[0]) + cap_indices_seq(ws.subrange(1, ws.len() as int))
    }
}

/// Index assignment is deterministic: stripping from `k` writes exactly the
/// indices `k, k + 1, ...`, one per embedded endpoint, in first-encountered
/// traversal order.
pub proof fn lemma_strip_indices(m: ValModel, k: nat)
    requires
        k + caps(m).len() <= u64::MAX,
    ensures
        cap_indices(strip(m, k)) == Seq::new(caps(m).len(), |i: int| (k + i) as u64),
    decreases m,
{
    match m {
        ValModel::List(ms) => {
            lemma_strip_indices_seq(ms, k);
        },
        ValModel::Sender(_) => {
            assert(cap_indices(strip(m, k)) =~= Seq::new(caps(m).len(), |i: int| (k + i) as u64));
        },
        _ => {
            assert(cap_indices(strip(m, k)) =~= Seq::new(caps(m).len(), |i: int| (k + i) as u64));
        },
    }
}

pub proof fn lemma_strip_indices_seq(ms: Seq<ValModel>, k: nat)
    requires
        k + caps_seq(ms).len() <= u64::MAX,
    ensures
        cap_indices_seq(strip_seq(ms, k)) == Seq::new(caps_seq(ms).len(), |i: int| (k + i) as u64),
    decreases ms,
{
    if ms.len() == 0 {
        assert(cap_indices_seq(strip_seq(ms, k))
            =~= Seq::new(caps_seq(ms).len(), |i: int| (k + i) as u64));
    } else {
        let rest = ms.subrange(1, ms.len() as int);
        let a = caps(ms[0]).len();
        let k1 = (k + a) as nat;
        assert(caps_seq(ms) == caps(ms[0]) + caps_seq(rest));
        lemma_strip_indices(ms[0], k);
        lemma_strip_indices_seq(rest, k1);
        let sw = strip_seq(ms, k);
        assert(sw[0] == strip(ms[0], k));
        assert(sw.subrange(1, sw.len() as int) =~= strip_seq(rest, k1));
        assert(cap_indices_seq(sw) =~= Seq::new(caps_seq(ms).len(), |i: int| (k + i) as u64));
    }
}

pub proof fn lemma_val_model_seq_len(vs: Seq<Value>)
    ensures
        val_model_seq(vs).len() == vs.len(),
    decreases vs,
{
    if vs.len() > 0 {
        lemma_val_model_seq_len(vs.subrange(1, vs.len() as int));
    }
}

pub proof fn lemma_strip_seq_len(ms: Seq<ValModel>, k: nat)
    ensures
        strip_seq(ms, k).len() == ms.len(),
    decreases ms,
{
    if ms.len() > 0 {
        lemma_strip_seq_len(ms.subrange(1, ms.len() as int), (k + caps(ms[0]).len()) as nat);
    }
}

pub proof fn lemma_val_model_seq_snoc(vs: Seq<Value>, x: Value)
    ensures
        val_model_seq(vs.push(x)) == val_model_seq(vs).push(val_model(x)),
    decreases vs,
{
    let t = vs.push(x);
    if vs.len() == 0 {
        assert(t.subrange(1, t.len() as int) =~= Seq::<Value>::empty());
        assert(val_model_seq(Seq::<Value>::empty()) =~= Seq::<ValModel>::empty());
        assert(val_model_seq(t) =~= val_model_seq(vs).push(val_model(x)));
    } else {
        assert(t.subrange(1, t.len() as int) =~= vs.subrange(1, vs.len() as int).push(x));
        lemma_val_model_seq_snoc(vs.subrange(1, vs.len() as int), x);
        assert(t[0] == vs[0]);
        assert(val_model_seq(t) == seq![val_model(t[0])] + val_model_seq(
            t.subrange(1, t.len() as int)));
        assert(val_model_seq(vs) == seq![val_model(vs[0])] + val_model_seq(
            vs.subrange(1, vs.len() as int)));
        assert(val_model_seq(t) =~= val_model_seq(vs).push(val_model(x)));
    }
}

pub proof fn lemma_caps_seq_snoc(ms: Seq<ValModel>, m: ValModel)
    ensures
        caps_seq(ms.push(m)) == caps_seq(ms) + caps(m),
    decreases ms,
{
    let t = ms.push(m);
    if ms.len() == 0 {
        assert(t.subrange(1, t.len() as int) =~= Seq::<ValModel>::empty());
        assert(caps_seq(Seq::<ValModel>::empty()) =~= Seq::<RawSender>::empty());
        assert(caps_seq(t) =~= caps_seq(ms) + caps(m));
    } else {
        assert(t.subrange(1, t.len() as int) =~= ms.subrange(1, ms.len() as int).push(m));
        lemma_caps_seq_snoc(ms.subrange(1, ms.len() as int), m);
        assert(caps_seq(t) =~= caps_seq(ms) + caps(m));
    }
}

pub proof fn lemma_strip_seq_snoc(ms: Seq<ValModel>, m: ValModel, k: nat)
    ensures
        strip_seq(ms.push(m), k) == strip_seq(ms, k).push(
            strip(m, (k + caps_seq(ms).len()) as nat),
        ),
    decreases ms,
{
    let t = ms.push(m);
    if ms.len() == 0 {
        assert(t.subrange(1, t.len() as int) =~= Seq::<ValModel>::empty());
        assert(strip_seq(Seq::<ValModel>::empty(), (k + caps(m).len()) as nat)
            =~= Seq::<WireModel>::empty());
        assert(caps_seq(ms) =~= Seq::<RawSender>::empty());
        assert(strip_seq(t, k) =~= strip_seq(ms, k).push(
            strip(m, (k + caps_seq(ms).len()) as nat)));
    } else {
        let rest = ms.subrange(1, ms.len() as int);
        let k1 = (k + caps(ms[0]).len()) as nat;
        assert(t.subrange(1, t.len() as int) =~= rest.push(m));
        lemma_strip_seq_snoc(rest, m, k1);
        assert(caps_seq(ms) == caps(ms[0]) + caps_seq(rest));
        assert(k1 + caps_seq(rest).len() == k + caps_seq(ms).len());
        assert(strip_seq(t, k) =~= strip_seq(ms, k).push(
            strip(m, (k + caps_seq(ms).len()) as nat)));
    }
}

/// Well-formedness is monotone in the handle count.
pub proof fn lemma_wf_wire_mono(w: WireModel, n1: nat, n2: nat)
    requires
        wf_wire(w, n1),
        n1 <= n2,
    ensures
        wf_wire(w, n2),
    decreases w,
{
    match w {
        WireModel::List(ws) => {
            lemma_wf_wire_seq_mono(ws, n1, n2);
        },
        _ => {},
    }
}

pub proof fn lemma_wf_wire_seq_mono(ws: Seq<WireModel>, n1: nat, n2: nat)
    requires
        wf_wire_seq(ws, n1),
        n1 <= n2,
    ensures
        wf_wire_seq(ws, n2),
    decreases ws,
{
    if ws.len() > 0 {
        lemma_wf_wire_mono(ws[0], n1, n2);
        lemma_wf_wire_seq_mono(ws.subrange(1, ws.len() as int), n1, n2);
    }
}

/// Index assignment stays in range: stripping from `k` uses exactly the
/// indices `k .. k + caps(m).len()`.
pub proof fn lemma_strip_wf(m: ValModel, k: nat)
    requires
        k + caps(m).len() <= u64::MAX,
    ensures
        wf_wire(strip(m, k), (k + caps(m).len()) as nat),
    decreases m,
{
    match m {
        ValModel::List(ms) => {
            lemma_strip_seq_wf(ms, k);
        },
        _ => {},
    }
}

pub proof fn lemma_strip_seq_wf(ms: Seq<ValModel>, k: nat)
    requires
        k + caps_seq(ms).len() <= u64::MAX,
    ensures
        wf_wire_seq(strip_seq(ms, k), (k + caps_seq(ms).len()) as nat),
    decreases ms,
{
    if ms.len() > 0 {
        let rest = ms.subrange(1, ms.len() as int);
        let k1 = (k + caps(ms[0]).len()) as nat;
        let nh = (k + caps_seq(ms).len()) as nat;
        assert(caps_seq(ms) == caps(ms[0]) + caps_seq(rest));
        lemma_strip_wf(ms[0], k);
        lemma_wf_wire_mono(strip(ms[0], k), k1, nh);
        lemma_strip_seq_wf(rest, k1);
        assert(k1 + caps_seq(rest).len() == nh);
        let tail = strip_seq(ms, k).subrange(1, strip_seq(ms, k).len() as int);
        assert(tail =~= strip_seq(rest, k1));
    }
}

/// Resolving a stripped value against a handle sequence that holds the
/// value's own capability list at offset `k` restores the value.
pub proof fn lemma_conc_strip(m: ValModel, k: nat, hs: Seq<RawSender>)
    requires
        hs.len() <= u64::MAX,
        k + caps(m).len() <= hs.len(),
        hs.subrange(k as int, (k + caps(m).len()) as int) == caps(m),
    ensures
        conc(strip(m, k), hs) == m,
    decreases m,
{
    match m {
        ValModel::List(ms) => {
            lemma_conc_strip_seq(ms, k, hs);
        },
        ValModel::Sender(s) => {
            assert(hs.subrange(k as int, (k + 1) as int)[0] == hs[k as int]);
        },
        _ => {},
    }
}

pub proof fn lemma_conc_strip_seq(ms: Seq<ValModel>, k: nat, hs: Seq<RawSender>)
    requires
        hs.len() <= u64::MAX,
        k + caps_seq(ms).len() <= hs.len(),
        hs.subrange(k as int, (k + caps_seq(ms).len()) as int) == caps_seq(ms),
    ensures
        conc_seq(strip_seq(ms, k), hs) == ms,
    decreases ms,
{
    if ms.len() > 0 {
        let rest = ms.subrange(1, ms.len() as int);
        let a = caps(ms[0]).len() as int;
        let b = caps_seq(rest).len() as int;
        let ki = k as int;
        let k1 = (k + caps(ms[0]).len()) as nat;
        assert(caps_seq(ms) == caps(ms[0]) + caps_seq(rest));
        assert(hs.subrange(ki, ki + a) =~= caps(ms[0])) by {
            assert forall|j: int| 0 <= j < a implies hs.subrange(ki, ki + a)[j]
                == caps(ms[0])[j] by {
                assert(hs.subrange(ki, ki + a + b)[j] == (caps(ms[0]) + caps_seq(rest))[j]);
            }
        }
        assert(hs.subrange(ki + a, ki + a + b) =~= caps_seq(rest)) by {
            assert forall|j: int| 0 <= j < b implies hs.subrange(ki + a, ki + a + b)[j]
                == caps_seq(rest)[j] by {
                assert(hs.subrange(ki, ki + a + b)[a + j] == (caps(ms[0]) + caps_seq(rest))[a + j]);
            }
        }
        lemma_conc_strip(ms[0], k, hs);
        lemma_conc_strip_seq(rest, k1, hs);
        let sw = strip_seq(ms, k);
        assert(sw[0] == strip(ms[0], k));
        assert(sw.subrange(1, sw.len() as int) =~= strip_seq(rest, k1));
        assert(conc_seq(sw, hs) =~= ms);
    }
}

} // verus!
