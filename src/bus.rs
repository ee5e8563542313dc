//! Bus operations produced by the transport, and their meaning as a trace of
//! select-line changes and byte transactions.

use vstd::prelude::*;

verus! {

/// One step that a driver performs on the physical bus, in order.
#[derive(Debug, PartialEq, Eq)]
pub enum BusOp {
    /// Drive the select line to its command level (low).
    SelectCommand,
    /// Drive the select line to its data level (high).
    SelectData,
    /// One transaction carrying these bytes.
    Write(Vec<u8>),
    /// The given number of transactions, each carrying these bytes.
    WriteRepeated(Vec<u8>, u32),
}

/// What the bus observes: a select-line change or one transaction.
pub enum BusEvent {
    SelectCommand,
    SelectData,
    Transfer(Seq<u8>),
}

/// `p` concatenated `n` times.
pub open spec fn repeat(p: Seq<u8>, n: nat) -> Seq<u8>
    decreases n,
{
    if n == 0 {
        Seq::empty()
    } else {
        repeat(p, (n - 1) as nat) + p
    }
}

/// The events of a single operation.
pub open spec fn op_events(op: BusOp) -> Seq<BusEvent> {
    match op {
        BusOp::SelectCommand => seq![BusEvent::SelectCommand],
        BusOp::SelectData => seq![BusEvent::SelectData],
        BusOp::Write(b) => seq![BusEvent::Transfer(b@)],
        BusOp::WriteRepeated(b, n) => Seq::new(n as nat, |i: int| BusEvent::Transfer(b@)),
    }
}

/// The events of a list of operations, in order.
pub open spec fn events(ops: Seq<BusOp>) -> Seq<BusEvent>
    decreases ops.len(),
{
    if ops.len() == 0 {
        Seq::empty()
    } else {
        events(ops.drop_last()) + op_events(ops.last())
    }
}

/// The bytes of one event (empty for a select-line change).
pub open spec fn event_bytes(e: BusEvent) -> Seq<u8> {
    match e {
        BusEvent::Transfer(b) => b,
        _ => Seq::empty(),
    }
}

/// All bytes transferred by a trace, in order.
pub open spec fn sent(evs: Seq<BusEvent>) -> Seq<u8>
    decreases evs.len(),
{
    if evs.len() == 0 {
        Seq::empty()
    } else {
        sent(evs.drop_last()) + event_bytes(evs.last())
    }
}

/// Number of transactions in a trace.
pub open spec fn transfer_count(evs: Seq<BusEvent>) -> nat
    decreases evs.len(),
{
    if evs.len() == 0 {
        0
    } else {
        transfer_count(evs.drop_last()) + if evs.last() is Transfer {
            1nat
        } else {
            0nat
        }
    }
}

/// Every event is a transaction of `len` bytes.
pub open spec fn all_transfers_of_len(evs: Seq<BusEvent>, len: nat) -> bool {
    forall|i: int|
        0 <= i < evs.len() ==> (#[trigger] evs[i] is Transfer) && evs[i]->Transfer_0.len() == len
}

/// Every event is a transaction of at least one and at most `cap` bytes.
pub open spec fn transfers_within(evs: Seq<BusEvent>, cap: nat) -> bool {
    forall|i: int|
        0 <= i < evs.len() ==> (#[trigger] evs[i] is Transfer) && 0 < evs[i]->Transfer_0.len()
            <= cap
}

/// The trace of flushing `pending`: one transaction, or none when nothing is pending.
pub open spec fn flush_events(pending: Seq<u8>) -> Seq<BusEvent> {
    if pending.len() == 0 {
        Seq::empty()
    } else {
        seq![BusEvent::Transfer(pending)]
    }
}

pub proof fn lemma_events_push(ops: Seq<BusOp>, op: BusOp)
    ensures
        events(ops.push(op)) == events(ops) + op_events(op),
{
    assert(ops.push(op).drop_last() =~= ops);
}

pub proof fn lemma_events_concat(a: Seq<BusOp>, b: Seq<BusOp>)
    ensures
        events(a + b) == events(a) + events(b),
    decreases b.len(),
{
    if b.len() == 0 {
        assert(a + b =~= a);
        assert(events(a) + events(b) =~= events(a));
    } else {
        assert((a + b).drop_last() =~= a + b.drop_last());
        lemma_events_concat(a, b.drop_last());
        assert(events(a + b) =~= events(a) + events(b));
    }
}

pub proof fn lemma_sent_concat(a: Seq<BusEvent>, b: Seq<BusEvent>)
    ensures
        sent(a + b) == sent(a) + sent(b),
        transfer_count(a + b) == transfer_count(a) + transfer_count(b),
    decreases b.len(),
{
    if b.len() == 0 {
        assert(a + b =~= a);
        assert(sent(a) + sent(b) =~= sent(a));
    } else {
        assert((a + b).drop_last() =~= a + b.drop_last());
        lemma_sent_concat(a, b.drop_last());
        assert(sent(a + b) =~= sent(a) + sent(b));
    }
}

pub proof fn lemma_sent_single(e: BusEvent)
    ensures
        sent(seq![e]) == event_bytes(e),
        transfer_count(seq![e]) == if e is Transfer {
            1nat
        } else {
            0nat
        },
{
    let s = seq![e];
    assert(s.drop_last() =~= Seq::<BusEvent>::empty());
    assert(s.last() == e);
    assert(sent(s.drop_last()) == Seq::<u8>::empty());
    assert(transfer_count(s.drop_last()) == 0);
    assert(Seq::<u8>::empty() + event_bytes(e) =~= event_bytes(e));
}

pub proof fn lemma_sent_flush(pending: Seq<u8>)
    ensures
        sent(flush_events(pending)) == pending,
        transfer_count(flush_events(pending)) == if pending.len() == 0 {
            0nat
        } else {
            1nat
        },
{
    if pending.len() > 0 {
        lemma_sent_single(BusEvent::Transfer(pending));
    }
}

pub proof fn lemma_sent_repeated(b: Seq<u8>, n: nat)
    ensures
        sent(Seq::new(n, |i: int| BusEvent::Transfer(b))) == repeat(b, n),
        transfer_count(Seq::new(n, |i: int| BusEvent::Transfer(b))) == n,
    decreases n,
{
    let s = Seq::new(n, |i: int| BusEvent::Transfer(b));
    if n > 0 {
        assert(s.drop_last() =~= Seq::new((n - 1) as nat, |i: int| BusEvent::Transfer(b)));
        lemma_sent_repeated(b, (n - 1) as nat);
    }
}

pub proof fn lemma_repeat_len(p: Seq<u8>, n: nat)
    ensures
        repeat(p, n).len() == n * p.len(),
    decreases n,
{
    if n > 0 {
        let m = (n - 1) as nat;
        lemma_repeat_len(p, m);
        assert(repeat(p, n) == repeat(p, m) + p);
        assert(n * p.len() == m * p.len() + p.len()) by (nonlinear_arith)
            requires
                m + 1 == n,
        ;
        assert(repeat(p, n).len() == m * p.len() + p.len());
    } else {
        assert(repeat(p, n) =~= Seq::<u8>::empty());
        assert(n * p.len() == 0) by (nonlinear_arith)
            requires
                n == 0,
        ;
    }
}

pub proof fn lemma_repeat_add(p: Seq<u8>, a: nat, b: nat)
    ensures
        repeat(p, a + b) == repeat(p, a) + repeat(p, b),
    decreases b,
{
    if b == 0 {
        assert(repeat(p, a) + repeat(p, 0) =~= repeat(p, a));
    } else {
        lemma_repeat_add(p, a, (b - 1) as nat);
        assert(repeat(p, a + b) == repeat(p, (a + b - 1) as nat) + p);
        assert(repeat(p, a + b) =~= repeat(p, a) + repeat(p, b));
    }
}

pub proof fn lemma_repeat_mul(p: Seq<u8>, a: nat, b: nat)
    ensures
        repeat(repeat(p, a), b) == repeat(p, a * b),
    decreases b,
{
    if b > 0 {
        lemma_repeat_mul(p, a, (b - 1) as nat);
        assert(a * b == a * (b - 1) + a) by (nonlinear_arith)
            requires
                b > 0,
        ;
        lemma_repeat_add(p, a * (b - 1) as nat, a);
    } else {
        assert(a * b == 0) by (nonlinear_arith)
            requires
                b == 0,
        ;
    }
}

/// Byte order is kept across any run of calls. Step `i` hands the bus the
/// trace `evs[i]` while taking the pending bytes from `ps[i]` to `ps[i + 1]`
/// and pushing `ds[i]` (nothing, for a flush). Then the bytes of all
/// transactions, followed by what is still pending, are the bytes pending at
/// the start followed by everything pushed, in push order.
pub proof fn lemma_byte_order_fidelity(
    ps: Seq<Seq<u8>>,
    ds: Seq<Seq<u8>>,
    evs: Seq<Seq<BusEvent>>,
)
    requires
        ps.len() == ds.len() + 1,
        evs.len() == ds.len(),
        forall|i: int| 0 <= i < ds.len() ==> sent(#[trigger] evs[i]) + ps[i + 1] == ps[i] + ds[i],
    ensures
        sent(evs.flatten()) + ps.last() == ps[0] + ds.flatten(),
    decreases ds.len(),
{
    if ds.len() == 0 {
        assert(evs =~= Seq::<Seq<BusEvent>>::empty());
        assert(ds =~= Seq::<Seq<u8>>::empty());
        assert(sent(evs.flatten()) =~= Seq::<u8>::empty());
        assert(ps[0] + ds.flatten() =~= ps[0]);
        assert(Seq::<u8>::empty() + ps.last() =~= ps.last());
    } else {
        let n = ds.len() - 1;
        let ps0 = ps.drop_last();
        let ds0 = ds.drop_last();
        let evs0 = evs.drop_last();
        assert forall|i: int| 0 <= i < ds0.len() implies sent(#[trigger] evs0[i]) + ps0[i + 1]
            == ps0[i] + ds0[i] by {
            assert(evs0[i] == evs[i]);
            assert(sent(evs[i]) + ps[i + 1] == ps[i] + ds[i]);
        }
        lemma_byte_order_fidelity(ps0, ds0, evs0);
        assert(evs0.push(evs[n]) =~= evs);
        assert(ds0.push(ds[n]) =~= ds);
        evs0.lemma_flatten_push(evs[n]);
        ds0.lemma_flatten_push(ds[n]);
        lemma_sent_concat(evs0.flatten(), evs[n]);
        assert(sent(evs[n]) + ps[n + 1] == ps[n] + ds[n]);
        assert(ps0.last() == ps[n]);
        let a = sent(evs0.flatten());
        assert(a + ps[n] == ps[0] + ds0.flatten());
        assert(evs.flatten() == evs0.flatten() + evs[n]);
        assert(sent(evs.flatten()) == a + sent(evs[n]));
        assert(ps.last() == ps[n + 1]);
        assert((a + sent(evs[n])) + ps[n + 1] =~= a + (sent(evs[n]) + ps[n + 1]));
        assert(ds.flatten() == ds0.flatten() + ds[n]);
        assert((a + ps[n]) + ds[n] =~= ps[0] + ds.flatten());
        assert(a + (ps[n] + ds[n]) =~= (a + ps[n]) + ds[n]);
    }
}

} // verus!
