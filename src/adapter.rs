//! A fixed-capacity byte buffer that turns a stream of pushed bytes into few,
//! large bus transactions.

use vstd::prelude::*;
use vstd::arithmetic::div_mod::lemma_fundamental_div_mod;

use crate::bus::{
    all_transfers_of_len, events, flush_events, lemma_events_concat, lemma_events_push,
    lemma_repeat_add, lemma_repeat_len, lemma_repeat_mul, lemma_sent_concat, lemma_sent_flush,
    lemma_sent_repeated, op_events, repeat, sent, transfer_count, transfers_within, BusEvent,
    BusOp,
};

verus! {

/// Outcome of pushing `data` onto `pending` in a buffer of `cap` bytes: the
/// trace `evs` holds only full transactions, no byte is lost or reordered, and
/// what stays pending (`after`) is never empty once anything was pushed.
pub open spec fn pushed_bytes(
    pending: Seq<u8>,
    cap: nat,
    data: Seq<u8>,
    evs: Seq<BusEvent>,
    after: Seq<u8>,
) -> bool {
    &&& all_transfers_of_len(evs, cap)
    &&& sent(evs) + after == pending + data
    &&& data.len() == 0 ==> evs.len() == 0 && after == pending
    &&& data.len() > 0 ==> after.len() > 0
}

/// Outcome of pushing one item `array` onto `pending` in a buffer of `cap`
/// bytes: buffered when it fits, else the pending bytes go out first.
pub open spec fn pushed_array(
    pending: Seq<u8>,
    cap: nat,
    array: Seq<u8>,
    evs: Seq<BusEvent>,
    after: Seq<u8>,
) -> bool {
    if pending.len() + array.len() <= cap {
        evs == Seq::<BusEvent>::empty() && after == pending + array
    } else {
        evs == flush_events(pending) && after == array
    }
}

/// Outcome of pushing `bytes` `count` times onto `pending` in a buffer of `cap`
/// bytes. All copies are buffered when they fit. Otherwise the pending bytes
/// go out, then one transaction of `cap / |bytes|` copies for each whole
/// multiple of that in `count`, and the remaining copies stay pending.
pub open spec fn pushed_repeated(
    pending: Seq<u8>,
    cap: nat,
    bytes: Seq<u8>,
    count: nat,
    evs: Seq<BusEvent>,
    after: Seq<u8>,
) -> bool {
    &&& transfers_within(evs, cap)
    &&& sent(evs) + after == pending + repeat(bytes, count)
    &&& if count * bytes.len() <= cap - pending.len() {
        evs.len() == 0 && after == pending + repeat(bytes, count)
    } else {
        let fill = cap / bytes.len();
        &&& evs == flush_events(pending) + Seq::new(
            count / fill,
            |i: int| BusEvent::Transfer(repeat(bytes, fill)),
        )
        &&& transfer_count(evs) == (if pending.len() > 0 {
            1nat
        } else {
            0nat
        }) + count / fill
        &&& after == repeat(bytes, count % fill)
    }
}

/// Holds the bus handle and a scratch buffer whose first `index` bytes are
/// pending: pushed, and not yet handed to the bus.
pub struct BufferedSpiAdapter<SPI> {
    spi: SPI,
    buffer: Vec<u8>,
    index: usize,
}

impl<SPI> BufferedSpiAdapter<SPI> {
    /// The cursor never passes the end of the buffer.
    pub closed spec fn wf(&self) -> bool {
        self.index <= self.buffer.len()
    }

    /// Bytes pushed since the last transaction, in push order.
    pub closed spec fn pending(&self) -> Seq<u8> {
        self.buffer@.subrange(0, self.index as int)
    }

    /// Size of the scratch buffer: the most bytes one transaction carries.
    pub closed spec fn capacity(&self) -> nat {
        self.buffer.len() as nat
    }

    /// The bus handle that the driver writes through.
    pub closed spec fn bus(&self) -> SPI {
        self.spi
    }

    /// In every well-formed state the cursor is within the buffer: no more
    /// than `capacity` bytes are ever pending.
    pub proof fn lemma_cursor_within_capacity(&self)
        requires
            self.wf(),
        ensures
            self.pending().len() <= self.capacity(),
    {
    }

    proof fn lemma_pending_len(&self)
        requires
            self.wf(),
        ensures
            self.pending().len() == self.index,
            self.pending().len() <= self.capacity(),
    {
    }

    /// Takes ownership of the bus handle and of the scratch buffer; nothing is pending.
    pub fn new(spi: SPI, buffer: Vec<u8>) -> (r: Self)
        ensures
            r.wf(),
            r.pending() == Seq::<u8>::empty(),
            r.capacity() == buffer@.len(),
            r.bus() == spi,
    {
        let r = BufferedSpiAdapter { spi, buffer, index: 0 };
        assert(r.pending() =~= Seq::<u8>::empty());
        r
    }

    /// Copies `data[from..to]` after the pending bytes.
    fn append(&mut self, data: &[u8], from: usize, to: usize)
        requires
            old(self).wf(),
            from <= to <= data@.len(),
            old(self).pending().len() + (to - from) <= old(self).capacity(),
        ensures
            final(self).wf(),
            final(self).pending() == old(self).pending() + data@.subrange(from as int, to as int),
            final(self).capacity() == old(self).capacity(),
            final(self).bus() == old(self).bus(),
    {
        let start = self.index;
        let mut k: usize = from;
        while k < to
            invariant
                from <= k <= to <= data@.len(),
                start == old(self).index,
                self.index == start,
                start + (to - from) <= self.buffer.len(),
                self.buffer.len() == old(self).buffer.len(),
                self.spi == old(self).spi,
                forall|j: int| 0 <= j < start ==> self.buffer@[j] == old(self).buffer@[j],
                forall|j: int|
                    start <= j < start + (k - from) ==> self.buffer@[j] == data@[from + j - start],
            decreases to - k,
        {
            self.buffer[start + (k - from)] = data[k];
            k = k + 1;
        }
        self.index = start + (to - from);
        assert(self.pending() =~= old(self).pending() + data@.subrange(from as int, to as int));
    }

    /// Copies `bytes` after the pending bytes, `n` times.
    fn append_repeated(&mut self, bytes: &[u8], n: usize)
        requires
            old(self).wf(),
            old(self).pending().len() + n * bytes@.len() <= old(self).capacity(),
        ensures
            final(self).wf(),
            final(self).pending() == old(self).pending() + repeat(bytes@, n as nat),
            final(self).capacity() == old(self).capacity(),
            final(self).bus() == old(self).bus(),
    {
        let mut k: usize = 0;
        while k < n
            invariant
                self.wf(),
                k <= n,
                old(self).pending().len() + n * bytes@.len() <= old(self).capacity(),
                self.pending() == old(self).pending() + repeat(bytes@, k as nat),
                self.capacity() == old(self).capacity(),
                self.bus() == old(self).bus(),
            decreases n - k,
        {
            proof {
                lemma_repeat_len(bytes@, k as nat);
                assert((k + 1) * bytes@.len() <= n * bytes@.len()) by (nonlinear_arith)
                    requires
                        k < n,
                ;
                assert((k + 1) * bytes@.len() == k * bytes@.len() + bytes@.len())
                    by (nonlinear_arith);
            }
            self.append(bytes, 0, bytes.len());
            proof {
                assert(bytes@.subrange(0, bytes@.len() as int) =~= bytes@);
                assert(repeat(bytes@, (k + 1) as nat) == repeat(bytes@, k as nat) + bytes@);
            }
            k = k + 1;
        }
    }

    /// A copy of the pending bytes.
    pub fn pending_copy(&self) -> (v: Vec<u8>)
        requires
            self.wf(),
        ensures
            v@ == self.pending(),
    {
        let mut v: Vec<u8> = Vec::new();
        let mut k: usize = 0;
        while k < self.index
            invariant
                self.wf(),
                k <= self.index,
                v@ == self.buffer@.subrange(0, k as int),
            decreases self.index - k,
        {
            v.push(self.buffer[k]);
            k = k + 1;
            assert(v@ =~= self.buffer@.subrange(0, k as int));
        }
        v
    }

    /// Hands the pending bytes to the bus as one transaction, if there are any,
    /// and empties the buffer.
    pub fn flush(&mut self) -> (ops: Vec<BusOp>)
        requires
            old(self).wf(),
        ensures
            final(self).wf(),
            final(self).pending() == Seq::<u8>::empty(),
            final(self).capacity() == old(self).capacity(),
            final(self).bus() == old(self).bus(),
            events(ops@) == flush_events(old(self).pending()),
            transfers_within(events(ops@), old(self).capacity()),
            sent(events(ops@)) == old(self).pending(),
    {
        proof {
            lemma_sent_flush(self.pending());
        }
        let mut ops: Vec<BusOp> = Vec::new();
        if self.index != 0 {
            let v = self.pending_copy();
            proof {
                lemma_events_push(ops@, BusOp::Write(v));
                assert(events(ops@) =~= Seq::<BusEvent>::empty());
            }
            ops.push(BusOp::Write(v));
            proof {
                assert(events(ops@) =~= seq![BusEvent::Transfer(old(self).pending())]);
            }
        } else {
            assert(events(ops@) =~= Seq::<BusEvent>::empty());
        }
        self.index = 0;
        assert(self.pending() =~= Seq::<u8>::empty());
        ops
    }
    /// Pushes `data`, splitting it over as many transactions as needed. A full
    /// buffer is handed to the bus only when more bytes are to be pushed, so each
    /// transaction carries exactly `capacity` bytes and the tail stays pending.
    pub fn push_bytes(&mut self, data: &[u8]) -> (ops: Vec<BusOp>)
        requires
            old(self).wf(),
            data@.len() == 0 || old(self).capacity() > 0,
        ensures
            final(self).wf(),
            final(self).capacity() == old(self).capacity(),
            final(self).bus() == old(self).bus(),
            pushed_bytes(
                old(self).pending(),
                old(self).capacity(),
                data@,
                events(ops@),
                final(self).pending(),
            ),
            transfers_within(events(ops@), old(self).capacity()),
    {
        let mut ops: Vec<BusOp> = Vec::new();
        let mut consumed: usize = 0;
        proof {
            assert(events(ops@) =~= Seq::<BusEvent>::empty());
            assert(data@.subrange(0, 0) =~= Seq::<u8>::empty());
            assert(old(self).pending() + Seq::<u8>::empty() =~= old(self).pending());
        }
        while consumed < data.len()
            invariant
                self.wf(),
                consumed <= data@.len(),
                data@.len() == 0 || self.capacity() > 0,
                self.capacity() == old(self).capacity(),
                self.bus() == old(self).bus(),
                all_transfers_of_len(events(ops@), old(self).capacity()),
                sent(events(ops@)) + self.pending() == old(self).pending() + data@.subrange(
                    0,
                    consumed as int,
                ),
                consumed == 0 ==> ops@.len() == 0 && self.pending() == old(self).pending(),
                consumed > 0 ==> self.pending().len() > 0,
            decreases data@.len() - consumed,
        {
            proof {
                self.lemma_pending_len();
            }
            if self.index == self.buffer.len() {
                let ghost before = ops@;
                let ghost full = self.pending();
                let mut flushed = self.flush();
                let ghost fl = flushed@;
                proof {
                    lemma_sent_flush(full);
                    lemma_events_concat(before, flushed@);
                    lemma_sent_concat(events(before), events(flushed@));
                }
                ops.append(&mut flushed);
                proof {
                    assert(ops@ == before + fl);
                    assert(events(fl) =~= seq![BusEvent::Transfer(full)]);
                    assert forall|i: int| 0 <= i < events(ops@).len() implies (
                    #[trigger] events(ops@)[i] is Transfer) && events(ops@)[i]->Transfer_0.len()
                        == old(self).capacity() by {
                        if i >= events(before).len() {
                            assert(events(ops@)[i] == events(fl)[i - events(before).len()]);
                        } else {
                            assert(events(ops@)[i] == events(before)[i]);
                        }
                    }
                    assert(sent(events(ops@)) + self.pending() =~= old(self).pending()
                        + data@.subrange(0, consumed as int));
                }
            }
            proof {
                self.lemma_pending_len();
            }
            let room = self.buffer.len() - self.index;
            let rest = data.len() - consumed;
            let len = if room < rest {
                room
            } else {
                rest
            };
            let ghost mid = sent(events(ops@));
            let ghost pb = self.pending();
            self.append(data, consumed, consumed + len);
            proof {
                assert(data@.subrange(0, consumed as int) + data@.subrange(
                    consumed as int,
                    (consumed + len) as int,
                ) =~= data@.subrange(0, (consumed + len) as int));
                let d1 = data@.subrange(0, consumed as int);
                let d2 = data@.subrange(consumed as int, (consumed + len) as int);
                assert(mid + pb == old(self).pending() + d1);
                assert(self.pending() == pb + d2);
                assert(mid + (pb + d2) =~= (mid + pb) + d2);
                assert((old(self).pending() + d1) + d2 =~= old(self).pending() + (d1 + d2));
                assert(mid + self.pending() =~= old(self).pending() + data@.subrange(
                    0,
                    (consumed + len) as int,
                ));
            }
            consumed = consumed + len;
        }
        proof {
            assert(data@.subrange(0, data@.len() as int) =~= data@);
            assert forall|i: int| 0 <= i < events(ops@).len() implies (
            #[trigger] events(ops@)[i] is Transfer) && 0 < events(ops@)[i]->Transfer_0.len()
                <= old(self).capacity() by {
                assert(events(ops@)[i] is Transfer);
            }
        }
        ops
    }

    /// Pushes one fixed-width item without splitting it: when it does not fit
    /// after the pending bytes, those are handed to the bus first.
    pub fn push_array(&mut self, array: &[u8]) -> (ops: Vec<BusOp>)
        requires
            old(self).wf(),
            array@.len() <= old(self).capacity(),
        ensures
            final(self).wf(),
            final(self).capacity() == old(self).capacity(),
            final(self).bus() == old(self).bus(),
            pushed_array(
                old(self).pending(),
                old(self).capacity(),
                array@,
                events(ops@),
                final(self).pending(),
            ),
            transfers_within(events(ops@), old(self).capacity()),
            sent(events(ops@)) + final(self).pending() == old(self).pending() + array@,
    {
        proof {
            self.lemma_pending_len();
        }
        let mut ops: Vec<BusOp> = Vec::new();
        if array.len() > self.buffer.len() - self.index {
            ops = self.flush();
        } else {
            assert(events(ops@) =~= Seq::<BusEvent>::empty());
        }
        self.append(array, 0, array.len());
        proof {
            lemma_sent_flush(old(self).pending());
            if events(ops@).len() == 0 {
                assert(sent(events(ops@)) == Seq::<u8>::empty());
            }
            assert(array@.subrange(0, array@.len() as int) =~= array@);
            assert(Seq::<u8>::empty() + array@ =~= array@);
            assert(Seq::<u8>::empty() + (old(self).pending() + array@) =~= old(self).pending()
                + array@);
        }
        ops
    }
    /// Pushes `bytes` `count` times. When all copies fit after the pending bytes
    /// they are only buffered. Otherwise the pending bytes are handed to the bus,
    /// the buffer is filled with as many whole copies as it holds, that block is
    /// sent once for each whole block in `count`, and the remaining copies stay
    /// pending.
    pub fn push_bytes_repeated(&mut self, bytes: &[u8], count: u32) -> (ops: Vec<BusOp>)
        requires
            old(self).wf(),
            bytes@.len() <= old(self).capacity(),
        ensures
            final(self).wf(),
            final(self).capacity() == old(self).capacity(),
            final(self).bus() == old(self).bus(),
            pushed_repeated(
                old(self).pending(),
                old(self).capacity(),
                bytes@,
                count as nat,
                events(ops@),
                final(self).pending(),
            ),
    {
        proof {
            self.lemma_pending_len();
        }
        let w = bytes.len();
        let n = count as usize;
        let fits = match n.checked_mul(w) {
            Some(total) => total <= self.buffer.len() - self.index,
            None => false,
        };
        if fits {
            self.append_repeated(bytes, n);
            proof {
                assert(events(Seq::<BusOp>::empty()) =~= Seq::<BusEvent>::empty());
                assert(Seq::<u8>::empty() + self.pending() =~= self.pending());
            }
            return Vec::new();
        }
        let ghost old_pending = self.pending();
        let mut ops = self.flush();
        assert(w > 0);
        let fill = self.buffer.len() / w;
        assert(fill >= 1) by (nonlinear_arith)
            requires
                fill == self.buffer.len() / w,
                0 < w <= self.buffer.len(),
        ;
        let blocks = n / fill;
        let rem = n % fill;
        proof {
            lemma_fundamental_div_mod(n as int, fill as int);
            lemma_fundamental_div_mod(self.buffer.len() as int, w as int);
            assert(fill * w <= self.buffer.len()) by (nonlinear_arith)
                requires
                    fill == self.buffer.len() / w,
                    w > 0,
            ;
            assert(rem < fill);
            assert(rem * w <= fill * w) by (nonlinear_arith)
                requires
                    rem < fill,
            ;
            assert(blocks <= n) by (nonlinear_arith)
                requires
                    blocks == n / fill,
                    fill > 0,
            ;
            lemma_repeat_len(bytes@, fill as nat);
            lemma_repeat_len(bytes@, rem as nat);
            lemma_sent_flush(old_pending);
        }
        let copies = if blocks > 0 {
            fill
        } else {
            rem
        };
        self.append_repeated(bytes, copies);
        proof {
            assert(Seq::<u8>::empty() + repeat(bytes@, copies as nat) =~= repeat(
                bytes@,
                copies as nat,
            ));
        }
        let ghost block_seq = repeat(bytes@, fill as nat);
        let ghost tail = Seq::new(blocks as nat, |i: int| BusEvent::Transfer(block_seq));
        if blocks > 0 {
            let block = self.pending_copy();
            proof {
                lemma_events_push(ops@, BusOp::WriteRepeated(block, blocks as u32));
            }
            ops.push(BusOp::WriteRepeated(block, blocks as u32));
            self.index = rem * w;
            proof {
                lemma_repeat_add(bytes@, rem as nat, (fill - rem) as nat);
                assert(self.pending() =~= block_seq.subrange(0, (rem * w) as int));
                assert(self.pending() =~= repeat(bytes@, rem as nat));
                assert(op_events(BusOp::WriteRepeated(block, blocks as u32)) =~= tail);
            }
        } else {
            proof {
                assert(tail =~= Seq::<BusEvent>::empty());
                assert(events(ops@) + tail =~= events(ops@));
            }
        }
        proof {
            assert(events(ops@) == flush_events(old_pending) + tail);
            lemma_sent_concat(flush_events(old_pending), tail);
            lemma_sent_repeated(block_seq, blocks as nat);
            lemma_repeat_mul(bytes@, fill as nat, blocks as nat);
            lemma_repeat_add(bytes@, (fill * blocks) as nat, rem as nat);
            assert(n == fill * blocks + rem);
            assert(sent(events(ops@)) + self.pending() =~= old_pending + repeat(bytes@, n as nat));
            assert forall|i: int| 0 <= i < events(ops@).len() implies (
            #[trigger] events(ops@)[i] is Transfer) && 0 < events(ops@)[i]->Transfer_0.len()
                <= old(self).capacity() by {
                let f = flush_events(old_pending);
                if i >= f.len() {
                    assert(events(ops@)[i] == tail[i - f.len()]);
                    assert(fill * w >= w) by (nonlinear_arith)
                        requires
                            fill >= 1,
                    ;
                } else {
                    assert(events(ops@)[i] == f[i]);
                }
            }
        }
        ops
    }
    /// The bus handle, for the driver that performs the returned operations.
    pub fn bus_mut(&mut self) -> (r: &mut SPI)
        ensures
            *r == old(self).bus(),
            final(self).bus() == *final(r),
            final(self).wf() == old(self).wf(),
            final(self).pending() == old(self).pending(),
            final(self).capacity() == old(self).capacity(),
    {
        &mut self.spi
    }
    /// Number of pending bytes.
    pub fn cursor(&self) -> (r: usize)
        requires
            self.wf(),
        ensures
            r == self.pending().len(),
    {
        self.index
    }

    /// Size of the scratch buffer.
    pub fn buffer_capacity(&self) -> (r: usize)
        ensures
            r == self.capacity(),
    {
        self.buffer.len()
    }
}

} // verus!
