//! The SPI command and pixel interface: frames commands against the
//! data/command select line and feeds pixel bytes through the buffered adapter.

use vstd::prelude::*;

use crate::adapter::{pushed_array, pushed_bytes, pushed_repeated, BufferedSpiAdapter};
use crate::bus::{
    events, flush_events, lemma_events_concat, lemma_events_push, BusEvent, BusOp,
};
use crate::color::WireColor;

verus! {

/// Spi interface error
#[derive(Clone, Copy, Debug)]
pub enum SpiError<SPI, DC> {
    /// SPI bus error
    Spi(SPI),
    /// Data/command pin error
    Dc(DC),
}

/// The trace that opens every command: the pending bytes go out, then the
/// opcode travels alone with the select line at its command level, and the
/// line returns to its data level.
pub open spec fn command_prefix(pending: Seq<u8>, command: u8) -> Seq<BusEvent> {
    flush_events(pending) + seq![
        BusEvent::SelectCommand,
        BusEvent::Transfer(seq![command]),
        BusEvent::SelectData,
    ]
}

/// Spi interface
pub struct SpiInterface<SPI, DC> {
    spi: BufferedSpiAdapter<SPI>,
    dc: DC,
}

impl<SPI, DC> SpiInterface<SPI, DC> {
    pub closed spec fn wf(&self) -> bool {
        self.spi.wf()
    }

    /// Bytes pushed and not yet handed to the bus.
    pub closed spec fn pending(&self) -> Seq<u8> {
        self.spi.pending()
    }

    /// Size of the scratch buffer.
    pub closed spec fn capacity(&self) -> nat {
        self.spi.capacity()
    }

    pub closed spec fn bus(&self) -> SPI {
        self.spi.bus()
    }

    pub closed spec fn dc(&self) -> DC {
        self.dc
    }

    /// Create new interface
    pub fn new(spi: SPI, dc: DC, buffer: Vec<u8>) -> (r: Self)
        ensures
            r.wf(),
            r.pending() == Seq::<u8>::empty(),
            r.capacity() == buffer@.len(),
            r.bus() == spi,
            r.dc() == dc,
    {
        let spi = BufferedSpiAdapter::new(spi, buffer);
        SpiInterface { spi, dc }
    }

    /// Sends `command` and queues `args` behind it. The returned operations
    /// first hand out what was pending, then the opcode alone under the command
    /// level, then switch to the data level; `args` follow in full transactions,
    /// and their tail stays pending.
    pub fn send_command(&mut self, command: u8, args: &[u8]) -> (ops: Vec<BusOp>)
        requires
            old(self).wf(),
            old(self).capacity() > 0,
        ensures
            final(self).wf(),
            final(self).capacity() == old(self).capacity(),
            final(self).bus() == old(self).bus(),
            final(self).dc() == old(self).dc(),
            events(ops@).len() >= command_prefix(old(self).pending(), command).len(),
            events(ops@).subrange(0, command_prefix(old(self).pending(), command).len() as int)
                == command_prefix(old(self).pending(), command),
            pushed_bytes(
                Seq::<u8>::empty(),
                old(self).capacity(),
                args@,
                events(ops@).subrange(
                    command_prefix(old(self).pending(), command).len() as int,
                    events(ops@).len() as int,
                ),
                final(self).pending(),
            ),
    {
        let ghost old_pending = self.spi.pending();
        let mut ops = self.spi.flush();
        proof {
            lemma_events_push(ops@, BusOp::SelectCommand);
        }
        ops.push(BusOp::SelectCommand);
        let opcode = [command];
        let mut queued = self.spi.push_array(&opcode);
        proof {
            assert(opcode@ =~= seq![command]);
            assert(Seq::<u8>::empty() + opcode@ =~= seq![command]);
            lemma_events_concat(ops@, queued@);
        }
        ops.append(&mut queued);
        let ghost ops2 = ops@;
        let mut sent_opcode = self.spi.flush();
        let ghost opcode_ops = sent_opcode@;
        proof {
            lemma_events_concat(ops@, sent_opcode@);
        }
        ops.append(&mut sent_opcode);
        proof {
            assert(ops@ == ops2 + opcode_ops);
            lemma_events_push(ops@, BusOp::SelectData);
        }
        ops.push(BusOp::SelectData);
        let ghost head = ops@;
        proof {
            assert(events(head) =~= command_prefix(old_pending, command));
        }
        let mut queued_args = self.spi.push_bytes(args);
        let ghost args_ops = queued_args@;
        proof {
            lemma_events_concat(head, queued_args@);
        }
        ops.append(&mut queued_args);
        proof {
            assert(ops@ == head + args_ops);
            let p = command_prefix(old_pending, command);
            assert(events(ops@).subrange(0, p.len() as int) =~= p);
            assert(events(ops@).subrange(p.len() as int, events(ops@).len() as int) =~= events(
                args_ops,
            ));
        }
        ops
    }

    /// Hands the pending bytes to the bus.
    pub fn flush(&mut self) -> (ops: Vec<BusOp>)
        requires
            old(self).wf(),
        ensures
            final(self).wf(),
            final(self).pending() == Seq::<u8>::empty(),
            final(self).capacity() == old(self).capacity(),
            final(self).bus() == old(self).bus(),
            final(self).dc() == old(self).dc(),
            events(ops@) == flush_events(old(self).pending()),
    {
        self.spi.flush()
    }

    /// Queues `pixel` `count` times, serialized once.
    pub fn send_repeated_pixel<C: WireColor>(&mut self, pixel: C, count: u32) -> (ops: Vec<
        BusOp,
    >)
        requires
            old(self).wf(),
            pixel.valid(),
            pixel.wire().len() <= old(self).capacity(),
        ensures
            final(self).wf(),
            final(self).capacity() == old(self).capacity(),
            final(self).bus() == old(self).bus(),
            final(self).dc() == old(self).dc(),
            pushed_repeated(
                old(self).pending(),
                old(self).capacity(),
                pixel.wire(),
                count as nat,
                events(ops@),
                final(self).pending(),
            ),
    {
        let bytes = pixel.wire_bytes();
        self.spi.push_bytes_repeated(bytes.as_slice(), count)
    }

    /// Queues one pixel of a sequence; a pixel is never split between two
    /// transactions.
    pub fn send_pixel<C: WireColor>(&mut self, pixel: C) -> (ops: Vec<BusOp>)
        requires
            old(self).wf(),
            pixel.valid(),
            pixel.wire().len() <= old(self).capacity(),
        ensures
            final(self).wf(),
            final(self).capacity() == old(self).capacity(),
            final(self).bus() == old(self).bus(),
            final(self).dc() == old(self).dc(),
            pushed_array(
                old(self).pending(),
                old(self).capacity(),
                pixel.wire(),
                events(ops@),
                final(self).pending(),
            ),
    {
        let bytes = pixel.wire_bytes();
        self.spi.push_array(bytes.as_slice())
    }

    /// The SPI device, for the driver that performs the returned operations.
    pub fn bus_mut(&mut self) -> (r: &mut SPI)
        ensures
            *r == old(self).bus(),
            final(self).bus() == *final(r),
            final(self).dc() == old(self).dc(),
            final(self).wf() == old(self).wf(),
            final(self).pending() == old(self).pending(),
            final(self).capacity() == old(self).capacity(),
    {
        self.spi.bus_mut()
    }

    /// The data/command pin, for the driver that performs the returned operations.
    pub fn dc_mut(&mut self) -> (r: &mut DC)
        ensures
            *r == old(self).dc(),
            final(self).dc() == *final(r),
            final(self).bus() == old(self).bus(),
            final(self).wf() == old(self).wf(),
            final(self).pending() == old(self).pending(),
            final(self).capacity() == old(self).capacity(),
    {
        &mut self.dc
    }
    /// A copy of the pending bytes.
    pub fn pending_copy(&self) -> (v: Vec<u8>)
        requires
            self.wf(),
        ensures
            v@ == self.pending(),
    {
        self.spi.pending_copy()
    }

    /// Size of the scratch buffer.
    pub fn buffer_capacity(&self) -> (r: usize)
        ensures
            r == self.capacity(),
    {
        self.spi.buffer_capacity()
    }
}

} // verus!
