//! The duplex channel: a model of the single half-duplex serial line.
//!
//! The channel is the one point of write contention in the bridge. Its state
//! is two byte streams: `pending`, the bytes the device has produced that no
//! reader has consumed yet, and the write log, the sequence of whole buffers
//! handed to `write`, in order. A `write` appends its entire buffer as one
//! record, so the wire — the flattened write log — is always a concatenation
//! of complete messages: two writers serialized through `write` can never
//! interleave bytes mid-message. A `read` consumes from the front of
//! `pending`; consumed bytes are never observable again.
//!
//! In the deployed process the device side of this state is the hardware
//! driver: the I/O loop fills `pending` from the port and drains the write
//! log onto it, while the bridge logic only ever goes through `read` and
//! `write`.

use crate::bytes::append_bytes;
use crate::bytes::copy_bytes;
use vstd::prelude::*;

verus! {

/// The number of bytes a `read` with the given limit consumes from a
/// pending stream of the given length.
pub open spec fn read_amount(pending_len: int, max_len: int) -> int {
    if max_len <= pending_len {
        max_len
    } else {
        pending_len
    }
}

/// Parity of the serial frame.
#[derive(Clone, Copy, Debug, PartialEq, Eq, Structural)]
pub enum Parity {
    Disabled,
    Even,
    Odd,
}

/// Stop bits of the serial frame.
#[derive(Clone, Copy, Debug, PartialEq, Eq, Structural)]
pub enum StopBits {
    One,
    Two,
}

/// Hardware flow control of the line.
#[derive(Clone, Copy, Debug, PartialEq, Eq, Structural)]
pub enum FlowControl {
    Disabled,
    RtsCts,
}

/// The line settings a channel is opened with, fixed for its lifetime.
#[derive(Clone, Copy, Debug, PartialEq, Eq, Structural)]
pub struct ChannelConfig {
    /// Which hardware port the line sits on.
    pub port: u32,
    /// Baud rate in bits per second.
    pub baud: u32,
    /// Data bits per frame: 5 to 8.
    pub data_bits: u8,
    pub parity: Parity,
    pub stop_bits: StopBits,
    pub flow: FlowControl,
}

impl ChannelConfig {
    /// A sound configuration: a running line and a frame of 5 to 8 data
    /// bits.
    pub open spec fn wf(&self) -> bool {
        &&& self.baud > 0
        &&& 5 <= self.data_bits <= 8
    }

    /// The common terminal settings on the given port: 8 data bits, no
    /// parity, one stop bit, no flow control.
    pub open spec fn standard_spec(port: u32, baud: u32) -> ChannelConfig {
        ChannelConfig {
            port,
            baud,
            data_bits: 8,
            parity: Parity::Disabled,
            stop_bits: StopBits::One,
            flow: FlowControl::Disabled,
        }
    }

    /// The common terminal settings on the given port: 8 data bits, no
    /// parity, one stop bit, no flow control.
    pub fn standard(port: u32, baud: u32) -> (c: Self)
        requires
            baud > 0,
        ensures
            c.wf(),
            c == Self::standard_spec(port, baud),
    {
        ChannelConfig {
            port,
            baud,
            data_bits: 8,
            parity: Parity::Disabled,
            stop_bits: StopBits::One,
            flow: FlowControl::Disabled,
        }
    }
}

/// The single half-duplex serial line, with its consume-once inbound stream
/// and its log of atomic writes.
pub struct DuplexChannel {
    config: ChannelConfig,
    pending: Vec<u8>,
    writes: Vec<Vec<u8>>,
}

impl DuplexChannel {
    /// The bytes produced by the device that no `read` has consumed yet.
    pub closed spec fn pending_bytes(&self) -> Seq<u8> {
        self.pending@
    }

    /// The log of `write` calls: one whole buffer per call, in order.
    pub closed spec fn write_log(&self) -> Seq<Seq<u8>> {
        self.writes@.map_values(|w: Vec<u8>| w@)
    }

    /// The outbound wire as the device sees it: the write log flattened.
    pub open spec fn wire(&self) -> Seq<u8> {
        self.write_log().flatten()
    }

    /// The settings the channel was opened with. They never change.
    pub closed spec fn spec_config(&self) -> ChannelConfig {
        self.config
    }

    /// The settings the channel was opened with.
    pub fn config(&self) -> (c: ChannelConfig)
        ensures
            c == self.spec_config(),
    {
        self.config
    }

    /// Open the line with the given settings: nothing pending, nothing
    /// written, the settings fixed from here on.
    pub fn open(config: ChannelConfig) -> (c: Self)
        requires
            config.wf(),
        ensures
            c.spec_config() == config,
            c.pending_bytes() == Seq::<u8>::empty(),
            c.write_log() == Seq::<Seq<u8>>::empty(),
    {
        let c = DuplexChannel { config, pending: Vec::new(), writes: Vec::new() };
        assert(c.write_log() =~= Seq::<Seq<u8>>::empty());
        c
    }

    /// A fresh channel on port 0 with the standard terminal settings.
    pub fn new() -> (c: Self)
        ensures
            c.spec_config() == ChannelConfig::standard_spec(0, 115200),
            c.pending_bytes() == Seq::<u8>::empty(),
            c.write_log() == Seq::<Seq<u8>>::empty(),
    {
        Self::open(ChannelConfig::standard(0, 115200))
    }

    /// Write the full buffer atomically: the whole of `bytes` becomes one
    /// record of the write log, with nothing of any other writer inside it.
    /// Returns whether the write was accepted; this model line never fails.
    pub fn write(&mut self, bytes: &Vec<u8>) -> (ok: bool)
        ensures
            ok,
            final(self).write_log() == old(self).write_log().push(bytes@),
            final(self).wire() == old(self).wire() + bytes@,
            final(self).pending_bytes() == old(self).pending_bytes(),
            final(self).spec_config() == old(self).spec_config(),
    {
        let rec = copy_bytes(bytes);
        self.writes.push(rec);
        proof {
            broadcast use vstd::seq_lib::group_seq_properties;

            assert(final(self).write_log() =~= old(self).write_log().push(bytes@));
            old(self).write_log().lemma_flatten_push(bytes@);
        }
        true
    }

    /// Read up to `max_len` bytes: the first `min(max_len, pending)` bytes
    /// of the pending stream are returned and consumed, and are not
    /// re-observable afterwards. The write log is untouched.
    pub fn read(&mut self, max_len: usize) -> (r: Vec<u8>)
        ensures
            r@ == old(self).pending_bytes().take(
                read_amount(old(self).pending_bytes().len() as int, max_len as int),
            ),
            final(self).pending_bytes() == old(self).pending_bytes().skip(
                read_amount(old(self).pending_bytes().len() as int, max_len as int),
            ),
            final(self).write_log() == old(self).write_log(),
            final(self).spec_config() == old(self).spec_config(),
            r@.len() <= max_len,
    {
        let n: usize = if max_len <= self.pending.len() {
            max_len
        } else {
            self.pending.len()
        };
        let mut out: Vec<u8> = Vec::new();
        let mut i: usize = 0;
        while i < n
            invariant
                i <= n,
                n <= self.pending.len(),
                out@ == self.pending@.take(i as int),
            decreases n - i,
        {
            out.push(self.pending[i]);
            assert(self.pending@.take(i + 1) =~= self.pending@.take(i as int).push(
                self.pending@[i as int],
            ));
            i += 1;
        }
        let mut rest: Vec<u8> = Vec::new();
        let mut j: usize = n;
        while j < self.pending.len()
            invariant
                n <= j <= self.pending.len(),
                rest@ == self.pending@.subrange(n as int, j as int),
            decreases self.pending.len() - j,
        {
            rest.push(self.pending[j]);
            assert(self.pending@.subrange(n as int, j + 1) =~= self.pending@.subrange(
                n as int,
                j as int,
            ).push(self.pending@[j as int]));
            j += 1;
        }
        assert(rest@ =~= self.pending@.skip(n as int));
        self.pending = rest;
        out
    }

    /// The device produced `bytes`: they join the back of the pending
    /// stream, to be consumed by later reads. The write log is untouched.
    pub fn emit(&mut self, bytes: &Vec<u8>)
        ensures
            final(self).pending_bytes() == old(self).pending_bytes() + bytes@,
            final(self).write_log() == old(self).write_log(),
            final(self).spec_config() == old(self).spec_config(),
    {
        append_bytes(&mut self.pending, bytes);
    }

    /// How many `write` calls the wire has seen.
    pub fn write_count(&self) -> (n: usize)
        ensures
            n == self.write_log().len(),
    {
        self.writes.len()
    }

    /// A copy of the `i`-th record of the write log: the whole buffer of the
    /// `i`-th `write` call.
    pub fn write_record(&self, i: usize) -> (r: Vec<u8>)
        requires
            i < self.write_log().len(),
        ensures
            r@ == self.write_log()[i as int],
    {
        copy_bytes(&self.writes[i])
    }

    /// The whole wire so far, as one byte vector.
    pub fn wire_bytes(&self) -> (r: Vec<u8>)
        ensures
            r@ == self.wire(),
    {
        let mut r: Vec<u8> = Vec::new();
        let mut i: usize = 0;
        while i < self.writes.len()
            invariant
                i <= self.writes.len(),
                r@ == self.write_log().take(i as int).flatten(),
            decreases self.writes.len() - i,
        {
            let rec = copy_bytes(&self.writes[i]);
            let mut k: usize = 0;
            while k < rec.len()
                invariant
                    k <= rec.len(),
                    rec@ == self.write_log()[i as int],
                    i < self.writes.len(),
                    r@ == self.write_log().take(i as int).flatten() + rec@.take(k as int),
                decreases rec.len() - k,
            {
                r.push(rec[k]);
                assert(self.write_log().take(i as int).flatten() + rec@.take(k + 1) =~= (
                self.write_log().take(i as int).flatten() + rec@.take(k as int)).push(
                    rec@[k as int],
                ));
                k += 1;
            }
            proof {
                assert(rec@.take(rec@.len() as int) =~= rec@);
                assert(self.write_log().take(i + 1) =~= self.write_log().take(i as int).push(
                    self.write_log()[i as int],
                ));
                self.write_log().take(i as int).lemma_flatten_push(self.write_log()[i as int]);
            }
            i += 1;
        }
        assert(self.write_log().take(self.write_log().len() as int) =~= self.write_log());
        r
    }
}

/// Atomic writes never interleave. However the channel's mutual exclusion
/// orders two competing writers, the wire extends by one whole message and
/// then the other — never by any other merge of their bytes.
pub proof fn lemma_writes_never_interleave(log: Seq<Seq<u8>>, a: Seq<u8>, b: Seq<u8>)
    ensures
        log.push(a).push(b).flatten() == log.flatten() + a + b,
        log.push(b).push(a).flatten() == log.flatten() + b + a,
{
    log.lemma_flatten_push(a);
    log.push(a).lemma_flatten_push(b);
    assert(log.push(a).push(b).flatten() =~= log.flatten() + a + b);
    log.lemma_flatten_push(b);
    log.push(b).lemma_flatten_push(a);
    assert(log.push(b).push(a).flatten() =~= log.flatten() + b + a);
}

} // verus!
