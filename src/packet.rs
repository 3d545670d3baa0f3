//! Reassembly of raw bytes, fed one at a time, into fixed-size packets.
use vstd::prelude::*;

verus! {

/// The packet length of a device with a wheel (`true`) or without.
pub open spec fn packet_len(has_wheel: bool) -> nat {
    if has_wheel {
        4
    } else {
        3
    }
}

/// One step of reassembly: the bytes still pending after `byte` arrives,
/// and the packet it completes, if any.
pub open spec fn assemble_step(pending: Seq<u8>, size: nat, byte: u8) -> (Seq<u8>, Option<Seq<u8>>) {
    let filled = pending.push(byte);
    if filled.len() >= size {
        (Seq::empty(), Some(filled))
    } else {
        (filled, None)
    }
}

/// Reassembly of a whole byte stream: the bytes left pending and, for each
/// byte fed, the packet it completed, if any.
pub open spec fn assemble_all(pending: Seq<u8>, size: nat, bytes: Seq<u8>) -> (
    Seq<u8>,
    Seq<Option<Seq<u8>>>,
)
    decreases bytes.len(),
{
    if bytes.len() == 0 {
        (pending, Seq::empty())
    } else {
        let (rest, done) = assemble_step(pending, size, bytes[0]);
        let (last, outs) = assemble_all(rest, size, bytes.drop_first());
        (last, seq![done].add(outs))
    }
}

/// Completing a partial packet: feeding the bytes that are still missing
/// completes one packet, on the last byte only, made of the pending bytes
/// followed by those fed, and leaves nothing pending.
pub proof fn lemma_completes_once(pending: Seq<u8>, size: nat, bytes: Seq<u8>)
    requires
        bytes.len() >= 1,
        pending.len() + bytes.len() == size,
    ensures
        assemble_all(pending, size, bytes).0 == Seq::<u8>::empty(),
        assemble_all(pending, size, bytes).1.len() == bytes.len(),
        forall|i: int|
            0 <= i < bytes.len() - 1 ==> (#[trigger] assemble_all(pending, size, bytes).1[i]) is None,
        assemble_all(pending, size, bytes).1[bytes.len() - 1] == Some(pending + bytes),
    decreases bytes.len(),
{
    let (rest, done) = assemble_step(pending, size, bytes[0]);
    let tail = bytes.drop_first();
    if bytes.len() == 1 {
        assert(pending.push(bytes[0]) =~= pending + bytes);
        assert(assemble_all(rest, size, tail) == (rest, Seq::<Option<Seq<u8>>>::empty()));
    } else {
        lemma_completes_once(rest, size, tail);
        assert(rest + tail =~= pending + bytes);
        let outs = assemble_all(pending, size, bytes).1;
        assert forall|i: int| 0 <= i < bytes.len() - 1 implies (#[trigger] outs[i]) is None by {
            if i > 0 {
                assert(outs[i] == assemble_all(rest, size, tail).1[i - 1]);
            }
        }
    }
}

/// Feeding exactly one packet's worth of bytes to an idle assembler signals
/// exactly one completed packet, on the last byte, holding those bytes, and
/// leaves the assembler idle again for the next byte.
pub proof fn lemma_packet_round_trip(has_wheel: bool, bytes: Seq<u8>)
    requires
        bytes.len() == packet_len(has_wheel),
    ensures
        assemble_all(Seq::empty(), packet_len(has_wheel), bytes).0 == Seq::<u8>::empty(),
        assemble_all(Seq::empty(), packet_len(has_wheel), bytes).1.len() == bytes.len(),
        forall|i: int|
            0 <= i < bytes.len() - 1 ==> (#[trigger] assemble_all(
                Seq::empty(),
                packet_len(has_wheel),
                bytes,
            ).1[i]) is None,
        assemble_all(Seq::empty(), packet_len(has_wheel), bytes).1[bytes.len() - 1] == Some(bytes),
{
    lemma_completes_once(Seq::empty(), packet_len(has_wheel), bytes);
    assert(Seq::<u8>::empty() + bytes =~= bytes);
}

/// Bytes of the packet under construction and the index of the next one.
pub struct PacketAssembler {
    buffer: [u8; 4],
    index: usize,
    size: usize,
}

impl PacketAssembler {
    /// The index stays below the packet size, which is 3 or 4.
    pub closed spec fn wf(&self) -> bool {
        &&& (self.size == 3 || self.size == 4)
        &&& self.index < self.size
    }

    /// The bytes received for the packet under construction.
    pub closed spec fn pending(&self) -> Seq<u8> {
        self.buffer@.subrange(0, self.index as int)
    }

    /// The number of bytes that make up one packet.
    pub closed spec fn size(&self) -> nat {
        self.size as nat
    }

    /// An assembler with no bytes pending, for packets of `size` bytes.
    pub fn new(size: usize) -> (r: PacketAssembler)
        requires
            size == 3 || size == 4,
        ensures
            r.wf(),
            r.size() == size,
            r.pending() == Seq::<u8>::empty(),
    {
        PacketAssembler { buffer: [0u8; 4], index: 0, size }
    }

    /// The number of bytes that make up one packet.
    pub fn packet_size(&self) -> (r: usize)
        requires
            self.wf(),
        ensures
            r == self.size(),
    {
        self.size
    }

    /// The number of bytes received for the packet under construction.
    pub fn fill_index(&self) -> (r: usize)
        requires
            self.wf(),
        ensures
            r == self.pending().len(),
    {
        self.index
    }

    /// Stores `byte`. When it completes a packet, the index goes back to 0
    /// and the packet is returned; its first `size()` bytes are the packet.
    pub fn push(&mut self, byte: u8) -> (r: Option<[u8; 4]>)
        requires
            old(self).wf(),
        ensures
            final(self).wf(),
            final(self).size() == old(self).size(),
            final(self).pending() == assemble_step(old(self).pending(), old(self).size(), byte).0,
            match assemble_step(old(self).pending(), old(self).size(), byte).1 {
                None => r is None,
                Some(p) => r is Some && r->0@.subrange(0, old(self).size() as int) == p,
            },
    {
        self.buffer[self.index] = byte;
        if self.index + 1 < self.size {
            self.index = self.index + 1;
            assert(self.pending() =~= old(self).pending().push(byte));
            None
        } else {
            assert(self.buffer@.subrange(0, self.size as int) =~= old(self).pending().push(byte));
            self.index = 0;
            assert(self.pending() =~= Seq::<u8>::empty());
            Some(self.buffer)
        }
    }
}

} // verus!
