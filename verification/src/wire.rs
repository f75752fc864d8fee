//! Packet-level framing over a message-preserving socket.
//!
//! A logical message (byte buffer plus descriptor list) is partitioned into
//! packets.  Each packet carries one leading marker byte (0 = more to come,
//! 1 = last packet of this message), at most `MAX_PACKET_SIZE - 1` payload
//! bytes, and at most `MAX_FDS_PER_PACKET` descriptors as ancillary data.
//! The receiver accumulates payload and descriptors until it sees the
//! terminator.

use vstd::prelude::*;

verus! {

/// Upper bound on a single packet, marker byte included.
pub const MAX_PACKET_SIZE: usize = 16384;

/// Most descriptors a single packet's ancillary data may carry.
pub const MAX_FDS_PER_PACKET: usize = 253;

/// One packet of a partitioned message, as handed to the socket layer.
pub struct Packet {
    /// True exactly on the final packet of a message.
    pub last: bool,
    /// Payload bytes, marker byte not included.
    pub payload: Vec<u8>,
    /// Descriptors travelling with this packet.
    pub fds: Vec<i32>,
}

/// The bytes of a packet sequence, in order.
pub open spec fn packets_payload(ps: Seq<Packet>) -> Seq<u8>
    decreases ps.len(),
{
    if ps.len() == 0 {
        Seq::<u8>::empty()
    } else {
        ps.first().payload@ + packets_payload(ps.drop_first())
    }
}

/// The descriptors of a packet sequence, in order.
pub open spec fn packets_fds(ps: Seq<Packet>) -> Seq<i32>
    decreases ps.len(),
{
    if ps.len() == 0 {
        Seq::<i32>::empty()
    } else {
        ps.first().fds@ + packets_fds(ps.drop_first())
    }
}

/// How many packets of the sequence are marked as terminators.
pub open spec fn terminator_count(ps: Seq<Packet>) -> nat
    decreases ps.len(),
{
    if ps.len() == 0 {
        0nat
    } else {
        (if ps.first().last {
            1nat
        } else {
            0nat
        }) + terminator_count(ps.drop_first())
    }
}

pub proof fn lemma_packets_payload_push(ps: Seq<Packet>, p: Packet)
    ensures
        packets_payload(ps.push(p)) == packets_payload(ps) + p.payload@,
        packets_fds(ps.push(p)) == packets_fds(ps) + p.fds@,
        terminator_count(ps.push(p)) == terminator_count(ps) + (if p.last {
            1nat
        } else {
            0nat
        }),
    decreases ps.len(),
{
    if ps.len() == 0 {
        assert(ps.push(p).drop_first() =~= Seq::<Packet>::empty());
        assert(ps.push(p).first() == p);
        assert(packets_payload(ps.push(p).drop_first()) == Seq::<u8>::empty());
        assert(packets_fds(ps.push(p).drop_first()) == Seq::<i32>::empty());
        assert(terminator_count(ps.push(p).drop_first()) == 0);
        assert(packets_payload(ps) == Seq::<u8>::empty());
        assert(packets_fds(ps) == Seq::<i32>::empty());
        assert(terminator_count(ps) == 0);
        assert(packets_payload(ps.push(p)) =~= packets_payload(ps) + p.payload@);
        assert(packets_fds(ps.push(p)) =~= packets_fds(ps) + p.fds@);
    } else {
        assert(ps.push(p).first() == ps.first());
        assert(ps.push(p).drop_first() =~= ps.drop_first().push(p));
        lemma_packets_payload_push(ps.drop_first(), p);
        assert(packets_payload(ps.push(p)) =~= packets_payload(ps) + p.payload@);
        assert(packets_fds(ps.push(p)) =~= packets_fds(ps) + p.fds@);
    }
}

/// A packet sequence whose sole terminator is its final packet carries
/// exactly one terminator: each send is observed exactly once.
pub proof fn lemma_one_terminator(ps: Seq<Packet>)
    requires
        ps.len() >= 1,
        forall|i: int| 0 <= i < ps.len() ==> (#[trigger] ps[i].last <==> i == ps.len() - 1),
    ensures
        terminator_count(ps) == 1,
    decreases ps.len(),
{
    if ps.len() == 1 {
        assert(ps[0].last);
        assert(ps.drop_first() =~= Seq::<Packet>::empty());
        assert(terminator_count(ps.drop_first()) == 0);
        assert(terminator_count(ps) == 1 + terminator_count(ps.drop_first()));
    } else {
        assert(!ps[0].last);
        let t = ps.drop_first();
        assert forall|i: int| 0 <= i < t.len() implies (#[trigger] t[i].last <==> i == t.len()
            - 1) by {
            assert(t[i] == ps[i + 1]);
        }
        lemma_one_terminator(t);
        assert(terminator_count(ps) == 0 + terminator_count(t));
    }
}

/// Copy a sub-range of a vector.
fn copy_range<T: Copy>(src: &Vec<T>, from: usize, to: usize) -> (out: Vec<T>)
    requires
        from <= to <= src@.len(),
    ensures
        out@ == src@.subrange(from as int, to as int),
{
    let mut out: Vec<T> = Vec::new();
    let mut j: usize = from;
    while j < to
        invariant
            from <= j <= to <= src@.len(),
            out@ == src@.subrange(from as int, j as int),
        decreases to - j,
    {
        out.push(src[j]);
        proof {
            assert(out@ =~= src@.subrange(from as int, j + 1 as int));
        }
        j = j + 1;
    }
    out
}

/// Partition a serialized message into packets.
///
/// The concatenation of the payloads is the byte buffer, the concatenation
/// of the per-packet descriptor lists is the descriptor list (in order), and
/// exactly the final packet is marked as terminator.  Every packet respects
/// the packet-size and ancillary-capacity bounds, and every packet but the
/// last is full on at least one of the two channels.
pub fn split_into_packets(bytes: &Vec<u8>, fds: &Vec<i32>) -> (ps: Vec<Packet>)
    ensures
        ps@.len() >= 1,
        packets_payload(ps@) == bytes@,
        packets_fds(ps@) == fds@,
        forall|i: int| 0 <= i < ps@.len() ==> (#[trigger] ps@[i].last <==> i == ps@.len() - 1),
        forall|i: int|
            0 <= i < ps@.len() ==> #[trigger] ps@[i].payload@.len() <= MAX_PACKET_SIZE - 1,
        forall|i: int| 0 <= i < ps@.len() ==> #[trigger] ps@[i].fds@.len() <= MAX_FDS_PER_PACKET,
        forall|i: int|
            0 <= i < ps@.len() - 1 ==> (#[trigger] ps@[i].payload@.len() == MAX_PACKET_SIZE - 1
                || ps@[i].fds@.len() == MAX_FDS_PER_PACKET),
        terminator_count(ps@) == 1,
{
    let mut ps: Vec<Packet> = Vec::new();
    let mut pos: usize = 0;
    let mut fpos: usize = 0;
    let mut done = false;
    while !done
        invariant
            pos <= bytes@.len(),
            fpos <= fds@.len(),
            packets_payload(ps@) == bytes@.take(pos as int),
            packets_fds(ps@) == fds@.take(fpos as int),
            !done ==> forall|i: int| 0 <= i < ps@.len() ==> !(#[trigger] ps@[i].last),
            done ==> ps@.len() >= 1 && pos == bytes@.len() && fpos == fds@.len() && forall|i: int|
                0 <= i < ps@.len() ==> (#[trigger] ps@[i].last <==> i == ps@.len() - 1),
            forall|i: int|
                0 <= i < ps@.len() ==> #[trigger] ps@[i].payload@.len() <= MAX_PACKET_SIZE - 1,
            forall|i: int|
                0 <= i < ps@.len() ==> #[trigger] ps@[i].fds@.len() <= MAX_FDS_PER_PACKET,
            forall|i: int|
                0 <= i < ps@.len() - 1 || (0 <= i < ps@.len() && !done) ==> (#[trigger] ps@[i].payload@.len() == MAX_PACKET_SIZE - 1
                    || ps@[i].fds@.len() == MAX_FDS_PER_PACKET),
        decreases (bytes@.len() - pos) + (fds@.len() - fpos) + (if done {
            0int
        } else {
            1int
        }),
    {
        let buffer_end = if bytes.len() - pos < MAX_PACKET_SIZE - 1 {
            bytes.len()
        } else {
            pos + (MAX_PACKET_SIZE - 1)
        };
        let fds_end = if fds.len() - fpos < MAX_FDS_PER_PACKET {
            fds.len()
        } else {
            fpos + MAX_FDS_PER_PACKET
        };
        let is_last = buffer_end == bytes.len() && fds_end == fds.len();
        let packet = Packet {
            last: is_last,
            payload: copy_range(bytes, pos, buffer_end),
            fds: copy_range(fds, fpos, fds_end),
        };
        proof {
            lemma_packets_payload_push(ps@, packet);
            assert(bytes@.take(pos as int) + bytes@.subrange(pos as int, buffer_end as int)
                =~= bytes@.take(buffer_end as int));
            assert(fds@.take(fpos as int) + fds@.subrange(fpos as int, fds_end as int) =~= fds@.take(
                fds_end as int,
            ));
        }
        ps.push(packet);
        pos = buffer_end;
        fpos = fds_end;
        done = is_last;
    }
    proof {
        assert(bytes@.take(bytes@.len() as int) =~= bytes@);
        assert(fds@.take(fds@.len() as int) =~= fds@);
        lemma_one_terminator(ps@);
    }
    ps
}

/// A failure of the packet protocol.
#[derive(Clone, Copy, PartialEq, Eq, Structural, Debug)]
pub enum WireError {
    /// The peer closed the stream in the middle of a message.
    UnterminatedStream,
    /// A packet carried descriptors but no bytes, not even a marker.
    EmptyPacket,
    /// Ancillary data of a kind other than descriptor passing arrived.
    UnexpectedAncillary,
}

/// What the receiver learned from one packet.
pub enum RecvStep {
    /// The message is not complete yet; keep reading.
    NeedMore,
    /// A full message: its byte buffer and its descriptors, in send order.
    Complete(Vec<u8>, Vec<i32>),
    /// Clean end of stream: the peer closed between messages.
    EndOfStream,
}

/// Receiver-side accumulator: collects payload bytes and descriptors until a
/// terminator arrives.
pub struct MessageAssembler {
    buf: Vec<u8>,
    fds: Vec<i32>,
}

impl MessageAssembler {
    /// Payload bytes accumulated for the message in progress.
    pub closed spec fn acc_bytes(self) -> Seq<u8> {
        self.buf@
    }

    /// Descriptors accumulated for the message in progress.
    pub closed spec fn acc_fds(self) -> Seq<i32> {
        self.fds@
    }

    pub fn new() -> (a: Self)
        ensures
            a.acc_bytes() == Seq::<u8>::empty(),
            a.acc_fds() == Seq::<i32>::empty(),
    {
        MessageAssembler { buf: Vec::new(), fds: Vec::new() }
    }

    /// Feed the raw result of one socket read: `data` holds the packet bytes
    /// (the leading marker byte included), `fds` the descriptors from its
    /// ancillary data.  An empty read (no bytes, no ancillary) signals end of
    /// stream: clean between messages, an error inside one.
    pub fn push_packet(&mut self, data: &Vec<u8>, fds: &Vec<i32>) -> (r: Result<
        RecvStep,
        WireError,
    >)
        ensures
            data@.len() == 0 && fds@.len() == 0 && old(self).acc_bytes().len() == 0
                && old(self).acc_fds().len() == 0 ==> (r matches Ok(s) && s is EndOfStream),
            data@.len() == 0 && fds@.len() == 0
                && (old(self).acc_bytes().len() > 0 || old(self).acc_fds().len() > 0)
                ==> r == Err::<RecvStep, WireError>(WireError::UnterminatedStream),
            data@.len() == 0 && fds@.len() > 0
                ==> r == Err::<RecvStep, WireError>(WireError::EmptyPacket),
            data@.len() > 0 && data@[0] != 1 ==> (r matches Ok(s) && s is NeedMore
                && final(self).acc_bytes() == old(self).acc_bytes() + data@.skip(1)
                && final(self).acc_fds() == old(self).acc_fds() + fds@),
            data@.len() > 0 && data@[0] == 1 ==> (r matches Ok(s)
                && (s matches RecvStep::Complete(b, f)
                && b@ == old(self).acc_bytes() + data@.skip(1)
                && f@ == old(self).acc_fds() + fds@)
                && final(self).acc_bytes().len() == 0 && final(self).acc_fds().len() == 0),
    {
        if data.len() == 0 {
            if fds.len() > 0 {
                return Err(WireError::EmptyPacket);
            }
            if self.buf.len() == 0 && self.fds.len() == 0 {
                return Ok(RecvStep::EndOfStream);
            }
            return Err(WireError::UnterminatedStream);
        }
        let marker = data[0];
        let mut j: usize = 1;
        while j < data.len()
            invariant
                1 <= j <= data@.len(),
                self.buf@ == old(self).acc_bytes() + data@.subrange(1, j as int),
                self.fds@ == old(self).acc_fds(),
            decreases data@.len() - j,
        {
            self.buf.push(data[j]);
            proof {
                assert(self.buf@ =~= old(self).acc_bytes() + data@.subrange(1, j + 1 as int));
            }
            j = j + 1;
        }
        let mut k: usize = 0;
        while k < fds.len()
            invariant
                k <= fds@.len(),
                self.buf@ == old(self).acc_bytes() + data@.skip(1),
                self.fds@ == old(self).acc_fds() + fds@.take(k as int),
            decreases fds@.len() - k,
        {
            self.fds.push(fds[k]);
            proof {
                assert(self.fds@ =~= old(self).acc_fds() + fds@.take(k + 1 as int));
            }
            k = k + 1;
        }
        proof {
            assert(data@.subrange(1, data@.len() as int) =~= data@.skip(1));
            assert(fds@.take(fds@.len() as int) =~= fds@);
        }
        if marker == 1 {
            let mut b: Vec<u8> = Vec::new();
            let mut f: Vec<i32> = Vec::new();
            core::mem::swap(&mut b, &mut self.buf);
            core::mem::swap(&mut f, &mut self.fds);
            Ok(RecvStep::Complete(b, f))
        } else {
            Ok(RecvStep::NeedMore)
        }
    }
}

} // verus!
