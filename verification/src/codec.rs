//! Byte-stream codec with an out-of-band file-descriptor side channel.
//!
//! A serialized message is an ordered byte buffer paired with an ordered list
//! of raw file descriptors.  The serializer appends bytes and descriptors; the
//! deserializer consumes bytes sequentially and pops descriptors in the same
//! order.  Primitive integers are written little-endian; variable-length
//! containers write a length followed by their elements.

use vstd::prelude::*;

verus! {

/// A fatal decoding failure.  The codec never attempts recovery.
#[derive(Clone, Copy, PartialEq, Eq, Structural, Debug)]
pub enum CodecError {
    /// The byte buffer ended before the value was complete.
    ShortRead,
    /// An enum payload carried a variant index that the schema does not know.
    UnknownVariant,
    /// A descriptor was expected but the descriptor list was exhausted.
    MissingFd,
    /// A scalar carried a bit pattern that is not valid for its type.
    InvalidValue,
}

/// Little-endian encoding of a `u64` as eight bytes.
#[verifier::opaque]
pub open spec fn u64_le(x: u64) -> Seq<u8> {
    seq![
        (x % 256) as u8,
        ((x / 256) % 256) as u8,
        ((x / 65536) % 256) as u8,
        ((x / 16777216) % 256) as u8,
        ((x / 4294967296) % 256) as u8,
        ((x / 1099511627776) % 256) as u8,
        ((x / 281474976710656) % 256) as u8,
        ((x / 72057594037927936) % 256) as u8,
    ]
}

/// Little-endian encoding of a `u32` as four bytes.
#[verifier::opaque]
pub open spec fn u32_le(x: u32) -> Seq<u8> {
    seq![
        (x % 256) as u8,
        ((x / 256) % 256) as u8,
        ((x / 65536) % 256) as u8,
        ((x / 16777216) % 256) as u8,
    ]
}

/// The `u64` denoted by eight little-endian bytes.
#[verifier::opaque]
pub open spec fn le_to_u64(s: Seq<u8>) -> u64
    recommends
        s.len() == 8,
{
    (s[0] + s[1] * 256 + s[2] * 65536 + s[3] * 16777216 + s[4] * 4294967296
        + s[5] * 1099511627776 + s[6] * 281474976710656 + s[7] * 72057594037927936) as u64
}

/// The `u32` denoted by four little-endian bytes.
#[verifier::opaque]
pub open spec fn le_to_u32(s: Seq<u8>) -> u32
    recommends
        s.len() == 4,
{
    (s[0] + s[1] * 256 + s[2] * 65536 + s[3] * 16777216) as u32
}

pub proof fn lemma_u64_le_len(x: u64)
    ensures
        u64_le(x).len() == 8,
{
    reveal(u64_le);
}

pub proof fn lemma_u32_le_len(x: u32)
    ensures
        u32_le(x).len() == 4,
{
    reveal(u32_le);
}

pub proof fn lemma_u64_le_roundtrip(x: u64)
    ensures
        u64_le(x).len() == 8,
        le_to_u64(u64_le(x)) == x,
{
    reveal(u64_le);
    reveal(le_to_u64);
    assert(x % 256 + ((x / 256) % 256) * 256 + ((x / 65536) % 256) * 65536 + ((x / 16777216)
        % 256) * 16777216 + ((x / 4294967296) % 256) * 4294967296 + ((x / 1099511627776) % 256)
        * 1099511627776 + ((x / 281474976710656) % 256) * 281474976710656 + ((x
        / 72057594037927936) % 256) * 72057594037927936 == x) by (bit_vector);
}

pub proof fn lemma_u32_le_roundtrip(x: u32)
    ensures
        u32_le(x).len() == 4,
        le_to_u32(u32_le(x)) == x,
{
    reveal(u32_le);
    reveal(le_to_u32);
    assert(x % 256 + ((x / 256) % 256) * 256 + ((x / 65536) % 256) * 65536 + ((x / 16777216)
        % 256) * 16777216 == x) by (bit_vector);
}

/// Eight little-endian bytes denote the `u64` they were produced from.
pub proof fn lemma_le_bytes_u64(s: Seq<u8>)
    requires
        s.len() == 8,
    ensures
        u64_le(le_to_u64(s)) == s,
{
    reveal(u64_le);
    reveal(le_to_u64);
    let c0 = s[0] as u64;
    let c1 = s[1] as u64;
    let c2 = s[2] as u64;
    let c3 = s[3] as u64;
    let c4 = s[4] as u64;
    let c5 = s[5] as u64;
    let c6 = s[6] as u64;
    let c7 = s[7] as u64;
    let x = le_to_u64(s);
    assert(x == c0 + c1 * 256 + c2 * 65536 + c3 * 16777216 + c4 * 4294967296 + c5 * 1099511627776
        + c6 * 281474976710656 + c7 * 72057594037927936);
    assert(x % 256 == c0 && (x / 256) % 256 == c1 && (x / 65536) % 256 == c2 && (x / 16777216)
        % 256 == c3 && (x / 4294967296) % 256 == c4 && (x / 1099511627776) % 256 == c5 && (x
        / 281474976710656) % 256 == c6 && (x / 72057594037927936) % 256 == c7) by (bit_vector)
        requires
            c0 < 256 && c1 < 256 && c2 < 256 && c3 < 256 && c4 < 256 && c5 < 256 && c6 < 256 && c7
                < 256,
            x == c0 + c1 * 256 + c2 * 65536 + c3 * 16777216 + c4 * 4294967296 + c5 * 1099511627776
                + c6 * 281474976710656 + c7 * 72057594037927936,
    ;
    assert(u64_le(x) =~= s);
}

/// Four little-endian bytes denote the `u32` they were produced from.
pub proof fn lemma_le_bytes_u32(s: Seq<u8>)
    requires
        s.len() == 4,
    ensures
        u32_le(le_to_u32(s)) == s,
{
    reveal(u32_le);
    reveal(le_to_u32);
    let c0 = s[0] as u32;
    let c1 = s[1] as u32;
    let c2 = s[2] as u32;
    let c3 = s[3] as u32;
    let x = le_to_u32(s);
    assert(x == c0 + c1 * 256 + c2 * 65536 + c3 * 16777216);
    assert(x % 256 == c0 && (x / 256) % 256 == c1 && (x / 65536) % 256 == c2 && (x / 16777216)
        % 256 == c3) by (bit_vector)
        requires
            c0 < 256 && c1 < 256 && c2 < 256 && c3 < 256,
            x == c0 + c1 * 256 + c2 * 65536 + c3 * 16777216,
    ;
    assert(u32_le(x) =~= s);
}

pub proof fn lemma_u64_le_injective(a: u64, b: u64)
    requires
        u64_le(a) == u64_le(b),
    ensures
        a == b,
{
    lemma_u64_le_roundtrip(a);
    lemma_u64_le_roundtrip(b);
}

pub proof fn lemma_u32_le_injective(a: u32, b: u32)
    requires
        u32_le(a) == u32_le(b),
    ensures
        a == b,
{
    lemma_u32_le_roundtrip(a);
    lemma_u32_le_roundtrip(b);
}

/// If two concatenations are equal and their prefixes have the same length,
/// prefixes and suffixes agree pairwise.
pub proof fn lemma_concat_cancel<A>(p1: Seq<A>, s1: Seq<A>, p2: Seq<A>, s2: Seq<A>)
    requires
        p1 + s1 == p2 + s2,
        p1.len() == p2.len(),
    ensures
        p1 == p2,
        s1 == s2,
{
    assert((p1 + s1).len() == p1.len() + s1.len());
    assert((p2 + s2).len() == p2.len() + s2.len());
    assert(s1.len() == s2.len());
    assert forall|i: int| 0 <= i < p1.len() implies p1[i] == p2[i] by {
        assert((p1 + s1)[i] == p1[i]);
        assert((p2 + s2)[i] == p2[i]);
    }
    assert(p1 =~= p2);
    assert forall|i: int| 0 <= i < s1.len() implies s1[i] == s2[i] by {
        assert((p1 + s1)[p1.len() + i] == s1[i]);
        assert((p2 + s2)[p2.len() + i] == s2[i]);
    }
    assert(s1 =~= s2);
}

/// Serializer state: the byte buffer and the descriptor list grow as values
/// are written.
pub struct Serializer {
    buf: Vec<u8>,
    fds: Vec<i32>,
}

impl Serializer {
    /// The bytes written so far.
    pub closed spec fn bytes(self) -> Seq<u8> {
        self.buf@
    }

    /// The descriptors appended so far.
    pub closed spec fn fd_list(self) -> Seq<i32> {
        self.fds@
    }

    pub fn new() -> (s: Self)
        ensures
            s.bytes() == Seq::<u8>::empty(),
            s.fd_list() == Seq::<i32>::empty(),
    {
        Serializer { buf: Vec::new(), fds: Vec::new() }
    }

    pub fn write_u8(&mut self, b: u8)
        ensures
            final(self).bytes() == old(self).bytes().push(b),
            final(self).fd_list() == old(self).fd_list(),
    {
        self.buf.push(b);
    }

    pub fn write_u64(&mut self, x: u64)
        ensures
            final(self).bytes() == old(self).bytes() + u64_le(x),
            final(self).fd_list() == old(self).fd_list(),
    {
        self.buf.push((x % 256) as u8);
        self.buf.push(((x / 256) % 256) as u8);
        self.buf.push(((x / 65536) % 256) as u8);
        self.buf.push(((x / 16777216) % 256) as u8);
        self.buf.push(((x / 4294967296) % 256) as u8);
        self.buf.push(((x / 1099511627776) % 256) as u8);
        self.buf.push(((x / 281474976710656) % 256) as u8);
        self.buf.push(((x / 72057594037927936) % 256) as u8);
        proof {
            reveal(u64_le);
            assert(final(self).bytes() =~= old(self).bytes() + u64_le(x));
        }
    }

    pub fn write_u32(&mut self, x: u32)
        ensures
            final(self).bytes() == old(self).bytes() + u32_le(x),
            final(self).fd_list() == old(self).fd_list(),
    {
        self.buf.push((x % 256) as u8);
        self.buf.push(((x / 256) % 256) as u8);
        self.buf.push(((x / 65536) % 256) as u8);
        self.buf.push(((x / 16777216) % 256) as u8);
        proof {
            reveal(u32_le);
            assert(final(self).bytes() =~= old(self).bytes() + u32_le(x));
        }
    }

    /// Append a raw descriptor to the out-of-band list.
    pub fn push_fd(&mut self, fd: i32)
        ensures
            final(self).bytes() == old(self).bytes(),
            final(self).fd_list() == old(self).fd_list().push(fd),
    {
        self.fds.push(fd);
    }

    /// Take the descriptor list, leaving it empty.
    pub fn drain_fds(&mut self) -> (fds: Vec<i32>)
        ensures
            fds@ == old(self).fd_list(),
            final(self).fd_list() == Seq::<i32>::empty(),
            final(self).bytes() == old(self).bytes(),
    {
        let mut out: Vec<i32> = Vec::new();
        core::mem::swap(&mut out, &mut self.fds);
        out
    }

    /// Surrender the byte buffer.
    pub fn into_vec(self) -> (buf: Vec<u8>)
        ensures
            buf@ == self.bytes(),
    {
        self.buf
    }
}

/// Deserializer state: a byte buffer with a read cursor and a descriptor list
/// with its own cursor.
pub struct Deserializer {
    buf: Vec<u8>,
    pos: usize,
    fds: Vec<i32>,
    fds_pos: usize,
}

impl Deserializer {
    /// Cursors never run past their buffers.
    pub closed spec fn wf(self) -> bool {
        self.pos <= self.buf@.len() && self.fds_pos <= self.fds@.len()
    }

    /// The bytes not yet consumed.
    pub closed spec fn rem_bytes(self) -> Seq<u8> {
        self.buf@.skip(self.pos as int)
    }

    /// The descriptors not yet adopted.
    pub closed spec fn rem_fds(self) -> Seq<i32> {
        self.fds@.skip(self.fds_pos as int)
    }

    /// Build a deserializer over a received byte buffer and descriptor list.
    pub fn from(buf: Vec<u8>, fds: Vec<i32>) -> (d: Self)
        ensures
            d.wf(),
            d.rem_bytes() == buf@,
            d.rem_fds() == fds@,
    {
        let d = Deserializer { buf, fds, pos: 0, fds_pos: 0 };
        assert(d.rem_bytes() =~= d.buf@);
        assert(d.rem_fds() =~= d.fds@);
        d
    }

    pub fn read_u8(&mut self) -> (r: Result<u8, CodecError>)
        requires
            old(self).wf(),
        ensures
            final(self).wf(),
            r is Ok <==> old(self).rem_bytes().len() >= 1,
            r matches Ok(b) ==> old(self).rem_bytes() == seq![b] + final(self).rem_bytes()
                && final(self).rem_fds() == old(self).rem_fds(),
            r is Err ==> *final(self) == *old(self) && r == Err::<u8, CodecError>(
                CodecError::ShortRead,
            ),
    {
        if self.pos < self.buf.len() {
            let b = self.buf[self.pos];
            self.pos = self.pos + 1;
            assert(old(self).rem_bytes() =~= seq![b] + final(self).rem_bytes());
            assert(final(self).rem_fds() =~= old(self).rem_fds());
            Ok(b)
        } else {
            assert(old(self).rem_bytes().len() == 0);
            Err(CodecError::ShortRead)
        }
    }

    pub fn read_u64(&mut self) -> (r: Result<u64, CodecError>)
        requires
            old(self).wf(),
        ensures
            final(self).wf(),
            r is Ok <==> old(self).rem_bytes().len() >= 8,
            r matches Ok(x) ==> old(self).rem_bytes() == u64_le(x) + final(self).rem_bytes()
                && final(self).rem_fds() == old(self).rem_fds(),
            r is Err ==> r == Err::<u64, CodecError>(CodecError::ShortRead),
    {
        if self.buf.len() - self.pos < 8 {
            assert(old(self).rem_bytes().len() < 8);
            self.pos = self.buf.len();
            assert(final(self).wf());
            return Err(CodecError::ShortRead);
        }
        let b0 = self.buf[self.pos] as u64;
        let b1 = self.buf[self.pos + 1] as u64;
        let b2 = self.buf[self.pos + 2] as u64;
        let b3 = self.buf[self.pos + 3] as u64;
        let b4 = self.buf[self.pos + 4] as u64;
        let b5 = self.buf[self.pos + 5] as u64;
        let b6 = self.buf[self.pos + 6] as u64;
        let b7 = self.buf[self.pos + 7] as u64;
        assert(b0 + b1 * 256 + b2 * 65536 + b3 * 16777216 + b4 * 4294967296 + b5 * 1099511627776
            + b6 * 281474976710656 + b7 * 72057594037927936 <= 0xffff_ffff_ffff_ffff);
        let x = b0 + b1 * 256 + b2 * 65536 + b3 * 16777216 + b4 * 4294967296 + b5 * 1099511627776
            + b6 * 281474976710656 + b7 * 72057594037927936;
        self.pos = self.pos + 8;
        proof {
            let obs = old(self).rem_bytes();
            let pre = obs.take(8);
            assert(pre.len() == 8);
            assert(x == le_to_u64(pre)) by {
                reveal(le_to_u64);
            }
            lemma_le_bytes_u64(pre);
            assert(old(self).rem_bytes() =~= pre + final(self).rem_bytes());
            assert(final(self).rem_fds() =~= old(self).rem_fds());
        }
        Ok(x)
    }

    pub fn read_u32(&mut self) -> (r: Result<u32, CodecError>)
        requires
            old(self).wf(),
        ensures
            final(self).wf(),
            r is Ok <==> old(self).rem_bytes().len() >= 4,
            r matches Ok(x) ==> old(self).rem_bytes() == u32_le(x) + final(self).rem_bytes()
                && final(self).rem_fds() == old(self).rem_fds(),
            r is Err ==> r == Err::<u32, CodecError>(CodecError::ShortRead),
    {
        if self.buf.len() - self.pos < 4 {
            assert(old(self).rem_bytes().len() < 4);
            self.pos = self.buf.len();
            return Err(CodecError::ShortRead);
        }
        let b0 = self.buf[self.pos] as u32;
        let b1 = self.buf[self.pos + 1] as u32;
        let b2 = self.buf[self.pos + 2] as u32;
        let b3 = self.buf[self.pos + 3] as u32;
        assert(b0 + b1 * 256 + b2 * 65536 + b3 * 16777216 <= 0xffff_ffff);
        let x = b0 + b1 * 256 + b2 * 65536 + b3 * 16777216;
        self.pos = self.pos + 4;
        proof {
            let obs = old(self).rem_bytes();
            let pre = obs.take(4);
            assert(pre.len() == 4);
            assert(x == le_to_u32(pre)) by {
                reveal(le_to_u32);
            }
            lemma_le_bytes_u32(pre);
            assert(old(self).rem_bytes() =~= pre + final(self).rem_bytes());
            assert(final(self).rem_fds() =~= old(self).rem_fds());
        }
        Ok(x)
    }

    /// The unconsumed suffixes fit in memory: they come from vectors.
    pub proof fn lemma_rem_bounded(self)
        requires
            self.wf(),
        ensures
            self.rem_bytes().len() <= usize::MAX,
            self.rem_fds().len() <= usize::MAX,
    {
        vstd::std_specs::vec::axiom_spec_len(&self.buf);
        vstd::std_specs::vec::axiom_spec_len(&self.fds);
    }

    /// Pop the next descriptor, adopting its ownership.
    pub fn take_fd(&mut self) -> (r: Result<i32, CodecError>)
        requires
            old(self).wf(),
        ensures
            final(self).wf(),
            r is Ok <==> old(self).rem_fds().len() >= 1,
            r matches Ok(fd) ==> old(self).rem_fds() == seq![fd] + final(self).rem_fds()
                && final(self).rem_bytes() == old(self).rem_bytes(),
            r is Err ==> *final(self) == *old(self) && r == Err::<i32, CodecError>(
                CodecError::MissingFd,
            ),
    {
        if self.fds_pos < self.fds.len() {
            let fd = self.fds[self.fds_pos];
            self.fds_pos = self.fds_pos + 1;
            assert(old(self).rem_fds() =~= seq![fd] + final(self).rem_fds());
            assert(final(self).rem_bytes() =~= old(self).rem_bytes());
            Ok(fd)
        } else {
            assert(old(self).rem_fds().len() == 0);
            Err(CodecError::MissingFd)
        }
    }
}

} // verus!

verus! {

/// A transportable value: it writes itself into a serializer and rebuilds
/// itself from a deserializer, in the same field order on both sides.
///
/// `enc`/`enc_fds` give the exact bytes and descriptors a value contributes
/// to a message.  `eqv` is semantic equality (view equality for strings and
/// containers); decoding an encoding yields an `eqv` value.
pub trait Object: Sized {
    /// Semantic equality between two values of the type.
    spec fn eqv(self, other: Self) -> bool;

    /// The bytes this value writes.
    spec fn enc(self) -> Seq<u8>;

    /// The descriptors this value appends, in order.
    spec fn enc_fds(self) -> Seq<i32>;

    /// `eqv` is reflexive.
    proof fn lemma_eqv_refl(self)
        ensures
            self.eqv(self),
    ;

    /// Semantically equal values have identical encodings.
    proof fn lemma_enc_eqv(self, other: Self)
        requires
            self.eqv(other),
        ensures
            self.enc() == other.enc(),
            self.enc_fds() == other.enc_fds(),
    ;

    /// Write the value: the buffer grows by exactly `enc`, the descriptor
    /// list by exactly `enc_fds`.
    fn serialize_self(&self, s: &mut Serializer)
        ensures
            final(s).bytes() == old(s).bytes() + self.enc(),
            final(s).fd_list() == old(s).fd_list() + self.enc_fds(),
    ;

    /// Read one value.  On success the consumed prefix is exactly the
    /// encoding of the result; whenever the buffer starts with the encoding
    /// of some value, decoding succeeds and yields a semantically equal one.
    fn deserialize_self(d: &mut Deserializer) -> (r: Result<Self, CodecError>)
        requires
            old(d).wf(),
        ensures
            final(d).wf(),
            r matches Ok(w) ==> old(d).rem_bytes() == w.enc() + final(d).rem_bytes() && old(
                d,
            ).rem_fds() == w.enc_fds() + final(d).rem_fds(),
            forall|v: Self, rb: Seq<u8>, rf: Seq<i32>|
                old(d).rem_bytes() == #[trigger] v.enc().add(rb) && old(d).rem_fds()
                    == #[trigger] v.enc_fds().add(rf) ==> (r matches Ok(w) && w.eqv(v)),
    ;
}

impl Serializer {
    /// Write any transportable value.
    pub fn serialize<T: Object>(&mut self, value: &T)
        ensures
            final(self).bytes() == old(self).bytes() + value.enc(),
            final(self).fd_list() == old(self).fd_list() + value.enc_fds(),
    {
        value.serialize_self(self)
    }
}

impl Deserializer {
    /// Read any transportable value of a statically-known schema.
    pub fn deserialize<T: Object>(&mut self) -> (r: Result<T, CodecError>)
        requires
            old(self).wf(),
        ensures
            final(self).wf(),
            r matches Ok(w) ==> old(self).rem_bytes() == w.enc() + final(self).rem_bytes() && old(
                self,
            ).rem_fds() == w.enc_fds() + final(self).rem_fds(),
            forall|v: T, rb: Seq<u8>, rf: Seq<i32>|
                old(self).rem_bytes() == #[trigger] v.enc().add(rb) && old(self).rem_fds()
                    == #[trigger] v.enc_fds().add(rf) ==> (r matches Ok(w) && w.eqv(v)),
    {
        T::deserialize_self(self)
    }
}

impl Object for u8 {
    open spec fn eqv(self, other: Self) -> bool {
        self == other
    }

    open spec fn enc(self) -> Seq<u8> {
        seq![self]
    }

    open spec fn enc_fds(self) -> Seq<i32> {
        Seq::<i32>::empty()
    }

    proof fn lemma_eqv_refl(self) {
    }

    proof fn lemma_enc_eqv(self, other: Self) {
    }

    fn serialize_self(&self, s: &mut Serializer) {
        s.write_u8(*self);
        proof {
            assert(final(s).bytes() =~= old(s).bytes() + self.enc());
            assert(final(s).fd_list() =~= old(s).fd_list() + self.enc_fds());
        }
    }

    fn deserialize_self(d: &mut Deserializer) -> (r: Result<Self, CodecError>) {
        let r = d.read_u8();
        proof {
            if r is Ok {
                let b = r->Ok_0;
                assert forall|v: u8, rb: Seq<u8>, rf: Seq<i32>|
                    old(d).rem_bytes() == #[trigger] v.enc().add(rb) && old(d).rem_fds()
                        == #[trigger] v.enc_fds().add(rf) implies r matches Ok(w) && w.eqv(v) by {
                    assert(old(d).rem_bytes()[0] == v);
                    assert(old(d).rem_bytes()[0] == b);
                }
                assert(old(d).rem_bytes() == b.enc() + d.rem_bytes());
                assert(old(d).rem_fds() =~= b.enc_fds() + d.rem_fds());
            } else {
                assert forall|v: u8, rb: Seq<u8>, rf: Seq<i32>|
                    old(d).rem_bytes() == #[trigger] v.enc().add(rb) && old(d).rem_fds()
                        == #[trigger] v.enc_fds().add(rf) implies r matches Ok(w) && w.eqv(v) by {
                    assert(old(d).rem_bytes().len() >= 1);
                }
            }
        }
        r
    }
}

impl Object for u64 {
    open spec fn eqv(self, other: Self) -> bool {
        self == other
    }

    open spec fn enc(self) -> Seq<u8> {
        u64_le(self)
    }

    open spec fn enc_fds(self) -> Seq<i32> {
        Seq::<i32>::empty()
    }

    proof fn lemma_eqv_refl(self) {
    }

    proof fn lemma_enc_eqv(self, other: Self) {
    }

    fn serialize_self(&self, s: &mut Serializer) {
        s.write_u64(*self);
        proof {
            assert(final(s).fd_list() =~= old(s).fd_list() + self.enc_fds());
        }
    }

    fn deserialize_self(d: &mut Deserializer) -> (r: Result<Self, CodecError>) {
        let r = d.read_u64();
        proof {
            if r is Ok {
                let x = r->Ok_0;
                assert(old(d).rem_fds() =~= x.enc_fds() + d.rem_fds());
                assert forall|v: u64, rb: Seq<u8>, rf: Seq<i32>|
                    old(d).rem_bytes() == #[trigger] v.enc().add(rb) && old(d).rem_fds()
                        == #[trigger] v.enc_fds().add(rf) implies r matches Ok(w) && w.eqv(v) by {
                    lemma_u64_le_len(x);
                    lemma_u64_le_len(v);
                    lemma_concat_cancel(u64_le(x), d.rem_bytes(), u64_le(v), rb);
                    lemma_u64_le_injective(x, v);
                }
            } else {
                assert forall|v: u64, rb: Seq<u8>, rf: Seq<i32>|
                    old(d).rem_bytes() == #[trigger] v.enc().add(rb) && old(d).rem_fds()
                        == #[trigger] v.enc_fds().add(rf) implies r matches Ok(w) && w.eqv(v) by {
                    lemma_u64_le_len(v);
                    assert(old(d).rem_bytes().len() >= 8);
                }
            }
        }
        r
    }
}

} // verus!
