//! `Object` implementations for the built-in transportable types: integers,
//! `bool`, `char`, strings, vectors, pairs, and raw file descriptors.

use vstd::prelude::*;

use crate::codec::{
    lemma_concat_cancel, lemma_u32_le_injective, lemma_u32_le_len, lemma_u64_le_injective,
    lemma_u64_le_len, u32_le, u64_le, CodecError, Deserializer, Object, Serializer,
};

verus! {

pub proof fn lemma_u32_i32_roundtrip(x: u32)
    ensures
        ((x as i32) as u32) == x,
{
    assert(((x as i32) as u32) == x) by (bit_vector);
}

pub proof fn lemma_i32_u32_roundtrip(x: i32)
    ensures
        ((x as u32) as i32) == x,
{
    assert(((x as u32) as i32) == x) by (bit_vector);
}

pub proof fn lemma_u64_i64_roundtrip(x: u64)
    ensures
        ((x as i64) as u64) == x,
{
    assert(((x as i64) as u64) == x) by (bit_vector);
}

pub proof fn lemma_i64_u64_roundtrip(x: i64)
    ensures
        ((x as u64) as i64) == x,
{
    assert(((x as u64) as i64) == x) by (bit_vector);
}

impl Object for bool {
    open spec fn eqv(self, other: Self) -> bool {
        self == other
    }

    open spec fn enc(self) -> Seq<u8> {
        if self {
            seq![1u8]
        } else {
            seq![0u8]
        }
    }

    open spec fn enc_fds(self) -> Seq<i32> {
        Seq::<i32>::empty()
    }

    proof fn lemma_eqv_refl(self) {
    }

    proof fn lemma_enc_eqv(self, other: Self) {
    }

    fn serialize_self(&self, s: &mut Serializer) {
        if *self {
            s.write_u8(1);
        } else {
            s.write_u8(0);
        }
        proof {
            assert(final(s).bytes() =~= old(s).bytes() + self.enc());
            assert(final(s).fd_list() =~= old(s).fd_list() + self.enc_fds());
        }
    }

    fn deserialize_self(d: &mut Deserializer) -> (r: Result<Self, CodecError>) {
        let r = match d.read_u8() {
            Ok(0u8) => Ok(false),
            Ok(1u8) => Ok(true),
            Ok(_) => Err(CodecError::InvalidValue),
            Err(e) => Err(e),
        };
        proof {
            if r is Ok {
                let w = r->Ok_0;
                assert(old(d).rem_bytes() =~= w.enc() + d.rem_bytes());
                assert(old(d).rem_fds() =~= w.enc_fds() + d.rem_fds());
            }
            assert forall|v: bool, rb: Seq<u8>, rf: Seq<i32>|
                old(d).rem_bytes() == #[trigger] v.enc().add(rb) && old(d).rem_fds()
                    == #[trigger] v.enc_fds().add(rf) implies (r matches Ok(w) && w.eqv(v)) by {
                assert(old(d).rem_bytes().len() >= 1);
                assert(old(d).rem_bytes()[0] == if v {
                    1u8
                } else {
                    0u8
                });
            }
        }
        r
    }
}

impl Object for u32 {
    open spec fn eqv(self, other: Self) -> bool {
        self == other
    }

    open spec fn enc(self) -> Seq<u8> {
        u32_le(self)
    }

    open spec fn enc_fds(self) -> Seq<i32> {
        Seq::<i32>::empty()
    }

    proof fn lemma_eqv_refl(self) {
    }

    proof fn lemma_enc_eqv(self, other: Self) {
    }

    fn serialize_self(&self, s: &mut Serializer) {
        s.write_u32(*self);
        proof {
            assert(final(s).fd_list() =~= old(s).fd_list() + self.enc_fds());
        }
    }

    fn deserialize_self(d: &mut Deserializer) -> (r: Result<Self, CodecError>) {
        let r = d.read_u32();
        proof {
            if r is Ok {
                let x = r->Ok_0;
                assert(old(d).rem_fds() =~= x.enc_fds() + d.rem_fds());
                assert forall|v: u32, rb: Seq<u8>, rf: Seq<i32>|
                    old(d).rem_bytes() == #[trigger] v.enc().add(rb) && old(d).rem_fds()
                        == #[trigger] v.enc_fds().add(rf) implies (r matches Ok(w) && w.eqv(
                    v,
                )) by {
                    lemma_u32_le_len(x);
                    lemma_u32_le_len(v);
                    lemma_concat_cancel(u32_le(x), d.rem_bytes(), u32_le(v), rb);
                    lemma_u32_le_injective(x, v);
                }
            } else {
                assert forall|v: u32, rb: Seq<u8>, rf: Seq<i32>|
                    old(d).rem_bytes() == #[trigger] v.enc().add(rb) && old(d).rem_fds()
                        == #[trigger] v.enc_fds().add(rf) implies (r matches Ok(w) && w.eqv(
                    v,
                )) by {
                    lemma_u32_le_len(v as u32);
                    assert(old(d).rem_bytes().len() >= 4);
                }
            }
        }
        r
    }
}

impl Object for i32 {
    open spec fn eqv(self, other: Self) -> bool {
        self == other
    }

    open spec fn enc(self) -> Seq<u8> {
        u32_le(self as u32)
    }

    open spec fn enc_fds(self) -> Seq<i32> {
        Seq::<i32>::empty()
    }

    proof fn lemma_eqv_refl(self) {
    }

    proof fn lemma_enc_eqv(self, other: Self) {
    }

    fn serialize_self(&self, s: &mut Serializer) {
        s.write_u32(*self as u32);
        proof {
            assert(final(s).fd_list() =~= old(s).fd_list() + self.enc_fds());
        }
    }

    fn deserialize_self(d: &mut Deserializer) -> (r: Result<Self, CodecError>) {
        let r = match d.read_u32() {
            Ok(x) => {
                proof {
                    lemma_u32_i32_roundtrip(x);
                }
                Ok(x as i32)
            },
            Err(e) => Err(e),
        };
        proof {
            if r is Ok {
                let w = r->Ok_0;
                assert(old(d).rem_bytes() == w.enc() + d.rem_bytes());
                assert(old(d).rem_fds() =~= w.enc_fds() + d.rem_fds());
                assert forall|v: i32, rb: Seq<u8>, rf: Seq<i32>|
                    old(d).rem_bytes() == #[trigger] v.enc().add(rb) && old(d).rem_fds()
                        == #[trigger] v.enc_fds().add(rf) implies (r matches Ok(w2) && w2.eqv(
                    v,
                )) by {
                    lemma_u32_le_len(w as u32);
                    lemma_u32_le_len(v as u32);
                    lemma_concat_cancel(w.enc(), d.rem_bytes(), v.enc(), rb);
                    lemma_u32_le_injective(w as u32, v as u32);
                    lemma_i32_u32_roundtrip(w);
                    lemma_i32_u32_roundtrip(v);
                }
            } else {
                assert forall|v: i32, rb: Seq<u8>, rf: Seq<i32>|
                    old(d).rem_bytes() == #[trigger] v.enc().add(rb) && old(d).rem_fds()
                        == #[trigger] v.enc_fds().add(rf) implies (r matches Ok(w2) && w2.eqv(
                    v,
                )) by {
                    lemma_u32_le_len(v as u32);
                    assert(old(d).rem_bytes().len() >= 4);
                }
            }
        }
        r
    }
}

impl Object for i64 {
    open spec fn eqv(self, other: Self) -> bool {
        self == other
    }

    open spec fn enc(self) -> Seq<u8> {
        u64_le(self as u64)
    }

    open spec fn enc_fds(self) -> Seq<i32> {
        Seq::<i32>::empty()
    }

    proof fn lemma_eqv_refl(self) {
    }

    proof fn lemma_enc_eqv(self, other: Self) {
    }

    fn serialize_self(&self, s: &mut Serializer) {
        s.write_u64(*self as u64);
        proof {
            assert(final(s).fd_list() =~= old(s).fd_list() + self.enc_fds());
        }
    }

    fn deserialize_self(d: &mut Deserializer) -> (r: Result<Self, CodecError>) {
        let r = match d.read_u64() {
            Ok(x) => {
                proof {
                    lemma_u64_i64_roundtrip(x);
                }
                Ok(x as i64)
            },
            Err(e) => Err(e),
        };
        proof {
            if r is Ok {
                let w = r->Ok_0;
                assert(old(d).rem_bytes() == w.enc() + d.rem_bytes());
                assert(old(d).rem_fds() =~= w.enc_fds() + d.rem_fds());
                assert forall|v: i64, rb: Seq<u8>, rf: Seq<i32>|
                    old(d).rem_bytes() == #[trigger] v.enc().add(rb) && old(d).rem_fds()
                        == #[trigger] v.enc_fds().add(rf) implies (r matches Ok(w2) && w2.eqv(
                    v,
                )) by {
                    lemma_u64_le_len(w as u64);
                    lemma_u64_le_len(v as u64);
                    lemma_concat_cancel(w.enc(), d.rem_bytes(), v.enc(), rb);
                    lemma_u64_le_injective(w as u64, v as u64);
                    lemma_i64_u64_roundtrip(w);
                    lemma_i64_u64_roundtrip(v);
                }
            } else {
                assert forall|v: i64, rb: Seq<u8>, rf: Seq<i32>|
                    old(d).rem_bytes() == #[trigger] v.enc().add(rb) && old(d).rem_fds()
                        == #[trigger] v.enc_fds().add(rf) implies (r matches Ok(w2) && w2.eqv(
                    v,
                )) by {
                    lemma_u64_le_len(v as u64);
                    assert(old(d).rem_bytes().len() >= 8);
                }
            }
        }
        r
    }
}

/// Whether a code point is a Unicode scalar value, hence a valid `char`.
pub open spec fn valid_scalar(x: u32) -> bool {
    x < 0xD800 || (0xE000 <= x && x <= 0x10FFFF)
}

/// Relies on `char::from_u32`: returns `Some` exactly for Unicode scalar
/// values, and the returned character has the given code point.
#[verifier::external_body]
fn char_from_u32(x: u32) -> (r: Option<char>)
    ensures
        r is Some <==> valid_scalar(x),
        r matches Some(c) ==> c as u32 == x,
{
    char::from_u32(x)
}

impl Object for char {
    open spec fn eqv(self, other: Self) -> bool {
        self == other
    }

    open spec fn enc(self) -> Seq<u8> {
        u32_le(self as u32)
    }

    open spec fn enc_fds(self) -> Seq<i32> {
        Seq::<i32>::empty()
    }

    proof fn lemma_eqv_refl(self) {
    }

    proof fn lemma_enc_eqv(self, other: Self) {
    }

    fn serialize_self(&self, s: &mut Serializer) {
        s.write_u32(*self as u32);
        proof {
            assert(final(s).fd_list() =~= old(s).fd_list() + self.enc_fds());
        }
    }

    fn deserialize_self(d: &mut Deserializer) -> (r: Result<Self, CodecError>) {
        match d.read_u32() {
            Ok(x) => match char_from_u32(x) {
                Some(c) => {
                    proof {
                        assert(c as u32 == x);
                        assert(old(d).rem_bytes() =~= c.enc() + d.rem_bytes());
                        assert(old(d).rem_fds() =~= c.enc_fds() + d.rem_fds());
                        assert forall|v: char, rb: Seq<u8>, rf: Seq<i32>|
                            old(d).rem_bytes() == #[trigger] v.enc().add(rb) && old(d).rem_fds()
                                == #[trigger] v.enc_fds().add(rf) implies c.eqv(v) by {
                            vstd::utf8::char_is_scalar(v);
                            lemma_u32_le_len(x);
                            lemma_u32_le_len(v as u32);
                            lemma_concat_cancel(u32_le(x), d.rem_bytes(), u32_le(v as u32), rb);
                            lemma_u32_le_injective(x, v as u32);
                            vstd::utf8::char_u32_cast(c, x);
                            vstd::utf8::char_u32_cast(v, x);
                        }
                    }
                    Ok(c)
                },
                None => {
                    proof {
                        assert forall|v: char, rb: Seq<u8>, rf: Seq<i32>|
                            old(d).rem_bytes() == #[trigger] v.enc().add(rb) && old(d).rem_fds()
                                == #[trigger] v.enc_fds().add(rf) implies false by {
                            vstd::utf8::char_is_scalar(v);
                            lemma_u32_le_len(x);
                            lemma_u32_le_len(v as u32);
                            lemma_concat_cancel(u32_le(x), d.rem_bytes(), u32_le(v as u32), rb);
                            lemma_u32_le_injective(x, v as u32);
                            // `v` is a Unicode scalar value, so decoding the
                            // same code point cannot have failed.
                            assert(vstd::utf8::is_scalar(x));
                            assert(valid_scalar(x));
                        }
                    }
                    Err(CodecError::InvalidValue)
                },
            },
            Err(e) => {
                proof {
                    assert forall|v: char, rb: Seq<u8>, rf: Seq<i32>|
                        old(d).rem_bytes() == #[trigger] v.enc().add(rb) && old(d).rem_fds()
                            == #[trigger] v.enc_fds().add(rf) implies false by {
                        lemma_u32_le_len(v as u32);
                        assert(old(d).rem_bytes().len() >= 4);
                    }
                }
                Err(e)
            },
        }
    }
}

} // verus!

verus! {

/// The sentinel byte an fd-bearing value writes into the byte stream.
pub const FD_SENTINEL: u8 = 0xFD;

/// A raw file descriptor travelling through a message's out-of-band
/// descriptor list.  The byte stream carries only a sentinel; the descriptor
/// itself is appended to the message's fd list and popped, in order, on the
/// receiving side.
#[derive(Clone, Copy, PartialEq, Eq, Structural, Debug)]
pub struct WireFd {
    pub fd: i32,
}

impl Object for WireFd {
    open spec fn eqv(self, other: Self) -> bool {
        self == other
    }

    open spec fn enc(self) -> Seq<u8> {
        seq![FD_SENTINEL]
    }

    open spec fn enc_fds(self) -> Seq<i32> {
        seq![self.fd]
    }

    proof fn lemma_eqv_refl(self) {
    }

    proof fn lemma_enc_eqv(self, other: Self) {
    }

    fn serialize_self(&self, s: &mut Serializer) {
        s.write_u8(FD_SENTINEL);
        s.push_fd(self.fd);
        proof {
            assert(final(s).bytes() =~= old(s).bytes() + self.enc());
            assert(final(s).fd_list() =~= old(s).fd_list() + self.enc_fds());
        }
    }

    fn deserialize_self(d: &mut Deserializer) -> (r: Result<Self, CodecError>) {
        let marker = match d.read_u8() {
            Ok(m) => m,
            Err(e) => {
                proof {
                    assert forall|v: WireFd, rb: Seq<u8>, rf: Seq<i32>|
                        old(d).rem_bytes() == #[trigger] v.enc().add(rb) && old(d).rem_fds()
                            == #[trigger] v.enc_fds().add(rf) implies false by {
                        assert(old(d).rem_bytes().len() >= 1);
                    }
                }
                return Err(e);
            },
        };
        if marker != FD_SENTINEL {
            proof {
                assert forall|v: WireFd, rb: Seq<u8>, rf: Seq<i32>|
                    old(d).rem_bytes() == #[trigger] v.enc().add(rb) && old(d).rem_fds()
                        == #[trigger] v.enc_fds().add(rf) implies false by {
                    assert(old(d).rem_bytes()[0] == FD_SENTINEL);
                }
            }
            return Err(CodecError::InvalidValue);
        }
        match d.take_fd() {
            Ok(fd) => {
                let w = WireFd { fd };
                proof {
                    assert(old(d).rem_bytes() =~= w.enc() + d.rem_bytes());
                    assert(old(d).rem_fds() =~= w.enc_fds() + d.rem_fds());
                    assert forall|v: WireFd, rb: Seq<u8>, rf: Seq<i32>|
                        old(d).rem_bytes() == #[trigger] v.enc().add(rb) && old(d).rem_fds()
                            == #[trigger] v.enc_fds().add(rf) implies w.eqv(v) by {
                        assert(old(d).rem_fds()[0] == v.fd);
                        assert(old(d).rem_fds()[0] == fd);
                    }
                }
                Ok(w)
            },
            Err(e) => {
                proof {
                    assert forall|v: WireFd, rb: Seq<u8>, rf: Seq<i32>|
                        old(d).rem_bytes() == #[trigger] v.enc().add(rb) && old(d).rem_fds()
                            == #[trigger] v.enc_fds().add(rf) implies false by {
                        assert(old(d).rem_fds().len() >= 1);
                    }
                }
                Err(e)
            },
        }
    }
}

/// The concatenated byte encodings of a sequence of values.
pub open spec fn seq_enc<T: Object>(s: Seq<T>) -> Seq<u8>
    decreases s.len(),
{
    if s.len() == 0 {
        Seq::<u8>::empty()
    } else {
        s.first().enc() + seq_enc(s.drop_first())
    }
}

/// The concatenated descriptor lists of a sequence of values.
pub open spec fn seq_enc_fds<T: Object>(s: Seq<T>) -> Seq<i32>
    decreases s.len(),
{
    if s.len() == 0 {
        Seq::<i32>::empty()
    } else {
        s.first().enc_fds() + seq_enc_fds(s.drop_first())
    }
}

/// Elementwise semantic equality of two sequences of values.
pub open spec fn seq_eqv<T: Object>(a: Seq<T>, b: Seq<T>) -> bool {
    a.len() == b.len() && forall|i: int| 0 <= i < a.len() ==> #[trigger] a[i].eqv(b[i])
}

pub proof fn lemma_seq_enc_push<T: Object>(s: Seq<T>, x: T)
    ensures
        seq_enc(s.push(x)) == seq_enc(s) + x.enc(),
        seq_enc_fds(s.push(x)) == seq_enc_fds(s) + x.enc_fds(),
    decreases s.len(),
{
    if s.len() == 0 {
        assert(s.push(x).len() == 1);
        assert(s.push(x).first() == x);
        assert(s.push(x).drop_first() =~= Seq::<T>::empty());
        assert(seq_enc(s.push(x).drop_first()) == Seq::<u8>::empty());
        assert(seq_enc_fds(s.push(x).drop_first()) == Seq::<i32>::empty());
        assert(seq_enc(s.push(x)) == x.enc() + Seq::<u8>::empty());
        assert(seq_enc_fds(s.push(x)) == x.enc_fds() + Seq::<i32>::empty());
        assert(seq_enc(s) == Seq::<u8>::empty());
        assert(seq_enc_fds(s) == Seq::<i32>::empty());
        assert(seq_enc(s.push(x)) =~= seq_enc(s) + x.enc());
        assert(seq_enc_fds(s.push(x)) =~= seq_enc_fds(s) + x.enc_fds());
    } else {
        assert(s.push(x).first() == s.first());
        assert(s.push(x).drop_first() =~= s.drop_first().push(x));
        lemma_seq_enc_push(s.drop_first(), x);
        assert(seq_enc(s.push(x)) == s.first().enc() + (seq_enc(s.drop_first()) + x.enc()));
        assert(seq_enc(s.push(x)) =~= seq_enc(s) + x.enc());
        assert(seq_enc_fds(s.push(x)) == s.first().enc_fds() + (seq_enc_fds(s.drop_first())
            + x.enc_fds()));
        assert(seq_enc_fds(s.push(x)) =~= seq_enc_fds(s) + x.enc_fds());
    }
}

/// Peeling one element off the front of a suffix encoding.
pub proof fn lemma_seq_enc_skip<T: Object>(s: Seq<T>, i: int)
    requires
        0 <= i < s.len(),
    ensures
        seq_enc(s.skip(i)) == s[i].enc() + seq_enc(s.skip(i + 1)),
        seq_enc_fds(s.skip(i)) == s[i].enc_fds() + seq_enc_fds(s.skip(i + 1)),
{
    assert(s.skip(i).len() > 0);
    assert(s.skip(i).first() == s[i]);
    assert(s.skip(i).drop_first() =~= s.skip(i + 1));
}

/// Semantically equal sequences have identical encodings.
pub proof fn lemma_seq_enc_eqv<T: Object>(a: Seq<T>, b: Seq<T>)
    requires
        seq_eqv(a, b),
    ensures
        seq_enc(a) == seq_enc(b),
        seq_enc_fds(a) == seq_enc_fds(b),
    decreases a.len(),
{
    if a.len() > 0 {
        assert(a[0].eqv(b[0]));
        a.first().lemma_enc_eqv(b.first());
        assert forall|i: int| 0 <= i < a.drop_first().len() implies #[trigger] a.drop_first()[i].eqv(
            b.drop_first()[i],
        ) by {
            assert(a[i + 1].eqv(b[i + 1]));
        }
        lemma_seq_enc_eqv(a.drop_first(), b.drop_first());
    }
}

} // verus!

verus! {

/// One decoding step: consuming the encoding of the next element of `vs`
/// advances the remaining input from the suffix at `i` to the suffix at
/// `i + 1`, and the decoded element is semantically the element of `vs`.
pub proof fn lemma_elem_decode_step<T: Object>(
    vs: Seq<T>,
    i: int,
    x: T,
    pre_r: Seq<u8>,
    pre_f: Seq<i32>,
    post_r: Seq<u8>,
    post_f: Seq<i32>,
    rb: Seq<u8>,
    rf: Seq<i32>,
)
    requires
        0 <= i < vs.len(),
        pre_r == seq_enc(vs.skip(i)) + rb,
        pre_f == seq_enc_fds(vs.skip(i)) + rf,
        pre_r == x.enc() + post_r,
        pre_f == x.enc_fds() + post_f,
        forall|ve: T, rbe: Seq<u8>, rfe: Seq<i32>|
            pre_r == #[trigger] ve.enc().add(rbe) && pre_f == #[trigger] ve.enc_fds().add(rfe)
                ==> x.eqv(ve),
    ensures
        x.eqv(vs[i]),
        post_r == seq_enc(vs.skip(i + 1)) + rb,
        post_f == seq_enc_fds(vs.skip(i + 1)) + rf,
{
    lemma_seq_enc_skip(vs, i);
    assert(pre_r == vs[i].enc().add(seq_enc(vs.skip(i + 1)) + rb)) by {
        assert(pre_r =~= vs[i].enc() + (seq_enc(vs.skip(i + 1)) + rb));
    }
    assert(pre_f == vs[i].enc_fds().add(seq_enc_fds(vs.skip(i + 1)) + rf)) by {
        assert(pre_f =~= vs[i].enc_fds() + (seq_enc_fds(vs.skip(i + 1)) + rf));
    }
    assert(x.eqv(vs[i]));
    x.lemma_enc_eqv(vs[i]);
    lemma_concat_cancel(x.enc(), post_r, vs[i].enc(), seq_enc(vs.skip(i + 1)) + rb);
    lemma_concat_cancel(x.enc_fds(), post_f, vs[i].enc_fds(), seq_enc_fds(vs.skip(i + 1)) + rf);
}

/// If the remaining input is the suffix encoding at `i` with `i` not at the
/// end, it begins with the encoding of the element at `i`.
pub proof fn lemma_elem_decode_head<T: Object>(
    vs: Seq<T>,
    i: int,
    pre_r: Seq<u8>,
    pre_f: Seq<i32>,
    rb: Seq<u8>,
    rf: Seq<i32>,
)
    requires
        0 <= i < vs.len(),
        pre_r == seq_enc(vs.skip(i)) + rb,
        pre_f == seq_enc_fds(vs.skip(i)) + rf,
    ensures
        pre_r == vs[i].enc().add(seq_enc(vs.skip(i + 1)) + rb),
        pre_f == vs[i].enc_fds().add(seq_enc_fds(vs.skip(i + 1)) + rf),
{
    lemma_seq_enc_skip(vs, i);
    assert(pre_r =~= vs[i].enc() + (seq_enc(vs.skip(i + 1)) + rb));
    assert(pre_f =~= vs[i].enc_fds() + (seq_enc_fds(vs.skip(i + 1)) + rf));
}

/// Extending an elementwise-equal prefix by a matching element.
pub proof fn lemma_seq_eqv_push<T: Object>(outs: Seq<T>, vs: Seq<T>, i: int, x: T)
    requires
        0 <= i < vs.len(),
        outs.len() == i,
        seq_eqv(outs, vs.take(i)),
        x.eqv(vs[i]),
    ensures
        seq_eqv(outs.push(x), vs.take(i + 1)),
{
    assert forall|j: int| 0 <= j < outs.push(x).len() implies #[trigger] outs.push(x)[j].eqv(
        vs.take(i + 1)[j],
    ) by {
        if j < i {
            assert(outs[j].eqv(vs.take(i)[j]));
            assert(outs.push(x)[j] == outs[j]);
            assert(vs.take(i + 1)[j] == vs.take(i)[j]);
        } else {
            assert(outs.push(x)[j] == x);
            assert(vs.take(i + 1)[j] == vs[i]);
        }
    }
}

} // verus!


verus! {

/// Four bytes per character: the length of a character-sequence encoding.
pub proof fn lemma_char_seq_enc_len(s: Seq<char>)
    ensures
        seq_enc(s).len() == 4 * s.len(),
        seq_enc_fds(s).len() == 0,
    decreases s.len(),
{
    if s.len() > 0 {
        crate::codec::lemma_u32_le_len(s.first() as u32);
        lemma_char_seq_enc_len(s.drop_first());
    }
}

/// Relies on `String::push`: appends one character to the string.
#[verifier::external_body]
pub(crate) fn string_push(s: &mut String, c: char)
    ensures
        final(s)@ == old(s)@.push(c),
{
    s.push(c);
}

impl Object for String {
    open spec fn eqv(self, other: Self) -> bool {
        self@ == other@
    }

    open spec fn enc(self) -> Seq<u8> {
        u64_le(self@.len() as u64) + seq_enc(self@)
    }

    open spec fn enc_fds(self) -> Seq<i32> {
        Seq::<i32>::empty()
    }

    proof fn lemma_eqv_refl(self) {
    }

    proof fn lemma_enc_eqv(self, other: Self) {
    }

    fn serialize_self(&self, s: &mut Serializer) {
        let ghost base_bytes = s.bytes();
        let ghost base_fds = s.fd_list();
        let n = self.as_str().unicode_len();
        s.write_u64(n as u64);
        let mut i: usize = 0;
        while i < n
            invariant
                n == self@.len(),
                i <= n,
                s.bytes() == base_bytes + u64_le(n as u64) + seq_enc(self@.take(i as int)),
                s.fd_list() == base_fds,
            decreases n - i,
        {
            let c = self.as_str().get_char(i);
            c.serialize_self(s);
            proof {
                lemma_seq_enc_push(self@.take(i as int), c);
                assert(self@.take(i + 1 as int) =~= self@.take(i as int).push(c));
                assert(s.bytes() =~= base_bytes + u64_le(n as u64) + seq_enc(
                    self@.take(i + 1 as int),
                ));
            }
            i = i + 1;
        }
        proof {
            assert(self@.take(n as int) =~= self@);
            assert(final(s).bytes() =~= old(s).bytes() + self.enc());
            assert(final(s).fd_list() =~= old(s).fd_list() + self.enc_fds());
        }
    }

    #[verifier::rlimit(100)]
    #[verifier::spinoff_prover]
    fn deserialize_self(d: &mut Deserializer) -> (r: Result<Self, CodecError>) {
        let ghost d0 = *d;
        let n = match d.read_u64() {
            Ok(n) => n,
            Err(e) => {
                proof {
                    assert forall|v: String, rb: Seq<u8>, rf: Seq<i32>|
                        d0.rem_bytes() == #[trigger] v.enc().add(rb) && d0.rem_fds()
                            == #[trigger] v.enc_fds().add(rf) implies false by {
                        lemma_u64_le_len(v@.len() as u64);
                        assert(d0.rem_bytes().len() >= 8);
                    }
                }
                return Err(e);
            },
        };
        proof {
            assert forall|v: String, rb: Seq<u8>, rf: Seq<i32>|
                d0.rem_bytes() == #[trigger] v.enc().add(rb) && d0.rem_fds()
                    == #[trigger] v.enc_fds().add(rf) implies v@.len() == n && d.rem_bytes()
                == seq_enc(v@) + rb && d.rem_fds() == rf by {
                lemma_u64_le_len(n);
                lemma_u64_le_len(v@.len() as u64);
                assert(v.enc().add(rb) =~= u64_le(v@.len() as u64) + (seq_enc(v@) + rb));
                lemma_concat_cancel(
                    u64_le(n),
                    d.rem_bytes(),
                    u64_le(v@.len() as u64),
                    seq_enc(v@) + rb,
                );
                lemma_u64_le_injective(n, v@.len() as u64);
                lemma_char_seq_enc_len(v@);
                d0.lemma_rem_bounded();
                assert(4 * v@.len() <= d0.rem_bytes().len());
                assert(v@.len() <= usize::MAX);
                assert(v@.len() == n);
                assert(v.enc_fds().add(rf) =~= rf);
            }
        }
        let mut out = String::new();
        let mut i: u64 = 0;
        proof {
            assert(seq_enc(out@) == Seq::<u8>::empty());
            assert(d0.rem_bytes() =~= u64_le(n) + seq_enc(out@) + d.rem_bytes());
            assert forall|v: String, rb: Seq<u8>, rf: Seq<i32>|
                d0.rem_bytes() == #[trigger] v.enc().add(rb) && d0.rem_fds()
                    == #[trigger] v.enc_fds().add(rf) implies out@ == v@.take(0int)
                && d.rem_bytes() == seq_enc(v@.skip(0int)) + rb by {
                assert(out@ =~= v@.take(0int));
                assert(v@.skip(0int) =~= v@);
            }
        }
        while i < n
            invariant
                d.wf(),
                i <= n,
                out@.len() == i,
                d0 == *old(d),
                d0.rem_fds() == d.rem_fds(),
                d0.rem_bytes() == u64_le(n) + seq_enc(out@) + d.rem_bytes(),
                forall|v: String, rb: Seq<u8>, rf: Seq<i32>|
                    d0.rem_bytes() == #[trigger] v.enc().add(rb) && d0.rem_fds()
                        == #[trigger] v.enc_fds().add(rf) ==> v@.len() == n && out@ == v@.take(
                        i as int,
                    ) && d.rem_bytes() == seq_enc(v@.skip(i as int)) + rb && d.rem_fds() == rf,
            decreases n - i,
        {
            let ghost d_pre = *d;
            let res = char::deserialize_self(d);
            proof {
                assert forall|ve: char, rbe: Seq<u8>, rfe: Seq<i32>|
                    d_pre.rem_bytes() == #[trigger] ve.enc().add(rbe) && d_pre.rem_fds()
                        == #[trigger] ve.enc_fds().add(rfe) implies (res matches Ok(w) && w.eqv(
                    ve,
                )) by {}
            }
            let c = match res {
                Ok(c) => c,
                Err(e) => {
                    proof {
                        assert forall|v: String, rb: Seq<u8>, rf: Seq<i32>|
                            d0.rem_bytes() == #[trigger] v.enc().add(rb) && d0.rem_fds()
                                == #[trigger] v.enc_fds().add(rf) implies false by {
                            lemma_char_seq_enc_len(v@.skip(i as int));
                            assert(d_pre.rem_fds() =~= seq_enc_fds(v@.skip(i as int))
                                + d_pre.rem_fds());
                            lemma_elem_decode_head(
                                v@,
                                i as int,
                                d_pre.rem_bytes(),
                                d_pre.rem_fds(),
                                rb,
                                d_pre.rem_fds(),
                            );
                        }
                    }
                    return Err(e);
                },
            };
            proof {
                assert forall|v: String, rb: Seq<u8>, rf: Seq<i32>|
                    d0.rem_bytes() == #[trigger] v.enc().add(rb) && d0.rem_fds()
                        == #[trigger] v.enc_fds().add(rf) implies v@.len() == n && out@.push(c)
                    == v@.take(i + 1) && d.rem_bytes() == seq_enc(v@.skip(i + 1)) + rb
                    && d.rem_fds() == rf by {
                    lemma_char_seq_enc_len(v@.skip(i as int));
                    assert(d_pre.rem_fds() =~= seq_enc_fds(v@.skip(i as int)) + rf);
                    lemma_elem_decode_step(
                        v@,
                        i as int,
                        c,
                        d_pre.rem_bytes(),
                        d_pre.rem_fds(),
                        d.rem_bytes(),
                        d.rem_fds(),
                        rb,
                        rf,
                    );
                    lemma_char_seq_enc_len(v@.skip(i + 1));
                    assert(d.rem_fds() =~= rf);
                    assert(out@.push(c) =~= v@.take(i + 1));
                }
                lemma_seq_enc_push(out@, c);
            }
            string_push(&mut out, c);
            proof {
                assert(d0.rem_bytes() =~= u64_le(n) + seq_enc(out@) + d.rem_bytes());
            }
            i = i + 1;
        }
        proof {
            assert(out@.len() as u64 == n);
            assert(old(d).rem_bytes() =~= out.enc() + d.rem_bytes());
            assert(old(d).rem_fds() =~= out.enc_fds() + d.rem_fds());
            assert forall|v: String, rb: Seq<u8>, rf: Seq<i32>|
                old(d).rem_bytes() == #[trigger] v.enc().add(rb) && old(d).rem_fds()
                    == #[trigger] v.enc_fds().add(rf) implies out.eqv(v) by {
                assert(v@.take(n as int) =~= v@);
            }
        }
        Ok(out)
    }
}

} // verus!

verus! {

impl<T: Object> Object for Vec<T> {
    open spec fn eqv(self, other: Self) -> bool {
        seq_eqv(self@, other@)
    }

    open spec fn enc(self) -> Seq<u8> {
        u64_le(self@.len() as u64) + seq_enc(self@)
    }

    open spec fn enc_fds(self) -> Seq<i32> {
        seq_enc_fds(self@)
    }

    proof fn lemma_eqv_refl(self) {
        assert forall|i: int| 0 <= i < self@.len() implies #[trigger] self@[i].eqv(self@[i]) by {
            self@[i].lemma_eqv_refl();
        }
    }

    proof fn lemma_enc_eqv(self, other: Self) {
        lemma_seq_enc_eqv(self@, other@);
    }

    fn serialize_self(&self, s: &mut Serializer) {
        let ghost base_bytes = s.bytes();
        let ghost base_fds = s.fd_list();
        let n = self.len();
        s.write_u64(n as u64);
        let mut i: usize = 0;
        while i < n
            invariant
                n == self@.len(),
                i <= n,
                s.bytes() == base_bytes + u64_le(n as u64) + seq_enc(self@.take(i as int)),
                s.fd_list() == base_fds + seq_enc_fds(self@.take(i as int)),
            decreases n - i,
        {
            self[i].serialize_self(s);
            proof {
                lemma_seq_enc_push(self@.take(i as int), self@[i as int]);
                assert(self@.take(i + 1 as int) =~= self@.take(i as int).push(self@[i as int]));
                assert(s.bytes() =~= base_bytes + u64_le(n as u64) + seq_enc(
                    self@.take(i + 1 as int),
                ));
                assert(s.fd_list() =~= base_fds + seq_enc_fds(self@.take(i + 1 as int)));
            }
            i = i + 1;
        }
        proof {
            assert(self@.take(n as int) =~= self@);
            assert(final(s).bytes() =~= old(s).bytes() + self.enc());
            assert(final(s).fd_list() =~= old(s).fd_list() + self.enc_fds());
        }
    }

    #[verifier::rlimit(100)]
    #[verifier::spinoff_prover]
    fn deserialize_self(d: &mut Deserializer) -> (r: Result<Self, CodecError>) {
        let ghost d0 = *d;
        let n = match d.read_u64() {
            Ok(n) => n,
            Err(e) => {
                proof {
                    assert forall|v: Vec<T>, rb: Seq<u8>, rf: Seq<i32>|
                        d0.rem_bytes() == #[trigger] v.enc().add(rb) && d0.rem_fds()
                            == #[trigger] v.enc_fds().add(rf) implies false by {
                        lemma_u64_le_len(v@.len() as u64);
                        assert(d0.rem_bytes().len() >= 8);
                    }
                }
                return Err(e);
            },
        };
        proof {
            assert forall|v: Vec<T>, rb: Seq<u8>, rf: Seq<i32>|
                d0.rem_bytes() == #[trigger] v.enc().add(rb) && d0.rem_fds()
                    == #[trigger] v.enc_fds().add(rf) implies v@.len() == n && d.rem_bytes()
                == seq_enc(v@) + rb && d.rem_fds() == seq_enc_fds(v@) + rf by {
                lemma_u64_le_len(n);
                lemma_u64_le_len(v@.len() as u64);
                assert(v.enc().add(rb) =~= u64_le(v@.len() as u64) + (seq_enc(v@) + rb));
                lemma_concat_cancel(
                    u64_le(n),
                    d.rem_bytes(),
                    u64_le(v@.len() as u64),
                    seq_enc(v@) + rb,
                );
                lemma_u64_le_injective(n, v@.len() as u64);
                vstd::std_specs::vec::axiom_spec_len(&v);
                assert(v@.len() <= usize::MAX);
                assert(v@.len() == n);
            }
        }
        let mut out: Vec<T> = Vec::new();
        let mut i: u64 = 0;
        proof {
            assert(seq_enc(out@) == Seq::<u8>::empty());
            assert(seq_enc_fds(out@) == Seq::<i32>::empty());
            assert(d0.rem_bytes() =~= u64_le(n) + seq_enc(out@) + d.rem_bytes());
            assert(d0.rem_fds() =~= seq_enc_fds(out@) + d.rem_fds());
            assert forall|v: Vec<T>, rb: Seq<u8>, rf: Seq<i32>|
                d0.rem_bytes() == #[trigger] v.enc().add(rb) && d0.rem_fds()
                    == #[trigger] v.enc_fds().add(rf) implies seq_eqv(out@, v@.take(0int))
                && d.rem_bytes() == seq_enc(v@.skip(0int)) + rb && d.rem_fds() == seq_enc_fds(
                v@.skip(0int),
            ) + rf by {
                assert(out@ =~= v@.take(0int));
                assert(seq_eqv(out@, v@.take(0int)));
                assert(v@.skip(0int) =~= v@);
            }
        }
        while i < n
            invariant
                d.wf(),
                i <= n,
                out@.len() == i,
                d0 == *old(d),
                d0.rem_bytes() == u64_le(n) + seq_enc(out@) + d.rem_bytes(),
                d0.rem_fds() == seq_enc_fds(out@) + d.rem_fds(),
                forall|v: Vec<T>, rb: Seq<u8>, rf: Seq<i32>|
                    d0.rem_bytes() == #[trigger] v.enc().add(rb) && d0.rem_fds()
                        == #[trigger] v.enc_fds().add(rf) ==> v@.len() == n && seq_eqv(
                        out@,
                        v@.take(i as int),
                    ) && d.rem_bytes() == seq_enc(v@.skip(i as int)) + rb && d.rem_fds()
                        == seq_enc_fds(v@.skip(i as int)) + rf,
            decreases n - i,
        {
            let ghost d_pre = *d;
            let ghost out_pre = out@;
            let res = T::deserialize_self(d);
            proof {
                assert forall|ve: T, rbe: Seq<u8>, rfe: Seq<i32>|
                    d_pre.rem_bytes() == #[trigger] ve.enc().add(rbe) && d_pre.rem_fds()
                        == #[trigger] ve.enc_fds().add(rfe) implies (res matches Ok(w) && w.eqv(
                    ve,
                )) by {}
            }
            let x = match res {
                Ok(x) => x,
                Err(e) => {
                    proof {
                        assert forall|v: Vec<T>, rb: Seq<u8>, rf: Seq<i32>|
                            d0.rem_bytes() == #[trigger] v.enc().add(rb) && d0.rem_fds()
                                == #[trigger] v.enc_fds().add(rf) implies false by {
                            lemma_elem_decode_head(
                                v@,
                                i as int,
                                d_pre.rem_bytes(),
                                d_pre.rem_fds(),
                                rb,
                                rf,
                            );
                        }
                    }
                    return Err(e);
                },
            };
            proof {
                assert forall|v: Vec<T>, rb: Seq<u8>, rf: Seq<i32>|
                    d0.rem_bytes() == #[trigger] v.enc().add(rb) && d0.rem_fds()
                        == #[trigger] v.enc_fds().add(rf) implies v@.len() == n && seq_eqv(
                    out_pre.push(x),
                    v@.take(i + 1),
                ) && d.rem_bytes() == seq_enc(v@.skip(i + 1)) + rb && d.rem_fds() == seq_enc_fds(
                    v@.skip(i + 1),
                ) + rf by {
                    lemma_elem_decode_step(
                        v@,
                        i as int,
                        x,
                        d_pre.rem_bytes(),
                        d_pre.rem_fds(),
                        d.rem_bytes(),
                        d.rem_fds(),
                        rb,
                        rf,
                    );
                    lemma_seq_eqv_push(out_pre, v@, i as int, x);
                }
                lemma_seq_enc_push(out_pre, x);
            }
            out.push(x);
            proof {
                assert(d0.rem_bytes() =~= u64_le(n) + seq_enc(out@) + d.rem_bytes());
                assert(d0.rem_fds() =~= seq_enc_fds(out@) + d.rem_fds());
            }
            i = i + 1;
        }
        proof {
            assert(out@.len() as u64 == n);
            assert(old(d).rem_bytes() =~= out.enc() + d.rem_bytes());
            assert(old(d).rem_fds() =~= out.enc_fds() + d.rem_fds());
            assert forall|v: Vec<T>, rb: Seq<u8>, rf: Seq<i32>|
                old(d).rem_bytes() == #[trigger] v.enc().add(rb) && old(d).rem_fds()
                    == #[trigger] v.enc_fds().add(rf) implies out.eqv(v) by {
                assert(v@.take(n as int) =~= v@);
                assert(seq_eqv(out@, v@.take(n as int)));
            }
        }
        Ok(out)
    }
}

impl<A: Object, B: Object> Object for (A, B) {
    open spec fn eqv(self, other: Self) -> bool {
        self.0.eqv(other.0) && self.1.eqv(other.1)
    }

    open spec fn enc(self) -> Seq<u8> {
        self.0.enc() + self.1.enc()
    }

    open spec fn enc_fds(self) -> Seq<i32> {
        self.0.enc_fds() + self.1.enc_fds()
    }

    proof fn lemma_eqv_refl(self) {
        self.0.lemma_eqv_refl();
        self.1.lemma_eqv_refl();
    }

    proof fn lemma_enc_eqv(self, other: Self) {
        self.0.lemma_enc_eqv(other.0);
        self.1.lemma_enc_eqv(other.1);
    }

    fn serialize_self(&self, s: &mut Serializer) {
        self.0.serialize_self(s);
        self.1.serialize_self(s);
        proof {
            assert(final(s).bytes() =~= old(s).bytes() + self.enc());
            assert(final(s).fd_list() =~= old(s).fd_list() + self.enc_fds());
        }
    }

    fn deserialize_self(d: &mut Deserializer) -> (r: Result<Self, CodecError>) {
        let ghost d0 = *d;
        let a = match A::deserialize_self(d) {
            Ok(a) => a,
            Err(e) => {
                proof {
                    assert forall|v: (A, B), rb: Seq<u8>, rf: Seq<i32>|
                        d0.rem_bytes() == #[trigger] v.enc().add(rb) && d0.rem_fds()
                            == #[trigger] v.enc_fds().add(rf) implies false by {
                        assert(d0.rem_bytes() == v.0.enc().add(v.1.enc() + rb));
                        assert(d0.rem_fds() == v.0.enc_fds().add(v.1.enc_fds() + rf));
                    }
                }
                return Err(e);
            },
        };
        let ghost d1 = *d;
        let b = match B::deserialize_self(d) {
            Ok(b) => b,
            Err(e) => {
                proof {
                    assert forall|v: (A, B), rb: Seq<u8>, rf: Seq<i32>|
                        d0.rem_bytes() == #[trigger] v.enc().add(rb) && d0.rem_fds()
                            == #[trigger] v.enc_fds().add(rf) implies false by {
                        assert(d0.rem_bytes() == v.0.enc().add(v.1.enc() + rb));
                        assert(d0.rem_fds() == v.0.enc_fds().add(v.1.enc_fds() + rf));
                        assert(a.eqv(v.0));
                        a.lemma_enc_eqv(v.0);
                        lemma_concat_cancel(a.enc(), d1.rem_bytes(), v.0.enc(), v.1.enc() + rb);
                        lemma_concat_cancel(
                            a.enc_fds(),
                            d1.rem_fds(),
                            v.0.enc_fds(),
                            v.1.enc_fds() + rf,
                        );
                        assert(d1.rem_bytes() == v.1.enc().add(rb));
                        assert(d1.rem_fds() == v.1.enc_fds().add(rf));
                    }
                }
                return Err(e);
            },
        };
        let w = (a, b);
        proof {
            assert(old(d).rem_bytes() =~= w.enc() + d.rem_bytes());
            assert(old(d).rem_fds() =~= w.enc_fds() + d.rem_fds());
            assert forall|v: (A, B), rb: Seq<u8>, rf: Seq<i32>|
                d0.rem_bytes() == #[trigger] v.enc().add(rb) && d0.rem_fds()
                    == #[trigger] v.enc_fds().add(rf) implies w.eqv(v) by {
                assert(d0.rem_bytes() == v.0.enc().add(v.1.enc() + rb));
                assert(d0.rem_fds() == v.0.enc_fds().add(v.1.enc_fds() + rf));
                assert(a.eqv(v.0));
                a.lemma_enc_eqv(v.0);
                lemma_concat_cancel(a.enc(), d1.rem_bytes(), v.0.enc(), v.1.enc() + rb);
                lemma_concat_cancel(
                    a.enc_fds(),
                    d1.rem_fds(),
                    v.0.enc_fds(),
                    v.1.enc_fds() + rf,
                );
                assert(d1.rem_bytes() == v.1.enc().add(rb));
                assert(d1.rem_fds() == v.1.enc_fds().add(rf));
                assert(b.eqv(v.1));
            }
        }
        Ok(w)
    }
}

} // verus!
