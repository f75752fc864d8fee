//! `Object` implementations for the invoker's own message types: a variant
//! writes its index as an unsigned integer, then its payload fields in
//! declared order.  An unknown variant index is a fatal protocol error.

use vstd::prelude::*;

use crate::codec::{
    lemma_concat_cancel, lemma_u64_le_injective, lemma_u64_le_len, u64_le, CodecError,
    Deserializer, Object, Serializer,
};
use crate::verdict::ExitStatus;

verus! {

impl Object for ExitStatus {
    open spec fn eqv(self, other: Self) -> bool {
        self == other
    }

    open spec fn enc(self) -> Seq<u8> {
        match self {
            ExitStatus::ExitCode(c) => u64_le(0) + c.enc(),
            ExitStatus::Signal(sg) => u64_le(1) + sg.enc(),
        }
    }

    open spec fn enc_fds(self) -> Seq<i32> {
        Seq::<i32>::empty()
    }

    proof fn lemma_eqv_refl(self) {
    }

    proof fn lemma_enc_eqv(self, other: Self) {
    }

    fn serialize_self(&self, s: &mut Serializer) {
        match self {
            ExitStatus::ExitCode(c) => {
                s.write_u64(0);
                c.serialize_self(s);
            },
            ExitStatus::Signal(sg) => {
                s.write_u64(1);
                sg.serialize_self(s);
            },
        }
        proof {
            assert(final(s).bytes() =~= old(s).bytes() + self.enc());
            assert(final(s).fd_list() =~= old(s).fd_list() + self.enc_fds());
        }
    }

    fn deserialize_self(d: &mut Deserializer) -> (r: Result<Self, CodecError>) {
        let ghost d0 = *d;
        proof {
            lemma_u64_le_len(0);
            lemma_u64_le_len(1);
        }
        let idx = match d.read_u64() {
            Ok(idx) => idx,
            Err(e) => {
                proof {
                    assert forall|v: ExitStatus, rb: Seq<u8>, rf: Seq<i32>|
                        d0.rem_bytes() == #[trigger] v.enc().add(rb) && d0.rem_fds()
                            == #[trigger] v.enc_fds().add(rf) implies false by {
                        assert(d0.rem_bytes().len() >= 8);
                    }
                }
                return Err(e);
            },
        };
        let ghost d1 = *d;
        proof {
            lemma_u64_le_len(idx);
            assert forall|v: ExitStatus, rb: Seq<u8>, rf: Seq<i32>|
                d0.rem_bytes() == #[trigger] v.enc().add(rb) && d0.rem_fds()
                    == #[trigger] v.enc_fds().add(rf) implies (match v {
                ExitStatus::ExitCode(cv) => idx == 0 && d1.rem_bytes() == cv.enc().add(rb)
                    && d1.rem_fds() == cv.enc_fds().add(rf),
                ExitStatus::Signal(sv) => idx == 1 && d1.rem_bytes() == sv.enc().add(rb)
                    && d1.rem_fds() == sv.enc_fds().add(rf),
            }) by {
                match v {
                    ExitStatus::ExitCode(cv) => {
                        assert(v.enc().add(rb) =~= u64_le(0) + (cv.enc() + rb));
                        lemma_concat_cancel(u64_le(idx), d1.rem_bytes(), u64_le(0), cv.enc() + rb);
                        lemma_u64_le_injective(idx, 0);
                        assert(d1.rem_bytes() =~= cv.enc().add(rb));
                        assert(d1.rem_fds() =~= cv.enc_fds().add(rf));
                    },
                    ExitStatus::Signal(sv) => {
                        assert(v.enc().add(rb) =~= u64_le(1) + (sv.enc() + rb));
                        lemma_concat_cancel(u64_le(idx), d1.rem_bytes(), u64_le(1), sv.enc() + rb);
                        lemma_u64_le_injective(idx, 1);
                        assert(d1.rem_bytes() =~= sv.enc().add(rb));
                        assert(d1.rem_fds() =~= sv.enc_fds().add(rf));
                    },
                }
            }
        }
        if idx == 0 {
            match u8::deserialize_self(d) {
                Ok(c) => {
                    let w = ExitStatus::ExitCode(c);
                    proof {
                        assert(d0.rem_bytes() =~= w.enc() + d.rem_bytes());
                        assert(d0.rem_fds() =~= w.enc_fds() + d.rem_fds());
                        assert forall|v: ExitStatus, rb: Seq<u8>, rf: Seq<i32>|
                            d0.rem_bytes() == #[trigger] v.enc().add(rb) && d0.rem_fds()
                                == #[trigger] v.enc_fds().add(rf) implies w.eqv(v) by {
                            assert(v is ExitCode);
                            let cv = v->ExitCode_0;
                            assert(d1.rem_bytes() == cv.enc().add(rb));
                            assert(d1.rem_fds() == cv.enc_fds().add(rf));
                        }
                    }
                    Ok(w)
                },
                Err(e) => {
                    proof {
                        assert forall|v: ExitStatus, rb: Seq<u8>, rf: Seq<i32>|
                            d0.rem_bytes() == #[trigger] v.enc().add(rb) && d0.rem_fds()
                                == #[trigger] v.enc_fds().add(rf) implies false by {
                            assert(v is ExitCode);
                            let cv = v->ExitCode_0;
                            assert(d1.rem_bytes() == cv.enc().add(rb));
                            assert(d1.rem_fds() == cv.enc_fds().add(rf));
                        }
                    }
                    Err(e)
                },
            }
        } else if idx == 1 {
            match u8::deserialize_self(d) {
                Ok(sg) => {
                    let w = ExitStatus::Signal(sg);
                    proof {
                        assert(d0.rem_bytes() =~= w.enc() + d.rem_bytes());
                        assert(d0.rem_fds() =~= w.enc_fds() + d.rem_fds());
                        assert forall|v: ExitStatus, rb: Seq<u8>, rf: Seq<i32>|
                            d0.rem_bytes() == #[trigger] v.enc().add(rb) && d0.rem_fds()
                                == #[trigger] v.enc_fds().add(rf) implies w.eqv(v) by {
                            assert(v is Signal);
                            let sv = v->Signal_0;
                            assert(d1.rem_bytes() == sv.enc().add(rb));
                            assert(d1.rem_fds() == sv.enc_fds().add(rf));
                        }
                    }
                    Ok(w)
                },
                Err(e) => {
                    proof {
                        assert forall|v: ExitStatus, rb: Seq<u8>, rf: Seq<i32>|
                            d0.rem_bytes() == #[trigger] v.enc().add(rb) && d0.rem_fds()
                                == #[trigger] v.enc_fds().add(rf) implies false by {
                            assert(v is Signal);
                            let sv = v->Signal_0;
                            assert(d1.rem_bytes() == sv.enc().add(rb));
                            assert(d1.rem_fds() == sv.enc_fds().add(rf));
                        }
                    }
                    Err(e)
                },
            }
        } else {
            proof {
                assert forall|v: ExitStatus, rb: Seq<u8>, rf: Seq<i32>|
                    d0.rem_bytes() == #[trigger] v.enc().add(rb) && d0.rem_fds()
                        == #[trigger] v.enc_fds().add(rf) implies false by {
                    assert(idx == 0 || idx == 1);
                }
            }
            Err(CodecError::UnknownVariant)
        }
    }
}

} // verus!

verus! {

impl Object for crate::submission::Command {
    open spec fn eqv(self, other: Self) -> bool {
        match (self, other) {
            (crate::submission::Command::Compile(a), crate::submission::Command::Compile(b)) => a@
                == b@,
            (crate::submission::Command::Test(a), crate::submission::Command::Test(b)) => a@ == b@,
            (crate::submission::Command::Finalize, crate::submission::Command::Finalize) => true,
            _ => false,
        }
    }

    open spec fn enc(self) -> Seq<u8> {
        match self {
            crate::submission::Command::Compile(b) => u64_le(0) + b.enc(),
            crate::submission::Command::Test(ts) => u64_le(1) + ts.enc(),
            crate::submission::Command::Finalize => u64_le(2),
        }
    }

    open spec fn enc_fds(self) -> Seq<i32> {
        match self {
            crate::submission::Command::Compile(b) => b.enc_fds(),
            crate::submission::Command::Test(ts) => ts.enc_fds(),
            crate::submission::Command::Finalize => Seq::<i32>::empty(),
        }
    }

    proof fn lemma_eqv_refl(self) {
    }

    proof fn lemma_enc_eqv(self, other: Self) {
        match (self, other) {
            (crate::submission::Command::Compile(a), crate::submission::Command::Compile(b)) => {
                assert(a.enc() == b.enc());
            },
            (crate::submission::Command::Test(a), crate::submission::Command::Test(b)) => {
                assert(a.enc() == b.enc());
            },
            _ => {},
        }
    }

    fn serialize_self(&self, s: &mut Serializer) {
        match self {
            crate::submission::Command::Compile(b) => {
                s.write_u64(0);
                b.serialize_self(s);
            },
            crate::submission::Command::Test(ts) => {
                s.write_u64(1);
                ts.serialize_self(s);
            },
            crate::submission::Command::Finalize => {
                s.write_u64(2);
            },
        }
        proof {
            assert(final(s).bytes() =~= old(s).bytes() + self.enc());
            assert(final(s).fd_list() =~= old(s).fd_list() + self.enc_fds());
        }
    }

    fn deserialize_self(d: &mut Deserializer) -> (r: Result<Self, CodecError>) {
        let ghost d0 = *d;
        proof {
            lemma_u64_le_len(0);
            lemma_u64_le_len(1);
            lemma_u64_le_len(2);
        }
        let idx = match d.read_u64() {
            Ok(idx) => idx,
            Err(e) => {
                proof {
                    assert forall|v: crate::submission::Command, rb: Seq<u8>, rf: Seq<i32>|
                        d0.rem_bytes() == #[trigger] v.enc().add(rb) && d0.rem_fds()
                            == #[trigger] v.enc_fds().add(rf) implies false by {
                        assert(d0.rem_bytes().len() >= 8);
                    }
                }
                return Err(e);
            },
        };
        let ghost d1 = *d;
        proof {
            lemma_u64_le_len(idx);
            assert forall|v: crate::submission::Command, rb: Seq<u8>, rf: Seq<i32>|
                d0.rem_bytes() == #[trigger] v.enc().add(rb) && d0.rem_fds()
                    == #[trigger] v.enc_fds().add(rf) implies (match v {
                crate::submission::Command::Compile(bv) => idx == 0 && d1.rem_bytes()
                    == bv.enc().add(rb) && d1.rem_fds() == bv.enc_fds().add(rf),
                crate::submission::Command::Test(tv) => idx == 1 && d1.rem_bytes() == tv.enc().add(
                    rb,
                ) && d1.rem_fds() == tv.enc_fds().add(rf),
                crate::submission::Command::Finalize => idx == 2 && d1.rem_bytes() == rb
                    && d1.rem_fds() == rf,
            }) by {
                match v {
                    crate::submission::Command::Compile(bv) => {
                        assert(v.enc().add(rb) =~= u64_le(0) + (bv.enc() + rb));
                        lemma_concat_cancel(u64_le(idx), d1.rem_bytes(), u64_le(0), bv.enc() + rb);
                        lemma_u64_le_injective(idx, 0);
                        assert(d1.rem_bytes() =~= bv.enc().add(rb));
                        assert(d1.rem_fds() =~= bv.enc_fds().add(rf));
                    },
                    crate::submission::Command::Test(tv) => {
                        assert(v.enc().add(rb) =~= u64_le(1) + (tv.enc() + rb));
                        lemma_concat_cancel(u64_le(idx), d1.rem_bytes(), u64_le(1), tv.enc() + rb);
                        lemma_u64_le_injective(idx, 1);
                        assert(d1.rem_bytes() =~= tv.enc().add(rb));
                        assert(d1.rem_fds() =~= tv.enc_fds().add(rf));
                    },
                    crate::submission::Command::Finalize => {
                        assert(v.enc().add(rb) =~= u64_le(2) + rb);
                        lemma_concat_cancel(u64_le(idx), d1.rem_bytes(), u64_le(2), rb);
                        lemma_u64_le_injective(idx, 2);
                        assert(d1.rem_fds() =~= rf);
                    },
                }
            }
        }
        if idx == 0 {
            match String::deserialize_self(d) {
                Ok(b) => {
                    let w = crate::submission::Command::Compile(b);
                    proof {
                        assert(d0.rem_bytes() =~= w.enc() + d.rem_bytes());
                        assert(d0.rem_fds() =~= w.enc_fds() + d.rem_fds());
                        assert forall|v: crate::submission::Command, rb: Seq<u8>, rf: Seq<i32>|
                            d0.rem_bytes() == #[trigger] v.enc().add(rb) && d0.rem_fds()
                                == #[trigger] v.enc_fds().add(rf) implies w.eqv(v) by {
                            assert(v is Compile);
                            let bv = v->Compile_0;
                            assert(d1.rem_bytes() == bv.enc().add(rb));
                            assert(d1.rem_fds() == bv.enc_fds().add(rf));
                        }
                    }
                    Ok(w)
                },
                Err(e) => {
                    proof {
                        assert forall|v: crate::submission::Command, rb: Seq<u8>, rf: Seq<i32>|
                            d0.rem_bytes() == #[trigger] v.enc().add(rb) && d0.rem_fds()
                                == #[trigger] v.enc_fds().add(rf) implies false by {
                            assert(v is Compile);
                            let bv = v->Compile_0;
                            assert(d1.rem_bytes() == bv.enc().add(rb));
                            assert(d1.rem_fds() == bv.enc_fds().add(rf));
                        }
                    }
                    Err(e)
                },
            }
        } else if idx == 1 {
            match Vec::<u64>::deserialize_self(d) {
                Ok(ts) => {
                    let w = crate::submission::Command::Test(ts);
                    proof {
                        assert(d0.rem_bytes() =~= w.enc() + d.rem_bytes());
                        assert(d0.rem_fds() =~= w.enc_fds() + d.rem_fds());
                        assert forall|v: crate::submission::Command, rb: Seq<u8>, rf: Seq<i32>|
                            d0.rem_bytes() == #[trigger] v.enc().add(rb) && d0.rem_fds()
                                == #[trigger] v.enc_fds().add(rf) implies w.eqv(v) by {
                            assert(v is Test);
                            let tv = v->Test_0;
                            assert(d1.rem_bytes() == tv.enc().add(rb));
                            assert(d1.rem_fds() == tv.enc_fds().add(rf));
                            assert(crate::builtins::seq_eqv(w->Test_0@, tv@));
                            assert forall|i: int| 0 <= i < w->Test_0@.len() implies w->Test_0@[i]
                                == tv@[i] by {
                                assert(w->Test_0@[i].eqv(tv@[i]));
                            }
                            assert(w->Test_0@ =~= tv@);
                        }
                    }
                    Ok(w)
                },
                Err(e) => {
                    proof {
                        assert forall|v: crate::submission::Command, rb: Seq<u8>, rf: Seq<i32>|
                            d0.rem_bytes() == #[trigger] v.enc().add(rb) && d0.rem_fds()
                                == #[trigger] v.enc_fds().add(rf) implies false by {
                            assert(v is Test);
                            let tv = v->Test_0;
                            assert(d1.rem_bytes() == tv.enc().add(rb));
                            assert(d1.rem_fds() == tv.enc_fds().add(rf));
                        }
                    }
                    Err(e)
                },
            }
        } else if idx == 2 {
            let w = crate::submission::Command::Finalize;
            proof {
                assert(d0.rem_bytes() =~= w.enc() + d.rem_bytes());
                assert(d0.rem_fds() =~= w.enc_fds() + d.rem_fds());
                assert forall|v: crate::submission::Command, rb: Seq<u8>, rf: Seq<i32>|
                    d0.rem_bytes() == #[trigger] v.enc().add(rb) && d0.rem_fds()
                        == #[trigger] v.enc_fds().add(rf) implies w.eqv(v) by {
                    assert(v is Finalize);
                }
            }
            Ok(w)
        } else {
            proof {
                assert forall|v: crate::submission::Command, rb: Seq<u8>, rf: Seq<i32>|
                    d0.rem_bytes() == #[trigger] v.enc().add(rb) && d0.rem_fds()
                        == #[trigger] v.enc_fds().add(rf) implies false by {
                    assert(idx == 0 || idx == 1 || idx == 2);
                }
            }
            Err(CodecError::UnknownVariant)
        }
    }
}

} // verus!

verus! {

impl Object for crate::verdict::TestVerdict {
    open spec fn eqv(self, other: Self) -> bool {
        match (self, other) {
            (crate::verdict::TestVerdict::InQueue, crate::verdict::TestVerdict::InQueue) => true,
            (crate::verdict::TestVerdict::Running, crate::verdict::TestVerdict::Running) => true,
            (crate::verdict::TestVerdict::Ignored, crate::verdict::TestVerdict::Ignored) => true,
            (crate::verdict::TestVerdict::Accepted, crate::verdict::TestVerdict::Accepted) => true,
            (crate::verdict::TestVerdict::PartialSolution(a), crate::verdict::TestVerdict::PartialSolution(b)) => a == b,
            (crate::verdict::TestVerdict::Bug(a), crate::verdict::TestVerdict::Bug(b)) => a@ == b@,
            (crate::verdict::TestVerdict::WrongAnswer, crate::verdict::TestVerdict::WrongAnswer) => true,
            (crate::verdict::TestVerdict::RuntimeError(a), crate::verdict::TestVerdict::RuntimeError(b)) => a == b,
            (crate::verdict::TestVerdict::TimeLimitExceeded, crate::verdict::TestVerdict::TimeLimitExceeded) => true,
            (crate::verdict::TestVerdict::MemoryLimitExceeded, crate::verdict::TestVerdict::MemoryLimitExceeded) => true,
            (crate::verdict::TestVerdict::PresentationError, crate::verdict::TestVerdict::PresentationError) => true,
            (crate::verdict::TestVerdict::IdlenessLimitExceeded, crate::verdict::TestVerdict::IdlenessLimitExceeded) => true,
            (crate::verdict::TestVerdict::CheckerFailed, crate::verdict::TestVerdict::CheckerFailed) => true,
            _ => false,
        }
    }

    open spec fn enc(self) -> Seq<u8> {
        match self {
            crate::verdict::TestVerdict::InQueue => u64_le(0),
            crate::verdict::TestVerdict::Running => u64_le(1),
            crate::verdict::TestVerdict::Ignored => u64_le(2),
            crate::verdict::TestVerdict::Accepted => u64_le(3),
            crate::verdict::TestVerdict::PartialSolution(p) => u64_le(4) + p.enc(),
            crate::verdict::TestVerdict::Bug(p) => u64_le(5) + p.enc(),
            crate::verdict::TestVerdict::WrongAnswer => u64_le(6),
            crate::verdict::TestVerdict::RuntimeError(p) => u64_le(7) + p.enc(),
            crate::verdict::TestVerdict::TimeLimitExceeded => u64_le(8),
            crate::verdict::TestVerdict::MemoryLimitExceeded => u64_le(9),
            crate::verdict::TestVerdict::PresentationError => u64_le(10),
            crate::verdict::TestVerdict::IdlenessLimitExceeded => u64_le(11),
            crate::verdict::TestVerdict::CheckerFailed => u64_le(12),
        }
    }

    open spec fn enc_fds(self) -> Seq<i32> {
        match self {
            crate::verdict::TestVerdict::InQueue => Seq::<i32>::empty(),
            crate::verdict::TestVerdict::Running => Seq::<i32>::empty(),
            crate::verdict::TestVerdict::Ignored => Seq::<i32>::empty(),
            crate::verdict::TestVerdict::Accepted => Seq::<i32>::empty(),
            crate::verdict::TestVerdict::PartialSolution(p) => p.enc_fds(),
            crate::verdict::TestVerdict::Bug(p) => p.enc_fds(),
            crate::verdict::TestVerdict::WrongAnswer => Seq::<i32>::empty(),
            crate::verdict::TestVerdict::RuntimeError(p) => p.enc_fds(),
            crate::verdict::TestVerdict::TimeLimitExceeded => Seq::<i32>::empty(),
            crate::verdict::TestVerdict::MemoryLimitExceeded => Seq::<i32>::empty(),
            crate::verdict::TestVerdict::PresentationError => Seq::<i32>::empty(),
            crate::verdict::TestVerdict::IdlenessLimitExceeded => Seq::<i32>::empty(),
            crate::verdict::TestVerdict::CheckerFailed => Seq::<i32>::empty(),
        }
    }

    proof fn lemma_eqv_refl(self) {
    }

    proof fn lemma_enc_eqv(self, other: Self) {
        match (self, other) {
            (crate::verdict::TestVerdict::Bug(a), crate::verdict::TestVerdict::Bug(b)) => {
                assert(a.enc() == b.enc());
            },
            _ => {},
        }
    }

    fn serialize_self(&self, s: &mut Serializer) {
        match self {
            crate::verdict::TestVerdict::InQueue => {
                s.write_u64(0);
            },
            crate::verdict::TestVerdict::Running => {
                s.write_u64(1);
            },
            crate::verdict::TestVerdict::Ignored => {
                s.write_u64(2);
            },
            crate::verdict::TestVerdict::Accepted => {
                s.write_u64(3);
            },
            crate::verdict::TestVerdict::PartialSolution(p) => {
                s.write_u64(4);
                p.serialize_self(s);
            },
            crate::verdict::TestVerdict::Bug(p) => {
                s.write_u64(5);
                p.serialize_self(s);
            },
            crate::verdict::TestVerdict::WrongAnswer => {
                s.write_u64(6);
            },
            crate::verdict::TestVerdict::RuntimeError(p) => {
                s.write_u64(7);
                p.serialize_self(s);
            },
            crate::verdict::TestVerdict::TimeLimitExceeded => {
                s.write_u64(8);
            },
            crate::verdict::TestVerdict::MemoryLimitExceeded => {
                s.write_u64(9);
            },
            crate::verdict::TestVerdict::PresentationError => {
                s.write_u64(10);
            },
            crate::verdict::TestVerdict::IdlenessLimitExceeded => {
                s.write_u64(11);
            },
            crate::verdict::TestVerdict::CheckerFailed => {
                s.write_u64(12);
            },
        }
        proof {
            assert(final(s).bytes() =~= old(s).bytes() + self.enc());
            assert(final(s).fd_list() =~= old(s).fd_list() + self.enc_fds());
        }
    }

    #[verifier::rlimit(100)]
    fn deserialize_self(d: &mut Deserializer) -> (r: Result<Self, CodecError>) {
        let ghost d0 = *d;
        proof {
            lemma_u64_le_len(0);
            lemma_u64_le_len(1);
            lemma_u64_le_len(2);
            lemma_u64_le_len(3);
            lemma_u64_le_len(4);
            lemma_u64_le_len(5);
            lemma_u64_le_len(6);
            lemma_u64_le_len(7);
            lemma_u64_le_len(8);
            lemma_u64_le_len(9);
            lemma_u64_le_len(10);
            lemma_u64_le_len(11);
            lemma_u64_le_len(12);
        }
        let idx = match d.read_u64() {
            Ok(idx) => idx,
            Err(e) => {
                proof {
                    assert forall|v: crate::verdict::TestVerdict, rb: Seq<u8>, rf: Seq<i32>|
                        d0.rem_bytes() == #[trigger] v.enc().add(rb) && d0.rem_fds()
                            == #[trigger] v.enc_fds().add(rf) implies false by {
                        assert(d0.rem_bytes().len() >= 8);
                    }
                }
                return Err(e);
            },
        };
        let ghost d1 = *d;
        proof {
            lemma_u64_le_len(idx);
            assert forall|v: crate::verdict::TestVerdict, rb: Seq<u8>, rf: Seq<i32>|
                d0.rem_bytes() == #[trigger] v.enc().add(rb) && d0.rem_fds()
                    == #[trigger] v.enc_fds().add(rf) implies (match v {
                crate::verdict::TestVerdict::InQueue => idx == 0 && d1.rem_bytes() == rb && d1.rem_fds() == rf,
                crate::verdict::TestVerdict::Running => idx == 1 && d1.rem_bytes() == rb && d1.rem_fds() == rf,
                crate::verdict::TestVerdict::Ignored => idx == 2 && d1.rem_bytes() == rb && d1.rem_fds() == rf,
                crate::verdict::TestVerdict::Accepted => idx == 3 && d1.rem_bytes() == rb && d1.rem_fds() == rf,
                crate::verdict::TestVerdict::PartialSolution(pv) => idx == 4 && d1.rem_bytes() == pv.enc().add(rb)
                    && d1.rem_fds() == pv.enc_fds().add(rf),
                crate::verdict::TestVerdict::Bug(pv) => idx == 5 && d1.rem_bytes() == pv.enc().add(rb)
                    && d1.rem_fds() == pv.enc_fds().add(rf),
                crate::verdict::TestVerdict::WrongAnswer => idx == 6 && d1.rem_bytes() == rb && d1.rem_fds() == rf,
                crate::verdict::TestVerdict::RuntimeError(pv) => idx == 7 && d1.rem_bytes() == pv.enc().add(rb)
                    && d1.rem_fds() == pv.enc_fds().add(rf),
                crate::verdict::TestVerdict::TimeLimitExceeded => idx == 8 && d1.rem_bytes() == rb && d1.rem_fds() == rf,
                crate::verdict::TestVerdict::MemoryLimitExceeded => idx == 9 && d1.rem_bytes() == rb && d1.rem_fds() == rf,
                crate::verdict::TestVerdict::PresentationError => idx == 10 && d1.rem_bytes() == rb && d1.rem_fds() == rf,
                crate::verdict::TestVerdict::IdlenessLimitExceeded => idx == 11 && d1.rem_bytes() == rb && d1.rem_fds() == rf,
                crate::verdict::TestVerdict::CheckerFailed => idx == 12 && d1.rem_bytes() == rb && d1.rem_fds() == rf,
            }) by {
                match v {
                    crate::verdict::TestVerdict::InQueue => {
                        assert(v.enc().add(rb) =~= u64_le(0) + rb);
                        lemma_concat_cancel(u64_le(idx), d1.rem_bytes(), u64_le(0), rb);
                        lemma_u64_le_injective(idx, 0);
                        assert(d1.rem_fds() =~= rf);
                    },
                    crate::verdict::TestVerdict::Running => {
                        assert(v.enc().add(rb) =~= u64_le(1) + rb);
                        lemma_concat_cancel(u64_le(idx), d1.rem_bytes(), u64_le(1), rb);
                        lemma_u64_le_injective(idx, 1);
                        assert(d1.rem_fds() =~= rf);
                    },
                    crate::verdict::TestVerdict::Ignored => {
                        assert(v.enc().add(rb) =~= u64_le(2) + rb);
                        lemma_concat_cancel(u64_le(idx), d1.rem_bytes(), u64_le(2), rb);
                        lemma_u64_le_injective(idx, 2);
                        assert(d1.rem_fds() =~= rf);
                    },
                    crate::verdict::TestVerdict::Accepted => {
                        assert(v.enc().add(rb) =~= u64_le(3) + rb);
                        lemma_concat_cancel(u64_le(idx), d1.rem_bytes(), u64_le(3), rb);
                        lemma_u64_le_injective(idx, 3);
                        assert(d1.rem_fds() =~= rf);
                    },
                    crate::verdict::TestVerdict::PartialSolution(pv) => {
                        assert(v.enc().add(rb) =~= u64_le(4) + (pv.enc() + rb));
                        lemma_concat_cancel(u64_le(idx), d1.rem_bytes(), u64_le(4), pv.enc() + rb);
                        lemma_u64_le_injective(idx, 4);
                        assert(d1.rem_bytes() =~= pv.enc().add(rb));
                        assert(d1.rem_fds() =~= pv.enc_fds().add(rf));
                    },
                    crate::verdict::TestVerdict::Bug(pv) => {
                        assert(v.enc().add(rb) =~= u64_le(5) + (pv.enc() + rb));
                        lemma_concat_cancel(u64_le(idx), d1.rem_bytes(), u64_le(5), pv.enc() + rb);
                        lemma_u64_le_injective(idx, 5);
                        assert(d1.rem_bytes() =~= pv.enc().add(rb));
                        assert(d1.rem_fds() =~= pv.enc_fds().add(rf));
                    },
                    crate::verdict::TestVerdict::WrongAnswer => {
                        assert(v.enc().add(rb) =~= u64_le(6) + rb);
                        lemma_concat_cancel(u64_le(idx), d1.rem_bytes(), u64_le(6), rb);
                        lemma_u64_le_injective(idx, 6);
                        assert(d1.rem_fds() =~= rf);
                    },
                    crate::verdict::TestVerdict::RuntimeError(pv) => {
                        assert(v.enc().add(rb) =~= u64_le(7) + (pv.enc() + rb));
                        lemma_concat_cancel(u64_le(idx), d1.rem_bytes(), u64_le(7), pv.enc() + rb);
                        lemma_u64_le_injective(idx, 7);
                        assert(d1.rem_bytes() =~= pv.enc().add(rb));
                        assert(d1.rem_fds() =~= pv.enc_fds().add(rf));
                    },
                    crate::verdict::TestVerdict::TimeLimitExceeded => {
                        assert(v.enc().add(rb) =~= u64_le(8) + rb);
                        lemma_concat_cancel(u64_le(idx), d1.rem_bytes(), u64_le(8), rb);
                        lemma_u64_le_injective(idx, 8);
                        assert(d1.rem_fds() =~= rf);
                    },
                    crate::verdict::TestVerdict::MemoryLimitExceeded => {
                        assert(v.enc().add(rb) =~= u64_le(9) + rb);
                        lemma_concat_cancel(u64_le(idx), d1.rem_bytes(), u64_le(9), rb);
                        lemma_u64_le_injective(idx, 9);
                        assert(d1.rem_fds() =~= rf);
                    },
                    crate::verdict::TestVerdict::PresentationError => {
                        assert(v.enc().add(rb) =~= u64_le(10) + rb);
                        lemma_concat_cancel(u64_le(idx), d1.rem_bytes(), u64_le(10), rb);
                        lemma_u64_le_injective(idx, 10);
                        assert(d1.rem_fds() =~= rf);
                    },
                    crate::verdict::TestVerdict::IdlenessLimitExceeded => {
                        assert(v.enc().add(rb) =~= u64_le(11) + rb);
                        lemma_concat_cancel(u64_le(idx), d1.rem_bytes(), u64_le(11), rb);
                        lemma_u64_le_injective(idx, 11);
                        assert(d1.rem_fds() =~= rf);
                    },
                    crate::verdict::TestVerdict::CheckerFailed => {
                        assert(v.enc().add(rb) =~= u64_le(12) + rb);
                        lemma_concat_cancel(u64_le(idx), d1.rem_bytes(), u64_le(12), rb);
                        lemma_u64_le_injective(idx, 12);
                        assert(d1.rem_fds() =~= rf);
                    },
                }
            }
        }
        if idx == 0 {
            let w = crate::verdict::TestVerdict::InQueue;
            proof {
                assert(d0.rem_bytes() =~= w.enc() + d.rem_bytes());
                assert(d0.rem_fds() =~= w.enc_fds() + d.rem_fds());
                assert forall|v: crate::verdict::TestVerdict, rb: Seq<u8>, rf: Seq<i32>|
                    d0.rem_bytes() == #[trigger] v.enc().add(rb) && d0.rem_fds()
                        == #[trigger] v.enc_fds().add(rf) implies w.eqv(v) by {
                    assert(v is InQueue);
                }
            }
            Ok(w)
        }
        else if idx == 1 {
            let w = crate::verdict::TestVerdict::Running;
            proof {
                assert(d0.rem_bytes() =~= w.enc() + d.rem_bytes());
                assert(d0.rem_fds() =~= w.enc_fds() + d.rem_fds());
                assert forall|v: crate::verdict::TestVerdict, rb: Seq<u8>, rf: Seq<i32>|
                    d0.rem_bytes() == #[trigger] v.enc().add(rb) && d0.rem_fds()
                        == #[trigger] v.enc_fds().add(rf) implies w.eqv(v) by {
                    assert(v is Running);
                }
            }
            Ok(w)
        }
        else if idx == 2 {
            let w = crate::verdict::TestVerdict::Ignored;
            proof {
                assert(d0.rem_bytes() =~= w.enc() + d.rem_bytes());
                assert(d0.rem_fds() =~= w.enc_fds() + d.rem_fds());
                assert forall|v: crate::verdict::TestVerdict, rb: Seq<u8>, rf: Seq<i32>|
                    d0.rem_bytes() == #[trigger] v.enc().add(rb) && d0.rem_fds()
                        == #[trigger] v.enc_fds().add(rf) implies w.eqv(v) by {
                    assert(v is Ignored);
                }
            }
            Ok(w)
        }
        else if idx == 3 {
            let w = crate::verdict::TestVerdict::Accepted;
            proof {
                assert(d0.rem_bytes() =~= w.enc() + d.rem_bytes());
                assert(d0.rem_fds() =~= w.enc_fds() + d.rem_fds());
                assert forall|v: crate::verdict::TestVerdict, rb: Seq<u8>, rf: Seq<i32>|
                    d0.rem_bytes() == #[trigger] v.enc().add(rb) && d0.rem_fds()
                        == #[trigger] v.enc_fds().add(rf) implies w.eqv(v) by {
                    assert(v is Accepted);
                }
            }
            Ok(w)
        }
        else if idx == 4 {
            match u64::deserialize_self(d) {
                Ok(p) => {
                    let w = crate::verdict::TestVerdict::PartialSolution(p);
                    proof {
                        assert(d0.rem_bytes() =~= w.enc() + d.rem_bytes());
                        assert(d0.rem_fds() =~= w.enc_fds() + d.rem_fds());
                        assert forall|v: crate::verdict::TestVerdict, rb: Seq<u8>, rf: Seq<i32>|
                            d0.rem_bytes() == #[trigger] v.enc().add(rb) && d0.rem_fds()
                                == #[trigger] v.enc_fds().add(rf) implies w.eqv(v) by {
                            assert(v is PartialSolution);
                            let pv = v->PartialSolution_0;
                            assert(d1.rem_bytes() == pv.enc().add(rb));
                            assert(d1.rem_fds() == pv.enc_fds().add(rf));
                        }
                    }
                    Ok(w)
                },
                Err(e) => {
                    proof {
                        assert forall|v: crate::verdict::TestVerdict, rb: Seq<u8>, rf: Seq<i32>|
                            d0.rem_bytes() == #[trigger] v.enc().add(rb) && d0.rem_fds()
                                == #[trigger] v.enc_fds().add(rf) implies false by {
                            assert(v is PartialSolution);
                            let pv = v->PartialSolution_0;
                            assert(d1.rem_bytes() == pv.enc().add(rb));
                            assert(d1.rem_fds() == pv.enc_fds().add(rf));
                        }
                    }
                    Err(e)
                },
            }
        }
        else if idx == 5 {
            match String::deserialize_self(d) {
                Ok(p) => {
                    let w = crate::verdict::TestVerdict::Bug(p);
                    proof {
                        assert(d0.rem_bytes() =~= w.enc() + d.rem_bytes());
                        assert(d0.rem_fds() =~= w.enc_fds() + d.rem_fds());
                        assert forall|v: crate::verdict::TestVerdict, rb: Seq<u8>, rf: Seq<i32>|
                            d0.rem_bytes() == #[trigger] v.enc().add(rb) && d0.rem_fds()
                                == #[trigger] v.enc_fds().add(rf) implies w.eqv(v) by {
                            assert(v is Bug);
                            let pv = v->Bug_0;
                            assert(d1.rem_bytes() == pv.enc().add(rb));
                            assert(d1.rem_fds() == pv.enc_fds().add(rf));
                        }
                    }
                    Ok(w)
                },
                Err(e) => {
                    proof {
                        assert forall|v: crate::verdict::TestVerdict, rb: Seq<u8>, rf: Seq<i32>|
                            d0.rem_bytes() == #[trigger] v.enc().add(rb) && d0.rem_fds()
                                == #[trigger] v.enc_fds().add(rf) implies false by {
                            assert(v is Bug);
                            let pv = v->Bug_0;
                            assert(d1.rem_bytes() == pv.enc().add(rb));
                            assert(d1.rem_fds() == pv.enc_fds().add(rf));
                        }
                    }
                    Err(e)
                },
            }
        }
        else if idx == 6 {
            let w = crate::verdict::TestVerdict::WrongAnswer;
            proof {
                assert(d0.rem_bytes() =~= w.enc() + d.rem_bytes());
                assert(d0.rem_fds() =~= w.enc_fds() + d.rem_fds());
                assert forall|v: crate::verdict::TestVerdict, rb: Seq<u8>, rf: Seq<i32>|
                    d0.rem_bytes() == #[trigger] v.enc().add(rb) && d0.rem_fds()
                        == #[trigger] v.enc_fds().add(rf) implies w.eqv(v) by {
                    assert(v is WrongAnswer);
                }
            }
            Ok(w)
        }
        else if idx == 7 {
            match ExitStatus::deserialize_self(d) {
                Ok(p) => {
                    let w = crate::verdict::TestVerdict::RuntimeError(p);
                    proof {
                        assert(d0.rem_bytes() =~= w.enc() + d.rem_bytes());
                        assert(d0.rem_fds() =~= w.enc_fds() + d.rem_fds());
                        assert forall|v: crate::verdict::TestVerdict, rb: Seq<u8>, rf: Seq<i32>|
                            d0.rem_bytes() == #[trigger] v.enc().add(rb) && d0.rem_fds()
                                == #[trigger] v.enc_fds().add(rf) implies w.eqv(v) by {
                            assert(v is RuntimeError);
                            let pv = v->RuntimeError_0;
                            assert(d1.rem_bytes() == pv.enc().add(rb));
                            assert(d1.rem_fds() == pv.enc_fds().add(rf));
                        }
                    }
                    Ok(w)
                },
                Err(e) => {
                    proof {
                        assert forall|v: crate::verdict::TestVerdict, rb: Seq<u8>, rf: Seq<i32>|
                            d0.rem_bytes() == #[trigger] v.enc().add(rb) && d0.rem_fds()
                                == #[trigger] v.enc_fds().add(rf) implies false by {
                            assert(v is RuntimeError);
                            let pv = v->RuntimeError_0;
                            assert(d1.rem_bytes() == pv.enc().add(rb));
                            assert(d1.rem_fds() == pv.enc_fds().add(rf));
                        }
                    }
                    Err(e)
                },
            }
        }
        else if idx == 8 {
            let w = crate::verdict::TestVerdict::TimeLimitExceeded;
            proof {
                assert(d0.rem_bytes() =~= w.enc() + d.rem_bytes());
                assert(d0.rem_fds() =~= w.enc_fds() + d.rem_fds());
                assert forall|v: crate::verdict::TestVerdict, rb: Seq<u8>, rf: Seq<i32>|
                    d0.rem_bytes() == #[trigger] v.enc().add(rb) && d0.rem_fds()
                        == #[trigger] v.enc_fds().add(rf) implies w.eqv(v) by {
                    assert(v is TimeLimitExceeded);
                }
            }
            Ok(w)
        }
        else if idx == 9 {
            let w = crate::verdict::TestVerdict::MemoryLimitExceeded;
            proof {
                assert(d0.rem_bytes() =~= w.enc() + d.rem_bytes());
                assert(d0.rem_fds() =~= w.enc_fds() + d.rem_fds());
                assert forall|v: crate::verdict::TestVerdict, rb: Seq<u8>, rf: Seq<i32>|
                    d0.rem_bytes() == #[trigger] v.enc().add(rb) && d0.rem_fds()
                        == #[trigger] v.enc_fds().add(rf) implies w.eqv(v) by {
                    assert(v is MemoryLimitExceeded);
                }
            }
            Ok(w)
        }
        else if idx == 10 {
            let w = crate::verdict::TestVerdict::PresentationError;
            proof {
                assert(d0.rem_bytes() =~= w.enc() + d.rem_bytes());
                assert(d0.rem_fds() =~= w.enc_fds() + d.rem_fds());
                assert forall|v: crate::verdict::TestVerdict, rb: Seq<u8>, rf: Seq<i32>|
                    d0.rem_bytes() == #[trigger] v.enc().add(rb) && d0.rem_fds()
                        == #[trigger] v.enc_fds().add(rf) implies w.eqv(v) by {
                    assert(v is PresentationError);
                }
            }
            Ok(w)
        }
        else if idx == 11 {
            let w = crate::verdict::TestVerdict::IdlenessLimitExceeded;
            proof {
                assert(d0.rem_bytes() =~= w.enc() + d.rem_bytes());
                assert(d0.rem_fds() =~= w.enc_fds() + d.rem_fds());
                assert forall|v: crate::verdict::TestVerdict, rb: Seq<u8>, rf: Seq<i32>|
                    d0.rem_bytes() == #[trigger] v.enc().add(rb) && d0.rem_fds()
                        == #[trigger] v.enc_fds().add(rf) implies w.eqv(v) by {
                    assert(v is IdlenessLimitExceeded);
                }
            }
            Ok(w)
        }
        else if idx == 12 {
            let w = crate::verdict::TestVerdict::CheckerFailed;
            proof {
                assert(d0.rem_bytes() =~= w.enc() + d.rem_bytes());
                assert(d0.rem_fds() =~= w.enc_fds() + d.rem_fds());
                assert forall|v: crate::verdict::TestVerdict, rb: Seq<u8>, rf: Seq<i32>|
                    d0.rem_bytes() == #[trigger] v.enc().add(rb) && d0.rem_fds()
                        == #[trigger] v.enc_fds().add(rf) implies w.eqv(v) by {
                    assert(v is CheckerFailed);
                }
            }
            Ok(w)
        }
        else {
            proof {
                assert forall|v: crate::verdict::TestVerdict, rb: Seq<u8>, rf: Seq<i32>|
                    d0.rem_bytes() == #[trigger] v.enc().add(rb) && d0.rem_fds()
                        == #[trigger] v.enc_fds().add(rf) implies false by {
                    assert(idx == 0 || idx == 1 || idx == 2 || idx == 3 || idx == 4 || idx == 5 || idx == 6 || idx == 7 || idx == 8 || idx == 9 || idx == 10 || idx == 11 || idx == 12);
                }
            }
            Err(CodecError::UnknownVariant)
        }
    }
}

} // verus!

verus! {

impl Object for crate::verdict::InvocationStat {
    open spec fn eqv(self, other: Self) -> bool {
        self.real_time.eqv(other.real_time) && self.cpu_time.eqv(other.cpu_time) && self.user_time.eqv(other.user_time) && self.sys_time.eqv(other.sys_time) && self.memory.eqv(other.memory)
    }

    open spec fn enc(self) -> Seq<u8> {
        self.real_time.enc() + (self.cpu_time.enc() + (self.user_time.enc() + (self.sys_time.enc() + (self.memory.enc()))))
    }

    open spec fn enc_fds(self) -> Seq<i32> {
        self.real_time.enc_fds() + (self.cpu_time.enc_fds() + (self.user_time.enc_fds() + (self.sys_time.enc_fds() + (self.memory.enc_fds()))))
    }

    proof fn lemma_eqv_refl(self) {
        self.real_time.lemma_eqv_refl();
        self.cpu_time.lemma_eqv_refl();
        self.user_time.lemma_eqv_refl();
        self.sys_time.lemma_eqv_refl();
        self.memory.lemma_eqv_refl();
    }

    proof fn lemma_enc_eqv(self, other: Self) {
        self.real_time.lemma_enc_eqv(other.real_time);
        self.cpu_time.lemma_enc_eqv(other.cpu_time);
        self.user_time.lemma_enc_eqv(other.user_time);
        self.sys_time.lemma_enc_eqv(other.sys_time);
        self.memory.lemma_enc_eqv(other.memory);
    }

    fn serialize_self(&self, s: &mut Serializer) {
        self.real_time.serialize_self(s);
        self.cpu_time.serialize_self(s);
        self.user_time.serialize_self(s);
        self.sys_time.serialize_self(s);
        self.memory.serialize_self(s);
        proof {
            assert(final(s).bytes() =~= old(s).bytes() + self.enc());
            assert(final(s).fd_list() =~= old(s).fd_list() + self.enc_fds());
        }
    }

    fn deserialize_self(d: &mut Deserializer) -> (r: Result<Self, CodecError>) {
        let ghost d0 = *d;
        let x0 = match u64::deserialize_self(d) {
            Ok(x) => x,
            Err(e) => {
                proof {
                    assert forall|v: crate::verdict::InvocationStat, rb: Seq<u8>, rf: Seq<i32>|
                        d0.rem_bytes() == #[trigger] v.enc().add(rb) && d0.rem_fds()
                            == #[trigger] v.enc_fds().add(rf) implies false by {
                assert(d0.rem_bytes() == v.real_time.enc().add((v.cpu_time.enc() + (v.user_time.enc() + (v.sys_time.enc() + (v.memory.enc())))) + rb)) by {
                    assert(v.enc().add(rb) =~= v.real_time.enc() + ((v.cpu_time.enc() + (v.user_time.enc() + (v.sys_time.enc() + (v.memory.enc())))) + rb));
                }
                assert(d0.rem_fds() == v.real_time.enc_fds().add((v.cpu_time.enc_fds() + (v.user_time.enc_fds() + (v.sys_time.enc_fds() + (v.memory.enc_fds())))) + rf)) by {
                    assert(v.enc_fds().add(rf) =~= v.real_time.enc_fds() + ((v.cpu_time.enc_fds() + (v.user_time.enc_fds() + (v.sys_time.enc_fds() + (v.memory.enc_fds())))) + rf));
                }
                    }
                }
                return Err(e);
            },
        };
        let ghost d1 = *d;
        proof {
            assert forall|v: crate::verdict::InvocationStat, rb: Seq<u8>, rf: Seq<i32>|
                d0.rem_bytes() == #[trigger] v.enc().add(rb) && d0.rem_fds()
                    == #[trigger] v.enc_fds().add(rf) implies x0.eqv(v.real_time) && d1.rem_bytes() == (v.cpu_time.enc() + (v.user_time.enc() + (v.sys_time.enc() + (v.memory.enc())))).add(rb) && d1.rem_fds() == (v.cpu_time.enc_fds() + (v.user_time.enc_fds() + (v.sys_time.enc_fds() + (v.memory.enc_fds())))).add(rf) by {
                assert(d0.rem_bytes() == v.real_time.enc().add((v.cpu_time.enc() + (v.user_time.enc() + (v.sys_time.enc() + (v.memory.enc())))) + rb)) by {
                    assert(v.enc().add(rb) =~= v.real_time.enc() + ((v.cpu_time.enc() + (v.user_time.enc() + (v.sys_time.enc() + (v.memory.enc())))) + rb));
                }
                assert(d0.rem_fds() == v.real_time.enc_fds().add((v.cpu_time.enc_fds() + (v.user_time.enc_fds() + (v.sys_time.enc_fds() + (v.memory.enc_fds())))) + rf)) by {
                    assert(v.enc_fds().add(rf) =~= v.real_time.enc_fds() + ((v.cpu_time.enc_fds() + (v.user_time.enc_fds() + (v.sys_time.enc_fds() + (v.memory.enc_fds())))) + rf));
                }
                assert(x0.eqv(v.real_time));
                x0.lemma_enc_eqv(v.real_time);
                lemma_concat_cancel(
                    x0.enc(),
                    d1.rem_bytes(),
                    v.real_time.enc(),
                    (v.cpu_time.enc() + (v.user_time.enc() + (v.sys_time.enc() + (v.memory.enc())))) + rb,
                );
                lemma_concat_cancel(
                    x0.enc_fds(),
                    d1.rem_fds(),
                    v.real_time.enc_fds(),
                    (v.cpu_time.enc_fds() + (v.user_time.enc_fds() + (v.sys_time.enc_fds() + (v.memory.enc_fds())))) + rf,
                );
            }
        }
        let x1 = match u64::deserialize_self(d) {
            Ok(x) => x,
            Err(e) => {
                proof {
                    assert forall|v: crate::verdict::InvocationStat, rb: Seq<u8>, rf: Seq<i32>|
                        d0.rem_bytes() == #[trigger] v.enc().add(rb) && d0.rem_fds()
                            == #[trigger] v.enc_fds().add(rf) implies false by {
                assert(d1.rem_bytes() == v.cpu_time.enc().add((v.user_time.enc() + (v.sys_time.enc() + (v.memory.enc()))) + rb)) by {
                    assert(((v.cpu_time.enc() + (v.user_time.enc() + (v.sys_time.enc() + (v.memory.enc()))))).add(rb) =~= v.cpu_time.enc() + ((v.user_time.enc() + (v.sys_time.enc() + (v.memory.enc()))) + rb));
                }
                assert(d1.rem_fds() == v.cpu_time.enc_fds().add((v.user_time.enc_fds() + (v.sys_time.enc_fds() + (v.memory.enc_fds()))) + rf)) by {
                    assert(((v.cpu_time.enc_fds() + (v.user_time.enc_fds() + (v.sys_time.enc_fds() + (v.memory.enc_fds()))))).add(rf) =~= v.cpu_time.enc_fds() + ((v.user_time.enc_fds() + (v.sys_time.enc_fds() + (v.memory.enc_fds()))) + rf));
                }
                    }
                }
                return Err(e);
            },
        };
        let ghost d2 = *d;
        proof {
            assert forall|v: crate::verdict::InvocationStat, rb: Seq<u8>, rf: Seq<i32>|
                d0.rem_bytes() == #[trigger] v.enc().add(rb) && d0.rem_fds()
                    == #[trigger] v.enc_fds().add(rf) implies x0.eqv(v.real_time) && x1.eqv(v.cpu_time) && d2.rem_bytes() == (v.user_time.enc() + (v.sys_time.enc() + (v.memory.enc()))).add(rb) && d2.rem_fds() == (v.user_time.enc_fds() + (v.sys_time.enc_fds() + (v.memory.enc_fds()))).add(rf) by {
                assert(d1.rem_bytes() == v.cpu_time.enc().add((v.user_time.enc() + (v.sys_time.enc() + (v.memory.enc()))) + rb)) by {
                    assert(((v.cpu_time.enc() + (v.user_time.enc() + (v.sys_time.enc() + (v.memory.enc()))))).add(rb) =~= v.cpu_time.enc() + ((v.user_time.enc() + (v.sys_time.enc() + (v.memory.enc()))) + rb));
                }
                assert(d1.rem_fds() == v.cpu_time.enc_fds().add((v.user_time.enc_fds() + (v.sys_time.enc_fds() + (v.memory.enc_fds()))) + rf)) by {
                    assert(((v.cpu_time.enc_fds() + (v.user_time.enc_fds() + (v.sys_time.enc_fds() + (v.memory.enc_fds()))))).add(rf) =~= v.cpu_time.enc_fds() + ((v.user_time.enc_fds() + (v.sys_time.enc_fds() + (v.memory.enc_fds()))) + rf));
                }
                assert(x1.eqv(v.cpu_time));
                x1.lemma_enc_eqv(v.cpu_time);
                lemma_concat_cancel(
                    x1.enc(),
                    d2.rem_bytes(),
                    v.cpu_time.enc(),
                    (v.user_time.enc() + (v.sys_time.enc() + (v.memory.enc()))) + rb,
                );
                lemma_concat_cancel(
                    x1.enc_fds(),
                    d2.rem_fds(),
                    v.cpu_time.enc_fds(),
                    (v.user_time.enc_fds() + (v.sys_time.enc_fds() + (v.memory.enc_fds()))) + rf,
                );
            }
        }
        let x2 = match u64::deserialize_self(d) {
            Ok(x) => x,
            Err(e) => {
                proof {
                    assert forall|v: crate::verdict::InvocationStat, rb: Seq<u8>, rf: Seq<i32>|
                        d0.rem_bytes() == #[trigger] v.enc().add(rb) && d0.rem_fds()
                            == #[trigger] v.enc_fds().add(rf) implies false by {
                assert(d2.rem_bytes() == v.user_time.enc().add((v.sys_time.enc() + (v.memory.enc())) + rb)) by {
                    assert(((v.user_time.enc() + (v.sys_time.enc() + (v.memory.enc())))).add(rb) =~= v.user_time.enc() + ((v.sys_time.enc() + (v.memory.enc())) + rb));
                }
                assert(d2.rem_fds() == v.user_time.enc_fds().add((v.sys_time.enc_fds() + (v.memory.enc_fds())) + rf)) by {
                    assert(((v.user_time.enc_fds() + (v.sys_time.enc_fds() + (v.memory.enc_fds())))).add(rf) =~= v.user_time.enc_fds() + ((v.sys_time.enc_fds() + (v.memory.enc_fds())) + rf));
                }
                    }
                }
                return Err(e);
            },
        };
        let ghost d3 = *d;
        proof {
            assert forall|v: crate::verdict::InvocationStat, rb: Seq<u8>, rf: Seq<i32>|
                d0.rem_bytes() == #[trigger] v.enc().add(rb) && d0.rem_fds()
                    == #[trigger] v.enc_fds().add(rf) implies x0.eqv(v.real_time) && x1.eqv(v.cpu_time) && x2.eqv(v.user_time) && d3.rem_bytes() == (v.sys_time.enc() + (v.memory.enc())).add(rb) && d3.rem_fds() == (v.sys_time.enc_fds() + (v.memory.enc_fds())).add(rf) by {
                assert(d2.rem_bytes() == v.user_time.enc().add((v.sys_time.enc() + (v.memory.enc())) + rb)) by {
                    assert(((v.user_time.enc() + (v.sys_time.enc() + (v.memory.enc())))).add(rb) =~= v.user_time.enc() + ((v.sys_time.enc() + (v.memory.enc())) + rb));
                }
                assert(d2.rem_fds() == v.user_time.enc_fds().add((v.sys_time.enc_fds() + (v.memory.enc_fds())) + rf)) by {
                    assert(((v.user_time.enc_fds() + (v.sys_time.enc_fds() + (v.memory.enc_fds())))).add(rf) =~= v.user_time.enc_fds() + ((v.sys_time.enc_fds() + (v.memory.enc_fds())) + rf));
                }
                assert(x2.eqv(v.user_time));
                x2.lemma_enc_eqv(v.user_time);
                lemma_concat_cancel(
                    x2.enc(),
                    d3.rem_bytes(),
                    v.user_time.enc(),
                    (v.sys_time.enc() + (v.memory.enc())) + rb,
                );
                lemma_concat_cancel(
                    x2.enc_fds(),
                    d3.rem_fds(),
                    v.user_time.enc_fds(),
                    (v.sys_time.enc_fds() + (v.memory.enc_fds())) + rf,
                );
            }
        }
        let x3 = match u64::deserialize_self(d) {
            Ok(x) => x,
            Err(e) => {
                proof {
                    assert forall|v: crate::verdict::InvocationStat, rb: Seq<u8>, rf: Seq<i32>|
                        d0.rem_bytes() == #[trigger] v.enc().add(rb) && d0.rem_fds()
                            == #[trigger] v.enc_fds().add(rf) implies false by {
                assert(d3.rem_bytes() == v.sys_time.enc().add((v.memory.enc()) + rb)) by {
                    assert(((v.sys_time.enc() + (v.memory.enc()))).add(rb) =~= v.sys_time.enc() + ((v.memory.enc()) + rb));
                }
                assert(d3.rem_fds() == v.sys_time.enc_fds().add((v.memory.enc_fds()) + rf)) by {
                    assert(((v.sys_time.enc_fds() + (v.memory.enc_fds()))).add(rf) =~= v.sys_time.enc_fds() + ((v.memory.enc_fds()) + rf));
                }
                    }
                }
                return Err(e);
            },
        };
        let ghost d4 = *d;
        proof {
            assert forall|v: crate::verdict::InvocationStat, rb: Seq<u8>, rf: Seq<i32>|
                d0.rem_bytes() == #[trigger] v.enc().add(rb) && d0.rem_fds()
                    == #[trigger] v.enc_fds().add(rf) implies x0.eqv(v.real_time) && x1.eqv(v.cpu_time) && x2.eqv(v.user_time) && x3.eqv(v.sys_time) && d4.rem_bytes() == (v.memory.enc()).add(rb) && d4.rem_fds() == (v.memory.enc_fds()).add(rf) by {
                assert(d3.rem_bytes() == v.sys_time.enc().add((v.memory.enc()) + rb)) by {
                    assert(((v.sys_time.enc() + (v.memory.enc()))).add(rb) =~= v.sys_time.enc() + ((v.memory.enc()) + rb));
                }
                assert(d3.rem_fds() == v.sys_time.enc_fds().add((v.memory.enc_fds()) + rf)) by {
                    assert(((v.sys_time.enc_fds() + (v.memory.enc_fds()))).add(rf) =~= v.sys_time.enc_fds() + ((v.memory.enc_fds()) + rf));
                }
                assert(x3.eqv(v.sys_time));
                x3.lemma_enc_eqv(v.sys_time);
                lemma_concat_cancel(
                    x3.enc(),
                    d4.rem_bytes(),
                    v.sys_time.enc(),
                    (v.memory.enc()) + rb,
                );
                lemma_concat_cancel(
                    x3.enc_fds(),
                    d4.rem_fds(),
                    v.sys_time.enc_fds(),
                    (v.memory.enc_fds()) + rf,
                );
            }
        }
        let x4 = match u64::deserialize_self(d) {
            Ok(x) => x,
            Err(e) => {
                proof {
                    assert forall|v: crate::verdict::InvocationStat, rb: Seq<u8>, rf: Seq<i32>|
                        d0.rem_bytes() == #[trigger] v.enc().add(rb) && d0.rem_fds()
                            == #[trigger] v.enc_fds().add(rf) implies false by {
                assert(d4.rem_bytes() == v.memory.enc().add(rb)) by {
                    assert(((v.memory.enc())).add(rb) =~= v.memory.enc().add(rb));
                }
                assert(d4.rem_fds() == v.memory.enc_fds().add(rf)) by {
                    assert(((v.memory.enc_fds())).add(rf) =~= v.memory.enc_fds().add(rf));
                }
                    }
                }
                return Err(e);
            },
        };
        let ghost d5 = *d;
        proof {
            assert forall|v: crate::verdict::InvocationStat, rb: Seq<u8>, rf: Seq<i32>|
                d0.rem_bytes() == #[trigger] v.enc().add(rb) && d0.rem_fds()
                    == #[trigger] v.enc_fds().add(rf) implies x0.eqv(v.real_time) && x1.eqv(v.cpu_time) && x2.eqv(v.user_time) && x3.eqv(v.sys_time) && x4.eqv(v.memory) && d5.rem_bytes() == rb && d5.rem_fds() == rf by {
                assert(d4.rem_bytes() == v.memory.enc().add(rb)) by {
                    assert(((v.memory.enc())).add(rb) =~= v.memory.enc().add(rb));
                }
                assert(d4.rem_fds() == v.memory.enc_fds().add(rf)) by {
                    assert(((v.memory.enc_fds())).add(rf) =~= v.memory.enc_fds().add(rf));
                }
                assert(x4.eqv(v.memory));
                x4.lemma_enc_eqv(v.memory);
                lemma_concat_cancel(
                    x4.enc(),
                    d5.rem_bytes(),
                    v.memory.enc(),
                    rb,
                );
                lemma_concat_cancel(
                    x4.enc_fds(),
                    d5.rem_fds(),
                    v.memory.enc_fds(),
                    rf,
                );
            }
        }
        let w = crate::verdict::InvocationStat { real_time: x0, cpu_time: x1, user_time: x2, sys_time: x3, memory: x4 };
        proof {
            assert(d0.rem_bytes() =~= w.enc() + d.rem_bytes());
            assert(d0.rem_fds() =~= w.enc_fds() + d.rem_fds());
        }
        Ok(w)
    }
}

} // verus!

verus! {

impl Object for crate::verdict::InvocationLimit {
    open spec fn eqv(self, other: Self) -> bool {
        self.real_time.eqv(other.real_time) && self.cpu_time.eqv(other.cpu_time) && self.memory.eqv(other.memory)
    }

    open spec fn enc(self) -> Seq<u8> {
        self.real_time.enc() + (self.cpu_time.enc() + (self.memory.enc()))
    }

    open spec fn enc_fds(self) -> Seq<i32> {
        self.real_time.enc_fds() + (self.cpu_time.enc_fds() + (self.memory.enc_fds()))
    }

    proof fn lemma_eqv_refl(self) {
        self.real_time.lemma_eqv_refl();
        self.cpu_time.lemma_eqv_refl();
        self.memory.lemma_eqv_refl();
    }

    proof fn lemma_enc_eqv(self, other: Self) {
        self.real_time.lemma_enc_eqv(other.real_time);
        self.cpu_time.lemma_enc_eqv(other.cpu_time);
        self.memory.lemma_enc_eqv(other.memory);
    }

    fn serialize_self(&self, s: &mut Serializer) {
        self.real_time.serialize_self(s);
        self.cpu_time.serialize_self(s);
        self.memory.serialize_self(s);
        proof {
            assert(final(s).bytes() =~= old(s).bytes() + self.enc());
            assert(final(s).fd_list() =~= old(s).fd_list() + self.enc_fds());
        }
    }

    fn deserialize_self(d: &mut Deserializer) -> (r: Result<Self, CodecError>) {
        let ghost d0 = *d;
        let x0 = match u64::deserialize_self(d) {
            Ok(x) => x,
            Err(e) => {
                proof {
                    assert forall|v: crate::verdict::InvocationLimit, rb: Seq<u8>, rf: Seq<i32>|
                        d0.rem_bytes() == #[trigger] v.enc().add(rb) && d0.rem_fds()
                            == #[trigger] v.enc_fds().add(rf) implies false by {
                assert(d0.rem_bytes() == v.real_time.enc().add((v.cpu_time.enc() + (v.memory.enc())) + rb)) by {
                    assert(v.enc().add(rb) =~= v.real_time.enc() + ((v.cpu_time.enc() + (v.memory.enc())) + rb));
                }
                assert(d0.rem_fds() == v.real_time.enc_fds().add((v.cpu_time.enc_fds() + (v.memory.enc_fds())) + rf)) by {
                    assert(v.enc_fds().add(rf) =~= v.real_time.enc_fds() + ((v.cpu_time.enc_fds() + (v.memory.enc_fds())) + rf));
                }
                    }
                }
                return Err(e);
            },
        };
        let ghost d1 = *d;
        proof {
            assert forall|v: crate::verdict::InvocationLimit, rb: Seq<u8>, rf: Seq<i32>|
                d0.rem_bytes() == #[trigger] v.enc().add(rb) && d0.rem_fds()
                    == #[trigger] v.enc_fds().add(rf) implies x0.eqv(v.real_time) && d1.rem_bytes() == (v.cpu_time.enc() + (v.memory.enc())).add(rb) && d1.rem_fds() == (v.cpu_time.enc_fds() + (v.memory.enc_fds())).add(rf) by {
                assert(d0.rem_bytes() == v.real_time.enc().add((v.cpu_time.enc() + (v.memory.enc())) + rb)) by {
                    assert(v.enc().add(rb) =~= v.real_time.enc() + ((v.cpu_time.enc() + (v.memory.enc())) + rb));
                }
                assert(d0.rem_fds() == v.real_time.enc_fds().add((v.cpu_time.enc_fds() + (v.memory.enc_fds())) + rf)) by {
                    assert(v.enc_fds().add(rf) =~= v.real_time.enc_fds() + ((v.cpu_time.enc_fds() + (v.memory.enc_fds())) + rf));
                }
                assert(x0.eqv(v.real_time));
                x0.lemma_enc_eqv(v.real_time);
                lemma_concat_cancel(
                    x0.enc(),
                    d1.rem_bytes(),
                    v.real_time.enc(),
                    (v.cpu_time.enc() + (v.memory.enc())) + rb,
                );
                lemma_concat_cancel(
                    x0.enc_fds(),
                    d1.rem_fds(),
                    v.real_time.enc_fds(),
                    (v.cpu_time.enc_fds() + (v.memory.enc_fds())) + rf,
                );
            }
        }
        let x1 = match u64::deserialize_self(d) {
            Ok(x) => x,
            Err(e) => {
                proof {
                    assert forall|v: crate::verdict::InvocationLimit, rb: Seq<u8>, rf: Seq<i32>|
                        d0.rem_bytes() == #[trigger] v.enc().add(rb) && d0.rem_fds()
                            == #[trigger] v.enc_fds().add(rf) implies false by {
                assert(d1.rem_bytes() == v.cpu_time.enc().add((v.memory.enc()) + rb)) by {
                    assert(((v.cpu_time.enc() + (v.memory.enc()))).add(rb) =~= v.cpu_time.enc() + ((v.memory.enc()) + rb));
                }
                assert(d1.rem_fds() == v.cpu_time.enc_fds().add((v.memory.enc_fds()) + rf)) by {
                    assert(((v.cpu_time.enc_fds() + (v.memory.enc_fds()))).add(rf) =~= v.cpu_time.enc_fds() + ((v.memory.enc_fds()) + rf));
                }
                    }
                }
                return Err(e);
            },
        };
        let ghost d2 = *d;
        proof {
            assert forall|v: crate::verdict::InvocationLimit, rb: Seq<u8>, rf: Seq<i32>|
                d0.rem_bytes() == #[trigger] v.enc().add(rb) && d0.rem_fds()
                    == #[trigger] v.enc_fds().add(rf) implies x0.eqv(v.real_time) && x1.eqv(v.cpu_time) && d2.rem_bytes() == (v.memory.enc()).add(rb) && d2.rem_fds() == (v.memory.enc_fds()).add(rf) by {
                assert(d1.rem_bytes() == v.cpu_time.enc().add((v.memory.enc()) + rb)) by {
                    assert(((v.cpu_time.enc() + (v.memory.enc()))).add(rb) =~= v.cpu_time.enc() + ((v.memory.enc()) + rb));
                }
                assert(d1.rem_fds() == v.cpu_time.enc_fds().add((v.memory.enc_fds()) + rf)) by {
                    assert(((v.cpu_time.enc_fds() + (v.memory.enc_fds()))).add(rf) =~= v.cpu_time.enc_fds() + ((v.memory.enc_fds()) + rf));
                }
                assert(x1.eqv(v.cpu_time));
                x1.lemma_enc_eqv(v.cpu_time);
                lemma_concat_cancel(
                    x1.enc(),
                    d2.rem_bytes(),
                    v.cpu_time.enc(),
                    (v.memory.enc()) + rb,
                );
                lemma_concat_cancel(
                    x1.enc_fds(),
                    d2.rem_fds(),
                    v.cpu_time.enc_fds(),
                    (v.memory.enc_fds()) + rf,
                );
            }
        }
        let x2 = match u64::deserialize_self(d) {
            Ok(x) => x,
            Err(e) => {
                proof {
                    assert forall|v: crate::verdict::InvocationLimit, rb: Seq<u8>, rf: Seq<i32>|
                        d0.rem_bytes() == #[trigger] v.enc().add(rb) && d0.rem_fds()
                            == #[trigger] v.enc_fds().add(rf) implies false by {
                assert(d2.rem_bytes() == v.memory.enc().add(rb)) by {
                    assert(((v.memory.enc())).add(rb) =~= v.memory.enc().add(rb));
                }
                assert(d2.rem_fds() == v.memory.enc_fds().add(rf)) by {
                    assert(((v.memory.enc_fds())).add(rf) =~= v.memory.enc_fds().add(rf));
                }
                    }
                }
                return Err(e);
            },
        };
        let ghost d3 = *d;
        proof {
            assert forall|v: crate::verdict::InvocationLimit, rb: Seq<u8>, rf: Seq<i32>|
                d0.rem_bytes() == #[trigger] v.enc().add(rb) && d0.rem_fds()
                    == #[trigger] v.enc_fds().add(rf) implies x0.eqv(v.real_time) && x1.eqv(v.cpu_time) && x2.eqv(v.memory) && d3.rem_bytes() == rb && d3.rem_fds() == rf by {
                assert(d2.rem_bytes() == v.memory.enc().add(rb)) by {
                    assert(((v.memory.enc())).add(rb) =~= v.memory.enc().add(rb));
                }
                assert(d2.rem_fds() == v.memory.enc_fds().add(rf)) by {
                    assert(((v.memory.enc_fds())).add(rf) =~= v.memory.enc_fds().add(rf));
                }
                assert(x2.eqv(v.memory));
                x2.lemma_enc_eqv(v.memory);
                lemma_concat_cancel(
                    x2.enc(),
                    d3.rem_bytes(),
                    v.memory.enc(),
                    rb,
                );
                lemma_concat_cancel(
                    x2.enc_fds(),
                    d3.rem_fds(),
                    v.memory.enc_fds(),
                    rf,
                );
            }
        }
        let w = crate::verdict::InvocationLimit { real_time: x0, cpu_time: x1, memory: x2 };
        proof {
            assert(d0.rem_bytes() =~= w.enc() + d.rem_bytes());
            assert(d0.rem_fds() =~= w.enc_fds() + d.rem_fds());
        }
        Ok(w)
    }
}

} // verus!

verus! {

impl Object for crate::program::CachedProgram {
    open spec fn eqv(self, other: Self) -> bool {
        self.package.eqv(other.package) && self.prerequisites.eqv(other.prerequisites) && self.argv.eqv(other.argv)
    }

    open spec fn enc(self) -> Seq<u8> {
        self.package.enc() + (self.prerequisites.enc() + (self.argv.enc()))
    }

    open spec fn enc_fds(self) -> Seq<i32> {
        self.package.enc_fds() + (self.prerequisites.enc_fds() + (self.argv.enc_fds()))
    }

    proof fn lemma_eqv_refl(self) {
        self.package.lemma_eqv_refl();
        self.prerequisites.lemma_eqv_refl();
        self.argv.lemma_eqv_refl();
    }

    proof fn lemma_enc_eqv(self, other: Self) {
        self.package.lemma_enc_eqv(other.package);
        self.prerequisites.lemma_enc_eqv(other.prerequisites);
        self.argv.lemma_enc_eqv(other.argv);
    }

    fn serialize_self(&self, s: &mut Serializer) {
        self.package.serialize_self(s);
        self.prerequisites.serialize_self(s);
        self.argv.serialize_self(s);
        proof {
            assert(final(s).bytes() =~= old(s).bytes() + self.enc());
            assert(final(s).fd_list() =~= old(s).fd_list() + self.enc_fds());
        }
    }

    #[verifier::rlimit(100)]
    fn deserialize_self(d: &mut Deserializer) -> (r: Result<Self, CodecError>) {
        let ghost d0 = *d;
        let x0 = match String::deserialize_self(d) {
            Ok(x) => x,
            Err(e) => {
                proof {
                    assert forall|v: crate::program::CachedProgram, rb: Seq<u8>, rf: Seq<i32>|
                        d0.rem_bytes() == #[trigger] v.enc().add(rb) && d0.rem_fds()
                            == #[trigger] v.enc_fds().add(rf) implies false by {
                assert(d0.rem_bytes() == v.package.enc().add((v.prerequisites.enc() + (v.argv.enc())) + rb)) by {
                    assert(v.enc().add(rb) =~= v.package.enc() + ((v.prerequisites.enc() + (v.argv.enc())) + rb));
                }
                assert(d0.rem_fds() == v.package.enc_fds().add((v.prerequisites.enc_fds() + (v.argv.enc_fds())) + rf)) by {
                    assert(v.enc_fds().add(rf) =~= v.package.enc_fds() + ((v.prerequisites.enc_fds() + (v.argv.enc_fds())) + rf));
                }
                    }
                }
                return Err(e);
            },
        };
        let ghost d1 = *d;
        proof {
            assert forall|v: crate::program::CachedProgram, rb: Seq<u8>, rf: Seq<i32>|
                d0.rem_bytes() == #[trigger] v.enc().add(rb) && d0.rem_fds()
                    == #[trigger] v.enc_fds().add(rf) implies x0.eqv(v.package) && d1.rem_bytes() == (v.prerequisites.enc() + (v.argv.enc())).add(rb) && d1.rem_fds() == (v.prerequisites.enc_fds() + (v.argv.enc_fds())).add(rf) by {
                assert(d0.rem_bytes() == v.package.enc().add((v.prerequisites.enc() + (v.argv.enc())) + rb)) by {
                    assert(v.enc().add(rb) =~= v.package.enc() + ((v.prerequisites.enc() + (v.argv.enc())) + rb));
                }
                assert(d0.rem_fds() == v.package.enc_fds().add((v.prerequisites.enc_fds() + (v.argv.enc_fds())) + rf)) by {
                    assert(v.enc_fds().add(rf) =~= v.package.enc_fds() + ((v.prerequisites.enc_fds() + (v.argv.enc_fds())) + rf));
                }
                assert(x0.eqv(v.package));
                x0.lemma_enc_eqv(v.package);
                lemma_concat_cancel(
                    x0.enc(),
                    d1.rem_bytes(),
                    v.package.enc(),
                    (v.prerequisites.enc() + (v.argv.enc())) + rb,
                );
                lemma_concat_cancel(
                    x0.enc_fds(),
                    d1.rem_fds(),
                    v.package.enc_fds(),
                    (v.prerequisites.enc_fds() + (v.argv.enc_fds())) + rf,
                );
            }
        }
        let x1 = match Vec::<String>::deserialize_self(d) {
            Ok(x) => x,
            Err(e) => {
                proof {
                    assert forall|v: crate::program::CachedProgram, rb: Seq<u8>, rf: Seq<i32>|
                        d0.rem_bytes() == #[trigger] v.enc().add(rb) && d0.rem_fds()
                            == #[trigger] v.enc_fds().add(rf) implies false by {
                assert(d1.rem_bytes() == v.prerequisites.enc().add((v.argv.enc()) + rb)) by {
                    assert(((v.prerequisites.enc() + (v.argv.enc()))).add(rb) =~= v.prerequisites.enc() + ((v.argv.enc()) + rb));
                }
                assert(d1.rem_fds() == v.prerequisites.enc_fds().add((v.argv.enc_fds()) + rf)) by {
                    assert(((v.prerequisites.enc_fds() + (v.argv.enc_fds()))).add(rf) =~= v.prerequisites.enc_fds() + ((v.argv.enc_fds()) + rf));
                }
                    }
                }
                return Err(e);
            },
        };
        let ghost d2 = *d;
        proof {
            assert forall|v: crate::program::CachedProgram, rb: Seq<u8>, rf: Seq<i32>|
                d0.rem_bytes() == #[trigger] v.enc().add(rb) && d0.rem_fds()
                    == #[trigger] v.enc_fds().add(rf) implies x0.eqv(v.package) && x1.eqv(v.prerequisites) && d2.rem_bytes() == (v.argv.enc()).add(rb) && d2.rem_fds() == (v.argv.enc_fds()).add(rf) by {
                assert(d1.rem_bytes() == v.prerequisites.enc().add((v.argv.enc()) + rb)) by {
                    assert(((v.prerequisites.enc() + (v.argv.enc()))).add(rb) =~= v.prerequisites.enc() + ((v.argv.enc()) + rb));
                }
                assert(d1.rem_fds() == v.prerequisites.enc_fds().add((v.argv.enc_fds()) + rf)) by {
                    assert(((v.prerequisites.enc_fds() + (v.argv.enc_fds()))).add(rf) =~= v.prerequisites.enc_fds() + ((v.argv.enc_fds()) + rf));
                }
                assert(x1.eqv(v.prerequisites));
                x1.lemma_enc_eqv(v.prerequisites);
                lemma_concat_cancel(
                    x1.enc(),
                    d2.rem_bytes(),
                    v.prerequisites.enc(),
                    (v.argv.enc()) + rb,
                );
                lemma_concat_cancel(
                    x1.enc_fds(),
                    d2.rem_fds(),
                    v.prerequisites.enc_fds(),
                    (v.argv.enc_fds()) + rf,
                );
            }
        }
        let x2 = match Vec::<String>::deserialize_self(d) {
            Ok(x) => x,
            Err(e) => {
                proof {
                    assert forall|v: crate::program::CachedProgram, rb: Seq<u8>, rf: Seq<i32>|
                        d0.rem_bytes() == #[trigger] v.enc().add(rb) && d0.rem_fds()
                            == #[trigger] v.enc_fds().add(rf) implies false by {
                assert(d2.rem_bytes() == v.argv.enc().add(rb)) by {
                    assert(((v.argv.enc())).add(rb) =~= v.argv.enc().add(rb));
                }
                assert(d2.rem_fds() == v.argv.enc_fds().add(rf)) by {
                    assert(((v.argv.enc_fds())).add(rf) =~= v.argv.enc_fds().add(rf));
                }
                    }
                }
                return Err(e);
            },
        };
        let ghost d3 = *d;
        proof {
            assert forall|v: crate::program::CachedProgram, rb: Seq<u8>, rf: Seq<i32>|
                d0.rem_bytes() == #[trigger] v.enc().add(rb) && d0.rem_fds()
                    == #[trigger] v.enc_fds().add(rf) implies x0.eqv(v.package) && x1.eqv(v.prerequisites) && x2.eqv(v.argv) && d3.rem_bytes() == rb && d3.rem_fds() == rf by {
                assert(d2.rem_bytes() == v.argv.enc().add(rb)) by {
                    assert(((v.argv.enc())).add(rb) =~= v.argv.enc().add(rb));
                }
                assert(d2.rem_fds() == v.argv.enc_fds().add(rf)) by {
                    assert(((v.argv.enc_fds())).add(rf) =~= v.argv.enc_fds().add(rf));
                }
                assert(x2.eqv(v.argv));
                x2.lemma_enc_eqv(v.argv);
                lemma_concat_cancel(
                    x2.enc(),
                    d3.rem_bytes(),
                    v.argv.enc(),
                    rb,
                );
                lemma_concat_cancel(
                    x2.enc_fds(),
                    d3.rem_fds(),
                    v.argv.enc_fds(),
                    rf,
                );
            }
        }
        let w = crate::program::CachedProgram { package: x0, prerequisites: x1, argv: x2 };
        proof {
            assert(d0.rem_bytes() =~= w.enc() + d.rem_bytes());
            assert(d0.rem_fds() =~= w.enc_fds() + d.rem_fds());
        }
        Ok(w)
    }
}

} // verus!

verus! {

impl Object for crate::program::Program {
    open spec fn eqv(self, other: Self) -> bool {
        self.package.eqv(other.package) && self.prerequisites.eqv(other.prerequisites) && self.argv.eqv(other.argv) && self.artifacts_path.eqv(other.artifacts_path)
    }

    open spec fn enc(self) -> Seq<u8> {
        self.package.enc() + (self.prerequisites.enc() + (self.argv.enc() + (self.artifacts_path.enc())))
    }

    open spec fn enc_fds(self) -> Seq<i32> {
        self.package.enc_fds() + (self.prerequisites.enc_fds() + (self.argv.enc_fds() + (self.artifacts_path.enc_fds())))
    }

    proof fn lemma_eqv_refl(self) {
        self.package.lemma_eqv_refl();
        self.prerequisites.lemma_eqv_refl();
        self.argv.lemma_eqv_refl();
        self.artifacts_path.lemma_eqv_refl();
    }

    proof fn lemma_enc_eqv(self, other: Self) {
        self.package.lemma_enc_eqv(other.package);
        self.prerequisites.lemma_enc_eqv(other.prerequisites);
        self.argv.lemma_enc_eqv(other.argv);
        self.artifacts_path.lemma_enc_eqv(other.artifacts_path);
    }

    fn serialize_self(&self, s: &mut Serializer) {
        self.package.serialize_self(s);
        self.prerequisites.serialize_self(s);
        self.argv.serialize_self(s);
        self.artifacts_path.serialize_self(s);
        proof {
            assert(final(s).bytes() =~= old(s).bytes() + self.enc());
            assert(final(s).fd_list() =~= old(s).fd_list() + self.enc_fds());
        }
    }

    #[verifier::rlimit(100)]
    fn deserialize_self(d: &mut Deserializer) -> (r: Result<Self, CodecError>) {
        let ghost d0 = *d;
        let x0 = match String::deserialize_self(d) {
            Ok(x) => x,
            Err(e) => {
                proof {
                    assert forall|v: crate::program::Program, rb: Seq<u8>, rf: Seq<i32>|
                        d0.rem_bytes() == #[trigger] v.enc().add(rb) && d0.rem_fds()
                            == #[trigger] v.enc_fds().add(rf) implies false by {
                assert(d0.rem_bytes() == v.package.enc().add((v.prerequisites.enc() + (v.argv.enc() + (v.artifacts_path.enc()))) + rb)) by {
                    assert(v.enc().add(rb) =~= v.package.enc() + ((v.prerequisites.enc() + (v.argv.enc() + (v.artifacts_path.enc()))) + rb));
                }
                assert(d0.rem_fds() == v.package.enc_fds().add((v.prerequisites.enc_fds() + (v.argv.enc_fds() + (v.artifacts_path.enc_fds()))) + rf)) by {
                    assert(v.enc_fds().add(rf) =~= v.package.enc_fds() + ((v.prerequisites.enc_fds() + (v.argv.enc_fds() + (v.artifacts_path.enc_fds()))) + rf));
                }
                    }
                }
                return Err(e);
            },
        };
        let ghost d1 = *d;
        proof {
            assert forall|v: crate::program::Program, rb: Seq<u8>, rf: Seq<i32>|
                d0.rem_bytes() == #[trigger] v.enc().add(rb) && d0.rem_fds()
                    == #[trigger] v.enc_fds().add(rf) implies x0.eqv(v.package) && d1.rem_bytes() == (v.prerequisites.enc() + (v.argv.enc() + (v.artifacts_path.enc()))).add(rb) && d1.rem_fds() == (v.prerequisites.enc_fds() + (v.argv.enc_fds() + (v.artifacts_path.enc_fds()))).add(rf) by {
                assert(d0.rem_bytes() == v.package.enc().add((v.prerequisites.enc() + (v.argv.enc() + (v.artifacts_path.enc()))) + rb)) by {
                    assert(v.enc().add(rb) =~= v.package.enc() + ((v.prerequisites.enc() + (v.argv.enc() + (v.artifacts_path.enc()))) + rb));
                }
                assert(d0.rem_fds() == v.package.enc_fds().add((v.prerequisites.enc_fds() + (v.argv.enc_fds() + (v.artifacts_path.enc_fds()))) + rf)) by {
                    assert(v.enc_fds().add(rf) =~= v.package.enc_fds() + ((v.prerequisites.enc_fds() + (v.argv.enc_fds() + (v.artifacts_path.enc_fds()))) + rf));
                }
                assert(x0.eqv(v.package));
                x0.lemma_enc_eqv(v.package);
                lemma_concat_cancel(
                    x0.enc(),
                    d1.rem_bytes(),
                    v.package.enc(),
                    (v.prerequisites.enc() + (v.argv.enc() + (v.artifacts_path.enc()))) + rb,
                );
                lemma_concat_cancel(
                    x0.enc_fds(),
                    d1.rem_fds(),
                    v.package.enc_fds(),
                    (v.prerequisites.enc_fds() + (v.argv.enc_fds() + (v.artifacts_path.enc_fds()))) + rf,
                );
            }
        }
        let x1 = match Vec::<String>::deserialize_self(d) {
            Ok(x) => x,
            Err(e) => {
                proof {
                    assert forall|v: crate::program::Program, rb: Seq<u8>, rf: Seq<i32>|
                        d0.rem_bytes() == #[trigger] v.enc().add(rb) && d0.rem_fds()
                            == #[trigger] v.enc_fds().add(rf) implies false by {
                assert(d1.rem_bytes() == v.prerequisites.enc().add((v.argv.enc() + (v.artifacts_path.enc())) + rb)) by {
                    assert(((v.prerequisites.enc() + (v.argv.enc() + (v.artifacts_path.enc())))).add(rb) =~= v.prerequisites.enc() + ((v.argv.enc() + (v.artifacts_path.enc())) + rb));
                }
                assert(d1.rem_fds() == v.prerequisites.enc_fds().add((v.argv.enc_fds() + (v.artifacts_path.enc_fds())) + rf)) by {
                    assert(((v.prerequisites.enc_fds() + (v.argv.enc_fds() + (v.artifacts_path.enc_fds())))).add(rf) =~= v.prerequisites.enc_fds() + ((v.argv.enc_fds() + (v.artifacts_path.enc_fds())) + rf));
                }
                    }
                }
                return Err(e);
            },
        };
        let ghost d2 = *d;
        proof {
            assert forall|v: crate::program::Program, rb: Seq<u8>, rf: Seq<i32>|
                d0.rem_bytes() == #[trigger] v.enc().add(rb) && d0.rem_fds()
                    == #[trigger] v.enc_fds().add(rf) implies x0.eqv(v.package) && x1.eqv(v.prerequisites) && d2.rem_bytes() == (v.argv.enc() + (v.artifacts_path.enc())).add(rb) && d2.rem_fds() == (v.argv.enc_fds() + (v.artifacts_path.enc_fds())).add(rf) by {
                assert(d1.rem_bytes() == v.prerequisites.enc().add((v.argv.enc() + (v.artifacts_path.enc())) + rb)) by {
                    assert(((v.prerequisites.enc() + (v.argv.enc() + (v.artifacts_path.enc())))).add(rb) =~= v.prerequisites.enc() + ((v.argv.enc() + (v.artifacts_path.enc())) + rb));
                }
                assert(d1.rem_fds() == v.prerequisites.enc_fds().add((v.argv.enc_fds() + (v.artifacts_path.enc_fds())) + rf)) by {
                    assert(((v.prerequisites.enc_fds() + (v.argv.enc_fds() + (v.artifacts_path.enc_fds())))).add(rf) =~= v.prerequisites.enc_fds() + ((v.argv.enc_fds() + (v.artifacts_path.enc_fds())) + rf));
                }
                assert(x1.eqv(v.prerequisites));
                x1.lemma_enc_eqv(v.prerequisites);
                lemma_concat_cancel(
                    x1.enc(),
                    d2.rem_bytes(),
                    v.prerequisites.enc(),
                    (v.argv.enc() + (v.artifacts_path.enc())) + rb,
                );
                lemma_concat_cancel(
                    x1.enc_fds(),
                    d2.rem_fds(),
                    v.prerequisites.enc_fds(),
                    (v.argv.enc_fds() + (v.artifacts_path.enc_fds())) + rf,
                );
            }
        }
        let x2 = match Vec::<String>::deserialize_self(d) {
            Ok(x) => x,
            Err(e) => {
                proof {
                    assert forall|v: crate::program::Program, rb: Seq<u8>, rf: Seq<i32>|
                        d0.rem_bytes() == #[trigger] v.enc().add(rb) && d0.rem_fds()
                            == #[trigger] v.enc_fds().add(rf) implies false by {
                assert(d2.rem_bytes() == v.argv.enc().add((v.artifacts_path.enc()) + rb)) by {
                    assert(((v.argv.enc() + (v.artifacts_path.enc()))).add(rb) =~= v.argv.enc() + ((v.artifacts_path.enc()) + rb));
                }
                assert(d2.rem_fds() == v.argv.enc_fds().add((v.artifacts_path.enc_fds()) + rf)) by {
                    assert(((v.argv.enc_fds() + (v.artifacts_path.enc_fds()))).add(rf) =~= v.argv.enc_fds() + ((v.artifacts_path.enc_fds()) + rf));
                }
                    }
                }
                return Err(e);
            },
        };
        let ghost d3 = *d;
        proof {
            assert forall|v: crate::program::Program, rb: Seq<u8>, rf: Seq<i32>|
                d0.rem_bytes() == #[trigger] v.enc().add(rb) && d0.rem_fds()
                    == #[trigger] v.enc_fds().add(rf) implies x0.eqv(v.package) && x1.eqv(v.prerequisites) && x2.eqv(v.argv) && d3.rem_bytes() == (v.artifacts_path.enc()).add(rb) && d3.rem_fds() == (v.artifacts_path.enc_fds()).add(rf) by {
                assert(d2.rem_bytes() == v.argv.enc().add((v.artifacts_path.enc()) + rb)) by {
                    assert(((v.argv.enc() + (v.artifacts_path.enc()))).add(rb) =~= v.argv.enc() + ((v.artifacts_path.enc()) + rb));
                }
                assert(d2.rem_fds() == v.argv.enc_fds().add((v.artifacts_path.enc_fds()) + rf)) by {
                    assert(((v.argv.enc_fds() + (v.artifacts_path.enc_fds()))).add(rf) =~= v.argv.enc_fds() + ((v.artifacts_path.enc_fds()) + rf));
                }
                assert(x2.eqv(v.argv));
                x2.lemma_enc_eqv(v.argv);
                lemma_concat_cancel(
                    x2.enc(),
                    d3.rem_bytes(),
                    v.argv.enc(),
                    (v.artifacts_path.enc()) + rb,
                );
                lemma_concat_cancel(
                    x2.enc_fds(),
                    d3.rem_fds(),
                    v.argv.enc_fds(),
                    (v.artifacts_path.enc_fds()) + rf,
                );
            }
        }
        let x3 = match String::deserialize_self(d) {
            Ok(x) => x,
            Err(e) => {
                proof {
                    assert forall|v: crate::program::Program, rb: Seq<u8>, rf: Seq<i32>|
                        d0.rem_bytes() == #[trigger] v.enc().add(rb) && d0.rem_fds()
                            == #[trigger] v.enc_fds().add(rf) implies false by {
                assert(d3.rem_bytes() == v.artifacts_path.enc().add(rb)) by {
                    assert(((v.artifacts_path.enc())).add(rb) =~= v.artifacts_path.enc().add(rb));
                }
                assert(d3.rem_fds() == v.artifacts_path.enc_fds().add(rf)) by {
                    assert(((v.artifacts_path.enc_fds())).add(rf) =~= v.artifacts_path.enc_fds().add(rf));
                }
                    }
                }
                return Err(e);
            },
        };
        let ghost d4 = *d;
        proof {
            assert forall|v: crate::program::Program, rb: Seq<u8>, rf: Seq<i32>|
                d0.rem_bytes() == #[trigger] v.enc().add(rb) && d0.rem_fds()
                    == #[trigger] v.enc_fds().add(rf) implies x0.eqv(v.package) && x1.eqv(v.prerequisites) && x2.eqv(v.argv) && x3.eqv(v.artifacts_path) && d4.rem_bytes() == rb && d4.rem_fds() == rf by {
                assert(d3.rem_bytes() == v.artifacts_path.enc().add(rb)) by {
                    assert(((v.artifacts_path.enc())).add(rb) =~= v.artifacts_path.enc().add(rb));
                }
                assert(d3.rem_fds() == v.artifacts_path.enc_fds().add(rf)) by {
                    assert(((v.artifacts_path.enc_fds())).add(rf) =~= v.artifacts_path.enc_fds().add(rf));
                }
                assert(x3.eqv(v.artifacts_path));
                x3.lemma_enc_eqv(v.artifacts_path);
                lemma_concat_cancel(
                    x3.enc(),
                    d4.rem_bytes(),
                    v.artifacts_path.enc(),
                    rb,
                );
                lemma_concat_cancel(
                    x3.enc_fds(),
                    d4.rem_fds(),
                    v.artifacts_path.enc_fds(),
                    rf,
                );
            }
        }
        let w = crate::program::Program { package: x0, prerequisites: x1, argv: x2, artifacts_path: x3 };
        proof {
            assert(d0.rem_bytes() =~= w.enc() + d.rem_bytes());
            assert(d0.rem_fds() =~= w.enc_fds() + d.rem_fds());
        }
        Ok(w)
    }
}

} // verus!

verus! {

impl Object for crate::problem::DependencyGraph {
    open spec fn eqv(self, other: Self) -> bool {
        self.dependents_of.eqv(other.dependents_of)
    }

    open spec fn enc(self) -> Seq<u8> {
        self.dependents_of.enc()
    }

    open spec fn enc_fds(self) -> Seq<i32> {
        self.dependents_of.enc_fds()
    }

    proof fn lemma_eqv_refl(self) {
        self.dependents_of.lemma_eqv_refl();
    }

    proof fn lemma_enc_eqv(self, other: Self) {
        self.dependents_of.lemma_enc_eqv(other.dependents_of);
    }

    fn serialize_self(&self, s: &mut Serializer) {
        self.dependents_of.serialize_self(s);
        proof {
            assert(final(s).bytes() =~= old(s).bytes() + self.enc());
            assert(final(s).fd_list() =~= old(s).fd_list() + self.enc_fds());
        }
    }

    fn deserialize_self(d: &mut Deserializer) -> (r: Result<Self, CodecError>) {
        let ghost d0 = *d;
        let x0 = match Vec::<(u64, Vec<u64>)>::deserialize_self(d) {
            Ok(x) => x,
            Err(e) => {
                proof {
                    assert forall|v: crate::problem::DependencyGraph, rb: Seq<u8>, rf: Seq<i32>|
                        d0.rem_bytes() == #[trigger] v.enc().add(rb) && d0.rem_fds()
                            == #[trigger] v.enc_fds().add(rf) implies false by {
                assert(d0.rem_bytes() == v.dependents_of.enc().add(rb));
                assert(d0.rem_fds() == v.dependents_of.enc_fds().add(rf));
                    }
                }
                return Err(e);
            },
        };
        let ghost d1 = *d;
        proof {
            assert forall|v: crate::problem::DependencyGraph, rb: Seq<u8>, rf: Seq<i32>|
                d0.rem_bytes() == #[trigger] v.enc().add(rb) && d0.rem_fds()
                    == #[trigger] v.enc_fds().add(rf) implies x0.eqv(v.dependents_of) && d1.rem_bytes() == rb && d1.rem_fds() == rf by {
                assert(d0.rem_bytes() == v.dependents_of.enc().add(rb));
                assert(d0.rem_fds() == v.dependents_of.enc_fds().add(rf));
                assert(x0.eqv(v.dependents_of));
                x0.lemma_enc_eqv(v.dependents_of);
                lemma_concat_cancel(
                    x0.enc(),
                    d1.rem_bytes(),
                    v.dependents_of.enc(),
                    rb,
                );
                lemma_concat_cancel(
                    x0.enc_fds(),
                    d1.rem_fds(),
                    v.dependents_of.enc_fds(),
                    rf,
                );
            }
        }
        let w = crate::problem::DependencyGraph { dependents_of: x0 };
        proof {
            assert(d0.rem_bytes() =~= w.enc() + d.rem_bytes());
            assert(d0.rem_fds() =~= w.enc_fds() + d.rem_fds());
        }
        Ok(w)
    }
}

} // verus!

verus! {

impl Object for crate::problem::InstantiatedDependencyGraph {
    open spec fn eqv(self, other: Self) -> bool {
        self.graph.eqv(other.graph) && self.disabled_tests.eqv(other.disabled_tests)
    }

    open spec fn enc(self) -> Seq<u8> {
        self.graph.enc() + (self.disabled_tests.enc())
    }

    open spec fn enc_fds(self) -> Seq<i32> {
        self.graph.enc_fds() + (self.disabled_tests.enc_fds())
    }

    proof fn lemma_eqv_refl(self) {
        self.graph.lemma_eqv_refl();
        self.disabled_tests.lemma_eqv_refl();
    }

    proof fn lemma_enc_eqv(self, other: Self) {
        self.graph.lemma_enc_eqv(other.graph);
        self.disabled_tests.lemma_enc_eqv(other.disabled_tests);
    }

    fn serialize_self(&self, s: &mut Serializer) {
        self.graph.serialize_self(s);
        self.disabled_tests.serialize_self(s);
        proof {
            assert(final(s).bytes() =~= old(s).bytes() + self.enc());
            assert(final(s).fd_list() =~= old(s).fd_list() + self.enc_fds());
        }
    }

    #[verifier::rlimit(100)]
    fn deserialize_self(d: &mut Deserializer) -> (r: Result<Self, CodecError>) {
        let ghost d0 = *d;
        let x0 = match crate::problem::DependencyGraph::deserialize_self(d) {
            Ok(x) => x,
            Err(e) => {
                proof {
                    assert forall|v: crate::problem::InstantiatedDependencyGraph, rb: Seq<u8>, rf: Seq<i32>|
                        d0.rem_bytes() == #[trigger] v.enc().add(rb) && d0.rem_fds()
                            == #[trigger] v.enc_fds().add(rf) implies false by {
                assert(d0.rem_bytes() == v.graph.enc().add((v.disabled_tests.enc()) + rb)) by {
                    assert(v.enc().add(rb) =~= v.graph.enc() + ((v.disabled_tests.enc()) + rb));
                }
                assert(d0.rem_fds() == v.graph.enc_fds().add((v.disabled_tests.enc_fds()) + rf)) by {
                    assert(v.enc_fds().add(rf) =~= v.graph.enc_fds() + ((v.disabled_tests.enc_fds()) + rf));
                }
                    }
                }
                return Err(e);
            },
        };
        let ghost d1 = *d;
        proof {
            assert forall|v: crate::problem::InstantiatedDependencyGraph, rb: Seq<u8>, rf: Seq<i32>|
                d0.rem_bytes() == #[trigger] v.enc().add(rb) && d0.rem_fds()
                    == #[trigger] v.enc_fds().add(rf) implies x0.eqv(v.graph) && d1.rem_bytes() == (v.disabled_tests.enc()).add(rb) && d1.rem_fds() == (v.disabled_tests.enc_fds()).add(rf) by {
                assert(d0.rem_bytes() == v.graph.enc().add((v.disabled_tests.enc()) + rb)) by {
                    assert(v.enc().add(rb) =~= v.graph.enc() + ((v.disabled_tests.enc()) + rb));
                }
                assert(d0.rem_fds() == v.graph.enc_fds().add((v.disabled_tests.enc_fds()) + rf)) by {
                    assert(v.enc_fds().add(rf) =~= v.graph.enc_fds() + ((v.disabled_tests.enc_fds()) + rf));
                }
                assert(x0.eqv(v.graph));
                x0.lemma_enc_eqv(v.graph);
                lemma_concat_cancel(
                    x0.enc(),
                    d1.rem_bytes(),
                    v.graph.enc(),
                    (v.disabled_tests.enc()) + rb,
                );
                lemma_concat_cancel(
                    x0.enc_fds(),
                    d1.rem_fds(),
                    v.graph.enc_fds(),
                    (v.disabled_tests.enc_fds()) + rf,
                );
            }
        }
        let x1 = match Vec::<u64>::deserialize_self(d) {
            Ok(x) => x,
            Err(e) => {
                proof {
                    assert forall|v: crate::problem::InstantiatedDependencyGraph, rb: Seq<u8>, rf: Seq<i32>|
                        d0.rem_bytes() == #[trigger] v.enc().add(rb) && d0.rem_fds()
                            == #[trigger] v.enc_fds().add(rf) implies false by {
                assert(d1.rem_bytes() == v.disabled_tests.enc().add(rb)) by {
                    assert(((v.disabled_tests.enc())).add(rb) =~= v.disabled_tests.enc().add(rb));
                }
                assert(d1.rem_fds() == v.disabled_tests.enc_fds().add(rf)) by {
                    assert(((v.disabled_tests.enc_fds())).add(rf) =~= v.disabled_tests.enc_fds().add(rf));
                }
                    }
                }
                return Err(e);
            },
        };
        let ghost d2 = *d;
        proof {
            assert forall|v: crate::problem::InstantiatedDependencyGraph, rb: Seq<u8>, rf: Seq<i32>|
                d0.rem_bytes() == #[trigger] v.enc().add(rb) && d0.rem_fds()
                    == #[trigger] v.enc_fds().add(rf) implies x0.eqv(v.graph) && x1.eqv(v.disabled_tests) && d2.rem_bytes() == rb && d2.rem_fds() == rf by {
                assert(d1.rem_bytes() == v.disabled_tests.enc().add(rb)) by {
                    assert(((v.disabled_tests.enc())).add(rb) =~= v.disabled_tests.enc().add(rb));
                }
                assert(d1.rem_fds() == v.disabled_tests.enc_fds().add(rf)) by {
                    assert(((v.disabled_tests.enc_fds())).add(rf) =~= v.disabled_tests.enc_fds().add(rf));
                }
                assert(x1.eqv(v.disabled_tests));
                x1.lemma_enc_eqv(v.disabled_tests);
                lemma_concat_cancel(
                    x1.enc(),
                    d2.rem_bytes(),
                    v.disabled_tests.enc(),
                    rb,
                );
                lemma_concat_cancel(
                    x1.enc_fds(),
                    d2.rem_fds(),
                    v.disabled_tests.enc_fds(),
                    rf,
                );
            }
        }
        let w = crate::problem::InstantiatedDependencyGraph { graph: x0, disabled_tests: x1 };
        proof {
            assert(d0.rem_bytes() =~= w.enc() + d.rem_bytes());
            assert(d0.rem_fds() =~= w.enc_fds() + d.rem_fds());
        }
        Ok(w)
    }
}

} // verus!

verus! {

impl Object for crate::verdict::TestJudgementResult {
    open spec fn eqv(self, other: Self) -> bool {
        self.verdict.eqv(other.verdict) && self.logs.eqv(other.logs) && self.invocation_stats.eqv(other.invocation_stats)
    }

    open spec fn enc(self) -> Seq<u8> {
        self.verdict.enc() + (self.logs.enc() + (self.invocation_stats.enc()))
    }

    open spec fn enc_fds(self) -> Seq<i32> {
        self.verdict.enc_fds() + (self.logs.enc_fds() + (self.invocation_stats.enc_fds()))
    }

    proof fn lemma_eqv_refl(self) {
        self.verdict.lemma_eqv_refl();
        self.logs.lemma_eqv_refl();
        self.invocation_stats.lemma_eqv_refl();
    }

    proof fn lemma_enc_eqv(self, other: Self) {
        self.verdict.lemma_enc_eqv(other.verdict);
        self.logs.lemma_enc_eqv(other.logs);
        self.invocation_stats.lemma_enc_eqv(other.invocation_stats);
    }

    fn serialize_self(&self, s: &mut Serializer) {
        self.verdict.serialize_self(s);
        self.logs.serialize_self(s);
        self.invocation_stats.serialize_self(s);
        proof {
            assert(final(s).bytes() =~= old(s).bytes() + self.enc());
            assert(final(s).fd_list() =~= old(s).fd_list() + self.enc_fds());
        }
    }

    #[verifier::rlimit(100)]
    fn deserialize_self(d: &mut Deserializer) -> (r: Result<Self, CodecError>) {
        let ghost d0 = *d;
        let x0 = match crate::verdict::TestVerdict::deserialize_self(d) {
            Ok(x) => x,
            Err(e) => {
                proof {
                    assert forall|v: crate::verdict::TestJudgementResult, rb: Seq<u8>, rf: Seq<i32>|
                        d0.rem_bytes() == #[trigger] v.enc().add(rb) && d0.rem_fds()
                            == #[trigger] v.enc_fds().add(rf) implies false by {
                assert(d0.rem_bytes() == v.verdict.enc().add((v.logs.enc() + (v.invocation_stats.enc())) + rb)) by {
                    assert(v.enc().add(rb) =~= v.verdict.enc() + ((v.logs.enc() + (v.invocation_stats.enc())) + rb));
                }
                assert(d0.rem_fds() == v.verdict.enc_fds().add((v.logs.enc_fds() + (v.invocation_stats.enc_fds())) + rf)) by {
                    assert(v.enc_fds().add(rf) =~= v.verdict.enc_fds() + ((v.logs.enc_fds() + (v.invocation_stats.enc_fds())) + rf));
                }
                    }
                }
                return Err(e);
            },
        };
        let ghost d1 = *d;
        proof {
            assert forall|v: crate::verdict::TestJudgementResult, rb: Seq<u8>, rf: Seq<i32>|
                d0.rem_bytes() == #[trigger] v.enc().add(rb) && d0.rem_fds()
                    == #[trigger] v.enc_fds().add(rf) implies x0.eqv(v.verdict) && d1.rem_bytes() == (v.logs.enc() + (v.invocation_stats.enc())).add(rb) && d1.rem_fds() == (v.logs.enc_fds() + (v.invocation_stats.enc_fds())).add(rf) by {
                assert(d0.rem_bytes() == v.verdict.enc().add((v.logs.enc() + (v.invocation_stats.enc())) + rb)) by {
                    assert(v.enc().add(rb) =~= v.verdict.enc() + ((v.logs.enc() + (v.invocation_stats.enc())) + rb));
                }
                assert(d0.rem_fds() == v.verdict.enc_fds().add((v.logs.enc_fds() + (v.invocation_stats.enc_fds())) + rf)) by {
                    assert(v.enc_fds().add(rf) =~= v.verdict.enc_fds() + ((v.logs.enc_fds() + (v.invocation_stats.enc_fds())) + rf));
                }
                assert(x0.eqv(v.verdict));
                x0.lemma_enc_eqv(v.verdict);
                lemma_concat_cancel(
                    x0.enc(),
                    d1.rem_bytes(),
                    v.verdict.enc(),
                    (v.logs.enc() + (v.invocation_stats.enc())) + rb,
                );
                lemma_concat_cancel(
                    x0.enc_fds(),
                    d1.rem_fds(),
                    v.verdict.enc_fds(),
                    (v.logs.enc_fds() + (v.invocation_stats.enc_fds())) + rf,
                );
            }
        }
        let x1 = match Vec::<(String, Vec<u8>)>::deserialize_self(d) {
            Ok(x) => x,
            Err(e) => {
                proof {
                    assert forall|v: crate::verdict::TestJudgementResult, rb: Seq<u8>, rf: Seq<i32>|
                        d0.rem_bytes() == #[trigger] v.enc().add(rb) && d0.rem_fds()
                            == #[trigger] v.enc_fds().add(rf) implies false by {
                assert(d1.rem_bytes() == v.logs.enc().add((v.invocation_stats.enc()) + rb)) by {
                    assert(((v.logs.enc() + (v.invocation_stats.enc()))).add(rb) =~= v.logs.enc() + ((v.invocation_stats.enc()) + rb));
                }
                assert(d1.rem_fds() == v.logs.enc_fds().add((v.invocation_stats.enc_fds()) + rf)) by {
                    assert(((v.logs.enc_fds() + (v.invocation_stats.enc_fds()))).add(rf) =~= v.logs.enc_fds() + ((v.invocation_stats.enc_fds()) + rf));
                }
                    }
                }
                return Err(e);
            },
        };
        let ghost d2 = *d;
        proof {
            assert forall|v: crate::verdict::TestJudgementResult, rb: Seq<u8>, rf: Seq<i32>|
                d0.rem_bytes() == #[trigger] v.enc().add(rb) && d0.rem_fds()
                    == #[trigger] v.enc_fds().add(rf) implies x0.eqv(v.verdict) && x1.eqv(v.logs) && d2.rem_bytes() == (v.invocation_stats.enc()).add(rb) && d2.rem_fds() == (v.invocation_stats.enc_fds()).add(rf) by {
                assert(d1.rem_bytes() == v.logs.enc().add((v.invocation_stats.enc()) + rb)) by {
                    assert(((v.logs.enc() + (v.invocation_stats.enc()))).add(rb) =~= v.logs.enc() + ((v.invocation_stats.enc()) + rb));
                }
                assert(d1.rem_fds() == v.logs.enc_fds().add((v.invocation_stats.enc_fds()) + rf)) by {
                    assert(((v.logs.enc_fds() + (v.invocation_stats.enc_fds()))).add(rf) =~= v.logs.enc_fds() + ((v.invocation_stats.enc_fds()) + rf));
                }
                assert(x1.eqv(v.logs));
                x1.lemma_enc_eqv(v.logs);
                lemma_concat_cancel(
                    x1.enc(),
                    d2.rem_bytes(),
                    v.logs.enc(),
                    (v.invocation_stats.enc()) + rb,
                );
                lemma_concat_cancel(
                    x1.enc_fds(),
                    d2.rem_fds(),
                    v.logs.enc_fds(),
                    (v.invocation_stats.enc_fds()) + rf,
                );
            }
        }
        let x2 = match Vec::<(String, crate::verdict::InvocationStat)>::deserialize_self(d) {
            Ok(x) => x,
            Err(e) => {
                proof {
                    assert forall|v: crate::verdict::TestJudgementResult, rb: Seq<u8>, rf: Seq<i32>|
                        d0.rem_bytes() == #[trigger] v.enc().add(rb) && d0.rem_fds()
                            == #[trigger] v.enc_fds().add(rf) implies false by {
                assert(d2.rem_bytes() == v.invocation_stats.enc().add(rb)) by {
                    assert(((v.invocation_stats.enc())).add(rb) =~= v.invocation_stats.enc().add(rb));
                }
                assert(d2.rem_fds() == v.invocation_stats.enc_fds().add(rf)) by {
                    assert(((v.invocation_stats.enc_fds())).add(rf) =~= v.invocation_stats.enc_fds().add(rf));
                }
                    }
                }
                return Err(e);
            },
        };
        let ghost d3 = *d;
        proof {
            assert forall|v: crate::verdict::TestJudgementResult, rb: Seq<u8>, rf: Seq<i32>|
                d0.rem_bytes() == #[trigger] v.enc().add(rb) && d0.rem_fds()
                    == #[trigger] v.enc_fds().add(rf) implies x0.eqv(v.verdict) && x1.eqv(v.logs) && x2.eqv(v.invocation_stats) && d3.rem_bytes() == rb && d3.rem_fds() == rf by {
                assert(d2.rem_bytes() == v.invocation_stats.enc().add(rb)) by {
                    assert(((v.invocation_stats.enc())).add(rb) =~= v.invocation_stats.enc().add(rb));
                }
                assert(d2.rem_fds() == v.invocation_stats.enc_fds().add(rf)) by {
                    assert(((v.invocation_stats.enc_fds())).add(rf) =~= v.invocation_stats.enc_fds().add(rf));
                }
                assert(x2.eqv(v.invocation_stats));
                x2.lemma_enc_eqv(v.invocation_stats);
                lemma_concat_cancel(
                    x2.enc(),
                    d3.rem_bytes(),
                    v.invocation_stats.enc(),
                    rb,
                );
                lemma_concat_cancel(
                    x2.enc_fds(),
                    d3.rem_fds(),
                    v.invocation_stats.enc_fds(),
                    rf,
                );
            }
        }
        let w = crate::verdict::TestJudgementResult { verdict: x0, logs: x1, invocation_stats: x2 };
        proof {
            assert(d0.rem_bytes() =~= w.enc() + d.rem_bytes());
            assert(d0.rem_fds() =~= w.enc_fds() + d.rem_fds());
        }
        Ok(w)
    }
}

} // verus!

verus! {

impl Object for crate::errors::Error {
    open spec fn eqv(self, other: Self) -> bool {
        match (self, other) {
            (crate::errors::Error::Codec(a), crate::errors::Error::Codec(b)) => a@ == b@,
            (crate::errors::Error::Channel(a), crate::errors::Error::Channel(b)) => a@ == b@,
            (crate::errors::Error::SandboxSetup(a), crate::errors::Error::SandboxSetup(b)) => a@ == b@,
            (crate::errors::Error::ChildFailed(a), crate::errors::Error::ChildFailed(b)) => a@ == b@,
            (crate::errors::Error::NoValue, crate::errors::Error::NoValue) => true,
            (crate::errors::Error::ConfigurationFailure(a), crate::errors::Error::ConfigurationFailure(b)) => a@ == b@,
            (crate::errors::Error::InvokerFailure(a), crate::errors::Error::InvokerFailure(b)) => a@ == b@,
            (crate::errors::Error::ConductorFailure(a), crate::errors::Error::ConductorFailure(b)) => a@ == b@,
            _ => false,
        }
    }

    open spec fn enc(self) -> Seq<u8> {
        match self {
            crate::errors::Error::Codec(p) => u64_le(0) + p.enc(),
            crate::errors::Error::Channel(p) => u64_le(1) + p.enc(),
            crate::errors::Error::SandboxSetup(p) => u64_le(2) + p.enc(),
            crate::errors::Error::ChildFailed(p) => u64_le(3) + p.enc(),
            crate::errors::Error::NoValue => u64_le(4),
            crate::errors::Error::ConfigurationFailure(p) => u64_le(5) + p.enc(),
            crate::errors::Error::InvokerFailure(p) => u64_le(6) + p.enc(),
            crate::errors::Error::ConductorFailure(p) => u64_le(7) + p.enc(),
        }
    }

    open spec fn enc_fds(self) -> Seq<i32> {
        match self {
            crate::errors::Error::Codec(p) => p.enc_fds(),
            crate::errors::Error::Channel(p) => p.enc_fds(),
            crate::errors::Error::SandboxSetup(p) => p.enc_fds(),
            crate::errors::Error::ChildFailed(p) => p.enc_fds(),
            crate::errors::Error::NoValue => Seq::<i32>::empty(),
            crate::errors::Error::ConfigurationFailure(p) => p.enc_fds(),
            crate::errors::Error::InvokerFailure(p) => p.enc_fds(),
            crate::errors::Error::ConductorFailure(p) => p.enc_fds(),
        }
    }

    proof fn lemma_eqv_refl(self) {
    }

    proof fn lemma_enc_eqv(self, other: Self) {
        match (self, other) {
            (crate::errors::Error::Codec(a), crate::errors::Error::Codec(b)) => {
                assert(a.enc() == b.enc());
            },
            (crate::errors::Error::Channel(a), crate::errors::Error::Channel(b)) => {
                assert(a.enc() == b.enc());
            },
            (crate::errors::Error::SandboxSetup(a), crate::errors::Error::SandboxSetup(b)) => {
                assert(a.enc() == b.enc());
            },
            (crate::errors::Error::ChildFailed(a), crate::errors::Error::ChildFailed(b)) => {
                assert(a.enc() == b.enc());
            },
            (crate::errors::Error::ConfigurationFailure(a), crate::errors::Error::ConfigurationFailure(b)) => {
                assert(a.enc() == b.enc());
            },
            (crate::errors::Error::InvokerFailure(a), crate::errors::Error::InvokerFailure(b)) => {
                assert(a.enc() == b.enc());
            },
            (crate::errors::Error::ConductorFailure(a), crate::errors::Error::ConductorFailure(b)) => {
                assert(a.enc() == b.enc());
            },
            _ => {},
        }
    }

    fn serialize_self(&self, s: &mut Serializer) {
        match self {
            crate::errors::Error::Codec(p) => {
                s.write_u64(0);
                p.serialize_self(s);
            },
            crate::errors::Error::Channel(p) => {
                s.write_u64(1);
                p.serialize_self(s);
            },
            crate::errors::Error::SandboxSetup(p) => {
                s.write_u64(2);
                p.serialize_self(s);
            },
            crate::errors::Error::ChildFailed(p) => {
                s.write_u64(3);
                p.serialize_self(s);
            },
            crate::errors::Error::NoValue => {
                s.write_u64(4);
            },
            crate::errors::Error::ConfigurationFailure(p) => {
                s.write_u64(5);
                p.serialize_self(s);
            },
            crate::errors::Error::InvokerFailure(p) => {
                s.write_u64(6);
                p.serialize_self(s);
            },
            crate::errors::Error::ConductorFailure(p) => {
                s.write_u64(7);
                p.serialize_self(s);
            },
        }
        proof {
            assert(final(s).bytes() =~= old(s).bytes() + self.enc());
            assert(final(s).fd_list() =~= old(s).fd_list() + self.enc_fds());
        }
    }

    #[verifier::rlimit(100)]
    fn deserialize_self(d: &mut Deserializer) -> (r: Result<Self, CodecError>) {
        let ghost d0 = *d;
        proof {
            lemma_u64_le_len(0);
            lemma_u64_le_len(1);
            lemma_u64_le_len(2);
            lemma_u64_le_len(3);
            lemma_u64_le_len(4);
            lemma_u64_le_len(5);
            lemma_u64_le_len(6);
            lemma_u64_le_len(7);
        }
        let idx = match d.read_u64() {
            Ok(idx) => idx,
            Err(e) => {
                proof {
                    assert forall|v: crate::errors::Error, rb: Seq<u8>, rf: Seq<i32>|
                        d0.rem_bytes() == #[trigger] v.enc().add(rb) && d0.rem_fds()
                            == #[trigger] v.enc_fds().add(rf) implies false by {
                        assert(d0.rem_bytes().len() >= 8);
                    }
                }
                return Err(e);
            },
        };
        let ghost d1 = *d;
        proof {
            lemma_u64_le_len(idx);
            assert forall|v: crate::errors::Error, rb: Seq<u8>, rf: Seq<i32>|
                d0.rem_bytes() == #[trigger] v.enc().add(rb) && d0.rem_fds()
                    == #[trigger] v.enc_fds().add(rf) implies (match v {
                crate::errors::Error::Codec(pv) => idx == 0 && d1.rem_bytes() == pv.enc().add(rb)
                    && d1.rem_fds() == pv.enc_fds().add(rf),
                crate::errors::Error::Channel(pv) => idx == 1 && d1.rem_bytes() == pv.enc().add(rb)
                    && d1.rem_fds() == pv.enc_fds().add(rf),
                crate::errors::Error::SandboxSetup(pv) => idx == 2 && d1.rem_bytes() == pv.enc().add(rb)
                    && d1.rem_fds() == pv.enc_fds().add(rf),
                crate::errors::Error::ChildFailed(pv) => idx == 3 && d1.rem_bytes() == pv.enc().add(rb)
                    && d1.rem_fds() == pv.enc_fds().add(rf),
                crate::errors::Error::NoValue => idx == 4 && d1.rem_bytes() == rb && d1.rem_fds() == rf,
                crate::errors::Error::ConfigurationFailure(pv) => idx == 5 && d1.rem_bytes() == pv.enc().add(rb)
                    && d1.rem_fds() == pv.enc_fds().add(rf),
                crate::errors::Error::InvokerFailure(pv) => idx == 6 && d1.rem_bytes() == pv.enc().add(rb)
                    && d1.rem_fds() == pv.enc_fds().add(rf),
                crate::errors::Error::ConductorFailure(pv) => idx == 7 && d1.rem_bytes() == pv.enc().add(rb)
                    && d1.rem_fds() == pv.enc_fds().add(rf),
            }) by {
                match v {
                    crate::errors::Error::Codec(pv) => {
                        assert(v.enc().add(rb) =~= u64_le(0) + (pv.enc() + rb));
                        lemma_concat_cancel(u64_le(idx), d1.rem_bytes(), u64_le(0), pv.enc() + rb);
                        lemma_u64_le_injective(idx, 0);
                        assert(d1.rem_bytes() =~= pv.enc().add(rb));
                        assert(d1.rem_fds() =~= pv.enc_fds().add(rf));
                    },
                    crate::errors::Error::Channel(pv) => {
                        assert(v.enc().add(rb) =~= u64_le(1) + (pv.enc() + rb));
                        lemma_concat_cancel(u64_le(idx), d1.rem_bytes(), u64_le(1), pv.enc() + rb);
                        lemma_u64_le_injective(idx, 1);
                        assert(d1.rem_bytes() =~= pv.enc().add(rb));
                        assert(d1.rem_fds() =~= pv.enc_fds().add(rf));
                    },
                    crate::errors::Error::SandboxSetup(pv) => {
                        assert(v.enc().add(rb) =~= u64_le(2) + (pv.enc() + rb));
                        lemma_concat_cancel(u64_le(idx), d1.rem_bytes(), u64_le(2), pv.enc() + rb);
                        lemma_u64_le_injective(idx, 2);
                        assert(d1.rem_bytes() =~= pv.enc().add(rb));
                        assert(d1.rem_fds() =~= pv.enc_fds().add(rf));
                    },
                    crate::errors::Error::ChildFailed(pv) => {
                        assert(v.enc().add(rb) =~= u64_le(3) + (pv.enc() + rb));
                        lemma_concat_cancel(u64_le(idx), d1.rem_bytes(), u64_le(3), pv.enc() + rb);
                        lemma_u64_le_injective(idx, 3);
                        assert(d1.rem_bytes() =~= pv.enc().add(rb));
                        assert(d1.rem_fds() =~= pv.enc_fds().add(rf));
                    },
                    crate::errors::Error::NoValue => {
                        assert(v.enc().add(rb) =~= u64_le(4) + rb);
                        lemma_concat_cancel(u64_le(idx), d1.rem_bytes(), u64_le(4), rb);
                        lemma_u64_le_injective(idx, 4);
                        assert(d1.rem_fds() =~= rf);
                    },
                    crate::errors::Error::ConfigurationFailure(pv) => {
                        assert(v.enc().add(rb) =~= u64_le(5) + (pv.enc() + rb));
                        lemma_concat_cancel(u64_le(idx), d1.rem_bytes(), u64_le(5), pv.enc() + rb);
                        lemma_u64_le_injective(idx, 5);
                        assert(d1.rem_bytes() =~= pv.enc().add(rb));
                        assert(d1.rem_fds() =~= pv.enc_fds().add(rf));
                    },
                    crate::errors::Error::InvokerFailure(pv) => {
                        assert(v.enc().add(rb) =~= u64_le(6) + (pv.enc() + rb));
                        lemma_concat_cancel(u64_le(idx), d1.rem_bytes(), u64_le(6), pv.enc() + rb);
                        lemma_u64_le_injective(idx, 6);
                        assert(d1.rem_bytes() =~= pv.enc().add(rb));
                        assert(d1.rem_fds() =~= pv.enc_fds().add(rf));
                    },
                    crate::errors::Error::ConductorFailure(pv) => {
                        assert(v.enc().add(rb) =~= u64_le(7) + (pv.enc() + rb));
                        lemma_concat_cancel(u64_le(idx), d1.rem_bytes(), u64_le(7), pv.enc() + rb);
                        lemma_u64_le_injective(idx, 7);
                        assert(d1.rem_bytes() =~= pv.enc().add(rb));
                        assert(d1.rem_fds() =~= pv.enc_fds().add(rf));
                    },
                }
            }
        }
        if idx == 0 {
            match String::deserialize_self(d) {
                Ok(p) => {
                    let w = crate::errors::Error::Codec(p);
                    proof {
                        assert(d0.rem_bytes() =~= w.enc() + d.rem_bytes());
                        assert(d0.rem_fds() =~= w.enc_fds() + d.rem_fds());
                        assert forall|v: crate::errors::Error, rb: Seq<u8>, rf: Seq<i32>|
                            d0.rem_bytes() == #[trigger] v.enc().add(rb) && d0.rem_fds()
                                == #[trigger] v.enc_fds().add(rf) implies w.eqv(v) by {
                            assert(v is Codec);
                            let pv = v->Codec_0;
                            assert(d1.rem_bytes() == pv.enc().add(rb));
                            assert(d1.rem_fds() == pv.enc_fds().add(rf));
                        }
                    }
                    Ok(w)
                },
                Err(e) => {
                    proof {
                        assert forall|v: crate::errors::Error, rb: Seq<u8>, rf: Seq<i32>|
                            d0.rem_bytes() == #[trigger] v.enc().add(rb) && d0.rem_fds()
                                == #[trigger] v.enc_fds().add(rf) implies false by {
                            assert(v is Codec);
                            let pv = v->Codec_0;
                            assert(d1.rem_bytes() == pv.enc().add(rb));
                            assert(d1.rem_fds() == pv.enc_fds().add(rf));
                        }
                    }
                    Err(e)
                },
            }
        }
        else if idx == 1 {
            match String::deserialize_self(d) {
                Ok(p) => {
                    let w = crate::errors::Error::Channel(p);
                    proof {
                        assert(d0.rem_bytes() =~= w.enc() + d.rem_bytes());
                        assert(d0.rem_fds() =~= w.enc_fds() + d.rem_fds());
                        assert forall|v: crate::errors::Error, rb: Seq<u8>, rf: Seq<i32>|
                            d0.rem_bytes() == #[trigger] v.enc().add(rb) && d0.rem_fds()
                                == #[trigger] v.enc_fds().add(rf) implies w.eqv(v) by {
                            assert(v is Channel);
                            let pv = v->Channel_0;
                            assert(d1.rem_bytes() == pv.enc().add(rb));
                            assert(d1.rem_fds() == pv.enc_fds().add(rf));
                        }
                    }
                    Ok(w)
                },
                Err(e) => {
                    proof {
                        assert forall|v: crate::errors::Error, rb: Seq<u8>, rf: Seq<i32>|
                            d0.rem_bytes() == #[trigger] v.enc().add(rb) && d0.rem_fds()
                                == #[trigger] v.enc_fds().add(rf) implies false by {
                            assert(v is Channel);
                            let pv = v->Channel_0;
                            assert(d1.rem_bytes() == pv.enc().add(rb));
                            assert(d1.rem_fds() == pv.enc_fds().add(rf));
                        }
                    }
                    Err(e)
                },
            }
        }
        else if idx == 2 {
            match String::deserialize_self(d) {
                Ok(p) => {
                    let w = crate::errors::Error::SandboxSetup(p);
                    proof {
                        assert(d0.rem_bytes() =~= w.enc() + d.rem_bytes());
                        assert(d0.rem_fds() =~= w.enc_fds() + d.rem_fds());
                        assert forall|v: crate::errors::Error, rb: Seq<u8>, rf: Seq<i32>|
                            d0.rem_bytes() == #[trigger] v.enc().add(rb) && d0.rem_fds()
                                == #[trigger] v.enc_fds().add(rf) implies w.eqv(v) by {
                            assert(v is SandboxSetup);
                            let pv = v->SandboxSetup_0;
                            assert(d1.rem_bytes() == pv.enc().add(rb));
                            assert(d1.rem_fds() == pv.enc_fds().add(rf));
                        }
                    }
                    Ok(w)
                },
                Err(e) => {
                    proof {
                        assert forall|v: crate::errors::Error, rb: Seq<u8>, rf: Seq<i32>|
                            d0.rem_bytes() == #[trigger] v.enc().add(rb) && d0.rem_fds()
                                == #[trigger] v.enc_fds().add(rf) implies false by {
                            assert(v is SandboxSetup);
                            let pv = v->SandboxSetup_0;
                            assert(d1.rem_bytes() == pv.enc().add(rb));
                            assert(d1.rem_fds() == pv.enc_fds().add(rf));
                        }
                    }
                    Err(e)
                },
            }
        }
        else if idx == 3 {
            match String::deserialize_self(d) {
                Ok(p) => {
                    let w = crate::errors::Error::ChildFailed(p);
                    proof {
                        assert(d0.rem_bytes() =~= w.enc() + d.rem_bytes());
                        assert(d0.rem_fds() =~= w.enc_fds() + d.rem_fds());
                        assert forall|v: crate::errors::Error, rb: Seq<u8>, rf: Seq<i32>|
                            d0.rem_bytes() == #[trigger] v.enc().add(rb) && d0.rem_fds()
                                == #[trigger] v.enc_fds().add(rf) implies w.eqv(v) by {
                            assert(v is ChildFailed);
                            let pv = v->ChildFailed_0;
                            assert(d1.rem_bytes() == pv.enc().add(rb));
                            assert(d1.rem_fds() == pv.enc_fds().add(rf));
                        }
                    }
                    Ok(w)
                },
                Err(e) => {
                    proof {
                        assert forall|v: crate::errors::Error, rb: Seq<u8>, rf: Seq<i32>|
                            d0.rem_bytes() == #[trigger] v.enc().add(rb) && d0.rem_fds()
                                == #[trigger] v.enc_fds().add(rf) implies false by {
                            assert(v is ChildFailed);
                            let pv = v->ChildFailed_0;
                            assert(d1.rem_bytes() == pv.enc().add(rb));
                            assert(d1.rem_fds() == pv.enc_fds().add(rf));
                        }
                    }
                    Err(e)
                },
            }
        }
        else if idx == 4 {
            let w = crate::errors::Error::NoValue;
            proof {
                assert(d0.rem_bytes() =~= w.enc() + d.rem_bytes());
                assert(d0.rem_fds() =~= w.enc_fds() + d.rem_fds());
                assert forall|v: crate::errors::Error, rb: Seq<u8>, rf: Seq<i32>|
                    d0.rem_bytes() == #[trigger] v.enc().add(rb) && d0.rem_fds()
                        == #[trigger] v.enc_fds().add(rf) implies w.eqv(v) by {
                    assert(v is NoValue);
                }
            }
            Ok(w)
        }
        else if idx == 5 {
            match String::deserialize_self(d) {
                Ok(p) => {
                    let w = crate::errors::Error::ConfigurationFailure(p);
                    proof {
                        assert(d0.rem_bytes() =~= w.enc() + d.rem_bytes());
                        assert(d0.rem_fds() =~= w.enc_fds() + d.rem_fds());
                        assert forall|v: crate::errors::Error, rb: Seq<u8>, rf: Seq<i32>|
                            d0.rem_bytes() == #[trigger] v.enc().add(rb) && d0.rem_fds()
                                == #[trigger] v.enc_fds().add(rf) implies w.eqv(v) by {
                            assert(v is ConfigurationFailure);
                            let pv = v->ConfigurationFailure_0;
                            assert(d1.rem_bytes() == pv.enc().add(rb));
                            assert(d1.rem_fds() == pv.enc_fds().add(rf));
                        }
                    }
                    Ok(w)
                },
                Err(e) => {
                    proof {
                        assert forall|v: crate::errors::Error, rb: Seq<u8>, rf: Seq<i32>|
                            d0.rem_bytes() == #[trigger] v.enc().add(rb) && d0.rem_fds()
                                == #[trigger] v.enc_fds().add(rf) implies false by {
                            assert(v is ConfigurationFailure);
                            let pv = v->ConfigurationFailure_0;
                            assert(d1.rem_bytes() == pv.enc().add(rb));
                            assert(d1.rem_fds() == pv.enc_fds().add(rf));
                        }
                    }
                    Err(e)
                },
            }
        }
        else if idx == 6 {
            match String::deserialize_self(d) {
                Ok(p) => {
                    let w = crate::errors::Error::InvokerFailure(p);
                    proof {
                        assert(d0.rem_bytes() =~= w.enc() + d.rem_bytes());
                        assert(d0.rem_fds() =~= w.enc_fds() + d.rem_fds());
                        assert forall|v: crate::errors::Error, rb: Seq<u8>, rf: Seq<i32>|
                            d0.rem_bytes() == #[trigger] v.enc().add(rb) && d0.rem_fds()
                                == #[trigger] v.enc_fds().add(rf) implies w.eqv(v) by {
                            assert(v is InvokerFailure);
                            let pv = v->InvokerFailure_0;
                            assert(d1.rem_bytes() == pv.enc().add(rb));
                            assert(d1.rem_fds() == pv.enc_fds().add(rf));
                        }
                    }
                    Ok(w)
                },
                Err(e) => {
                    proof {
                        assert forall|v: crate::errors::Error, rb: Seq<u8>, rf: Seq<i32>|
                            d0.rem_bytes() == #[trigger] v.enc().add(rb) && d0.rem_fds()
                                == #[trigger] v.enc_fds().add(rf) implies false by {
                            assert(v is InvokerFailure);
                            let pv = v->InvokerFailure_0;
                            assert(d1.rem_bytes() == pv.enc().add(rb));
                            assert(d1.rem_fds() == pv.enc_fds().add(rf));
                        }
                    }
                    Err(e)
                },
            }
        }
        else if idx == 7 {
            match String::deserialize_self(d) {
                Ok(p) => {
                    let w = crate::errors::Error::ConductorFailure(p);
                    proof {
                        assert(d0.rem_bytes() =~= w.enc() + d.rem_bytes());
                        assert(d0.rem_fds() =~= w.enc_fds() + d.rem_fds());
                        assert forall|v: crate::errors::Error, rb: Seq<u8>, rf: Seq<i32>|
                            d0.rem_bytes() == #[trigger] v.enc().add(rb) && d0.rem_fds()
                                == #[trigger] v.enc_fds().add(rf) implies w.eqv(v) by {
                            assert(v is ConductorFailure);
                            let pv = v->ConductorFailure_0;
                            assert(d1.rem_bytes() == pv.enc().add(rb));
                            assert(d1.rem_fds() == pv.enc_fds().add(rf));
                        }
                    }
                    Ok(w)
                },
                Err(e) => {
                    proof {
                        assert forall|v: crate::errors::Error, rb: Seq<u8>, rf: Seq<i32>|
                            d0.rem_bytes() == #[trigger] v.enc().add(rb) && d0.rem_fds()
                                == #[trigger] v.enc_fds().add(rf) implies false by {
                            assert(v is ConductorFailure);
                            let pv = v->ConductorFailure_0;
                            assert(d1.rem_bytes() == pv.enc().add(rb));
                            assert(d1.rem_fds() == pv.enc_fds().add(rf));
                        }
                    }
                    Err(e)
                },
            }
        }
        else {
            proof {
                assert forall|v: crate::errors::Error, rb: Seq<u8>, rf: Seq<i32>|
                    d0.rem_bytes() == #[trigger] v.enc().add(rb) && d0.rem_fds()
                        == #[trigger] v.enc_fds().add(rf) implies false by {
                    assert(idx == 0 || idx == 1 || idx == 2 || idx == 3 || idx == 4 || idx == 5 || idx == 6 || idx == 7);
                }
            }
            Err(CodecError::UnknownVariant)
        }
    }
}

} // verus!

verus! {

impl Object for crate::submission::W2IMessage {
    open spec fn eqv(self, other: Self) -> bool {
        match (self, other) {
            (
                crate::submission::W2IMessage::CompilationResult(p1, l1),
                crate::submission::W2IMessage::CompilationResult(p2, l2),
            ) => p1.eqv(p2) && l1.eqv(l2),
            (
                crate::submission::W2IMessage::TestResult(j1),
                crate::submission::W2IMessage::TestResult(j2),
            ) => j1.eqv(j2),
            (
                crate::submission::W2IMessage::Failure(e1),
                crate::submission::W2IMessage::Failure(e2),
            ) => e1.eqv(e2),
            _ => false,
        }
    }

    open spec fn enc(self) -> Seq<u8> {
        match self {
            crate::submission::W2IMessage::CompilationResult(p, log) => u64_le(0) + (p.enc()
                + log.enc()),
            crate::submission::W2IMessage::TestResult(j) => u64_le(1) + j.enc(),
            crate::submission::W2IMessage::Failure(e) => u64_le(2) + e.enc(),
        }
    }

    open spec fn enc_fds(self) -> Seq<i32> {
        match self {
            crate::submission::W2IMessage::CompilationResult(p, log) => p.enc_fds()
                + log.enc_fds(),
            crate::submission::W2IMessage::TestResult(j) => j.enc_fds(),
            crate::submission::W2IMessage::Failure(e) => e.enc_fds(),
        }
    }

    proof fn lemma_eqv_refl(self) {
        match self {
            crate::submission::W2IMessage::CompilationResult(p, log) => {
                p.lemma_eqv_refl();
                log.lemma_eqv_refl();
            },
            crate::submission::W2IMessage::TestResult(j) => {
                j.lemma_eqv_refl();
            },
            crate::submission::W2IMessage::Failure(e) => {
                e.lemma_eqv_refl();
            },
        }
    }

    proof fn lemma_enc_eqv(self, other: Self) {
        match (self, other) {
            (
                crate::submission::W2IMessage::CompilationResult(p1, l1),
                crate::submission::W2IMessage::CompilationResult(p2, l2),
            ) => {
                p1.lemma_enc_eqv(p2);
                l1.lemma_enc_eqv(l2);
            },
            (
                crate::submission::W2IMessage::TestResult(j1),
                crate::submission::W2IMessage::TestResult(j2),
            ) => {
                j1.lemma_enc_eqv(j2);
            },
            (
                crate::submission::W2IMessage::Failure(e1),
                crate::submission::W2IMessage::Failure(e2),
            ) => {
                e1.lemma_enc_eqv(e2);
            },
            _ => {},
        }
    }

    fn serialize_self(&self, s: &mut Serializer) {
        match self {
            crate::submission::W2IMessage::CompilationResult(p, log) => {
                s.write_u64(0);
                p.serialize_self(s);
                log.serialize_self(s);
            },
            crate::submission::W2IMessage::TestResult(j) => {
                s.write_u64(1);
                j.serialize_self(s);
            },
            crate::submission::W2IMessage::Failure(e) => {
                s.write_u64(2);
                e.serialize_self(s);
            },
        }
        proof {
            assert(final(s).bytes() =~= old(s).bytes() + self.enc());
            assert(final(s).fd_list() =~= old(s).fd_list() + self.enc_fds());
        }
    }

    #[verifier::rlimit(100)]
    fn deserialize_self(d: &mut Deserializer) -> (r: Result<Self, CodecError>) {
        let ghost d0 = *d;
        proof {
            lemma_u64_le_len(0);
            lemma_u64_le_len(1);
            lemma_u64_le_len(2);
        }
        let idx = match d.read_u64() {
            Ok(idx) => idx,
            Err(e) => {
                proof {
                    assert forall|v: crate::submission::W2IMessage, rb: Seq<u8>, rf: Seq<i32>|
                        d0.rem_bytes() == #[trigger] v.enc().add(rb) && d0.rem_fds()
                            == #[trigger] v.enc_fds().add(rf) implies false by {
                        assert(d0.rem_bytes().len() >= 8);
                    }
                }
                return Err(e);
            },
        };
        let ghost d1 = *d;
        proof {
            lemma_u64_le_len(idx);
            assert forall|v: crate::submission::W2IMessage, rb: Seq<u8>, rf: Seq<i32>|
                d0.rem_bytes() == #[trigger] v.enc().add(rb) && d0.rem_fds()
                    == #[trigger] v.enc_fds().add(rf) implies (match v {
                crate::submission::W2IMessage::CompilationResult(pv, lv) => idx == 0
                    && d1.rem_bytes() == pv.enc().add(lv.enc() + rb) && d1.rem_fds()
                    == pv.enc_fds().add(lv.enc_fds() + rf),
                crate::submission::W2IMessage::TestResult(jv) => idx == 1 && d1.rem_bytes()
                    == jv.enc().add(rb) && d1.rem_fds() == jv.enc_fds().add(rf),
                crate::submission::W2IMessage::Failure(ev) => idx == 2 && d1.rem_bytes()
                    == ev.enc().add(rb) && d1.rem_fds() == ev.enc_fds().add(rf),
            }) by {
                match v {
                    crate::submission::W2IMessage::CompilationResult(pv, lv) => {
                        assert(v.enc().add(rb) =~= u64_le(0) + (pv.enc() + (lv.enc() + rb)));
                        lemma_concat_cancel(
                            u64_le(idx),
                            d1.rem_bytes(),
                            u64_le(0),
                            pv.enc() + (lv.enc() + rb),
                        );
                        lemma_u64_le_injective(idx, 0);
                        assert(d1.rem_bytes() =~= pv.enc().add(lv.enc() + rb));
                        assert(d1.rem_fds() =~= pv.enc_fds().add(lv.enc_fds() + rf));
                    },
                    crate::submission::W2IMessage::TestResult(jv) => {
                        assert(v.enc().add(rb) =~= u64_le(1) + (jv.enc() + rb));
                        lemma_concat_cancel(u64_le(idx), d1.rem_bytes(), u64_le(1), jv.enc() + rb);
                        lemma_u64_le_injective(idx, 1);
                        assert(d1.rem_bytes() =~= jv.enc().add(rb));
                        assert(d1.rem_fds() =~= jv.enc_fds().add(rf));
                    },
                    crate::submission::W2IMessage::Failure(ev) => {
                        assert(v.enc().add(rb) =~= u64_le(2) + (ev.enc() + rb));
                        lemma_concat_cancel(u64_le(idx), d1.rem_bytes(), u64_le(2), ev.enc() + rb);
                        lemma_u64_le_injective(idx, 2);
                        assert(d1.rem_bytes() =~= ev.enc().add(rb));
                        assert(d1.rem_fds() =~= ev.enc_fds().add(rf));
                    },
                }
            }
        }
        if idx == 0 {
            let p = match crate::program::Program::deserialize_self(d) {
                Ok(p) => p,
                Err(e) => {
                    proof {
                        assert forall|
                            v: crate::submission::W2IMessage,
                            rb: Seq<u8>,
                            rf: Seq<i32>,
                        |
                            d0.rem_bytes() == #[trigger] v.enc().add(rb) && d0.rem_fds()
                                == #[trigger] v.enc_fds().add(rf) implies false by {
                            assert(v is CompilationResult);
                        }
                    }
                    return Err(e);
                },
            };
            let ghost d2 = *d;
            proof {
                assert forall|v: crate::submission::W2IMessage, rb: Seq<u8>, rf: Seq<i32>|
                    d0.rem_bytes() == #[trigger] v.enc().add(rb) && d0.rem_fds()
                        == #[trigger] v.enc_fds().add(rf) implies (match v {
                    crate::submission::W2IMessage::CompilationResult(pv, lv) => p.eqv(pv)
                        && d2.rem_bytes() == lv.enc().add(rb) && d2.rem_fds() == lv.enc_fds().add(
                        rf,
                    ),
                    _ => false,
                }) by {
                    assert(v is CompilationResult);
                    let pv = v->CompilationResult_0;
                    let lv = v->CompilationResult_1;
                    assert(d1.rem_bytes() == pv.enc().add(lv.enc() + rb));
                    assert(d1.rem_fds() == pv.enc_fds().add(lv.enc_fds() + rf));
                    assert(p.eqv(pv));
                    p.lemma_enc_eqv(pv);
                    lemma_concat_cancel(p.enc(), d2.rem_bytes(), pv.enc(), lv.enc() + rb);
                    lemma_concat_cancel(
                        p.enc_fds(),
                        d2.rem_fds(),
                        pv.enc_fds(),
                        lv.enc_fds() + rf,
                    );
                    assert(d2.rem_bytes() =~= lv.enc().add(rb));
                    assert(d2.rem_fds() =~= lv.enc_fds().add(rf));
                }
            }
            match String::deserialize_self(d) {
                Ok(log) => {
                    let w = crate::submission::W2IMessage::CompilationResult(p, log);
                    proof {
                        assert(d0.rem_bytes() =~= w.enc() + d.rem_bytes());
                        assert(d0.rem_fds() =~= w.enc_fds() + d.rem_fds());
                        assert forall|
                            v: crate::submission::W2IMessage,
                            rb: Seq<u8>,
                            rf: Seq<i32>,
                        |
                            d0.rem_bytes() == #[trigger] v.enc().add(rb) && d0.rem_fds()
                                == #[trigger] v.enc_fds().add(rf) implies w.eqv(v) by {
                            assert(v is CompilationResult);
                            let lv = v->CompilationResult_1;
                            assert(d2.rem_bytes() == lv.enc().add(rb));
                            assert(d2.rem_fds() == lv.enc_fds().add(rf));
                        }
                    }
                    Ok(w)
                },
                Err(e) => {
                    proof {
                        assert forall|
                            v: crate::submission::W2IMessage,
                            rb: Seq<u8>,
                            rf: Seq<i32>,
                        |
                            d0.rem_bytes() == #[trigger] v.enc().add(rb) && d0.rem_fds()
                                == #[trigger] v.enc_fds().add(rf) implies false by {
                            assert(v is CompilationResult);
                            let lv = v->CompilationResult_1;
                            assert(d2.rem_bytes() == lv.enc().add(rb));
                            assert(d2.rem_fds() == lv.enc_fds().add(rf));
                        }
                    }
                    Err(e)
                },
            }
        } else if idx == 1 {
            match crate::verdict::TestJudgementResult::deserialize_self(d) {
                Ok(j) => {
                    let w = crate::submission::W2IMessage::TestResult(j);
                    proof {
                        assert(d0.rem_bytes() =~= w.enc() + d.rem_bytes());
                        assert(d0.rem_fds() =~= w.enc_fds() + d.rem_fds());
                        assert forall|
                            v: crate::submission::W2IMessage,
                            rb: Seq<u8>,
                            rf: Seq<i32>,
                        |
                            d0.rem_bytes() == #[trigger] v.enc().add(rb) && d0.rem_fds()
                                == #[trigger] v.enc_fds().add(rf) implies w.eqv(v) by {
                            assert(v is TestResult);
                            let jv = v->TestResult_0;
                            assert(d1.rem_bytes() == jv.enc().add(rb));
                            assert(d1.rem_fds() == jv.enc_fds().add(rf));
                        }
                    }
                    Ok(w)
                },
                Err(e) => {
                    proof {
                        assert forall|
                            v: crate::submission::W2IMessage,
                            rb: Seq<u8>,
                            rf: Seq<i32>,
                        |
                            d0.rem_bytes() == #[trigger] v.enc().add(rb) && d0.rem_fds()
                                == #[trigger] v.enc_fds().add(rf) implies false by {
                            assert(v is TestResult);
                            let jv = v->TestResult_0;
                            assert(d1.rem_bytes() == jv.enc().add(rb));
                            assert(d1.rem_fds() == jv.enc_fds().add(rf));
                        }
                    }
                    Err(e)
                },
            }
        } else if idx == 2 {
            match crate::errors::Error::deserialize_self(d) {
                Ok(err) => {
                    let w = crate::submission::W2IMessage::Failure(err);
                    proof {
                        assert(d0.rem_bytes() =~= w.enc() + d.rem_bytes());
                        assert(d0.rem_fds() =~= w.enc_fds() + d.rem_fds());
                        assert forall|
                            v: crate::submission::W2IMessage,
                            rb: Seq<u8>,
                            rf: Seq<i32>,
                        |
                            d0.rem_bytes() == #[trigger] v.enc().add(rb) && d0.rem_fds()
                                == #[trigger] v.enc_fds().add(rf) implies w.eqv(v) by {
                            assert(v is Failure);
                            let ev = v->Failure_0;
                            assert(d1.rem_bytes() == ev.enc().add(rb));
                            assert(d1.rem_fds() == ev.enc_fds().add(rf));
                        }
                    }
                    Ok(w)
                },
                Err(e) => {
                    proof {
                        assert forall|
                            v: crate::submission::W2IMessage,
                            rb: Seq<u8>,
                            rf: Seq<i32>,
                        |
                            d0.rem_bytes() == #[trigger] v.enc().add(rb) && d0.rem_fds()
                                == #[trigger] v.enc_fds().add(rf) implies false by {
                            assert(v is Failure);
                            let ev = v->Failure_0;
                            assert(d1.rem_bytes() == ev.enc().add(rb));
                            assert(d1.rem_fds() == ev.enc_fds().add(rf));
                        }
                    }
                    Err(e)
                },
            }
        } else {
            proof {
                assert forall|v: crate::submission::W2IMessage, rb: Seq<u8>, rf: Seq<i32>|
                    d0.rem_bytes() == #[trigger] v.enc().add(rb) && d0.rem_fds()
                        == #[trigger] v.enc_fds().add(rf) implies false by {
                    assert(idx == 0 || idx == 1 || idx == 2);
                }
            }
            Err(CodecError::UnknownVariant)
        }
    }
}

} // verus!
