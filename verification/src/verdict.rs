//! Per-test verdicts, invocation statistics, and the interpretation of a
//! testlib checker's exit status and stderr.

use vstd::prelude::*;
use vstd::string::StrSliceExecFns;
use vstd::string::StringExecFns;

use crate::strutil::{
    all_digits, dec_u64, digit, digits_val, find_char, find_idx, lemma_find_idx,
    proof_digits_val_nonneg, u64_to_dec,
};

verus! {

/// How a process ended: a normal exit code or a terminating signal.
#[derive(Clone, Copy, PartialEq, Eq, Structural, Debug)]
pub enum ExitStatus {
    ExitCode(u8),
    Signal(u8),
}

impl ExitStatus {
    /// Classify a wait status given as plain values: the terminating signal,
    /// if there was one, else the exit code (both truncated to a byte, as
    /// the kernel reports them).
    pub fn from_parts(signal: Option<i32>, code: i32) -> (r: Self)
        ensures
            signal matches Some(sg) ==> r == ExitStatus::Signal(sg as u8),
            signal is None ==> r == ExitStatus::ExitCode(code as u8),
    {
        match signal {
            Some(sg) => ExitStatus::Signal(#[verifier::truncate] (sg as u8)),
            None => ExitStatus::ExitCode(#[verifier::truncate] (code as u8)),
        }
    }
}

/// The verdict of a single test.
pub enum TestVerdict {
    InQueue,
    Running,
    Ignored,
    Accepted,
    /// Partial score in increments of one ten-thousandth of a point.
    PartialSolution(u64),
    /// An internal error, with its description.
    Bug(String),
    WrongAnswer,
    RuntimeError(ExitStatus),
    TimeLimitExceeded,
    MemoryLimitExceeded,
    PresentationError,
    IdlenessLimitExceeded,
    CheckerFailed,
}

/// Resource usage of one invocation.  Times are in nanoseconds.
pub struct InvocationStat {
    pub real_time: u64,
    pub cpu_time: u64,
    pub user_time: u64,
    pub sys_time: u64,
    pub memory: u64,
}

/// Resource limits for one invocation category.  Times are in nanoseconds.
pub struct InvocationLimit {
    pub real_time: u64,
    pub cpu_time: u64,
    pub memory: u64,
}

/// The full judgement of one test: the verdict, the logs by name, and the
/// per-category invocation statistics.
pub struct TestJudgementResult {
    pub verdict: TestVerdict,
    pub logs: Vec<(String, Vec<u8>)>,
    pub invocation_stats: Vec<(String, InvocationStat)>,
}

/// The digits of a partial score's fractional part, trailing zeros trimmed.
pub open spec fn frac_digits(f: u64) -> Seq<char>
    recommends
        0 < f < 10000,
{
    let d1 = digit((f / 1000) as int);
    let d2 = digit(((f / 100) % 10) as int);
    let d3 = digit(((f / 10) % 10) as int);
    let d4 = digit((f % 10) as int);
    if f % 10 != 0 {
        seq![d1, d2, d3, d4]
    } else if f % 100 != 0 {
        seq![d1, d2, d3]
    } else if f % 1000 != 0 {
        seq![d1, d2]
    } else {
        seq![d1]
    }
}

/// A partial score rendered as a decimal point value.
pub open spec fn points_chars(p: u64) -> Seq<char> {
    if p % 10000 == 0 {
        dec_u64(p / 10000)
    } else {
        dec_u64(p / 10000) + seq!['.'] + frac_digits(p % 10000)
    }
}

/// The two-letter code of a verdict, with the score appended for a partial
/// solution.
pub open spec fn short_code(v: TestVerdict) -> Seq<char> {
    match v {
        TestVerdict::InQueue => "PD"@,
        TestVerdict::Running => "RU"@,
        TestVerdict::Ignored => "IG"@,
        TestVerdict::Accepted => "AC"@,
        TestVerdict::PartialSolution(p) => "PT "@ + points_chars(p),
        TestVerdict::Bug(_) => "CF"@,
        TestVerdict::WrongAnswer => "WA"@,
        TestVerdict::RuntimeError(_) => "RE"@,
        TestVerdict::TimeLimitExceeded => "TL"@,
        TestVerdict::MemoryLimitExceeded => "ML"@,
        TestVerdict::PresentationError => "PE"@,
        TestVerdict::IdlenessLimitExceeded => "IL"@,
        TestVerdict::CheckerFailed => "FL"@,
    }
}

impl TestVerdict {
    /// Render the verdict as its short code.
    pub fn to_short_string(&self) -> (r: String)
        ensures
            r@ == short_code(*self),
    {
        match self {
            TestVerdict::InQueue => {
                proof {
                    reveal_strlit("PD");
                }
                String::from_str("PD")
            },
            TestVerdict::Running => {
                proof {
                    reveal_strlit("RU");
                }
                String::from_str("RU")
            },
            TestVerdict::Ignored => {
                proof {
                    reveal_strlit("IG");
                }
                String::from_str("IG")
            },
            TestVerdict::Accepted => {
                proof {
                    reveal_strlit("AC");
                }
                String::from_str("AC")
            },
            TestVerdict::PartialSolution(points) => {
                proof {
                    reveal_strlit("PT ");
                }
                let mut s = String::from_str("PT ");
                let tail = points_to_dec(*points);
                s.append(tail.as_str());
                s
            },
            TestVerdict::Bug(_) => {
                proof {
                    reveal_strlit("CF");
                }
                String::from_str("CF")
            },
            TestVerdict::WrongAnswer => {
                proof {
                    reveal_strlit("WA");
                }
                String::from_str("WA")
            },
            TestVerdict::RuntimeError(_) => {
                proof {
                    reveal_strlit("RE");
                }
                String::from_str("RE")
            },
            TestVerdict::TimeLimitExceeded => {
                proof {
                    reveal_strlit("TL");
                }
                String::from_str("TL")
            },
            TestVerdict::MemoryLimitExceeded => {
                proof {
                    reveal_strlit("ML");
                }
                String::from_str("ML")
            },
            TestVerdict::PresentationError => {
                proof {
                    reveal_strlit("PE");
                }
                String::from_str("PE")
            },
            TestVerdict::IdlenessLimitExceeded => {
                proof {
                    reveal_strlit("IL");
                }
                String::from_str("IL")
            },
            TestVerdict::CheckerFailed => {
                proof {
                    reveal_strlit("FL");
                }
                String::from_str("FL")
            },
        }
    }

    /// Whether the verdict counts as a success.  Only meaningful for final
    /// verdicts: a verdict still in flight has no answer here.
    pub fn is_successful(&self) -> (r: bool)
        requires
            !(*self matches TestVerdict::InQueue),
            !(*self matches TestVerdict::Running),
        ensures
            r <==> (*self matches TestVerdict::Accepted || *self
                matches TestVerdict::PartialSolution(_)),
    {
        match self {
            TestVerdict::Accepted => true,
            TestVerdict::PartialSolution(_) => true,
            _ => false,
        }
    }
}

/// Render a partial score: integer part, then the trimmed fractional part.
fn points_to_dec(p: u64) -> (r: String)
    ensures
        r@ == points_chars(p),
{
    let mut s = u64_to_dec(p / 10000);
    let f = p % 10000;
    if f != 0 {
        proof {
            reveal_strlit(".");
        }
        s.append(".");
        s.append(crate::strutil::digit_str(f / 1000));
        if f % 1000 != 0 {
            s.append(crate::strutil::digit_str((f / 100) % 10));
            if f % 100 != 0 {
                s.append(crate::strutil::digit_str((f / 10) % 10));
                if f % 10 != 0 {
                    s.append(crate::strutil::digit_str(f % 10));
                }
            }
        }
        proof {
            assert(s@ =~= points_chars(p));
        }
    }
    s
}

} // verus!

verus! {

/// A byte sequence read as characters, one character per byte.
pub open spec fn latin1(bytes: Seq<u8>) -> Seq<char> {
    bytes.map(|i: int, b: u8| b as char)
}

/// Build the one-byte-per-character reading of a byte slice.
fn bytes_to_latin1(bytes: &[u8], from: usize, to: usize) -> (r: String)
    requires
        from <= to <= bytes@.len(),
    ensures
        r@ == latin1(bytes@.subrange(from as int, to as int)),
{
    let mut out = String::new();
    let mut i: usize = from;
    while i < to
        invariant
            from <= i <= to <= bytes@.len(),
            out@ == latin1(bytes@.subrange(from as int, i as int)),
        decreases to - i,
    {
        let c = bytes[i] as char;
        crate::builtins::string_push(&mut out, c);
        proof {
            assert(out@ =~= latin1(bytes@.subrange(from as int, i + 1 as int)));
        }
        i = i + 1;
    }
    out
}

/// The integer digits of a decimal point literal, sign stripped.
pub open spec fn points_int_part(s: Seq<char>) -> Seq<char> {
    let b = crate::strutil::int_body(s);
    let d = find_idx(b, '.');
    if d < 0 {
        b
    } else {
        b.take(d)
    }
}

/// The fractional digits of a decimal point literal.
pub open spec fn points_frac_part(s: Seq<char>) -> Seq<char> {
    let b = crate::strutil::int_body(s);
    let d = find_idx(b, '.');
    if d < 0 {
        Seq::<char>::empty()
    } else {
        b.skip(d + 1)
    }
}

/// Whether the characters form a plain decimal number: an optional sign,
/// digits, and at most one decimal point, with at least one digit.
pub open spec fn is_points_literal(s: Seq<char>) -> bool {
    all_digits(points_int_part(s)) && all_digits(points_frac_part(s)) && points_int_part(s).len()
        + points_frac_part(s).len() > 0
}

/// The value of the first four fractional digits, scaled to ten-thousandths.
pub open spec fn frac4_val(frac: Seq<char>) -> int {
    if frac.len() == 0 {
        0
    } else if frac.len() == 1 {
        digits_val(frac) * 1000
    } else if frac.len() == 2 {
        digits_val(frac) * 100
    } else if frac.len() == 3 {
        digits_val(frac) * 10
    } else {
        digits_val(frac.take(4))
    }
}

/// Whether the fifth fractional digit rounds the ten-thousandths up.
pub open spec fn points_carry(frac: Seq<char>) -> int {
    if frac.len() > 4 && frac[4] as int >= 53 {
        1
    } else {
        0
    }
}

/// The number of ten-thousandths a decimal literal denotes, rounded half
/// away from zero and clamped to the range of `u64` (negative values clamp
/// to zero).
pub open spec fn points_scaled(s: Seq<char>) -> u64 {
    let v = digits_val(points_int_part(s)) * 10000 + frac4_val(points_frac_part(s)) + points_carry(
        points_frac_part(s),
    );
    if s.len() > 0 && s[0] == '-' {
        0u64
    } else if v > u64::MAX {
        u64::MAX
    } else {
        v as u64
    }
}

} // verus!

verus! {

/// Parse a plain decimal number (optional sign, digits, at most one point)
/// into ten-thousandths, rounded half away from zero, clamped to `u64`.
#[verifier::rlimit(100)]
pub fn parse_points_scaled(s: &str) -> (r: Option<u64>)
    ensures
        r is Some <==> is_points_literal(s@),
        r matches Some(v) ==> v == points_scaled(s@),
{
    let n = s.unicode_len();
    if n == 0 {
        proof {
            assert(points_int_part(s@).len() == 0);
            assert(points_frac_part(s@).len() == 0);
        }
        return None;
    }
    let first = s.get_char(0);
    let negative = first == '-';
    let start: usize = if first == '-' || first == '+' {
        1
    } else {
        0
    };
    let ghost body = crate::strutil::int_body(s@);
    proof {
        assert(body =~= s@.skip(start as int));
    }
    let dot = find_char(s, '.');
    proof {
        lemma_find_idx(body, '.');
    }
    let (has_dot, dotpos): (bool, usize) = match dot {
        Some(gd) => {
            proof {
                assert(gd >= start);
                let rr = find_idx(body, '.');
                assert(body[gd - start] == s@[gd as int]);
                if rr < 0 {
                    assert(body[gd - start] != '.');
                    assert(false);
                }
                if rr < gd - start {
                    assert(body[rr] == s@[rr + start]);
                    assert(s@[rr + start] != '.');
                    assert(false);
                }
                if rr > gd - start {
                    assert(body[gd - start] != '.');
                    assert(false);
                }
                assert(rr == gd - start);
            }
            (true, gd)
        },
        None => {
            proof {
                let rr = find_idx(body, '.');
                if rr >= 0 {
                    assert(body[rr] == s@[rr + start]);
                    assert(false);
                }
            }
            (false, 0)
        },
    };
    let int_end: usize = if has_dot {
        dotpos
    } else {
        n
    };
    let ghost ip = points_int_part(s@);
    let ghost fp = points_frac_part(s@);
    proof {
        assert(ip =~= body.take(int_end - start));
        if has_dot {
            assert(fp =~= s@.skip(dotpos + 1));
        } else {
            assert(fp =~= Seq::<char>::empty());
        }
    }
    let mut acc: u64 = 0;
    let mut sat = false;
    let mut i: usize = start;
    while i < int_end
        invariant
            start <= i <= int_end <= n,
            n == s@.len(),
            start == 0 || start == 1,
            ip == points_int_part(s@),
            ip == body.take(int_end - start),
            body == s@.skip(start as int),
            all_digits(ip.take(i - start)),
            !sat ==> acc == digits_val(ip.take(i - start)),
            sat ==> digits_val(ip.take(i - start)) > u64::MAX,
        decreases int_end - i,
    {
        let c = s.get_char(i);
        if c < '0' || c > '9' {
            proof {
                assert(ip[i - start] == s@[i as int]);
                assert(!all_digits(ip));
            }
            return None;
        }
        let d = ((c as u32) - 48) as u64;
        proof {
            let t = ip.take(i + 1 - start);
            assert(t.take(i - start) =~= ip.take(i - start));
            assert(t.last() == s@[i as int]);
            assert(forall|j: int|
                0 <= j < t.len() ==> #[trigger] t[j] == ip.take(i - start).push(s@[i as int])[j]);
            assert(all_digits(t));
            assert(digits_val(t) == digits_val(ip.take(i - start)) * 10 + (c as int - 48));
        }
        if sat {
            proof {
                let prev = digits_val(ip.take(i - start));
                assert(prev * 10 >= prev) by (nonlinear_arith)
                    requires
                        prev > u64::MAX,
                ;
            }
        } else if acc > 1844674407370955161u64 || (acc == 1844674407370955161u64 && d > 5) {
            sat = true;
        } else {
            acc = acc * 10 + d;
        }
        i = i + 1;
    }
    proof {
        assert(ip.take(int_end - start) =~= ip);
    }
    let mut fv: u64 = 0;
    let mut carry: u64 = 0;
    let mut flen: usize = 0;
    if has_dot {
        let fstart = dotpos + 1;
        let mut j: usize = fstart;
        while j < n
            invariant
                dotpos + 1 == fstart,
                fstart <= j <= n,
                n == s@.len(),
                fp == points_frac_part(s@),
                fp == s@.skip(fstart as int),
                all_digits(fp.take(j - fstart)),
                fv == digits_val(fp.take(if j - fstart <= 4 {
                    j - fstart
                } else {
                    4
                })),
                j - fstart == 0 ==> fv == 0,
                j - fstart == 1 ==> fv <= 9,
                j - fstart == 2 ==> fv <= 99,
                j - fstart == 3 ==> fv <= 999,
                j - fstart >= 4 ==> fv <= 9999,
                j - fstart >= 4 ==> fv == digits_val(fp.take(4)),
                j - fstart <= 4 ==> carry == 0,
                j - fstart > 4 ==> carry == points_carry(fp),
            decreases n - j,
        {
            let c = s.get_char(j);
            if c < '0' || c > '9' {
                proof {
                    assert(fp[j - fstart] == s@[j as int]);
                    assert(!all_digits(fp));
                }
                return None;
            }
            let d = ((c as u32) - 48) as u64;
            proof {
                let t = fp.take(j + 1 - fstart);
                assert(t.take(j - fstart) =~= fp.take(j - fstart));
                assert(t.last() == s@[j as int]);
                assert(forall|j2: int|
                    0 <= j2 < t.len() ==> #[trigger] t[j2] == fp.take(j - fstart).push(
                        s@[j as int],
                    )[j2]);
                assert(all_digits(t));
            }
            if j - fstart < 4 {
                proof {
                    let t = fp.take(j + 1 - fstart);
                    assert(digits_val(t) == digits_val(fp.take(j - fstart)) * 10 + (c as int
                        - 48));
                }
                fv = fv * 10 + d;
            } else if j - fstart == 4 {
                carry = if c >= '5' {
                    1
                } else {
                    0
                };
                proof {
                    assert(fp.len() > 4);
                    assert(fp[4] == s@[j as int]);
                }
            }
            j = j + 1;
        }
        proof {
            assert(fp.take(n - fstart) =~= fp);
        }
        flen = n - fstart;
    }
    if int_end - start == 0 && flen == 0 {
        proof {
            assert(ip.len() == 0);
            assert(fp.len() == 0);
        }
        return None;
    }
    proof {
        assert(all_digits(ip));
        assert(all_digits(fp));
        assert(is_points_literal(s@));
        proof_digits_val_nonneg(ip);
        proof_digits_val_nonneg(fp);
    }
    let f4: u64 = if flen == 0 {
        0
    } else if flen == 1 {
        fv * 1000
    } else if flen == 2 {
        fv * 100
    } else if flen == 3 {
        fv * 10
    } else {
        fv
    };
    proof {
        if flen >= 1 && flen <= 3 {
            assert(fp.take(flen as int) =~= fp);
        }
        assert(f4 == frac4_val(fp));
        assert(f4 <= 9999);
        if fp.len() > 4 {
            proof_digits_val_nonneg(fp.take(4));
        }
    }
    let fc: u64 = f4 + carry;
    let ghost big = digits_val(ip) * 10000 + frac4_val(fp) + points_carry(fp);
    if negative {
        proof {
            assert(s@[0] == '-');
        }
        return Some(0);
    }
    if sat {
        proof {
            let dv = digits_val(ip);
            assert(dv * 10000 >= dv) by (nonlinear_arith)
                requires
                    dv > u64::MAX,
            ;
            assert(big > u64::MAX);
        }
        return Some(u64::MAX);
    }
    proof {
        assert(acc == digits_val(ip));
    }
    if acc > 1844674407370955u64 {
        proof {
            assert(acc * 10000 >= 1844674407370956 * 10000) by (nonlinear_arith)
                requires
                    acc >= 1844674407370956,
            ;
            assert(big > u64::MAX);
        }
        Some(u64::MAX)
    } else if acc == 1844674407370955u64 {
        let base: u64 = 18446744073709550000u64;
        if fc <= u64::MAX - base {
            proof {
                assert(big == base + fc);
            }
            Some(base + fc)
        } else {
            proof {
                assert(big > u64::MAX);
            }
            Some(u64::MAX)
        }
    } else {
        proof {
            assert(acc * 10000 <= 1844674407370954 * 10000) by (nonlinear_arith)
                requires
                    acc <= 1844674407370954,
            ;
        }
        let base: u64 = acc * 10000;
        proof {
            assert(big == base + fc);
            assert(big <= u64::MAX);
        }
        Some(base + fc)
    }
}

} // verus!

verus! {

/// Whether a byte ends the points token: space, carriage return, newline,
/// or tab.
pub open spec fn delim_byte(b: u8) -> bool {
    b == 32 || b == 13 || b == 10 || b == 9
}

/// Length of the leading run of non-delimiter bytes.
pub open spec fn token_len(s: Seq<u8>) -> int
    decreases s.len(),
{
    if s.len() == 0 {
        0
    } else if delim_byte(s[0]) {
        0
    } else {
        1 + token_len(s.skip(1))
    }
}

pub proof fn lemma_token_len(s: Seq<u8>)
    ensures
        0 <= token_len(s) <= s.len(),
        forall|j: int| 0 <= j < token_len(s) ==> !delim_byte(s[j]),
        token_len(s) < s.len() ==> delim_byte(s[token_len(s)]),
    decreases s.len(),
{
    if s.len() > 0 && !delim_byte(s[0]) {
        let t = s.skip(1);
        lemma_token_len(t);
        assert(forall|j: int| 0 <= j < t.len() ==> #[trigger] t[j] == s[j + 1]);
        assert forall|j: int| 0 <= j < token_len(s) implies !delim_byte(s[j]) by {
            if j > 0 {
                assert(t[j - 1] == s[j]);
            }
        }
    }
}

/// The bytes of `points <token>` after the prefix, up to the first
/// delimiter.
pub open spec fn testlib_token(stderr: Seq<u8>) -> Seq<u8> {
    let rest = stderr.skip(7);
    rest.take(token_len(rest))
}

/// The `points ` prefix testlib writes before a partial score.
pub open spec fn points_prefix() -> Seq<u8> {
    seq![112u8, 111u8, 105u8, 110u8, 116u8, 115u8, 32u8]
}

/// Whether stderr begins with the `points ` prefix.
pub open spec fn has_points_prefix(stderr: Seq<u8>) -> bool {
    stderr.len() >= 7 && stderr.take(7) == points_prefix()
}

pub open spec fn signal_msg(sg: u8) -> Seq<char> {
    "Testlib terminated by signal "@ + dec_u64(sg as u64)
}

pub open spec fn unknown_code_msg(c: u8) -> Seq<char> {
    "Unknown testlib exit code: "@ + dec_u64(c as u64)
}

pub open spec fn no_points_msg() -> Seq<char> {
    "Testlib exit code is 7 (PT), but stderr does not start with 'points '"@
}

pub open spec fn bad_points_msg(tok: Seq<u8>) -> Seq<char> {
    "Testlib exit code is 7 (PT), but 'points ' is followed by '"@ + latin1(tok)
        + "', which is not a decimal number"@
}

impl TestVerdict {
    /// Interpret a testlib checker run: the exit code selects the verdict,
    /// and exit code 7 carries a partial score on stderr as `points <n>`.
    pub fn from_testlib(status: ExitStatus, stderr: &[u8]) -> (r: TestVerdict)
        ensures
            status matches ExitStatus::Signal(sg) ==> (r matches TestVerdict::Bug(m) && m@
                == signal_msg(sg)),
            status matches ExitStatus::ExitCode(c) ==> ((c == 0 ==> r == TestVerdict::Accepted) && (
            c == 1 ==> r == TestVerdict::WrongAnswer) && (c == 2 || c == 4 || c == 8 ==> r
                == TestVerdict::PresentationError) && (c == 3 ==> r == TestVerdict::CheckerFailed)
                && (!(c == 0 || c == 1 || c == 2 || c == 3 || c == 4 || c == 7 || c == 8) ==> (
            r matches TestVerdict::Bug(m) && m@ == unknown_code_msg(c))) && (c == 7
                && !has_points_prefix(stderr@) ==> (r matches TestVerdict::Bug(m) && m@
                == no_points_msg())) && (c == 7 && has_points_prefix(stderr@) && !is_points_literal(
                latin1(testlib_token(stderr@)),
            ) ==> (r matches TestVerdict::Bug(m) && m@ == bad_points_msg(testlib_token(stderr@))))
                && (c == 7 && has_points_prefix(stderr@) && is_points_literal(
                latin1(testlib_token(stderr@)),
            ) ==> r == TestVerdict::PartialSolution(
                points_scaled(latin1(testlib_token(stderr@))),
            ))),
    {
        match status {
            ExitStatus::Signal(sg) => {
                proof {
                    reveal_strlit("Testlib terminated by signal ");
                }
                let mut m = String::from_str("Testlib terminated by signal ");
                let num = u64_to_dec(sg as u64);
                m.append(num.as_str());
                TestVerdict::Bug(m)
            },
            ExitStatus::ExitCode(c) => {
                if c == 0 {
                    TestVerdict::Accepted
                } else if c == 1 {
                    TestVerdict::WrongAnswer
                } else if c == 2 || c == 4 || c == 8 {
                    TestVerdict::PresentationError
                } else if c == 3 {
                    TestVerdict::CheckerFailed
                } else if c == 7 {
                    Self::from_testlib_points(stderr)
                } else {
                    proof {
                        reveal_strlit("Unknown testlib exit code: ");
                    }
                    let mut m = String::from_str("Unknown testlib exit code: ");
                    let num = u64_to_dec(c as u64);
                    m.append(num.as_str());
                    TestVerdict::Bug(m)
                }
            },
        }
    }

    /// The exit-code-7 path: check the `points ` prefix, cut the token at
    /// the first whitespace, and parse it as a score.
    fn from_testlib_points(stderr: &[u8]) -> (r: TestVerdict)
        ensures
            !has_points_prefix(stderr@) ==> (r matches TestVerdict::Bug(m) && m@
                == no_points_msg()),
            has_points_prefix(stderr@) && !is_points_literal(latin1(testlib_token(stderr@)))
                ==> (r matches TestVerdict::Bug(m) && m@ == bad_points_msg(
                testlib_token(stderr@),
            )),
            has_points_prefix(stderr@) && is_points_literal(latin1(testlib_token(stderr@)))
                ==> r == TestVerdict::PartialSolution(
                points_scaled(latin1(testlib_token(stderr@))),
            ),
    {
        let n = stderr.len();
        let prefix_ok = n >= 7 && stderr[0] == 112 && stderr[1] == 111 && stderr[2] == 105
            && stderr[3] == 110 && stderr[4] == 116 && stderr[5] == 115 && stderr[6] == 32;
        proof {
            if n >= 7 {
                assert(stderr@.take(7).len() == points_prefix().len());
                if prefix_ok {
                    assert(stderr@.take(7) =~= points_prefix());
                } else {
                    assert(!(stderr@.take(7) =~= points_prefix()));
                }
            }
        }
        if !prefix_ok {
            proof {
                reveal_strlit(
                    "Testlib exit code is 7 (PT), but stderr does not start with 'points '",
                );
            }
            return TestVerdict::Bug(
                String::from_str(
                    "Testlib exit code is 7 (PT), but stderr does not start with 'points '",
                ),
            );
        }
        let ghost rest = stderr@.skip(7);
        proof {
            lemma_token_len(rest);
        }
        let mut end: usize = 7;
        while end < n && !(stderr[end] == 32 || stderr[end] == 13 || stderr[end] == 10
            || stderr[end] == 9)
            invariant
                7 <= end <= n,
                n == stderr@.len(),
                rest == stderr@.skip(7),
                forall|j: int| 0 <= j < end - 7 ==> !delim_byte(#[trigger] rest[j]),
            decreases n - end,
        {
            end = end + 1;
        }
        proof {
            assert(forall|j: int| 0 <= j < rest.len() ==> rest[j] == stderr@[j + 7]);
            if end < n {
                assert(delim_byte(rest[end - 7]));
            }
            if token_len(rest) < end - 7 {
                assert(!delim_byte(rest[token_len(rest)]));
                assert(false);
            }
            if token_len(rest) > end - 7 {
                assert(end < n);
                assert(false);
            }
            assert(token_len(rest) == end - 7);
            assert(testlib_token(stderr@) =~= stderr@.subrange(7, end as int));
        }
        let token_str = bytes_to_latin1(stderr, 7, end);
        match parse_points_scaled(token_str.as_str()) {
            Some(v) => TestVerdict::PartialSolution(v),
            None => {
                proof {
                    reveal_strlit("Testlib exit code is 7 (PT), but 'points ' is followed by '");
                    reveal_strlit("', which is not a decimal number");
                }
                let mut m = String::from_str(
                    "Testlib exit code is 7 (PT), but 'points ' is followed by '",
                );
                m.append(token_str.as_str());
                m.append("', which is not a decimal number");
                TestVerdict::Bug(m)
            },
        }
    }
}

} // verus!
