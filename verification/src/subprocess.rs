//! Spawning a worker: the argument vector handed to the re-executed binary,
//! and the interpretation of a joined child's outcome.

use vstd::prelude::*;
use vstd::string::StringExecFns;

use crate::errors::Error;
use crate::strutil::{
    all_digits, dec_i32, dec_u64, digit, digits_val, i32_to_dec, int_body, int_literal_val,
    is_int_literal,
};

verus! {

/// The decimal rendering of an unsigned value consists of digits and
/// denotes the value back.
pub proof fn lemma_dec_u64_val(n: u64)
    ensures
        dec_u64(n).len() >= 1,
        all_digits(dec_u64(n)),
        digits_val(dec_u64(n)) == n,
    decreases n,
{
    if n < 10 {
        let s = dec_u64(n);
        assert(s =~= seq![digit(n as int)]);
        assert(s.take(0int) =~= Seq::<char>::empty());
        assert(digits_val(Seq::<char>::empty()) == 0);
        assert(digits_val(s) == digits_val(s.take(0int)) * 10 + (s.last() as int - 48));
        assert(digit(n as int) as int - 48 == n);
        assert('0' <= digit(n as int) <= '9');
    } else {
        lemma_dec_u64_val(n / 10);
        let s = dec_u64(n);
        let p = dec_u64(n / 10);
        assert(s =~= p + seq![digit((n % 10) as int)]);
        assert(s.take(s.len() - 1) =~= p);
        assert(s.last() == digit((n % 10) as int));
        assert('0' <= digit((n % 10) as int) <= '9');
        assert(forall|j: int| 0 <= j < p.len() ==> s[j] == p[j]);
        assert(all_digits(s));
        assert(digit((n % 10) as int) as int - 48 == n % 10);
        assert(digits_val(s) == digits_val(s.take(s.len() - 1)) * 10 + (s.last() as int - 48));
        assert(digits_val(s) == digits_val(p) * 10 + (n % 10));
    }
}

/// The decimal rendering of a signed value parses back to the value.
pub proof fn lemma_dec_i32_roundtrip(n: i32)
    ensures
        is_int_literal(dec_i32(n)),
        int_literal_val(dec_i32(n)) == n,
{
    if n >= 0 {
        lemma_dec_u64_val(n as u64);
        let s = dec_i32(n);
        assert(s == dec_u64(n as u64));
        assert('0' <= s[0] <= '9');
        assert(s[0] != '-' && s[0] != '+');
        assert(int_body(s) == s);
    } else {
        let m = (-(n as int)) as u64;
        lemma_dec_u64_val(m);
        let s = dec_i32(n);
        assert(s =~= seq!['-'] + dec_u64(m));
        assert(s[0] == '-');
        assert(int_body(s) =~= dec_u64(m));
    }
}

/// The sentinel a re-executed binary recognizes itself by.
pub fn sentinel_name() -> (r: &'static str)
    ensures
        r@ == "_multiprocessing_"@,
{
    "_multiprocessing_"
}

/// The argument vector for a spawned worker: the sentinel, then the entry,
/// input and output descriptor numbers in decimal.
pub fn sentinel_argv(entry_rx_fd: i32, input_rx_fd: i32, output_tx_fd: i32) -> (r: Vec<String>)
    ensures
        r@.len() == 4,
        r@[0]@ == "_multiprocessing_"@,
        r@[1]@ == dec_i32(entry_rx_fd),
        r@[2]@ == dec_i32(input_rx_fd),
        r@[3]@ == dec_i32(output_tx_fd),
{
    let mut r: Vec<String> = Vec::new();
    r.push(String::from_str(sentinel_name()));
    r.push(i32_to_dec(entry_rx_fd));
    r.push(i32_to_dec(input_rx_fd));
    r.push(i32_to_dec(output_tx_fd));
    r
}

/// The outcome of joining a child: the value it sent, if its exit status
/// was success and it sent exactly one value.
pub fn join_outcome<T>(exited_ok: bool, value: Option<T>) -> (r: Result<T, Error>)
    ensures
        !exited_ok ==> (r matches Err(e) && e matches Error::ChildFailed(m) && m@
            == "The subprocess did not terminate successfully"@),
        exited_ok && value is None ==> (r matches Err(e) && e is NoValue),
        value matches Some(v) ==> (exited_ok ==> (r matches Ok(w) && w == v)),
        r is Ok ==> exited_ok && value is Some,
{
    proof {
        reveal_strlit("The subprocess did not terminate successfully");
    }
    if !exited_ok {
        return Err(
            Error::ChildFailed(String::from_str("The subprocess did not terminate successfully")),
        );
    }
    match value {
        Some(v) => Ok(v),
        None => Err(Error::NoValue),
    }
}

} // verus!
