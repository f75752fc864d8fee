//! Entry dispatch: a re-executed binary recognizes itself by its sentinel
//! argv[0] and three inherited file descriptors; anything else runs the
//! registered application main.

use vstd::prelude::*;

use crate::strutil::{int_literal_val, is_int_literal, parse_i32, str_eq_str};

verus! {

/// Turn a main function's result into a process exit code.
pub trait Report {
    /// The exit code the value stands for.
    spec fn code(self) -> i32;

    /// Report the value as an exit code.
    fn report(self) -> (r: i32)
        ensures
            r == self.code(),
    ;
}

impl Report for () {
    open spec fn code(self) -> i32 {
        0
    }

    fn report(self) -> (r: i32) {
        0
    }
}

impl<T, E> Report for Result<T, E> {
    open spec fn code(self) -> i32 {
        if self is Ok {
            0
        } else {
            1
        }
    }

    fn report(self) -> (r: i32) {
        match self {
            Ok(_) => 0,
            Err(_) => 1,
        }
    }
}

/// What a process should do, judging from its argument vector.
#[derive(Clone, Copy, PartialEq, Eq, Structural, Debug)]
pub enum Dispatch {
    /// The sentinel was present with three well-formed descriptor numbers:
    /// run as a child worker on these descriptors.
    Child { entry_rx_fd: i32, input_rx_fd: i32, output_tx_fd: i32 },
    /// No sentinel: run the registered application main.
    RunMain,
    /// The sentinel was present but the descriptor arguments are missing or
    /// malformed.
    BadSentinelArgs,
}

/// Whether an argument holds a well-formed descriptor number.
pub open spec fn valid_fd_arg(s: Seq<char>) -> bool {
    is_int_literal(s) && i32::MIN <= int_literal_val(s) <= i32::MAX
}

/// Decide what this process is, from its argument vector: the process name
/// and, when the sentinel is present, three decimal descriptor numbers.
pub fn dispatch(argv: &Vec<String>) -> (r: Dispatch)
    ensures
        argv@.len() == 0 || argv@[0]@ != "_multiprocessing_"@ ==> r == Dispatch::RunMain,
        argv@.len() > 0 && argv@[0]@ == "_multiprocessing_"@ ==> if argv@.len() >= 4
            && valid_fd_arg(argv@[1]@) && valid_fd_arg(argv@[2]@) && valid_fd_arg(argv@[3]@) {
            r == (Dispatch::Child {
                entry_rx_fd: int_literal_val(argv@[1]@) as i32,
                input_rx_fd: int_literal_val(argv@[2]@) as i32,
                output_tx_fd: int_literal_val(argv@[3]@) as i32,
            })
        } else {
            r == Dispatch::BadSentinelArgs
        },
{
    if argv.len() == 0 {
        return Dispatch::RunMain;
    }
    if !str_eq_str(argv[0].as_str(), "_multiprocessing_") {
        return Dispatch::RunMain;
    }
    if argv.len() < 4 {
        return Dispatch::BadSentinelArgs;
    }
    let entry = parse_i32(argv[1].as_str());
    let input = parse_i32(argv[2].as_str());
    let output = parse_i32(argv[3].as_str());
    match (entry, input, output) {
        (Some(e), Some(i), Some(o)) => Dispatch::Child {
            entry_rx_fd: e,
            input_rx_fd: i,
            output_tx_fd: o,
        },
        _ => Dispatch::BadSentinelArgs,
    }
}

} // verus!
