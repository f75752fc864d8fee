//! The invoker's error taxonomy.

use vstd::prelude::*;

verus! {

/// Every failure the invoker core reports falls in one of these kinds.
#[derive(Debug)]
pub enum Error {
    /// Truncated buffer, unknown variant, missing type key or descriptor.
    Codec(String),
    /// Short write, closed peer, descriptor overflow, unterminated stream.
    Channel(String),
    /// A mount, unshare, pivot or id-map step failed, with its context.
    SandboxSetup(String),
    /// A spawned process exited nonzero or died to a signal.
    ChildFailed(String),
    /// A spawned process exited cleanly without sending its value.
    NoValue,
    /// A package, language or prerequisite is missing.
    ConfigurationFailure(String),
    /// A logical protocol violation inside the invoker.
    InvokerFailure(String),
    /// A logical protocol violation by the conductor.
    ConductorFailure(String),
}

impl Error {
    /// A short label naming the kind of error.
    pub fn kind_str(&self) -> (r: &'static str)
        ensures
            *self matches Error::Codec(_) ==> r@ == "codec error"@,
            *self matches Error::Channel(_) ==> r@ == "channel error"@,
            *self matches Error::SandboxSetup(_) ==> r@ == "sandbox setup failed"@,
            *self matches Error::ChildFailed(_) ==> r@ == "child failed"@,
            *self matches Error::NoValue ==> r@ == "no value returned"@,
            *self matches Error::ConfigurationFailure(_) ==> r@ == "configuration failure"@,
            *self matches Error::InvokerFailure(_) ==> r@ == "invoker failure"@,
            *self matches Error::ConductorFailure(_) ==> r@ == "conductor failure"@,
    {
        match self {
            Error::Codec(_) => "codec error",
            Error::Channel(_) => "channel error",
            Error::SandboxSetup(_) => "sandbox setup failed",
            Error::ChildFailed(_) => "child failed",
            Error::NoValue => "no value returned",
            Error::ConfigurationFailure(_) => "configuration failure",
            Error::InvokerFailure(_) => "invoker failure",
            Error::ConductorFailure(_) => "conductor failure",
        }
    }
}

} // verus!
