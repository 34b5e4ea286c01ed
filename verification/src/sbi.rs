//! The firmware call interface.
//!
//! The kernel's only external service is the firmware console, reached
//! through the platform's privileged-call convention: a call identified
//! by an extension and function id, with its arguments in registers. The
//! call itself is a hardware instruction and lives outside this library;
//! here stands the value it returns, an error and a value register pair,
//! which the kernel never consults beyond completion.

use vstd::prelude::*;

verus! {

/// The register pair a firmware call returns.
#[derive(Clone, Copy, Debug, PartialEq, Eq, Structural)]
pub struct SbiRet {
    /// The firmware's error code; zero on success.
    pub error: i32,
    /// The call's result value.
    pub value: i32,
}

} // verus!
