//! The error taxonomy of the price client.
//!
//! Every failure aborts the report that is being built; there is no retry
//! and no partial result.

use vstd::prelude::*;

verus! {

/// What went wrong while building a price report.
#[derive(Clone, Copy, Debug, PartialEq, Eq, Structural)]
pub enum PriceError {
    /// A configured asset's address string is not hexadecimal of the
    /// expected length.
    AddressParse,
    /// The RPC provider was unreachable or failed at the transport level.
    Transport,
    /// The call response could not be parsed into the expected numeric
    /// type.
    Decode,
    /// The numeric-to-floating-point conversion failed downstream.
    Scaling,
}

} // verus!
