//! Descriptors of outbound oracle calls.  The verified core decides what to
//! ask and with which arguments; the contract shell turns a descriptor into
//! the host's asynchronous call, with the matching continuation attached.

use vstd::prelude::*;

verus! {

/// No payment rides on a direct read.
pub const NO_DEPOSIT: u128 = 0;

/// Gas reserved for the read and for the continuation that decodes it; the
/// continuation's budget must cover its decoding work.
pub const GAS_FOR_RESOLVE_TRANSFER: u64 = 5_000_000_000_000;

/// Which read method of the oracle a direct request calls.
#[derive(Clone, Copy, Debug, PartialEq, Eq, Structural)]
pub enum OracleMethod {
    GetPrice,
    GetPrices,
    AggregateAvg,
    AggregateMedian,
}

/// A direct-mode request: an asynchronous call to one of the oracle's read
/// methods, with a continuation on the requester itself and no payment.
#[derive(Debug)]
pub struct OracleRequest {
    /// Target account: the configured oracle.
    pub oracle: String,
    /// The read method to call.
    pub method: OracleMethod,
    /// Trading pairs asked about, in request order.
    pub pairs: Vec<String>,
    /// Provider accounts asked, positionally matching `pairs` where the
    /// method takes both.
    pub providers: Vec<String>,
    /// Freshness bound, only for the aggregate methods.
    pub min_last_update: Option<u64>,
    /// Value attached to the call.
    pub deposit: u128,
    /// Gas attached to the call and to its continuation.
    pub gas: u64,
}

} // verus!
