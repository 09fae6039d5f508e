//! Value types shared by the cache, the request encoder and the resolver.

use vstd::prelude::*;

verus! {

/// Shape tag of a result batch.  `Single`, `Multiple` and `Collect` carry one
/// result per (pair, provider) index; `Mean` and `Median` carry exactly one
/// aggregate result that applies to the whole batch.
#[derive(Clone, Copy, Debug, PartialEq, Eq, Structural)]
pub enum PriceType {
    Single,
    Multiple,
    Mean,
    Median,
    Collect,
}

/// True of the tags whose batches carry a single aggregate value.
pub open spec fn is_aggregate(t: PriceType) -> bool {
    t == PriceType::Mean || t == PriceType::Median
}

/// Mathematical model of one cached price report.
pub ghost struct EntryModel {
    pub price: u128,
    pub sender: Seq<char>,
    pub price_type: PriceType,
}

/// Immutable snapshot of one reported price: the scaled price itself, the
/// account that pushed it, and the shape tag of the batch it arrived in.
/// A snapshot is replaced wholesale on update, never partially mutated.
#[derive(Debug)]
pub struct PriceEntry {
    pub price: u128,
    pub sender: String,
    pub price_type: PriceType,
}

impl View for PriceEntry {
    type V = EntryModel;

    open spec fn view(&self) -> EntryModel {
        EntryModel { price: self.price, sender: self.sender@, price_type: self.price_type }
    }
}

impl DeepView for PriceEntry {
    type V = EntryModel;

    open spec fn deep_view(&self) -> EntryModel {
        self@
    }
}

impl Clone for PriceEntry {
    fn clone(&self) -> (r: Self)
        ensures
            r@ == self@,
    {
        PriceEntry { price: self.price, sender: self.sender.clone(), price_type: self.price_type }
    }
}

/// How a handler rejects a call.  Every variant aborts the whole invocation
/// in the host, so a handler that returns one has changed no state.
#[derive(Clone, Copy, Debug, PartialEq, Eq, Structural)]
pub enum RequesterError {
    /// The caller is not the account the entry point is reserved for.
    Unauthorized,
    /// `get_pair` was asked about a provider that never supplied data.
    ProviderNotFound,
    /// `get_pair` was asked about a pair the provider never reported.
    PairNotFound,
    /// A successful upstream outcome carried bytes that do not spell a value
    /// of the expected shape: a protocol mismatch with a trusted oracle.
    PayloadCorrupt,
    /// A payment-gated request was made but no payment token is configured.
    NoPaymentToken,
}

/// Outcome of a previously issued asynchronous call, as the host reports it
/// to the continuation.  A dropped or failed call and a not-yet-ready slot
/// are treated alike: no payload is available.
pub enum PromiseOutcome {
    NotReady,
    Failed,
    Successful(Vec<u8>),
}

} // verus!
