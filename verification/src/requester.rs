//! The requester's root state and its privileged entry points: the oracle's
//! push handlers and the public cache read.  Every handler takes the
//! authenticated caller as an argument; a handler that returns an error has
//! written nothing, matching the host's abort-and-roll-back discipline.

use vstd::prelude::*;

use crate::cache::{Provider, ProviderMap};
use crate::fungible_token_handler::{fungible_token_transfer_call, TokenTransferCall,
    TRANSFER_CALL_DEPOSIT, ENTRY_GAS};
use crate::message::{encode_request_descriptor, request_descriptor};
use crate::payload::{parse_price, parse_price_vector, scalar_payload, vector_payload};
use crate::reconcile::{apply_outcome, apply_push, lookup_entry, push_pairs, record_of, sel_result,
    StoreModel};
use crate::request::{OracleMethod, OracleRequest, GAS_FOR_RESOLVE_TRANSFER, NO_DEPOSIT};
use crate::types::{is_aggregate, PriceEntry, PriceType, PromiseOutcome, RequesterError};

verus! {

/// What a scalar continuation must hand back for a batch of pending
/// outcomes: a safe `None` unless exactly one result is pending and it
/// succeeded, the decoded value if its payload parses, and a fatal protocol
/// error if it does not.
pub open spec fn scalar_resolution(
    outcomes: Seq<PromiseOutcome>,
    r: Result<Option<u128>, RequesterError>,
) -> bool {
    if outcomes.len() != 1 {
        r == Ok::<Option<u128>, RequesterError>(None)
    } else {
        match outcomes[0] {
            PromiseOutcome::Successful(bytes) => match scalar_payload(bytes@) {
                Some(v) => r == Ok::<Option<u128>, RequesterError>(v),
                None => r == Err::<Option<u128>, RequesterError>(RequesterError::PayloadCorrupt),
            },
            _ => r == Ok::<Option<u128>, RequesterError>(None),
        }
    }
}

/// The vector counterpart.  Its safe default is the one-element `[None]`
/// placeholder the batch read has always answered with on a soft failure.
pub open spec fn vector_resolution(
    outcomes: Seq<PromiseOutcome>,
    r: Result<Vec<Option<u128>>, RequesterError>,
) -> bool {
    if outcomes.len() != 1 {
        r matches Ok(v) && v@ == seq![Option::<u128>::None]
    } else {
        match outcomes[0] {
            PromiseOutcome::Successful(bytes) => match vector_payload(bytes@) {
                Some(vs) => r matches Ok(v) && v@ == vs,
                None => r == Err::<Vec<Option<u128>>, RequesterError>(
                    RequesterError::PayloadCorrupt,
                ),
            },
            _ => r matches Ok(v) && v@ == seq![Option::<u128>::None],
        }
    }
}

/// Decode one pending scalar outcome; shared by every scalar continuation.
fn resolve_scalar(outcomes: &Vec<PromiseOutcome>) -> (r: Result<Option<u128>, RequesterError>)
    ensures
        scalar_resolution(outcomes@, r),
{
    if outcomes.len() != 1 {
        return Ok(None);
    }
    match &outcomes[0] {
        PromiseOutcome::Successful(bytes) => match parse_price(bytes) {
            Some(v) => Ok(v),
            None => Err(RequesterError::PayloadCorrupt),
        },
        _ => Ok(None),
    }
}

/// Decode one pending vector outcome.
fn resolve_vector(outcomes: &Vec<PromiseOutcome>) -> (r: Result<
    Vec<Option<u128>>,
    RequesterError,
>)
    ensures
        vector_resolution(outcomes@, r),
{
    if outcomes.len() != 1 {
        let out: Vec<Option<u128>> = vec![None];
        proof {
            assert(out@ =~= seq![Option::<u128>::None]);
        }
        return Ok(out);
    }
    match &outcomes[0] {
        PromiseOutcome::Successful(bytes) => match parse_price_vector(bytes) {
            Some(v) => Ok(v),
            None => Err(RequesterError::PayloadCorrupt),
        },
        _ => {
            let out: Vec<Option<u128>> = vec![None];
            proof {
                assert(out@ =~= seq![Option::<u128>::None]);
            }
            Ok(out)
        },
    }
}

/// Mathematical model of the root state.
pub ghost struct RequesterModel {
    pub oracle: Seq<char>,
    pub payment_token: Option<Seq<char>>,
    pub providers: StoreModel,
}

/// Root state, created once at contract initialization.  The oracle account
/// and the optional payment-token account are immutable after `new`; the
/// provider store grows monotonically.
pub struct Requester {
    oracle: String,
    payment_token: Option<String>,
    providers: ProviderMap,
}

impl View for Requester {
    type V = RequesterModel;

    closed spec fn view(&self) -> RequesterModel {
        RequesterModel {
            oracle: self.oracle@,
            payment_token: self.payment_token.deep_view(),
            providers: self.providers@,
        }
    }
}

impl Requester {
    pub closed spec fn wf(&self) -> bool {
        self.providers.wf()
    }

    /// Initialize the singleton: the trusted oracle account, the optional
    /// token account used to pay for data, and an empty provider store.
    pub fn new(oracle: String, payment_token: Option<String>) -> (r: Self)
        ensures
            r.wf(),
            r@.oracle == oracle@,
            r@.payment_token == payment_token.deep_view(),
            r@.providers == Map::<Seq<char>, Map<Seq<char>, crate::types::EntryModel>>::empty(),
    {
        Requester { oracle, payment_token, providers: ProviderMap::new() }
    }

    /// The cached entry for `(provider, pair)`, or a "not found" rejection
    /// naming which of the two keys is missing.
    pub fn get_pair(&self, provider: String, pair: String) -> (r: Result<
        PriceEntry,
        RequesterError,
    >)
        requires
            self.wf(),
        ensures
            (match r {
                Ok(e) => lookup_entry(self@.providers, provider@, pair@) == Some(e@),
                Err(RequesterError::ProviderNotFound) => !self@.providers.contains_key(provider@),
                Err(RequesterError::PairNotFound) => self@.providers.contains_key(provider@)
                    && !self@.providers[provider@].contains_key(pair@),
                Err(_) => false,
            }),
            r is Ok <==> lookup_entry(self@.providers, provider@, pair@) is Some,
    {
        match self.providers.get(&provider) {
            None => Err(RequesterError::ProviderNotFound),
            Some(record) => match record.pairs.get(&pair) {
                None => Err(RequesterError::PairNotFound),
                Some(entry) => Ok(entry.clone()),
            },
        }
    }

    /// Oracle-authorized bulk write: entry `i` is stored under pair `i` in
    /// provider `i`'s record.  Any other caller is rejected before a single
    /// write, leaving the store unchanged.
    pub fn set_outcome(
        &mut self,
        caller: &String,
        providers: Vec<String>,
        pairs: Vec<String>,
        entries: Vec<PriceEntry>,
    ) -> (r: Result<(), RequesterError>)
        requires
            old(self).wf(),
            pairs@.len() >= providers@.len(),
            entries@.len() >= providers@.len(),
        ensures
            final(self).wf(),
            caller@ != old(self)@.oracle ==> r == Err::<(), RequesterError>(
                RequesterError::Unauthorized,
            ) && final(self)@ == old(self)@,
            caller@ == old(self)@.oracle ==> {
                &&& r == Ok::<(), RequesterError>(())
                &&& final(self)@.oracle == old(self)@.oracle
                &&& final(self)@.payment_token == old(self)@.payment_token
                &&& final(self)@.providers == apply_outcome(
                    old(self)@.providers,
                    providers.deep_view(),
                    pairs.deep_view(),
                    entries.deep_view(),
                )
            },
    {
        if !(*caller == self.oracle) {
            return Err(RequesterError::Unauthorized);
        }
        let ghost m0 = self.providers@;
        let ghost pseq = providers.deep_view();
        let ghost qseq = pairs.deep_view();
        let ghost eseq = entries.deep_view();
        proof {
            assert(pseq.skip(0) =~= pseq);
            assert(qseq.skip(0) =~= qseq);
            assert(eseq.skip(0) =~= eseq);
        }
        let mut i: usize = 0;
        while i < providers.len()
            invariant
                self.providers.wf(),
                i <= providers@.len(),
                pairs@.len() >= providers@.len(),
                entries@.len() >= providers@.len(),
                pseq == providers.deep_view(),
                qseq == pairs.deep_view(),
                eseq == entries.deep_view(),
                self.oracle == old(self).oracle,
                self.payment_token == old(self).payment_token,
                apply_outcome(
                    self.providers@,
                    pseq.skip(i as int),
                    qseq.skip(i as int),
                    eseq.skip(i as int),
                ) == apply_outcome(m0, pseq, qseq, eseq),
            decreases providers@.len() - i,
        {
            let ghost mcur = self.providers@;
            let account = &providers[i];
            let mut record = match self.providers.take(account) {
                Some(p) => p,
                None => Provider::new(),
            };
            proof {
                assert(record@ == record_of(mcur, account@));
            }
            record.set_pair(&pairs[i], &entries[i]);
            self.providers.insert(account.clone(), record);
            proof {
                assert(self.providers@ =~= mcur.insert(
                    account@,
                    record_of(mcur, account@).insert(pairs@[i as int]@, entries@[i as int]@),
                ));
                assert(pseq.skip(i as int)[0] == account@);
                assert(qseq.skip(i as int)[0] == pairs@[i as int]@);
                assert(eseq.skip(i as int)[0] == entries@[i as int]@);
                assert(pseq.skip(i as int).drop_first() =~= pseq.skip(i as int + 1));
                assert(qseq.skip(i as int).drop_first() =~= qseq.skip(i as int + 1));
                assert(eseq.skip(i as int).drop_first() =~= eseq.skip(i as int + 1));
            }
            i += 1;
        }
        proof {
            assert(pseq.skip(providers@.len() as int) =~= Seq::<Seq<char>>::empty());
        }
        Ok(())
    }

    /// Reconcile a pushed result bundle: for every listed provider, apply
    /// the whole pair batch to its record and store the record back.
    /// Aggregate batches broadcast their single value across every slot;
    /// positional batches are applied index by index; an absent value leaves
    /// its pair's previous entry in place.  Only the oracle may push.
    pub fn on_price_received(
        &mut self,
        caller: &String,
        sender_id: String,
        pairs: Vec<String>,
        providers: Vec<String>,
        price_type: PriceType,
        results: Vec<Option<u128>>,
    ) -> (r: Result<(), RequesterError>)
        requires
            old(self).wf(),
            is_aggregate(price_type) && pairs@.len() > 0 ==> results@.len() > 0,
            !is_aggregate(price_type) ==> results@.len() >= pairs@.len(),
        ensures
            final(self).wf(),
            caller@ != old(self)@.oracle ==> r == Err::<(), RequesterError>(
                RequesterError::Unauthorized,
            ) && final(self)@ == old(self)@,
            caller@ == old(self)@.oracle ==> {
                &&& r == Ok::<(), RequesterError>(())
                &&& final(self)@.oracle == old(self)@.oracle
                &&& final(self)@.payment_token == old(self)@.payment_token
                &&& final(self)@.providers == apply_push(
                    old(self)@.providers,
                    sender_id@,
                    pairs.deep_view(),
                    providers.deep_view(),
                    price_type,
                    results@,
                )
            },
    {
        if !(*caller == self.oracle) {
            return Err(RequesterError::Unauthorized);
        }
        let ghost m0 = self.providers@;
        let ghost pseq = providers.deep_view();
        let ghost qseq = pairs.deep_view();
        proof {
            assert(pseq.skip(0) =~= pseq);
        }
        let mut j: usize = 0;
        while j < providers.len()
            invariant
                self.providers.wf(),
                j <= providers@.len(),
                is_aggregate(price_type) && pairs@.len() > 0 ==> results@.len() > 0,
                !is_aggregate(price_type) ==> results@.len() >= pairs@.len(),
                pseq == providers.deep_view(),
                qseq == pairs.deep_view(),
                self.oracle == old(self).oracle,
                self.payment_token == old(self).payment_token,
                apply_push(
                    self.providers@,
                    sender_id@,
                    qseq,
                    pseq.skip(j as int),
                    price_type,
                    results@,
                ) == apply_push(m0, sender_id@, qseq, pseq, price_type, results@),
            decreases providers@.len() - j,
        {
            let ghost mcur = self.providers@;
            let account = &providers[j];
            let mut record = match self.providers.take(account) {
                Some(p) => p,
                None => Provider::new(),
            };
            let ghost base = record@;
            proof {
                assert(base == record_of(mcur, account@));
            }
            let mut i: usize = 0;
            while i < pairs.len()
                invariant
                    record.wf(),
                    i <= pairs@.len(),
                    is_aggregate(price_type) && pairs@.len() > 0 ==> results@.len() > 0,
                    !is_aggregate(price_type) ==> results@.len() >= pairs@.len(),
                    qseq == pairs.deep_view(),
                    record@ == push_pairs(base, sender_id@, qseq, price_type, results@, i as int),
                decreases pairs@.len() - i,
            {
                let selected: Option<u128> = if price_type == PriceType::Mean || price_type
                    == PriceType::Median {
                    results[0]
                } else {
                    results[i]
                };
                proof {
                    assert(selected == sel_result(price_type, results@, i as int));
                }
                match selected {
                    Some(price) => {
                        let entry = PriceEntry {
                            price,
                            sender: sender_id.clone(),
                            price_type,
                        };
                        record.set_pair(&pairs[i], &entry);
                    },
                    None => (),
                }
                i += 1;
            }
            self.providers.insert(account.clone(), record);
            proof {
                assert(self.providers@ =~= mcur.insert(
                    account@,
                    push_pairs(
                        record_of(mcur, account@),
                        sender_id@,
                        qseq,
                        price_type,
                        results@,
                        qseq.len() as int,
                    ),
                ));
                assert(pseq.skip(j as int)[0] == account@);
                assert(pseq.skip(j as int).drop_first() =~= pseq.skip(j as int + 1));
            }
            j += 1;
        }
        proof {
            assert(pseq.skip(providers@.len() as int) =~= Seq::<Seq<char>>::empty());
        }
        Ok(())
    }

    /// Continuation of a `get_price` request: callable only by the
    /// contract's own account, and a soft `None` unless exactly one result
    /// is pending.
    pub fn get_price_callback(
        &self,
        current_account: &String,
        caller: &String,
        outcomes: &Vec<PromiseOutcome>,
    ) -> (r: Result<Option<u128>, RequesterError>)
        ensures
            caller@ != current_account@ ==> r == Err::<Option<u128>, RequesterError>(
                RequesterError::Unauthorized,
            ),
            caller@ == current_account@ ==> scalar_resolution(outcomes@, r),
    {
        if !(*caller == *current_account) {
            return Err(RequesterError::Unauthorized);
        }
        resolve_scalar(outcomes)
    }

    /// Continuation of a `get_prices` request; its soft default is the
    /// single-element `[None]` placeholder.
    pub fn get_prices_callback(
        &self,
        current_account: &String,
        caller: &String,
        outcomes: &Vec<PromiseOutcome>,
    ) -> (r: Result<Vec<Option<u128>>, RequesterError>)
        ensures
            caller@ != current_account@ ==> r == Err::<Vec<Option<u128>>, RequesterError>(
                RequesterError::Unauthorized,
            ),
            caller@ == current_account@ ==> vector_resolution(outcomes@, r),
    {
        if !(*caller == *current_account) {
            return Err(RequesterError::Unauthorized);
        }
        resolve_vector(outcomes)
    }

    /// Continuation of an `aggregate_avg` request.
    pub fn aggregate_avg_callback(
        &self,
        current_account: &String,
        caller: &String,
        outcomes: &Vec<PromiseOutcome>,
    ) -> (r: Result<Option<u128>, RequesterError>)
        ensures
            caller@ != current_account@ ==> r == Err::<Option<u128>, RequesterError>(
                RequesterError::Unauthorized,
            ),
            caller@ == current_account@ ==> scalar_resolution(outcomes@, r),
    {
        if !(*caller == *current_account) {
            return Err(RequesterError::Unauthorized);
        }
        resolve_scalar(outcomes)
    }

    /// Continuation of an `aggregate_median` request.
    pub fn aggregate_median_callback(
        &self,
        current_account: &String,
        caller: &String,
        outcomes: &Vec<PromiseOutcome>,
    ) -> (r: Result<Option<u128>, RequesterError>)
        ensures
            caller@ != current_account@ ==> r == Err::<Option<u128>, RequesterError>(
                RequesterError::Unauthorized,
            ),
            caller@ == current_account@ ==> scalar_resolution(outcomes@, r),
    {
        if !(*caller == *current_account) {
            return Err(RequesterError::Unauthorized);
        }
        resolve_scalar(outcomes)
    }

    /// Ask the oracle for one pair's price from one provider.
    pub fn get_price(&self, pair: String, provider: String) -> (r: OracleRequest)
        ensures
            r.oracle@ == self@.oracle,
            r.method == OracleMethod::GetPrice,
            r.pairs.deep_view() == seq![pair@],
            r.providers.deep_view() == seq![provider@],
            r.min_last_update is None,
            r.deposit == NO_DEPOSIT,
            r.gas == GAS_FOR_RESOLVE_TRANSFER,
    {
        let ghost gpair = pair@;
        let ghost gprovider = provider@;
        let pairs: Vec<String> = vec![pair];
        let providers: Vec<String> = vec![provider];
        proof {
            assert(pairs.deep_view() =~= seq![gpair]);
            assert(providers.deep_view() =~= seq![gprovider]);
        }
        OracleRequest {
            oracle: self.oracle.clone(),
            method: OracleMethod::GetPrice,
            pairs,
            providers,
            min_last_update: None,
            deposit: NO_DEPOSIT,
            gas: GAS_FOR_RESOLVE_TRANSFER,
        }
    }

    /// Ask the oracle for a batch of pairs, positionally matched with their
    /// providers.
    pub fn get_prices(&self, pairs: Vec<String>, providers: Vec<String>) -> (r: OracleRequest)
        ensures
            r.oracle@ == self@.oracle,
            r.method == OracleMethod::GetPrices,
            r.pairs@ == pairs@,
            r.providers@ == providers@,
            r.min_last_update is None,
            r.deposit == NO_DEPOSIT,
            r.gas == GAS_FOR_RESOLVE_TRANSFER,
    {
        OracleRequest {
            oracle: self.oracle.clone(),
            method: OracleMethod::GetPrices,
            pairs,
            providers,
            min_last_update: None,
            deposit: NO_DEPOSIT,
            gas: GAS_FOR_RESOLVE_TRANSFER,
        }
    }

    /// Ask the oracle for the mean over a batch, no older than
    /// `min_last_update`.
    pub fn aggregate_avg(
        &self,
        pairs: Vec<String>,
        providers: Vec<String>,
        min_last_update: u64,
    ) -> (r: OracleRequest)
        ensures
            r.oracle@ == self@.oracle,
            r.method == OracleMethod::AggregateAvg,
            r.pairs@ == pairs@,
            r.providers@ == providers@,
            r.min_last_update == Some(min_last_update),
            r.deposit == NO_DEPOSIT,
            r.gas == GAS_FOR_RESOLVE_TRANSFER,
    {
        OracleRequest {
            oracle: self.oracle.clone(),
            method: OracleMethod::AggregateAvg,
            pairs,
            providers,
            min_last_update: Some(min_last_update),
            deposit: NO_DEPOSIT,
            gas: GAS_FOR_RESOLVE_TRANSFER,
        }
    }

    /// Ask the oracle for the median over a batch, no older than
    /// `min_last_update`.
    pub fn aggregate_median(
        &self,
        pairs: Vec<String>,
        providers: Vec<String>,
        min_last_update: u64,
    ) -> (r: OracleRequest)
        ensures
            r.oracle@ == self@.oracle,
            r.method == OracleMethod::AggregateMedian,
            r.pairs@ == pairs@,
            r.providers@ == providers@,
            r.min_last_update == Some(min_last_update),
            r.deposit == NO_DEPOSIT,
            r.gas == GAS_FOR_RESOLVE_TRANSFER,
    {
        OracleRequest {
            oracle: self.oracle.clone(),
            method: OracleMethod::AggregateMedian,
            pairs,
            providers,
            min_last_update: Some(min_last_update),
            deposit: NO_DEPOSIT,
            gas: GAS_FOR_RESOLVE_TRANSFER,
        }
    }

    /// Payment-gated read: pay `amount` through the configured token
    /// contract and carry the request descriptor as the transfer message.
    /// Rejected, with nothing issued, when no payment token is configured.
    pub fn get_entry(
        &self,
        pair: String,
        provider: String,
        amount: u128,
        min_last_update: u64,
    ) -> (r: Result<TokenTransferCall, RequesterError>)
        ensures
            (match r {
                Ok(c) => {
                    &&& self@.payment_token matches Some(t) && c.token@ == t
                    &&& c.receiver@ == self@.oracle
                    &&& c.amount == amount
                    &&& c.memo is None
                    &&& c.msg@ == request_descriptor(
                        "get_entry"@,
                        seq![pair@],
                        seq![provider@],
                        min_last_update,
                    )
                    &&& c.deposit == TRANSFER_CALL_DEPOSIT
                    &&& c.gas == ENTRY_GAS
                },
                Err(e) => self@.payment_token is None && e == RequesterError::NoPaymentToken,
            }),
    {
        match &self.payment_token {
            None => Err(RequesterError::NoPaymentToken),
            Some(token) => {
                let ghost gpair = pair@;
                let ghost gprovider = provider@;
                let pairs: Vec<String> = vec![pair];
                let providers: Vec<String> = vec![provider];
                proof {
                    assert(pairs.deep_view() =~= seq![gpair]);
                    assert(providers.deep_view() =~= seq![gprovider]);
                }
                let msg = encode_request_descriptor("get_entry", &pairs, &providers,
                    min_last_update);
                Ok(fungible_token_transfer_call(
                    token.clone(),
                    self.oracle.clone(),
                    amount,
                    msg,
                ))
            },
        }
    }
}

} // verus!

