//! Behaviour of the wire codecs and the continuations that use them: the
//! payload decoders, the request descriptor encoder, the request builders,
//! and the callback resolvers.

use requester::fungible_token_handler::{fungible_token_transfer_call, ENTRY_GAS};
use requester::message::encode_request_descriptor;
use requester::payload::{parse_price, parse_price_vector};
use requester::request::{OracleMethod, GAS_FOR_RESOLVE_TRANSFER, NO_DEPOSIT};
use requester::requester::Requester;
use requester::types::{PromiseOutcome, RequesterError};

fn s(x: &str) -> String {
    x.to_string()
}

fn ok(bytes: &[u8]) -> Vec<PromiseOutcome> {
    vec![PromiseOutcome::Successful(bytes.to_vec())]
}

#[test]
fn parse_scalar_values() {
    assert_eq!(parse_price(&b"null".to_vec()), Some(None));
    assert_eq!(parse_price(&b"\"0\"".to_vec()), Some(Some(0)));
    assert_eq!(parse_price(&b"\"2000\"".to_vec()), Some(Some(2000)));
    assert_eq!(
        parse_price(&b"\"340282366920938463463374607431768211455\"".to_vec()),
        Some(Some(u128::MAX))
    );
}

#[test]
fn parse_scalar_rejects() {
    assert_eq!(parse_price(&b"".to_vec()), None);
    assert_eq!(parse_price(&b"\"\"".to_vec()), None);
    assert_eq!(parse_price(&b"2000".to_vec()), None);
    assert_eq!(parse_price(&b"\"20a0\"".to_vec()), None);
    assert_eq!(parse_price(&b"\"2000".to_vec()), None);
    assert_eq!(parse_price(&b"nul".to_vec()), None);
    // one past the largest price
    assert_eq!(
        parse_price(&b"\"340282366920938463463374607431768211456\"".to_vec()),
        None
    );
}

#[test]
fn parse_vector_values() {
    assert_eq!(parse_price_vector(&b"[]".to_vec()), Some(vec![]));
    assert_eq!(
        parse_price_vector(&b"[\"2000\",\"4000\"]".to_vec()),
        Some(vec![Some(2000), Some(4000)])
    );
    assert_eq!(
        parse_price_vector(&b"[null,\"5\",null]".to_vec()),
        Some(vec![None, Some(5), None])
    );
}

#[test]
fn parse_vector_rejects() {
    assert_eq!(parse_price_vector(&b"".to_vec()), None);
    assert_eq!(parse_price_vector(&b"[".to_vec()), None);
    assert_eq!(parse_price_vector(&b"[\"5\",]".to_vec()), None);
    assert_eq!(parse_price_vector(&b"[\"5\"".to_vec()), None);
    assert_eq!(parse_price_vector(&b"[5]".to_vec()), None);
    assert_eq!(parse_price_vector(&b"[\"5\"]x".to_vec()), None);
}

#[test]
fn descriptor_is_exact_json() {
    let msg = encode_request_descriptor(
        "get_entry",
        &vec![s("ETH/USD")],
        &vec![s("provider1")],
        1000000,
    );
    assert_eq!(
        msg,
        br#"{"method":"get_entry","pairs":["ETH/USD"],"providers":["provider1"],"min_last_update":"1000000"}"#
            .to_vec()
    );
}

#[test]
fn descriptor_escapes_quotes_and_backslashes() {
    let msg = encode_request_descriptor("m", &vec![s("a\"b\\c")], &vec![], 0);
    assert_eq!(
        msg,
        br#"{"method":"m","pairs":["a\"b\\c"],"providers":[],"min_last_update":"0"}"#.to_vec()
    );
}

#[test]
fn scalar_callback_soft_failures() {
    let r = Requester::new(s("oracle"), None);
    let me = s("requester");
    let none: Vec<PromiseOutcome> = vec![];
    assert_eq!(r.get_price_callback(&me, &me, &none), Ok(None));
    let two = vec![
        PromiseOutcome::Successful(b"\"1\"".to_vec()),
        PromiseOutcome::Successful(b"\"2\"".to_vec()),
    ];
    assert_eq!(r.get_price_callback(&me, &me, &two), Ok(None));
    let failed = vec![PromiseOutcome::Failed];
    assert_eq!(r.get_price_callback(&me, &me, &failed), Ok(None));
    let pending = vec![PromiseOutcome::NotReady];
    assert_eq!(r.aggregate_avg_callback(&me, &me, &pending), Ok(None));
}

#[test]
fn scalar_callback_decodes_success() {
    let r = Requester::new(s("oracle"), None);
    let me = s("requester");
    assert_eq!(
        r.get_price_callback(&me, &me, &ok(b"\"2000\"")),
        Ok(Some(2000))
    );
    assert_eq!(r.get_price_callback(&me, &me, &ok(b"null")), Ok(None));
    assert_eq!(
        r.aggregate_avg_callback(&me, &me, &ok(b"\"3000\"")),
        Ok(Some(3000))
    );
    assert_eq!(
        r.aggregate_median_callback(&me, &me, &ok(b"\"3000\"")),
        Ok(Some(3000))
    );
}

#[test]
fn scalar_callback_corrupt_payload_is_fatal() {
    let r = Requester::new(s("oracle"), None);
    let me = s("requester");
    assert_eq!(
        r.get_price_callback(&me, &me, &ok(b"garbage")),
        Err(RequesterError::PayloadCorrupt)
    );
}

#[test]
fn callbacks_reject_other_callers() {
    let r = Requester::new(s("oracle"), None);
    let me = s("requester");
    let other = s("mallory");
    assert_eq!(
        r.get_price_callback(&me, &other, &ok(b"\"1\"")),
        Err(RequesterError::Unauthorized)
    );
    assert_eq!(
        r.get_prices_callback(&me, &other, &ok(b"[]")),
        Err(RequesterError::Unauthorized)
    );
    assert_eq!(
        r.aggregate_avg_callback(&me, &other, &ok(b"\"1\"")),
        Err(RequesterError::Unauthorized)
    );
    assert_eq!(
        r.aggregate_median_callback(&me, &other, &ok(b"\"1\"")),
        Err(RequesterError::Unauthorized)
    );
}

#[test]
fn vector_callback_keeps_request_order() {
    let r = Requester::new(s("oracle"), None);
    let me = s("requester");
    assert_eq!(
        r.get_prices_callback(&me, &me, &ok(b"[\"2000\",\"4000\"]")),
        Ok(vec![Some(2000), Some(4000)])
    );
}

#[test]
fn vector_callback_soft_failure_is_placeholder() {
    let r = Requester::new(s("oracle"), None);
    let me = s("requester");
    let none: Vec<PromiseOutcome> = vec![];
    assert_eq!(r.get_prices_callback(&me, &me, &none), Ok(vec![None]));
    let failed = vec![PromiseOutcome::Failed];
    assert_eq!(r.get_prices_callback(&me, &me, &failed), Ok(vec![None]));
    assert_eq!(
        r.get_prices_callback(&me, &me, &ok(b"oops")),
        Err(RequesterError::PayloadCorrupt)
    );
}

#[test]
fn direct_requests_carry_the_arguments() {
    let r = Requester::new(s("oracle"), None);
    let one = r.get_price(s("ETH/USD"), s("provider1"));
    assert_eq!(one.oracle, s("oracle"));
    assert_eq!(one.method, OracleMethod::GetPrice);
    assert_eq!(one.pairs, vec![s("ETH/USD")]);
    assert_eq!(one.providers, vec![s("provider1")]);
    assert_eq!(one.min_last_update, None);
    assert_eq!(one.deposit, NO_DEPOSIT);
    assert_eq!(one.gas, GAS_FOR_RESOLVE_TRANSFER);

    let many = r.get_prices(
        vec![s("ETH/USD"), s("ETH/USD")],
        vec![s("provider1"), s("provider2")],
    );
    assert_eq!(many.method, OracleMethod::GetPrices);
    assert_eq!(many.pairs, vec![s("ETH/USD"), s("ETH/USD")]);
    assert_eq!(many.providers, vec![s("provider1"), s("provider2")]);

    let avg = r.aggregate_avg(
        vec![s("ETH/USD"), s("ETH/USD")],
        vec![s("provider1"), s("provider2")],
        0,
    );
    assert_eq!(avg.method, OracleMethod::AggregateAvg);
    assert_eq!(avg.min_last_update, Some(0));

    let med = r.aggregate_median(vec![s("ETH/USD")], vec![s("provider1")], 7);
    assert_eq!(med.method, OracleMethod::AggregateMedian);
    assert_eq!(med.min_last_update, Some(7));
}

#[test]
fn aggregate_scenario_two_providers() {
    // Two providers report 2000 and 4000; the oracle aggregates and answers
    // the continuation with 3000, for the mean and for the two-element
    // median alike.  The requester's half: ask both providers, decode the
    // one aggregate outcome.
    let r = Requester::new(s("nearfpo"), None);
    let me = s("requester");
    let req = r.aggregate_avg(
        vec![s("ETH/USD"), s("ETH/USD")],
        vec![s("provider1"), s("provider2")],
        0,
    );
    assert_eq!(req.oracle, s("nearfpo"));
    assert_eq!(
        r.aggregate_avg_callback(&me, &me, &ok(b"\"3000\"")),
        Ok(Some(3000))
    );
    assert_eq!(
        r.aggregate_median_callback(&me, &me, &ok(b"\"3000\"")),
        Ok(Some(3000))
    );
}

#[test]
fn get_entry_requires_payment_token() {
    let r = Requester::new(s("oracle"), None);
    assert_eq!(
        r.get_entry(s("ETH/USD"), s("provider1"), 100, 0).unwrap_err(),
        RequesterError::NoPaymentToken
    );
}

#[test]
fn get_entry_builds_payment_gated_transfer() {
    let r = Requester::new(s("oracle"), Some(s("token")));
    let c = r.get_entry(s("ETH/USD"), s("provider1"), 100, 5).unwrap();
    assert_eq!(c.token, s("token"));
    assert_eq!(c.receiver, s("oracle"));
    assert_eq!(c.amount, 100);
    assert_eq!(c.memo, None);
    assert_eq!(c.deposit, 1);
    assert_eq!(c.gas, ENTRY_GAS);
    assert_eq!(
        c.msg,
        br#"{"method":"get_entry","pairs":["ETH/USD"],"providers":["provider1"],"min_last_update":"5"}"#
            .to_vec()
    );
}

#[test]
fn transfer_call_builder_fields() {
    let c = fungible_token_transfer_call(s("token"), s("oracle"), 42, b"m".to_vec());
    assert_eq!(c.token, s("token"));
    assert_eq!(c.receiver, s("oracle"));
    assert_eq!(c.amount, 42);
    assert_eq!(c.memo, None);
    assert_eq!(c.msg, b"m".to_vec());
    assert_eq!(c.deposit, 1);
    assert_eq!(c.gas, ENTRY_GAS);
}
