//! Behaviour of the requester's state: initialization, the push handlers,
//! access control, and the cache read.

use requester::requester::Requester;
use requester::types::{PriceEntry, PriceType, RequesterError};

fn s(x: &str) -> String {
    x.to_string()
}

fn entry(price: u128, sender: &str, price_type: PriceType) -> PriceEntry {
    PriceEntry { price, sender: s(sender), price_type }
}

fn fresh() -> Requester {
    Requester::new(s("oracle"), None)
}

#[test]
fn get_pair_missing_provider() {
    let r = fresh();
    assert_eq!(
        r.get_pair(s("provider1"), s("ETH/USD")).unwrap_err(),
        RequesterError::ProviderNotFound
    );
}

#[test]
fn get_pair_missing_pair() {
    let mut r = fresh();
    let ok = r.set_outcome(
        &s("oracle"),
        vec![s("provider1")],
        vec![s("ETH/USD")],
        vec![entry(2000, "oracle", PriceType::Single)],
    );
    assert!(ok.is_ok());
    assert_eq!(
        r.get_pair(s("provider1"), s("BTC/USD")).unwrap_err(),
        RequesterError::PairNotFound
    );
}

#[test]
fn get_pair_idempotent() {
    let mut r = fresh();
    r.set_outcome(
        &s("oracle"),
        vec![s("provider1")],
        vec![s("ETH/USD")],
        vec![entry(2000, "oracle", PriceType::Single)],
    )
    .unwrap();
    let a = r.get_pair(s("provider1"), s("ETH/USD")).unwrap();
    let b = r.get_pair(s("provider1"), s("ETH/USD")).unwrap();
    assert_eq!(a.price, b.price);
    assert_eq!(a.sender, b.sender);
    assert_eq!(a.price_type, b.price_type);
    assert_eq!(a.price, 2000);
}

#[test]
fn set_outcome_rejects_other_callers() {
    let mut r = fresh();
    let res = r.set_outcome(
        &s("mallory"),
        vec![s("provider1")],
        vec![s("ETH/USD")],
        vec![entry(2000, "mallory", PriceType::Single)],
    );
    assert_eq!(res.unwrap_err(), RequesterError::Unauthorized);
    assert_eq!(
        r.get_pair(s("provider1"), s("ETH/USD")).unwrap_err(),
        RequesterError::ProviderNotFound
    );
}

#[test]
fn set_outcome_unauthorized_leaves_cache_unchanged() {
    let mut r = fresh();
    r.set_outcome(
        &s("oracle"),
        vec![s("provider1")],
        vec![s("ETH/USD")],
        vec![entry(2000, "oracle", PriceType::Single)],
    )
    .unwrap();
    let res = r.set_outcome(
        &s("mallory"),
        vec![s("provider1")],
        vec![s("ETH/USD")],
        vec![entry(1, "mallory", PriceType::Single)],
    );
    assert_eq!(res.unwrap_err(), RequesterError::Unauthorized);
    assert_eq!(r.get_pair(s("provider1"), s("ETH/USD")).unwrap().price, 2000);
}

#[test]
fn set_outcome_overwrites_entry() {
    let mut r = fresh();
    r.set_outcome(
        &s("oracle"),
        vec![s("provider1")],
        vec![s("ETH/USD")],
        vec![entry(2000, "oracle", PriceType::Single)],
    )
    .unwrap();
    r.set_outcome(
        &s("oracle"),
        vec![s("provider1")],
        vec![s("ETH/USD")],
        vec![entry(2100, "oracle", PriceType::Single)],
    )
    .unwrap();
    assert_eq!(r.get_pair(s("provider1"), s("ETH/USD")).unwrap().price, 2100);
}

#[test]
fn on_price_received_rejects_other_callers() {
    let mut r = fresh();
    let res = r.on_price_received(
        &s("mallory"),
        s("mallory"),
        vec![s("ETH/USD")],
        vec![s("provider1")],
        PriceType::Single,
        vec![Some(2000)],
    );
    assert_eq!(res.unwrap_err(), RequesterError::Unauthorized);
    assert!(r.get_pair(s("provider1"), s("ETH/USD")).is_err());
}

#[test]
fn positional_results_stay_in_their_slots() {
    let mut r = fresh();
    r.on_price_received(
        &s("oracle"),
        s("oracle"),
        vec![s("A"), s("B")],
        vec![s("p1"), s("p2")],
        PriceType::Multiple,
        vec![Some(10), Some(20)],
    )
    .unwrap();
    assert_eq!(r.get_pair(s("p1"), s("A")).unwrap().price, 10);
    assert_eq!(r.get_pair(s("p2"), s("B")).unwrap().price, 20);
    // every listed provider takes the whole batch, positionally
    assert_eq!(r.get_pair(s("p1"), s("B")).unwrap().price, 20);
    assert_eq!(r.get_pair(s("p2"), s("A")).unwrap().price, 10);
    let e = r.get_pair(s("p1"), s("A")).unwrap();
    assert_eq!(e.sender, s("oracle"));
    assert_eq!(e.price_type, PriceType::Multiple);
}

#[test]
fn aggregate_result_broadcasts_to_every_slot() {
    let mut r = fresh();
    r.on_price_received(
        &s("oracle"),
        s("oracle"),
        vec![s("A"), s("B")],
        vec![s("p1"), s("p2")],
        PriceType::Mean,
        vec![Some(30)],
    )
    .unwrap();
    assert_eq!(r.get_pair(s("p1"), s("A")).unwrap().price, 30);
    assert_eq!(r.get_pair(s("p1"), s("B")).unwrap().price, 30);
    assert_eq!(r.get_pair(s("p2"), s("A")).unwrap().price, 30);
    assert_eq!(r.get_pair(s("p2"), s("B")).unwrap().price, 30);
}

#[test]
fn missing_result_does_not_overwrite() {
    let mut r = fresh();
    r.on_price_received(
        &s("oracle"),
        s("oracle"),
        vec![s("A")],
        vec![s("p1")],
        PriceType::Multiple,
        vec![Some(10)],
    )
    .unwrap();
    r.on_price_received(
        &s("oracle"),
        s("oracle"),
        vec![s("A")],
        vec![s("p1")],
        PriceType::Multiple,
        vec![None],
    )
    .unwrap();
    assert_eq!(r.get_pair(s("p1"), s("A")).unwrap().price, 10);
}

#[test]
fn missing_slot_on_new_provider_stays_absent() {
    let mut r = fresh();
    r.on_price_received(
        &s("oracle"),
        s("oracle"),
        vec![s("A"), s("B")],
        vec![s("p1")],
        PriceType::Multiple,
        vec![None, Some(7)],
    )
    .unwrap();
    assert_eq!(
        r.get_pair(s("p1"), s("A")).unwrap_err(),
        RequesterError::PairNotFound
    );
    assert_eq!(r.get_pair(s("p1"), s("B")).unwrap().price, 7);
}

#[test]
fn aggregate_with_no_value_writes_nothing() {
    let mut r = fresh();
    r.on_price_received(
        &s("oracle"),
        s("oracle"),
        vec![s("A")],
        vec![s("p1")],
        PriceType::Median,
        vec![None],
    )
    .unwrap();
    assert_eq!(
        r.get_pair(s("p1"), s("A")).unwrap_err(),
        RequesterError::PairNotFound
    );
}
