//! Mathematical model of the reconciliation engine: how one result bundle,
//! pushed by the oracle, rewrites the provider store.  The handlers in
//! `requester` promise exactly these maps; the lemmas at the end state the
//! laws the engine obeys.

use vstd::prelude::*;

use crate::types::{is_aggregate, EntryModel, PriceType};

verus! {

/// The store seen as a map of maps.
pub type StoreModel = Map<Seq<char>, Map<Seq<char>, EntryModel>>;

/// The result slot that pair index `i` reads: aggregate batches carry one
/// value for every slot, positional batches one value per index.
pub open spec fn sel_result(t: PriceType, results: Seq<Option<u128>>, i: int) -> Option<u128> {
    if is_aggregate(t) {
        results[0]
    } else {
        results[i]
    }
}

/// The entry a push writes.
pub open spec fn entry_of(price: u128, sender: Seq<char>, t: PriceType) -> EntryModel {
    EntryModel { price, sender, price_type: t }
}

/// A provider's record, or the empty one for a provider that never wrote.
pub open spec fn record_of(m: StoreModel, account: Seq<char>) -> Map<Seq<char>, EntryModel> {
    if m.contains_key(account) {
        m[account]
    } else {
        Map::empty()
    }
}

/// One provider's record after the first `n` pairs of a batch were applied
/// to it.  An absent result leaves its pair untouched.
pub open spec fn push_pairs(
    rec: Map<Seq<char>, EntryModel>,
    sender: Seq<char>,
    pairs: Seq<Seq<char>>,
    t: PriceType,
    results: Seq<Option<u128>>,
    n: int,
) -> Map<Seq<char>, EntryModel>
    decreases n,
{
    if n <= 0 {
        rec
    } else {
        let prev = push_pairs(rec, sender, pairs, t, results, n - 1);
        match sel_result(t, results, n - 1) {
            Some(p) => prev.insert(pairs[n - 1], entry_of(p, sender, t)),
            None => prev,
        }
    }
}

/// The store after a pushed batch: each listed provider's record, loaded or
/// freshly created, takes the whole pair batch and is stored back.
pub open spec fn apply_push(
    m: StoreModel,
    sender: Seq<char>,
    pairs: Seq<Seq<char>>,
    providers: Seq<Seq<char>>,
    t: PriceType,
    results: Seq<Option<u128>>,
) -> StoreModel
    decreases providers.len(),
{
    if providers.len() == 0 {
        m
    } else {
        let a = providers[0];
        let m2 = m.insert(
            a,
            push_pairs(record_of(m, a), sender, pairs, t, results, pairs.len() as int),
        );
        apply_push(m2, sender, pairs, providers.drop_first(), t, results)
    }
}

/// The store after a bulk set: entry `i` is stored under pair `i` in
/// provider `i`'s record.
pub open spec fn apply_outcome(
    m: StoreModel,
    providers: Seq<Seq<char>>,
    pairs: Seq<Seq<char>>,
    entries: Seq<EntryModel>,
) -> StoreModel
    decreases providers.len(),
{
    if providers.len() == 0 {
        m
    } else {
        let a = providers[0];
        let m2 = m.insert(a, record_of(m, a).insert(pairs[0], entries[0]));
        apply_outcome(m2, providers.drop_first(), pairs.drop_first(), entries.drop_first())
    }
}

/// The entry stored in one record under `key`, if any.
pub open spec fn entry_at(rec: Map<Seq<char>, EntryModel>, key: Seq<char>) -> Option<EntryModel> {
    if rec.contains_key(key) {
        Some(rec[key])
    } else {
        None
    }
}

/// The entry stored in the whole store under `(provider, pair)`, if any.
pub open spec fn lookup_entry(m: StoreModel, provider: Seq<char>, pair: Seq<char>) -> Option<
    EntryModel,
> {
    if m.contains_key(provider) {
        entry_at(m[provider], pair)
    } else {
        None
    }
}

/// The record stored for `account`, if any.
pub open spec fn record_at(m: StoreModel, account: Seq<char>) -> Option<
    Map<Seq<char>, EntryModel>,
> {
    if m.contains_key(account) {
        Some(m[account])
    } else {
        None
    }
}

/// Reads are idempotent: with no intervening write, two reads of the same
/// slot see the same entry.  `get_pair`'s contract pins its result to
/// `lookup_entry` of the state, so two results drawn from one state agree.
pub proof fn lemma_read_idempotent(
    m: StoreModel,
    provider: Seq<char>,
    pair: Seq<char>,
    r1: Option<EntryModel>,
    r2: Option<EntryModel>,
)
    requires
        r1 == lookup_entry(m, provider, pair),
        r2 == lookup_entry(m, provider, pair),
    ensures
        r1 == r2,
{
}

/// A pair batch leaves every key it does not name untouched.
proof fn lemma_push_pairs_frame(
    rec: Map<Seq<char>, EntryModel>,
    sender: Seq<char>,
    pairs: Seq<Seq<char>>,
    t: PriceType,
    results: Seq<Option<u128>>,
    n: int,
    key: Seq<char>,
)
    requires
        0 <= n <= pairs.len(),
        forall|j: int| 0 <= j < n ==> pairs[j] != key,
    ensures
        entry_at(push_pairs(rec, sender, pairs, t, results, n), key) == entry_at(rec, key),
    decreases n,
{
    if n > 0 {
        lemma_push_pairs_frame(rec, sender, pairs, t, results, n - 1, key);
    }
}

/// In a positional batch whose pairs are distinct, slot `i` ends up exactly
/// as its own result says: overwritten by a present value, untouched by an
/// absent one.
proof fn lemma_push_pairs_at(
    rec: Map<Seq<char>, EntryModel>,
    sender: Seq<char>,
    pairs: Seq<Seq<char>>,
    t: PriceType,
    results: Seq<Option<u128>>,
    n: int,
    i: int,
)
    requires
        0 <= i < n <= pairs.len(),
        is_aggregate(t) ==> results.len() > 0,
        !is_aggregate(t) ==> results.len() >= n,
        forall|j: int| 0 <= j < n && j != i ==> pairs[j] != pairs[i],
    ensures
        match sel_result(t, results, i) {
            Some(p) => entry_at(push_pairs(rec, sender, pairs, t, results, n), pairs[i]) == Some(
                entry_of(p, sender, t),
            ),
            None => entry_at(push_pairs(rec, sender, pairs, t, results, n), pairs[i]) == entry_at(
                rec,
                pairs[i],
            ),
        },
    decreases n,
{
    if i == n - 1 {
        lemma_push_pairs_frame(rec, sender, pairs, t, results, n - 1, pairs[i]);
    } else {
        lemma_push_pairs_at(rec, sender, pairs, t, results, n - 1, i);
    }
}

/// In an aggregate batch with a present value, every named slot ends up
/// holding that one value.
proof fn lemma_push_pairs_aggregate(
    rec: Map<Seq<char>, EntryModel>,
    sender: Seq<char>,
    pairs: Seq<Seq<char>>,
    t: PriceType,
    results: Seq<Option<u128>>,
    n: int,
    i: int,
    v: u128,
)
    requires
        is_aggregate(t),
        results.len() > 0,
        results[0] == Some(v),
        0 <= i < n <= pairs.len(),
    ensures
        entry_at(push_pairs(rec, sender, pairs, t, results, n), pairs[i]) == Some(
            entry_of(v, sender, t),
        ),
    decreases n,
{
    if i < n - 1 {
        lemma_push_pairs_aggregate(rec, sender, pairs, t, results, n - 1, i, v);
    }
}

/// A push leaves the records of unlisted providers untouched.
proof fn lemma_apply_push_frame(
    m: StoreModel,
    sender: Seq<char>,
    pairs: Seq<Seq<char>>,
    providers: Seq<Seq<char>>,
    t: PriceType,
    results: Seq<Option<u128>>,
    a: Seq<char>,
)
    requires
        !providers.contains(a),
    ensures
        record_at(apply_push(m, sender, pairs, providers, t, results), a) == record_at(m, a),
    decreases providers.len(),
{
    if providers.len() > 0 {
        let a0 = providers[0];
        let m2 = m.insert(
            a0,
            push_pairs(record_of(m, a0), sender, pairs, t, results, pairs.len() as int),
        );
        assert(!providers.drop_first().contains(a)) by {
            if providers.drop_first().contains(a) {
                let k = choose|k: int|
                    0 <= k < providers.drop_first().len() && providers.drop_first()[k] == a;
                assert(providers[k + 1] == a);
            }
        }
        assert(a0 != a);
        lemma_apply_push_frame(m2, sender, pairs, providers.drop_first(), t, results, a);
    }
}

/// Positional integrity: in a positional batch over distinct pairs, every
/// listed provider ends up holding, under pair `i`, exactly the value of
/// result `i` when that value is present -- results are never swapped
/// between slots.
pub proof fn lemma_positional_integrity(
    m: StoreModel,
    sender: Seq<char>,
    pairs: Seq<Seq<char>>,
    providers: Seq<Seq<char>>,
    t: PriceType,
    results: Seq<Option<u128>>,
    i: int,
    a: Seq<char>,
    v: u128,
)
    requires
        !is_aggregate(t),
        results.len() >= pairs.len(),
        0 <= i < pairs.len(),
        forall|j: int| 0 <= j < pairs.len() && j != i ==> pairs[j] != pairs[i],
        providers.contains(a),
        results[i] == Some(v),
    ensures
        lookup_entry(apply_push(m, sender, pairs, providers, t, results), a, pairs[i]) == Some(
            entry_of(v, sender, t),
        ),
    decreases providers.len(),
{
    let a0 = providers[0];
    let m2 = m.insert(
        a0,
        push_pairs(record_of(m, a0), sender, pairs, t, results, pairs.len() as int),
    );
    if providers.drop_first().contains(a) {
        lemma_positional_integrity(m2, sender, pairs, providers.drop_first(), t, results, i, a, v);
    } else {
        assert(a == a0) by {
            let k = choose|k: int| 0 <= k < providers.len() && providers[k] == a;
            if k > 0 {
                assert(providers.drop_first()[k - 1] == a);
            }
        }
        lemma_push_pairs_at(record_of(m, a0), sender, pairs, t, results, pairs.len() as int, i);
        lemma_apply_push_frame(m2, sender, pairs, providers.drop_first(), t, results, a);
    }
}

/// Aggregate broadcast: in a `Mean` or `Median` batch whose single result is
/// present, every listed provider ends up holding that same value under
/// every pair of the batch.
pub proof fn lemma_aggregate_broadcast(
    m: StoreModel,
    sender: Seq<char>,
    pairs: Seq<Seq<char>>,
    providers: Seq<Seq<char>>,
    t: PriceType,
    results: Seq<Option<u128>>,
    i: int,
    a: Seq<char>,
    v: u128,
)
    requires
        is_aggregate(t),
        results.len() > 0,
        results[0] == Some(v),
        0 <= i < pairs.len(),
        providers.contains(a),
    ensures
        lookup_entry(apply_push(m, sender, pairs, providers, t, results), a, pairs[i]) == Some(
            entry_of(v, sender, t),
        ),
    decreases providers.len(),
{
    let a0 = providers[0];
    let m2 = m.insert(
        a0,
        push_pairs(record_of(m, a0), sender, pairs, t, results, pairs.len() as int),
    );
    if providers.drop_first().contains(a) {
        lemma_aggregate_broadcast(m2, sender, pairs, providers.drop_first(), t, results, i, a, v);
    } else {
        assert(a == a0) by {
            let k = choose|k: int| 0 <= k < providers.len() && providers[k] == a;
            if k > 0 {
                assert(providers.drop_first()[k - 1] == a);
            }
        }
        lemma_push_pairs_aggregate(
            record_of(m, a0),
            sender,
            pairs,
            t,
            results,
            pairs.len() as int,
            i,
            v,
        );
        lemma_apply_push_frame(m2, sender, pairs, providers.drop_first(), t, results, a);
    }
}

/// Missing data does not overwrite: in a positional batch over distinct
/// pairs, an absent result leaves its pair's previously cached entry in
/// place for every account.
pub proof fn lemma_missing_preserves(
    m: StoreModel,
    sender: Seq<char>,
    pairs: Seq<Seq<char>>,
    providers: Seq<Seq<char>>,
    t: PriceType,
    results: Seq<Option<u128>>,
    i: int,
    a: Seq<char>,
)
    requires
        !is_aggregate(t),
        results.len() >= pairs.len(),
        0 <= i < pairs.len(),
        forall|j: int| 0 <= j < pairs.len() && j != i ==> pairs[j] != pairs[i],
        results[i] is None,
    ensures
        lookup_entry(apply_push(m, sender, pairs, providers, t, results), a, pairs[i])
            == lookup_entry(m, a, pairs[i]),
    decreases providers.len(),
{
    if providers.len() > 0 {
        let a0 = providers[0];
        let m2 = m.insert(
            a0,
            push_pairs(record_of(m, a0), sender, pairs, t, results, pairs.len() as int),
        );
        lemma_push_pairs_at(record_of(m, a0), sender, pairs, t, results, pairs.len() as int, i);
        assert(lookup_entry(m2, a, pairs[i]) == lookup_entry(m, a, pairs[i]));
        lemma_missing_preserves(m2, sender, pairs, providers.drop_first(), t, results, i, a);
    }
}

} // verus!
