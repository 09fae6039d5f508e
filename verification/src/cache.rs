//! The persistent cache: one record per provider account, each mapping a
//! trading pair to its last-known price entry.  Records are kept as
//! association lists with distinct keys and are viewed as finite maps.

use vstd::prelude::*;

use crate::kvmap::{distinct_keys, kv_map, lemma_kv_dom, lemma_kv_index, lemma_kv_push,
    lemma_kv_remove, lemma_kv_update};
use crate::types::{EntryModel, PriceEntry};

verus! {

/// A provider's own store: trading pair (canonical form `"BASE/QUOTE"`) to
/// the last entry reported for it.
pub struct PairMap {
    keys: Vec<String>,
    vals: Vec<PriceEntry>,
}

impl View for PairMap {
    type V = Map<Seq<char>, EntryModel>;

    closed spec fn view(&self) -> Map<Seq<char>, EntryModel> {
        kv_map(self.keys.deep_view(), self.vals@.map_values(|e: PriceEntry| e@))
    }
}

impl PairMap {
    /// The listing is a faithful map: parallel columns, no repeated key.
    pub closed spec fn wf(&self) -> bool {
        &&& self.keys@.len() == self.vals@.len()
        &&& distinct_keys(self.keys.deep_view())
    }

    pub fn new() -> (r: Self)
        ensures
            r.wf(),
            r@ =~= Map::<Seq<char>, EntryModel>::empty(),
    {
        PairMap { keys: Vec::new(), vals: Vec::new() }
    }

    fn index_of(&self, key: &String) -> (r: Option<usize>)
        requires
            self.wf(),
        ensures
            match r {
                Some(i) => i < self.keys@.len() && self.keys@[i as int]@ == key@,
                None => !self@.contains_key(key@),
            },
    {
        let mut i: usize = 0;
        while i < self.keys.len()
            invariant
                self.wf(),
                i <= self.keys@.len(),
                forall|j: int| 0 <= j < i ==> self.keys.deep_view()[j] != key@,
            decreases self.keys@.len() - i,
        {
            if self.keys[i] == *key {
                return Some(i);
            }
            i += 1;
        }
        proof {
            assert(!self.keys.deep_view().contains(key@));
            lemma_kv_dom(
                self.keys.deep_view(),
                self.vals@.map_values(|e: PriceEntry| e@),
                key@,
            );
        }
        None
    }

    /// The entry stored for `key`, if any.
    pub fn get(&self, key: &String) -> (r: Option<&PriceEntry>)
        requires
            self.wf(),
        ensures
            match r {
                Some(e) => self@.contains_key(key@) && e@ == self@[key@],
                None => !self@.contains_key(key@),
            },
    {
        match self.index_of(key) {
            Some(i) => {
                proof {
                    lemma_kv_index(
                        self.keys.deep_view(),
                        self.vals@.map_values(|e: PriceEntry| e@),
                        i as int,
                    );
                }
                Some(&self.vals[i])
            },
            None => None,
        }
    }

    /// Store `val` under `key`, replacing any prior entry.
    pub fn insert(&mut self, key: String, val: PriceEntry)
        requires
            old(self).wf(),
        ensures
            final(self).wf(),
            final(self)@ =~= old(self)@.insert(key@, val@),
    {
        let ghost ks = self.keys.deep_view();
        let ghost vs = self.vals@.map_values(|e: PriceEntry| e@);
        match self.index_of(&key) {
            Some(i) => {
                self.vals[i] = val;
                proof {
                    assert(self.vals@.map_values(|e: PriceEntry| e@) =~= vs.update(
                        i as int,
                        val@,
                    ));
                    lemma_kv_update(ks, vs, i as int, val@);
                    assert(ks[i as int] == key@);
                }
            },
            None => {
                self.keys.push(key);
                self.vals.push(val);
                proof {
                    assert(self.keys.deep_view() =~= ks.push(self.keys@.last()@));
                    assert(self.vals@.map_values(|e: PriceEntry| e@) =~= vs.push(val@));
                    lemma_kv_push(ks, vs, self.keys@.last()@, val@);
                    lemma_kv_dom(ks, vs, self.keys@.last()@);
                }
            },
        }
    }
}

/// One provider's record: created lazily on its first write and updated in
/// place thereafter.
pub struct Provider {
    pub pairs: PairMap,
}

impl View for Provider {
    type V = Map<Seq<char>, EntryModel>;

    open spec fn view(&self) -> Map<Seq<char>, EntryModel> {
        self.pairs@
    }
}

impl Provider {
    pub open spec fn wf(&self) -> bool {
        self.pairs.wf()
    }

    pub fn new() -> (r: Self)
        ensures
            r.wf(),
            r@ =~= Map::<Seq<char>, EntryModel>::empty(),
    {
        Provider { pairs: PairMap::new() }
    }

    /// Record `price` as the latest entry for `pair`.
    pub fn set_pair(&mut self, pair: &String, price: &PriceEntry)
        requires
            old(self).wf(),
        ensures
            final(self).wf(),
            final(self)@ =~= old(self)@.insert(pair@, price@),
    {
        self.pairs.insert(pair.clone(), price.clone());
    }
}

/// The root store: provider account to that provider's record.
pub struct ProviderMap {
    keys: Vec<String>,
    vals: Vec<Provider>,
}

impl View for ProviderMap {
    type V = Map<Seq<char>, Map<Seq<char>, EntryModel>>;

    closed spec fn view(&self) -> Map<Seq<char>, Map<Seq<char>, EntryModel>> {
        kv_map(self.keys.deep_view(), self.vals@.map_values(|p: Provider| p@))
    }
}

impl ProviderMap {
    pub closed spec fn wf(&self) -> bool {
        &&& self.keys@.len() == self.vals@.len()
        &&& distinct_keys(self.keys.deep_view())
        &&& forall|i: int| 0 <= i < self.vals@.len() ==> self.vals@[i].wf()
    }

    pub fn new() -> (r: Self)
        ensures
            r.wf(),
            r@ =~= Map::<Seq<char>, Map<Seq<char>, EntryModel>>::empty(),
    {
        ProviderMap { keys: Vec::new(), vals: Vec::new() }
    }

    fn index_of(&self, key: &String) -> (r: Option<usize>)
        requires
            self.wf(),
        ensures
            match r {
                Some(i) => i < self.keys@.len() && self.keys@[i as int]@ == key@,
                None => !self@.contains_key(key@),
            },
    {
        let mut i: usize = 0;
        while i < self.keys.len()
            invariant
                self.wf(),
                i <= self.keys@.len(),
                forall|j: int| 0 <= j < i ==> self.keys.deep_view()[j] != key@,
            decreases self.keys@.len() - i,
        {
            if self.keys[i] == *key {
                return Some(i);
            }
            i += 1;
        }
        proof {
            assert(!self.keys.deep_view().contains(key@));
            lemma_kv_dom(self.keys.deep_view(), self.vals@.map_values(|p: Provider| p@), key@);
        }
        None
    }

    /// A borrow of the record stored for `key`, if any.
    pub fn get(&self, key: &String) -> (r: Option<&Provider>)
        requires
            self.wf(),
        ensures
            match r {
                Some(p) => self@.contains_key(key@) && p@ == self@[key@] && p.wf(),
                None => !self@.contains_key(key@),
            },
    {
        match self.index_of(key) {
            Some(i) => {
                proof {
                    lemma_kv_index(
                        self.keys.deep_view(),
                        self.vals@.map_values(|p: Provider| p@),
                        i as int,
                    );
                }
                Some(&self.vals[i])
            },
            None => None,
        }
    }

    /// Move the record stored for `key` out of the store.
    pub fn take(&mut self, key: &String) -> (r: Option<Provider>)
        requires
            old(self).wf(),
        ensures
            final(self).wf(),
            final(self)@ =~= old(self)@.remove(key@),
            match r {
                Some(p) => old(self)@.contains_key(key@) && p@ == old(self)@[key@] && p.wf(),
                None => !old(self)@.contains_key(key@),
            },
    {
        let ghost ks = self.keys.deep_view();
        let ghost vs = self.vals@.map_values(|p: Provider| p@);
        match self.index_of(key) {
            Some(i) => {
                let _ = self.keys.remove(i);
                let p = self.vals.remove(i);
                proof {
                    assert(self.keys.deep_view() =~= ks.remove(i as int));
                    assert(self.vals@.map_values(|q: Provider| q@) =~= vs.remove(i as int));
                    lemma_kv_remove(ks, vs, i as int);
                    lemma_kv_index(ks, vs, i as int);
                    assert(ks[i as int] == key@);
                }
                Some(p)
            },
            None => {
                proof {
                    assert(old(self)@.remove(key@) =~= old(self)@);
                }
                None
            },
        }
    }

    /// Store `val` under `key`, replacing any prior record.
    pub fn insert(&mut self, key: String, val: Provider)
        requires
            old(self).wf(),
            val.wf(),
        ensures
            final(self).wf(),
            final(self)@ =~= old(self)@.insert(key@, val@),
    {
        let ghost ks = self.keys.deep_view();
        let ghost vs = self.vals@.map_values(|p: Provider| p@);
        match self.index_of(&key) {
            Some(i) => {
                self.vals[i] = val;
                proof {
                    assert(self.vals@.map_values(|p: Provider| p@) =~= vs.update(i as int, val@));
                    lemma_kv_update(ks, vs, i as int, val@);
                    assert(ks[i as int] == key@);
                }
            },
            None => {
                self.keys.push(key);
                self.vals.push(val);
                proof {
                    assert(self.keys.deep_view() =~= ks.push(self.keys@.last()@));
                    assert(self.vals@.map_values(|p: Provider| p@) =~= vs.push(val@));
                    lemma_kv_push(ks, vs, self.keys@.last()@, val@);
                    lemma_kv_dom(ks, vs, self.keys@.last()@);
                }
            },
        }
    }
}

} // verus!
