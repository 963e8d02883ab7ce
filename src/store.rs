//! The durable store of one kitty namespace: its records, keyed by kitty id,
//! each tagged with the schema version it is encoded in, together with the
//! version recorded for the namespace and the version the running code targets.
use crate::kitty::{Kitty, KittyV2, V0Kitty};
use vstd::prelude::*;

verus! {

/// Identifies a record collection: the module that owns it and the item name.
#[derive(Clone, Debug, PartialEq, Eq)]
pub struct Namespace {
    pub module: String,
    pub item: String,
}

/// A stored record, in the encoding of the schema version it was written under.
#[derive(Clone, Copy, Debug, PartialEq, Eq)]
pub enum StoredKitty {
    V0(V0Kitty),
    V1(Kitty),
    V2(KittyV2),
}

/// Kitty ids index the records of a namespace.
pub type KittyId = u32;

/// The schema version whose encoding a stored record is in.
pub open spec fn encoding_of(v: StoredKitty) -> u16 {
    match v {
        StoredKitty::V0(_) => 0,
        StoredKitty::V1(_) => 1,
        StoredKitty::V2(_) => 2,
    }
}

/// The records of `m` that are in the encoding of schema version `version`.
pub open spec fn records_in(m: Map<KittyId, StoredKitty>, version: u16) -> Map<KittyId, StoredKitty> {
    Map::new(|k: KittyId| m.contains_key(k) && encoding_of(m[k]) == version, |k: KittyId| m[k])
}

/// `m` without its records in the encoding of schema version `version`.
pub open spec fn records_not_in(m: Map<KittyId, StoredKitty>, version: u16) -> Map<
    KittyId,
    StoredKitty,
> {
    Map::new(|k: KittyId| m.contains_key(k) && encoding_of(m[k]) != version, |k: KittyId| m[k])
}

/// `s` lists each key once, and lists exactly the key/value pairs of `m`.
pub open spec fn lists_exactly(s: Seq<(KittyId, StoredKitty)>, m: Map<KittyId, StoredKitty>) -> bool {
    &&& forall|i: int, j: int| 0 <= i < j < s.len() ==> #[trigger] s[i].0 != #[trigger] s[j].0
    &&& forall|i: int|
        0 <= i < s.len() ==> #[trigger] m.contains_key(s[i].0) && m[s[i].0] == s[i].1
    &&& forall|k: KittyId| #[trigger]
        m.contains_key(k) ==> exists|i: int| 0 <= i < s.len() && #[trigger] s[i].0 == k
}

/// One namespace of the store, with its version marker.
pub struct KittyStore {
    namespace: Namespace,
    entries: Vec<(KittyId, StoredKitty)>,
    on_chain_version: u16,
    current_version: u16,
    model: Ghost<Map<KittyId, StoredKitty>>,
}

impl StoredKitty {
    /// The schema version whose encoding this record is in.
    pub fn encoding(&self) -> (r: u16)
        ensures
            r == encoding_of(*self),
    {
        match self {
            StoredKitty::V0(_) => 0,
            StoredKitty::V1(_) => 1,
            StoredKitty::V2(_) => 2,
        }
    }
}

impl KittyStore {
    /// The records of the namespace, by key.
    pub closed spec fn view(&self) -> Map<KittyId, StoredKitty> {
        self.model@
    }

    /// The schema version recorded for the namespace.
    pub closed spec fn on_chain_spec(&self) -> u16 {
        self.on_chain_version
    }

    /// The schema version the running code is built for.
    pub closed spec fn current_spec(&self) -> u16 {
        self.current_version
    }

    /// The namespace's identifying pair.
    pub closed spec fn namespace_spec(&self) -> Namespace {
        self.namespace
    }

    /// Each key occurs once in the entry list, and the list holds exactly the
    /// records of the model.
    pub closed spec fn wf(&self) -> bool {
        &&& forall|i: int, j: int|
            0 <= i < j < self.entries@.len() ==> #[trigger] self.entries@[i].0
                != #[trigger] self.entries@[j].0
        &&& forall|i: int|
            0 <= i < self.entries@.len() ==> #[trigger] self.model@.contains_key(
                self.entries@[i].0,
            ) && self.model@[self.entries@[i].0] == self.entries@[i].1
        &&& forall|k: KittyId|
            #[trigger] self.model@.contains_key(k) ==> exists|i: int|
                0 <= i < self.entries@.len() && #[trigger] self.entries@[i].0 == k
    }

    /// An empty namespace with the given version marker.
    pub fn new(namespace: Namespace, on_chain_version: u16, current_version: u16) -> (r: Self)
        ensures
            r.wf(),
            r@ == Map::<KittyId, StoredKitty>::empty(),
            r.on_chain_spec() == on_chain_version,
            r.current_spec() == current_version,
            r.namespace_spec() == namespace,
    {
        KittyStore {
            namespace,
            entries: Vec::new(),
            on_chain_version,
            current_version,
            model: Ghost(Map::empty()),
        }
    }

    /// The schema version recorded for the namespace.
    pub fn on_chain_storage_version(&self) -> (r: u16)
        ensures
            r == self.on_chain_spec(),
    {
        self.on_chain_version
    }

    /// The schema version the running code is built for.
    pub fn current_storage_version(&self) -> (r: u16)
        ensures
            r == self.current_spec(),
    {
        self.current_version
    }

    /// The namespace's identifying pair.
    pub fn namespace(&self) -> (r: &Namespace)
        ensures
            *r == self.namespace_spec(),
    {
        &self.namespace
    }

    /// Where `key` stands in the entry list, if it is stored.
    fn position(&self, key: KittyId) -> (r: Option<usize>)
        requires
            self.wf(),
        ensures
            match r {
                Some(i) => i < self.entries@.len() && self.entries@[i as int].0 == key,
                None => !self@.contains_key(key),
            },
    {
        let mut i: usize = 0;
        while i < self.entries.len()
            invariant
                self.wf(),
                i <= self.entries@.len(),
                forall|j: int| 0 <= j < i ==> #[trigger] self.entries@[j].0 != key,
            decreases self.entries@.len() - i,
        {
            if self.entries[i].0 == key {
                return Some(i);
            }
            i = i + 1;
        }
        None
    }

    /// The record stored under `key`, if any.
    pub fn get(&self, key: KittyId) -> (r: Option<StoredKitty>)
        requires
            self.wf(),
        ensures
            r == (if self@.contains_key(key) { Some(self@[key]) } else { None::<StoredKitty> }),
    {
        match self.position(key) {
            Some(i) => Some(self.entries[i].1),
            None => None,
        }
    }

    /// The number of records in the namespace.
    pub fn len(&self) -> (r: usize)
        requires
            self.wf(),
        ensures
            r == self@.dom().len(),
    {
        proof {
            self.lemma_len();
        }
        self.entries.len()
    }

    proof fn lemma_len(&self)
        requires
            self.wf(),
        ensures
            self.entries@.len() == self@.dom().len(),
            self@.dom().finite(),
    {
        let keys = self.entries@.map_values(|e: (KittyId, StoredKitty)| e.0);
        assert forall|i: int, j: int| 0 <= i < j < keys.len() implies keys[i] != keys[j] by {
            assert(self.entries@[i].0 != self.entries@[j].0);
        }
        assert(keys.no_duplicates());
        assert forall|k: KittyId| #[trigger] self@.dom().contains(k) <==> keys.contains(k) by {
            if self@.contains_key(k) {
                let i = choose|i: int| 0 <= i < self.entries@.len() && #[trigger] self.entries@[i].0 == k;
                assert(keys[i] == k);
            }
            if keys.contains(k) {
                let i = choose|i: int| 0 <= i < keys.len() && keys[i] == k;
                assert(self.entries@[i].0 == k);
            }
        }
        assert(self@.dom() =~= keys.to_set());
        keys.unique_seq_to_set();
    }

    /// Writes `value` under `key`, replacing what was stored there.
    pub fn insert(&mut self, key: KittyId, value: StoredKitty)
        requires
            old(self).wf(),
        ensures
            final(self).wf(),
            final(self)@ == old(self)@.insert(key, value),
            final(self).on_chain_spec() == old(self).on_chain_spec(),
            final(self).current_spec() == old(self).current_spec(),
            final(self).namespace_spec() == old(self).namespace_spec(),
    {
        let pos = self.position(key);
        let ghost old_entries = self.entries@;
        match pos {
            Some(i) => {
                self.entries.set(i, (key, value));
            },
            None => {
                self.entries.push((key, value));
            },
        }
        self.model = Ghost(self.model@.insert(key, value));
        assert forall|k: KittyId| #[trigger] self.model@.contains_key(k) implies exists|i: int|
            0 <= i < self.entries@.len() && #[trigger] self.entries@[i].0 == k by {
            if k == key {
                match pos {
                    Some(i) => assert(self.entries@[i as int].0 == k),
                    None => assert(self.entries@[old_entries.len() as int].0 == k),
                }
            } else {
                let i = choose|i: int| 0 <= i < old_entries.len() && #[trigger] old_entries[i].0 == k;
                assert(self.entries@[i].0 == k);
            }
        }
    }

    /// Removes the entry at position `i`.
    fn remove_at(&mut self, i: usize) -> (r: (KittyId, StoredKitty))
        requires
            old(self).wf(),
            i < old(self).entries@.len(),
        ensures
            final(self).wf(),
            r == old(self).entries@[i as int],
            old(self)@.contains_key(r.0),
            old(self)@[r.0] == r.1,
            final(self)@ == old(self)@.remove(r.0),
            final(self).entries@ == old(self).entries@.remove(i as int),
            final(self).on_chain_spec() == old(self).on_chain_spec(),
            final(self).current_spec() == old(self).current_spec(),
            final(self).namespace_spec() == old(self).namespace_spec(),
    {
        let ghost old_entries = self.entries@;
        let ghost old_model = self.model@;
        assert(old_model.contains_key(old_entries[i as int].0));
        let r = self.entries.remove(i);
        self.model = Ghost(self.model@.remove(r.0));
        let ghost e = self.entries@;
        assert forall|a: int, b: int| 0 <= a < b < e.len() implies #[trigger] e[a].0
            != #[trigger] e[b].0 by {
            let a0 = if a < i { a } else { a + 1 };
            let b0 = if b < i { b } else { b + 1 };
            assert(e[a] == old_entries[a0]);
            assert(e[b] == old_entries[b0]);
        }
        assert forall|a: int| 0 <= a < e.len() implies #[trigger] self.model@.contains_key(e[a].0)
            && self.model@[e[a].0] == e[a].1 by {
            let a0 = if a < i { a } else { a + 1 };
            assert(e[a] == old_entries[a0]);
            assert(old_model.contains_key(old_entries[a0].0));
            if a0 < i {
                assert(old_entries[a0].0 != old_entries[i as int].0);
            } else {
                assert(old_entries[i as int].0 != old_entries[a0].0);
            }
        }
        assert forall|k: KittyId| #[trigger] self.model@.contains_key(k) implies exists|a: int|
            0 <= a < e.len() && #[trigger] e[a].0 == k by {
            let a0 = choose|a0: int| 0 <= a0 < old_entries.len() && #[trigger] old_entries[a0].0 == k;
            let a = if a0 < i { a0 } else { a0 - 1 };
            assert(e[a].0 == k);
        }
        r
    }

    /// Removes every record in the encoding of schema version `version` and
    /// hands each out once, with its key. Records in other encodings are left as
    /// they are.
    pub fn drain_encoding(&mut self, version: u16) -> (r: Vec<(KittyId, StoredKitty)>)
        requires
            old(self).wf(),
        ensures
            final(self).wf(),
            final(self)@ == records_not_in(old(self)@, version),
            lists_exactly(r@, records_in(old(self)@, version)),
            final(self).on_chain_spec() == old(self).on_chain_spec(),
            final(self).current_spec() == old(self).current_spec(),
            final(self).namespace_spec() == old(self).namespace_spec(),
    {
        let ghost m0 = self@;
        let mut drained: Vec<(KittyId, StoredKitty)> = Vec::new();
        let mut i: usize = 0;
        while i < self.entries.len()
            invariant
                self.wf(),
                i <= self.entries@.len(),
                self.on_chain_spec() == old(self).on_chain_spec(),
                self.current_spec() == old(self).current_spec(),
                self.namespace_spec() == old(self).namespace_spec(),
                m0 == old(self)@,
                forall|j: int| 0 <= j < i ==> encoding_of(#[trigger] self.entries@[j].1) != version,
                forall|k: KittyId| #[trigger]
                    self@.contains_key(k) ==> m0.contains_key(k) && self@[k] == m0[k],
                forall|k: KittyId|
                    m0.contains_key(k) && encoding_of(m0[k]) != version ==> #[trigger] self@.contains_key(k),
                forall|a: int, b: int|
                    0 <= a < b < drained@.len() ==> #[trigger] drained@[a].0
                        != #[trigger] drained@[b].0,
                forall|a: int|
                    0 <= a < drained@.len() ==> #[trigger] records_in(m0, version).contains_key(
                        drained@[a].0,
                    ) && records_in(m0, version)[drained@[a].0] == drained@[a].1
                        && !self@.contains_key(drained@[a].0),
                forall|k: KittyId| #[trigger]
                    records_in(m0, version).contains_key(k) && !self@.contains_key(k) ==> exists|a: int|
                        0 <= a < drained@.len() && #[trigger] drained@[a].0 == k,
            decreases self.entries@.len() - i,
        {
            if self.entries[i].1.encoding() == version {
                let ghost before = self@;
                let ghost drained_before = drained@;
                let e = self.remove_at(i);
                drained.push(e);
                assert(before.contains_key(e.0));
                assert forall|a: int, b: int|
                    0 <= a < b < drained@.len() implies #[trigger] drained@[a].0
                        != #[trigger] drained@[b].0 by {
                    if b == drained@.len() - 1 {
                        assert(records_in(m0, version).contains_key(drained_before[a].0));
                        assert(!before.contains_key(drained_before[a].0));
                    } else {
                        assert(drained_before[a].0 != drained_before[b].0);
                    }
                }
                assert forall|k: KittyId| #[trigger]
                    records_in(m0, version).contains_key(k) && !self@.contains_key(k) implies exists|a: int|
                        0 <= a < drained@.len() && #[trigger] drained@[a].0 == k by {
                    if k == e.0 {
                        assert(drained@[drained@.len() - 1].0 == k);
                    } else {
                        let a = choose|a: int| 0 <= a < drained_before.len() && #[trigger] drained_before[a].0 == k;
                        assert(drained@[a].0 == k);
                    }
                }
            } else {
                i = i + 1;
            }
        }
        assert(self@ =~= records_not_in(m0, version)) by {
            assert forall|k: KittyId| #[trigger] self@.contains_key(k) implies encoding_of(self@[k]) != version by {
                let j = choose|j: int| 0 <= j < self.entries@.len() && #[trigger] self.entries@[j].0 == k;
            }
        }
        drained
    }

    /// Records a new schema version for the namespace. The recorded version only
    /// moves forward: a version below the recorded one is ignored, and `false`
    /// returned.
    pub fn put_on_chain_storage_version(&mut self, version: u16) -> (r: bool)
        requires
            old(self).wf(),
        ensures
            final(self).wf(),
            r == (version >= old(self).on_chain_spec()),
            final(self).on_chain_spec() == (if r { version } else { old(self).on_chain_spec() }),
            final(self)@ == old(self)@,
            final(self).current_spec() == old(self).current_spec(),
            final(self).namespace_spec() == old(self).namespace_spec(),
    {
        if version >= self.on_chain_version {
            self.on_chain_version = version;
            assert(self.entries@ == old(self).entries@ && self.model@ == old(self).model@);
            true
        } else {
            false
        }
    }
}

/// A list that holds each key of `m` once holds as many pairs as `m` has keys.
pub proof fn lemma_listed_len(s: Seq<(KittyId, StoredKitty)>, m: Map<KittyId, StoredKitty>)
    requires
        lists_exactly(s, m),
    ensures
        m.dom().finite(),
        s.len() == m.dom().len(),
{
    let keys = s.map_values(|e: (KittyId, StoredKitty)| e.0);
    assert forall|i: int, j: int| 0 <= i < j < keys.len() implies keys[i] != keys[j] by {
        assert(s[i].0 != s[j].0);
    }
    assert forall|k: KittyId| #[trigger] m.dom().contains(k) <==> keys.contains(k) by {
        if m.contains_key(k) {
            let i = choose|i: int| 0 <= i < s.len() && #[trigger] s[i].0 == k;
            assert(keys[i] == k);
        }
        if keys.contains(k) {
            let i = choose|i: int| 0 <= i < keys.len() && keys[i] == k;
            assert(m.contains_key(s[i].0));
        }
    }
    assert(m.dom() =~= keys.to_set());
    keys.unique_seq_to_set();
}

} // verus!
