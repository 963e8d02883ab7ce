//! Schema migrations of the kitty namespace. Each step is written for one
//! version jump and runs only when the namespace records the step's source
//! version and the running code targets the step's destination version; it
//! then drains every record in the source encoding and writes its converted
//! form back under the same key.
pub mod v1;
pub mod v2;

use crate::kitty::{upgrade_v0, upgrade_v0_spec, upgrade_v1, upgrade_v1_spec};
use crate::store::{
    encoding_of, lemma_listed_len, lists_exactly, records_in, KittyId, KittyStore, StoredKitty,
};
use vstd::prelude::*;

verus! {

/// Whether a step from schema version `from` to `to` is due, given the version
/// recorded for the namespace and the version the running code targets.
pub open spec fn step_due(on_chain: u16, current: u16, from: u16, to: u16) -> bool {
    on_chain == from && current == to
}

/// A record carried one schema version forward; a record in the newest
/// encoding is left as it is.
pub open spec fn upgraded(v: StoredKitty) -> StoredKitty {
    match v {
        StoredKitty::V0(k) => StoredKitty::V1(upgrade_v0_spec(k)),
        StoredKitty::V1(k) => StoredKitty::V2(upgrade_v1_spec(k)),
        StoredKitty::V2(k) => StoredKitty::V2(k),
    }
}

/// The records of `m` after a pass over the encoding of version `from`: the
/// same keys, each record in that encoding carried one version forward.
pub open spec fn migrated(m: Map<KittyId, StoredKitty>, from: u16) -> Map<KittyId, StoredKitty> {
    Map::new(
        |k: KittyId| m.contains_key(k),
        |k: KittyId|
            if encoding_of(m[k]) == from {
                upgraded(m[k])
            } else {
                m[k]
            },
    )
}

/// Decides whether a step from `from` to `to` is due.
pub fn is_due(on_chain: u16, current: u16, from: u16, to: u16) -> (r: bool)
    ensures
        r == step_due(on_chain, current, from, to),
{
    on_chain == from && current == to
}

/// Carries a record one schema version forward.
pub fn upgrade(v: StoredKitty) -> (r: StoredKitty)
    ensures
        r == upgraded(v),
{
    match v {
        StoredKitty::V0(k) => StoredKitty::V1(upgrade_v0(k)),
        StoredKitty::V1(k) => StoredKitty::V2(upgrade_v1(k)),
        StoredKitty::V2(k) => StoredKitty::V2(k),
    }
}

/// Runs the step from `from` to `to` if it is due, and returns its cost: the
/// number of records it rewrote.
fn run_step(store: &mut KittyStore, from: u16, to: u16) -> (cost: u64)
    requires
        old(store).wf(),
    ensures
        final(store).wf(),
        final(store).on_chain_spec() == old(store).on_chain_spec(),
        final(store).current_spec() == old(store).current_spec(),
        final(store).namespace_spec() == old(store).namespace_spec(),
        step_due(old(store).on_chain_spec(), old(store).current_spec(), from, to) ==> {
            &&& final(store)@ == migrated(old(store)@, from)
            &&& cost == records_in(old(store)@, from).dom().len()
        },
        !step_due(old(store).on_chain_spec(), old(store).current_spec(), from, to) ==> {
            &&& final(store)@ == old(store)@
            &&& cost == 0
        },
{
    if !is_due(store.on_chain_storage_version(), store.current_storage_version(), from, to) {
        return 0;
    }
    let ghost m0 = store@;
    let drained = store.drain_encoding(from);
    proof {
        lemma_listed_len(drained@, records_in(m0, from));
    }
    let mut j: usize = 0;
    while j < drained.len()
        invariant
            store.wf(),
            store.on_chain_spec() == old(store).on_chain_spec(),
            store.current_spec() == old(store).current_spec(),
            store.namespace_spec() == old(store).namespace_spec(),
            m0 == old(store)@,
            j <= drained@.len(),
            lists_exactly(drained@, records_in(m0, from)),
            forall|k: KittyId|
                m0.contains_key(k) && encoding_of(m0[k]) != from ==> #[trigger] store@.contains_key(k)
                    && store@[k] == m0[k],
            forall|a: int|
                0 <= a < j ==> #[trigger] store@.contains_key(drained@[a].0) && store@[drained@[a].0]
                    == upgraded(drained@[a].1),
            forall|k: KittyId| #[trigger]
                store@.contains_key(k) ==> (m0.contains_key(k) && encoding_of(m0[k]) != from) || exists|a: int|
                    0 <= a < j && #[trigger] drained@[a].0 == k,
        decreases drained@.len() - j,
    {
        let (key, record) = drained[j];
        let ghost before = store@;
        store.insert(key, upgrade(record));
        proof {
            assert(records_in(m0, from).contains_key(drained@[j as int].0));
            assert forall|a: int| 0 <= a < j + 1 implies #[trigger] store@.contains_key(drained@[a].0)
                && store@[drained@[a].0] == upgraded(drained@[a].1) by {
                if a < j {
                    assert(drained@[a].0 != drained@[j as int].0);
                }
            }
            assert forall|k: KittyId| #[trigger] store@.contains_key(k) implies (m0.contains_key(k)
                && encoding_of(m0[k]) != from) || exists|a: int|
                0 <= a < j + 1 && #[trigger] drained@[a].0 == k by {
                if k == key {
                    assert(drained@[j as int].0 == k);
                } else {
                    assert(before.contains_key(k));
                }
            }
        }
        j = j + 1;
    }
    proof {
        assert forall|k: KittyId| #[trigger] store@.contains_key(k) <==> m0.contains_key(k) by {
            if m0.contains_key(k) && encoding_of(m0[k]) == from {
                assert(records_in(m0, from).contains_key(k));
                let a = choose|a: int| 0 <= a < drained@.len() && #[trigger] drained@[a].0 == k;
                assert(store@.contains_key(drained@[a].0));
            }
            if store@.contains_key(k) && !(m0.contains_key(k) && encoding_of(m0[k]) != from) {
                let a = choose|a: int| 0 <= a < drained@.len() && #[trigger] drained@[a].0 == k;
                assert(records_in(m0, from).contains_key(drained@[a].0));
            }
        }
        assert forall|k: KittyId| #[trigger] store@.contains_key(k) implies store@[k] == migrated(m0, from)[k] by {
            if encoding_of(m0[k]) == from {
                assert(records_in(m0, from).contains_key(k));
                let a = choose|a: int| 0 <= a < drained@.len() && #[trigger] drained@[a].0 == k;
                assert(store@.contains_key(drained@[a].0));
                assert(records_in(m0, from).contains_key(drained@[a].0));
            }
        }
        assert(store@ =~= migrated(m0, from));
    }
    drained.len() as u64
}

/// A pass loses no key and adds none, and each record it rewrote keeps its DNA
/// bit for bit: a version-0 blob becomes the DNA of the version-1 record, and a
/// version-1 record's DNA passes unchanged into its version-2 record.
pub proof fn lemma_pass_keeps_keys_and_dna(m: Map<KittyId, StoredKitty>, from: u16)
    ensures
        migrated(m, from).dom() == m.dom(),
        forall|k: KittyId|
            #![trigger migrated(m, from)[k]]
            m.contains_key(k) && from == 0 && m[k] is V0 ==> migrated(m, from)[k] is V1
                && migrated(m, from)[k]->V1_0.dna == m[k]->V0_0.0,
        forall|k: KittyId|
            #![trigger migrated(m, from)[k]]
            m.contains_key(k) && from == 1 && m[k] is V1 ==> migrated(m, from)[k] is V2
                && migrated(m, from)[k]->V2_0.dna == m[k]->V1_0.dna,
        forall|k: KittyId|
            #![trigger migrated(m, from)[k]]
            m.contains_key(k) && encoding_of(m[k]) != from ==> migrated(m, from)[k] == m[k],
{
    assert(migrated(m, from).dom() =~= m.dom());
}

/// Running a pass a second time, with the recorded version unchanged, changes
/// nothing: no rewritten record is taken for one in the source encoding again.
pub proof fn lemma_second_pass_changes_nothing(m: Map<KittyId, StoredKitty>, from: u16)
    ensures
        migrated(migrated(m, from), from) == migrated(m, from),
{
    assert(migrated(migrated(m, from), from) =~= migrated(m, from));
}

/// After a pass of the step from version 0 or from version 1, no record in the
/// source encoding is left: draining that encoding again yields nothing.
pub proof fn lemma_pass_drains_source(m: Map<KittyId, StoredKitty>, from: u16)
    requires
        from <= 1,
    ensures
        records_in(migrated(m, from), from) == Map::<KittyId, StoredKitty>::empty(),
        records_in(migrated(m, from), from).dom().len() == 0,
{
    assert(records_in(migrated(m, from), from) =~= Map::<KittyId, StoredKitty>::empty());
}

} // verus!
