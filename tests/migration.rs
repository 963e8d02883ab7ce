use kitties::kitty::{upgrade_v0, upgrade_v1, Kitty, KittyV2, V0Kitty};
use kitties::migrations::{is_due, upgrade, v1, v2};
use kitties::store::{KittyStore, Namespace, StoredKitty};

fn blob() -> [u8; 16] {
    [1, 2, 3, 4, 5, 6, 7, 8, 9, 10, 11, 12, 13, 14, 15, 16]
}

fn store(on_chain: u16, current: u16) -> KittyStore {
    KittyStore::new(
        Namespace { module: "Kitties".to_string(), item: "Kitties".to_string() },
        on_chain,
        current,
    )
}

fn filled(on_chain: u16, current: u16) -> KittyStore {
    let mut s = store(on_chain, current);
    s.insert(0, StoredKitty::V0(V0Kitty(blob())));
    s.insert(1, StoredKitty::V0(V0Kitty([9; 16])));
    s.insert(5, StoredKitty::V0(V0Kitty([0; 16])));
    s
}

#[test]
fn upgrade_from_version_zero_sets_fixed_name() {
    let k = upgrade_v0(V0Kitty(blob()));
    assert_eq!(k, Kitty { dna: blob(), name: *b"abcd" });
}

#[test]
fn upgrade_to_version_two_takes_name_from_dna() {
    let k = upgrade_v1(upgrade_v0(V0Kitty(blob())));
    assert_eq!(k, KittyV2 { dna: blob(), name: [1, 2, 3, 4, 5, 6, 7, 8] });
}

#[test]
fn upgrade_record_moves_one_version() {
    let r = upgrade(StoredKitty::V0(V0Kitty(blob())));
    assert_eq!(r, StoredKitty::V1(Kitty { dna: blob(), name: *b"abcd" }));
    let r = upgrade(r);
    assert_eq!(r, StoredKitty::V2(KittyV2 { dna: blob(), name: [1, 2, 3, 4, 5, 6, 7, 8] }));
    assert_eq!(upgrade(r), r);
}

#[test]
fn gate_needs_both_versions() {
    assert!(is_due(0, 1, 0, 1));
    assert!(!is_due(1, 1, 0, 1));
    assert!(!is_due(0, 2, 0, 1));
    assert!(!is_due(2, 2, 1, 2));
}

#[test]
fn migrate_is_noop_when_on_chain_version_differs() {
    let mut s = filled(1, 1);
    assert_eq!(v1::migrate(&mut s), 0);
    assert_eq!(s.get(0), Some(StoredKitty::V0(V0Kitty(blob()))));
    assert_eq!(s.len(), 3);
    assert_eq!(s.on_chain_storage_version(), 1);
}

#[test]
fn migrate_is_noop_when_target_version_differs() {
    let mut s = filled(0, 2);
    assert_eq!(v1::migrate(&mut s), 0);
    assert_eq!(s.get(1), Some(StoredKitty::V0(V0Kitty([9; 16]))));
    assert_eq!(v2::migrate(&mut s), 0);
    assert_eq!(s.get(1), Some(StoredKitty::V0(V0Kitty([9; 16]))));
}

#[test]
fn migrate_rewrites_every_record_under_same_key() {
    let mut s = filled(0, 1);
    assert_eq!(v1::migrate(&mut s), 3);
    assert_eq!(s.len(), 3);
    assert_eq!(s.get(0), Some(StoredKitty::V1(Kitty { dna: blob(), name: *b"abcd" })));
    assert_eq!(s.get(1), Some(StoredKitty::V1(Kitty { dna: [9; 16], name: *b"abcd" })));
    assert_eq!(s.get(5), Some(StoredKitty::V1(Kitty { dna: [0; 16], name: *b"abcd" })));
    assert_eq!(s.get(2), None);
    assert_eq!(s.on_chain_storage_version(), 0);
}

#[test]
fn migrate_on_empty_namespace_costs_nothing() {
    let mut s = store(0, 1);
    assert_eq!(v1::migrate(&mut s), 0);
    assert_eq!(s.len(), 0);
}

#[test]
fn second_run_leaves_migrated_records_alone() {
    let mut s = filled(0, 1);
    v1::migrate(&mut s);
    assert_eq!(v1::migrate(&mut s), 0);
    assert_eq!(s.len(), 3);
    assert_eq!(s.get(0), Some(StoredKitty::V1(Kitty { dna: blob(), name: *b"abcd" })));
}

#[test]
fn variant_a_scenario() {
    let mut s = store(0, 1);
    s.insert(3, StoredKitty::V0(V0Kitty(blob())));
    v1::migrate(&mut s);
    assert_eq!(s.get(3), Some(StoredKitty::V1(Kitty { dna: blob(), name: *b"abcd" })));
}

#[test]
fn variant_b_scenario() {
    let mut s = store(0, 1);
    s.insert(3, StoredKitty::V0(V0Kitty(blob())));
    v1::migrate(&mut s);
    assert!(s.put_on_chain_storage_version(1));
    let mut s2 = store(1, 2);
    s2.insert(3, s.get(3).unwrap());
    assert_eq!(v2::migrate(&mut s2), 1);
    assert_eq!(
        s2.get(3),
        Some(StoredKitty::V2(KittyV2 { dna: blob(), name: [1, 2, 3, 4, 5, 6, 7, 8] }))
    );
}

#[test]
fn draining_after_pass_yields_nothing() {
    let mut s = filled(0, 1);
    v1::migrate(&mut s);
    assert!(s.drain_encoding(0).is_empty());
    assert_eq!(s.len(), 3);
}

#[test]
fn drain_hands_out_each_legacy_record_once() {
    let mut s = filled(0, 1);
    s.insert(8, StoredKitty::V1(Kitty { dna: [4; 16], name: *b"wxyz" }));
    let mut drained = s.drain_encoding(0);
    drained.sort_by_key(|e| e.0);
    assert_eq!(
        drained,
        vec![
            (0, StoredKitty::V0(V0Kitty(blob()))),
            (1, StoredKitty::V0(V0Kitty([9; 16]))),
            (5, StoredKitty::V0(V0Kitty([0; 16]))),
        ]
    );
    assert_eq!(s.len(), 1);
    assert_eq!(s.get(8), Some(StoredKitty::V1(Kitty { dna: [4; 16], name: *b"wxyz" })));
}

#[test]
fn mixed_namespace_only_source_encoding_is_rewritten() {
    let mut s = filled(0, 1);
    s.insert(8, StoredKitty::V1(Kitty { dna: [4; 16], name: *b"wxyz" }));
    assert_eq!(v1::migrate(&mut s), 3);
    assert_eq!(s.get(8), Some(StoredKitty::V1(Kitty { dna: [4; 16], name: *b"wxyz" })));
    assert_eq!(s.len(), 4);
}

#[test]
fn recorded_version_only_moves_forward() {
    let mut s = store(1, 2);
    assert!(!s.put_on_chain_storage_version(0));
    assert_eq!(s.on_chain_storage_version(), 1);
    assert!(s.put_on_chain_storage_version(2));
    assert_eq!(s.on_chain_storage_version(), 2);
    assert_eq!(s.current_storage_version(), 2);
    assert_eq!(s.namespace().item, "Kitties");
}

#[test]
fn insert_replaces_record() {
    let mut s = store(0, 1);
    s.insert(4, StoredKitty::V0(V0Kitty([1; 16])));
    s.insert(4, StoredKitty::V0(V0Kitty([2; 16])));
    assert_eq!(s.len(), 1);
    assert_eq!(s.get(4), Some(StoredKitty::V0(V0Kitty([2; 16]))));
    assert_eq!(s.get(4).unwrap().encoding(), 0);
}
