use std::collections::HashSet;

use window_registry::{
    DesktopKey, LifecycleState, Registry, RegistryError, SharedRegistry, SurfaceKey,
};

fn keys(n: usize) -> (DesktopKey, SurfaceKey) {
    (
        DesktopKey::from_addr(0x1000 + 16 * n).unwrap(),
        SurfaceKey::from_addr(0x9000 + 16 * n).unwrap(),
    )
}

fn assert_shared_invariants(reg: &SharedRegistry) {
    let all = reg.snapshot_all();
    let mut ids = HashSet::new();
    let mut dks = HashSet::new();
    let mut sks = HashSet::new();
    for w in &all {
        assert!(ids.insert(w.id), "duplicate WindowId in snapshot_all");
        assert!(dks.insert(w.dk), "DesktopKey reused by two live windows");
        assert!(sks.insert(w.sk), "SurfaceKey reused by two live windows");
        let rt = reg.snapshot(w.id).expect("every listed id resolves");
        assert_eq!(rt.id, w.id);
        assert_eq!(rt.dk, w.dk);
        assert_eq!(rt.sk, w.sk);
        assert_ne!(rt.lifecycle, LifecycleState::Destroyed);
    }
}

#[test]
fn reverse_lookup_cleared_on_remove_window() {
    let mut reg = Registry::new();
    let (dk, sk) = keys(1);
    let (id, _events) = reg.insert_window(dk, sk).expect("insert_window should succeed");

    assert_eq!(reg.from_desktop(dk), Some(id));
    assert_eq!(reg.from_surface(sk), Some(id));

    let (_record, _events) = reg.remove_window(id).expect("remove_window should succeed");

    assert_eq!(reg.from_desktop(dk), None);
    assert_eq!(reg.from_surface(sk), None);
}

#[test]
fn reverse_lookup_persists_on_remove() {
    let mut reg = Registry::new();
    let (dk, sk) = keys(1);
    let id = reg.insert_window(dk, sk).expect("insert_window should succeed").0;

    let removed = reg.remove(id).expect("remove should succeed");
    assert_eq!(removed.id, id);

    assert_eq!(reg.from_desktop(dk), Some(id));
    assert_eq!(reg.from_surface(sk), Some(id));
    assert!(reg.snapshot(id).is_none(), "stale id should not resolve");

    let err = reg.insert_window(dk, sk).expect_err("maps still reserve dk/sk");
    assert!(matches!(
        err,
        RegistryError::DesktopKeyAlreadyRegistered { dk: err_dk, existing }
            if err_dk == dk && existing == id
    ));
}

#[test]
fn slot_reuse_invalidates_old_id() {
    let mut reg = Registry::new();
    let (dk1, sk1) = keys(1);
    let (id1, _events) = reg.insert_window(dk1, sk1).expect("insert_window A");
    let (_record, _events) = reg.remove_window(id1).expect("remove_window A");

    let (dk2, sk2) = keys(2);
    let (id2, _events) = reg.insert_window(dk2, sk2).expect("insert_window B");

    assert!(reg.snapshot(id1).is_none(), "old id should be stale after reuse");
    assert!(reg.snapshot(id2).is_some(), "new id should resolve");
    assert_ne!(id1, id2, "ids should differ after reuse");
}

#[test]
fn invariants_hold_across_multiple_windows() {
    let reg = SharedRegistry::new(Registry::new());
    let (dk1, sk1) = keys(1);
    let (dk2, sk2) = keys(2);
    let (dk3, sk3) = keys(3);

    let id1 = reg.insert_window_with(dk1, sk1, |_| {}).expect("insert A");
    let id2 = reg.insert_window_with(dk2, sk2, |_| {}).expect("insert B");
    let id3 = reg.insert_window_with(dk3, sk3, |_| {}).expect("insert C");

    assert_shared_invariants(&reg);

    reg.remove_window_with(id2, |_| {}).expect("remove B");
    reg.remove_window_with(id1, |_| {}).expect("remove A");
    reg.remove_window_with(id3, |_| {}).expect("remove C");

    assert_shared_invariants(&reg);
}

#[test]
fn snapshot_all_consistent_after_mixed_operations() {
    let mut reg = Registry::new();
    let (dk1, sk1) = keys(1);
    let (dk2, sk2) = keys(2);
    let (dk3, sk3) = keys(3);

    let (id1, _events) = reg.insert_window(dk1, sk1).expect("insert A");
    let (id2, _events) = reg.insert_window(dk2, sk2).expect("insert B");
    let (id3, _events) = reg.insert_window(dk3, sk3).expect("insert C");

    reg.on_map(id1).expect("map A");
    reg.on_unmap(id1).expect("unmap A");
    reg.on_map(id2).expect("map B");
    reg.remove_window(id2).expect("remove B");

    let all = reg.snapshot_all();
    assert_eq!(all.len(), 2);

    let mut by_id = std::collections::HashMap::new();
    for w in all {
        by_id.insert(w.id, w.lifecycle);
    }

    assert_eq!(by_id.get(&id1), Some(&LifecycleState::Unmapped));
    assert_eq!(by_id.get(&id3), Some(&LifecycleState::Created));
    assert!(!by_id.contains_key(&id2));
}

#[test]
fn remove_twice_returns_none() {
    let mut reg = Registry::new();
    let (dk, sk) = keys(1);
    let (id, _events) = reg.insert_window(dk, sk).expect("insert_window should succeed");

    assert!(reg.remove(id).is_some(), "first remove should succeed");
    assert!(reg.remove(id).is_none(), "second remove should return None");
    assert!(reg.snapshot(id).is_none(), "removed id should not resolve");
}

#[test]
fn reverse_lookups_unchanged_after_failed_insert() {
    let mut reg = Registry::new();
    let (dk1, sk1) = keys(1);
    let (dk2, sk2) = keys(2);

    let (id1, _events) = reg.insert_window(dk1, sk1).expect("insert A");

    let err = reg.insert_window(dk1, sk2).expect_err("duplicate dk should fail");
    assert!(matches!(
        err,
        RegistryError::DesktopKeyAlreadyRegistered { dk, existing }
            if dk == dk1 && existing == id1
    ));

    assert_eq!(reg.from_desktop(dk1), Some(id1));
    assert_eq!(reg.from_surface(sk1), Some(id1));

    let err = reg.insert_window(dk2, sk1).expect_err("duplicate sk should fail");
    assert!(matches!(
        err,
        RegistryError::SurfaceKeyAlreadyRegistered { sk, existing }
            if sk == sk1 && existing == id1
    ));

    assert_eq!(reg.from_desktop(dk1), Some(id1));
    assert_eq!(reg.from_surface(sk1), Some(id1));
}

#[test]
fn insert_low_level_allocates_new_id() {
    let mut reg = Registry::new();
    let (dk, sk) = keys(1);
    let (id, _events) = reg.insert_window(dk, sk).expect("insert_window should succeed");
    let (record, _events) = reg.remove_window(id).expect("remove_window should succeed");

    let new_id = reg.insert(record);
    let stored = reg.get(new_id).expect("record should be stored");
    assert_eq!(stored.id, id, "low-level insert preserves record contents");
    assert_ne!(new_id, id, "new allocation should yield a fresh id");
}

#[test]
fn generation_mismatch_paths_return_none_or_error() {
    let mut reg = Registry::new();
    let (dk1, sk1) = keys(1);
    let (old_id, _events) = reg.insert_window(dk1, sk1).expect("insert_window A");
    reg.remove_window(old_id).expect("remove_window A");

    let (dk2, sk2) = keys(2);
    let (new_id, _events) = reg.insert_window(dk2, sk2).expect("insert_window B");

    assert!(reg.get_mut(old_id).is_none(), "stale id should not allow mutable access");
    assert!(reg.remove(old_id).is_none(), "stale id should not remove");

    let err = reg.remove_window(old_id).expect_err("stale id should error");
    assert!(matches!(err, RegistryError::InvalidWindowId(id) if id == old_id));

    assert!(reg.snapshot(new_id).is_some(), "new id should remain valid");
}
