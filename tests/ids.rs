use std::collections::hash_map::DefaultHasher;
use std::collections::HashSet;
use std::hash::{Hash, Hasher};

use window_registry::{DesktopKey, SurfaceKey, WindowId};

fn hash_of<T: Hash>(value: &T) -> u64 {
    let mut hasher = DefaultHasher::new();
    value.hash(&mut hasher);
    hasher.finish()
}

#[test]
fn keys_hash_and_eq_by_address() {
    let dk1 = DesktopKey::from_addr(0x1000).unwrap();
    let dk2 = DesktopKey::from_addr(0x2000).unwrap();
    assert_ne!(dk1, dk2);
    let dk1_again = DesktopKey::from_addr(0x1000).unwrap();
    assert_eq!(dk1, dk1_again);

    let sk1 = SurfaceKey::from_addr(0x3000).unwrap();
    let sk2 = SurfaceKey::from_addr(0x4000).unwrap();
    assert_ne!(sk1, sk2);
    let sk1_again = SurfaceKey::from_addr(0x3000).unwrap();
    assert_eq!(sk1, sk1_again);
}

#[test]
fn ids_hash_and_eq_work_in_hashset() {
    let mut dks = HashSet::new();
    dks.insert(DesktopKey::from_addr(0x1000).unwrap());
    dks.insert(DesktopKey::from_addr(0x2000).unwrap());
    assert_eq!(dks.len(), 2);

    let mut sks = HashSet::new();
    sks.insert(SurfaceKey::from_addr(0x3000).unwrap());
    sks.insert(SurfaceKey::from_addr(0x4000).unwrap());
    assert_eq!(sks.len(), 2);
}

#[test]
fn ids_hash_is_stable_for_same_pointer() {
    let dk1 = DesktopKey::from_addr(0x1000).unwrap();
    let dk2 = DesktopKey::from_addr(0x1000).unwrap();
    let sk1 = SurfaceKey::from_addr(0x3000).unwrap();
    let sk2 = SurfaceKey::from_addr(0x3000).unwrap();

    assert_eq!(dk1, dk2);
    assert_eq!(sk1, sk2);
    assert_eq!(hash_of(&dk1), hash_of(&dk2));
    assert_eq!(hash_of(&sk1), hash_of(&sk2));
}

#[test]
fn ids_as_ptr_round_trip() {
    let dk = DesktopKey::from_addr(0x1000).unwrap();
    let sk = SurfaceKey::from_addr(0x3000).unwrap();
    assert_eq!(dk.as_ptr(), 0x1000);
    assert_eq!(sk.as_ptr(), 0x3000);
}

#[test]
fn null_address_makes_no_key() {
    assert!(DesktopKey::from_addr(0).is_none());
    assert!(SurfaceKey::from_addr(0).is_none());
}

#[test]
fn window_id_parts() {
    let id = WindowId::from_parts(7, 3);
    assert_eq!(id.index(), 7);
    assert_eq!(id.generation(), 3);
}
