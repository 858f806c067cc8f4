use window_registry::{on_new_desktop_surface_with_keys, DesktopKey, Registry, RegistryError, SurfaceKey};


fn keys(n: usize) -> (DesktopKey, SurfaceKey) {
    (
        DesktopKey::from_addr(0x1000 + 16 * n).unwrap(),
        SurfaceKey::from_addr(0x9000 + 16 * n).unwrap(),
    )
}

#[test]
fn on_new_desktop_surface_with_keys_errors_on_duplicate() {
    let mut reg = Registry::new();

    let (dk1, sk1) = keys(1);
    let (dk2, sk2) = keys(2);

    on_new_desktop_surface_with_keys(dk1, sk1, &mut reg)
        .expect("first insert should succeed");

    let err = on_new_desktop_surface_with_keys(dk1, sk2, &mut reg)
        .expect_err("duplicate desktop key should error");
    assert!(matches!(
        err,
        RegistryError::DesktopKeyAlreadyRegistered { dk, .. } if dk == dk1
    ));

    let err = on_new_desktop_surface_with_keys(dk2, sk1, &mut reg)
        .expect_err("duplicate surface key should error");
    assert!(matches!(
        err,
        RegistryError::SurfaceKeyAlreadyRegistered { sk, .. } if sk == sk1
    ));
}
