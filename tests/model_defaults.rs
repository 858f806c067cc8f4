use window_registry::{WindowChanges, WindowGeometry, WindowState, WindowUpdate};

#[test]
fn window_geometry_default_is_zeroed() {
    let geom = WindowGeometry::default();
    assert_eq!(geom.x, 0);
    assert_eq!(geom.y, 0);
    assert_eq!(geom.width, 0);
    assert_eq!(geom.height, 0);
}

#[test]
fn defaults_are_empty() {
    let state = WindowState::default();
    assert!(!state.minimized && !state.maximized && !state.fullscreen);
    assert!(WindowChanges::default().is_empty());
    let update = WindowUpdate::default();
    assert!(update.geometry.is_none() && update.add_children.is_empty());
    let mut changes = WindowChanges::default();
    changes.is_focused = Some(window_registry::WindowChange { old: false, new: true });
    assert!(!changes.is_empty());
}
