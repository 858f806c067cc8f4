use window_registry::{CompositorHandles, DesktopKey, Registry, SurfaceKey};

#[test]
fn compositor_handles_set_get_remove() {
    let mut reg = Registry::new();
    let dk = DesktopKey::from_addr(0x1000).unwrap();
    let sk = SurfaceKey::from_addr(0x2000).unwrap();
    let (id, _events) = reg.insert_window(dk, sk).expect("insert_window should succeed");

    let view: usize = 0x3000;

    let mut handles = CompositorHandles::new();
    handles.set_view(id, view);

    let stored = handles.get_view(id).expect("view should be set");
    assert_eq!(stored, view);

    handles.remove_view(id);
    assert!(handles.get_view(id).is_none());
}

#[test]
fn compositor_handles_replace_keeps_one_view() {
    let mut reg = Registry::new();
    let (a, _) = reg
        .insert_window(DesktopKey::from_addr(0x10).unwrap(), SurfaceKey::from_addr(0x20).unwrap())
        .unwrap();
    let (b, _) = reg
        .insert_window(DesktopKey::from_addr(0x30).unwrap(), SurfaceKey::from_addr(0x40).unwrap())
        .unwrap();
    let mut handles = CompositorHandles::new();
    handles.set_view(a, 0x100);
    handles.set_view(b, 0x200);
    handles.set_view(a, 0x300);
    assert_eq!(handles.get_view(a), Some(0x300));
    assert_eq!(handles.get_view(b), Some(0x200));
    handles.remove_view(a);
    assert_eq!(handles.get_view(a), None);
    assert_eq!(handles.get_view(b), Some(0x200));
}
