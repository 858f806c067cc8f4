use window_registry::{
    DesktopKey, LifecycleState, Registry, RegistryError, RegistryEvent, SurfaceKey, WindowChange,
    WindowGeometry, WindowId, WindowState, WindowUpdate,
};

fn keys(n: usize) -> (DesktopKey, SurfaceKey) {
    (
        DesktopKey::from_addr(0x1000 + 16 * n).unwrap(),
        SurfaceKey::from_addr(0x9000 + 16 * n).unwrap(),
    )
}

fn insert(reg: &mut Registry, n: usize) -> WindowId {
    let (dk, sk) = keys(n);
    reg.insert_window(dk, sk).expect("insert").0
}

fn stack_change(ev: &RegistryEvent) -> Option<(WindowId, i32, i32)> {
    match ev {
        RegistryEvent::WindowChanged { id, changes } => {
            changes.stack_index.as_ref().map(|c| (*id, c.old, c.new))
        }
        _ => None,
    }
}

#[test]
fn insert_emits_created_and_stacks_on_top() {
    let mut reg = Registry::new();
    let (dk, sk) = keys(1);
    let (a, events) = reg.insert_window(dk, sk).unwrap();
    assert_eq!(events.len(), 1);
    assert!(matches!(events[0], RegistryEvent::WindowCreated { id, .. } if id == a));
    let info = reg.snapshot(a).unwrap();
    assert_eq!(info.lifecycle, LifecycleState::Created);
    assert_eq!(info.stack_index, 0);
    let b = insert(&mut reg, 2);
    assert_eq!(reg.snapshot(b).unwrap().stack_index, 1);
}

#[test]
fn raising_second_window_to_bottom_swaps_positions() {
    let mut reg = Registry::new();
    let a = insert(&mut reg, 1);
    let b = insert(&mut reg, 2);
    let mut update = WindowUpdate::default();
    update.stack_index = Some(0);
    let events = reg.update_window(b, update).unwrap();
    assert_eq!(events.len(), 2);
    assert_eq!(stack_change(&events[0]), Some((a, 0, 1)));
    assert_eq!(stack_change(&events[1]), Some((b, 1, 0)));
    assert_eq!(reg.snapshot(a).unwrap().stack_index, 1);
    assert_eq!(reg.snapshot(b).unwrap().stack_index, 0);
}

#[test]
fn removal_shifts_windows_above_then_destroys() {
    let mut reg = Registry::new();
    let a = insert(&mut reg, 1);
    let b = insert(&mut reg, 2);
    let (_record, events) = reg.remove_window(a).unwrap();
    assert_eq!(events.len(), 2);
    assert_eq!(stack_change(&events[0]), Some((b, 1, 0)));
    assert!(matches!(events[1], RegistryEvent::WindowDestroyed { id } if id == a));
    assert_eq!(reg.snapshot(b).unwrap().stack_index, 0);
}

#[test]
fn removal_keeps_stacking_dense() {
    let mut reg = Registry::new();
    let ids: Vec<WindowId> = (1..=5).map(|n| insert(&mut reg, n)).collect();
    reg.remove_window(ids[1]).unwrap();
    reg.remove_window(ids[3]).unwrap();
    let mut positions: Vec<i32> = reg.snapshot_all().iter().map(|w| w.stack_index).collect();
    positions.sort();
    assert_eq!(positions, vec![0, 1, 2]);
}

#[test]
fn parenting_updates_parent_then_child() {
    let mut reg = Registry::new();
    let p = insert(&mut reg, 1);
    let c = insert(&mut reg, 2);
    let mut update = WindowUpdate::default();
    update.parent_id = Some(Some(p));
    let events = reg.update_window(c, update).unwrap();
    assert_eq!(events.len(), 2);
    assert!(matches!(
        &events[0],
        RegistryEvent::WindowChanged { id, changes }
            if *id == p && changes.children == Some(WindowChange { old: vec![], new: vec![c] })
    ));
    assert!(matches!(
        &events[1],
        RegistryEvent::WindowChanged { id, changes }
            if *id == c && changes.parent_id == Some(WindowChange { old: None, new: Some(p) })
    ));
}

#[test]
fn reparenting_parent_under_its_child_is_a_cycle() {
    let mut reg = Registry::new();
    let p = insert(&mut reg, 1);
    let c = insert(&mut reg, 2);
    let mut update = WindowUpdate::default();
    update.parent_id = Some(Some(p));
    reg.update_window(c, update).unwrap();
    let mut update = WindowUpdate::default();
    update.parent_id = Some(Some(c));
    let err = reg.update_window(p, update).unwrap_err();
    assert!(matches!(err, RegistryError::ParentCycle { id, parent } if id == p && parent == c));
    assert_eq!(reg.snapshot(p).unwrap().parent_id, None);
}

#[test]
fn new_parent_and_new_child_cannot_close_a_cycle() {
    let mut reg = Registry::new();
    let w = insert(&mut reg, 1);
    let p = insert(&mut reg, 2);
    let g = insert(&mut reg, 3);
    let mut update = WindowUpdate::default();
    update.parent_id = Some(Some(g));
    reg.update_window(p, update).unwrap();
    let mut update = WindowUpdate::default();
    update.parent_id = Some(Some(p));
    update.add_children.push(g);
    let err = reg.update_window(w, update).unwrap_err();
    assert!(matches!(err, RegistryError::ParentCycle { id, parent } if id == g && parent == w));
    assert_eq!(reg.snapshot(w).unwrap().parent_id, None);
}

#[test]
fn restating_current_values_emits_nothing() {
    let mut reg = Registry::new();
    let a = insert(&mut reg, 1);
    let b = insert(&mut reg, 2);
    let geom = WindowGeometry { x: 1, y: 2, width: 3, height: 4 };
    let mut update = WindowUpdate::default();
    update.geometry = Some(Some(geom));
    update.title = Some(Some("t".to_string()));
    update.is_focused = Some(true);
    update.parent_id = Some(Some(a));
    reg.update_window(b, update).unwrap();

    let mut same = WindowUpdate::default();
    same.geometry = Some(Some(geom));
    same.state = Some(WindowState::default());
    same.is_focused = Some(true);
    same.workspace = Some(None);
    same.output = Some(None);
    same.stack_index = Some(1);
    same.parent_id = Some(Some(a));
    same.title = Some(Some("t".to_string()));
    same.app_id = Some(None);
    let events = reg.update_window(b, same).unwrap();
    assert!(events.is_empty());
}

#[test]
fn focusing_moves_focus_exclusively() {
    let mut reg = Registry::new();
    let ids: Vec<WindowId> = (1..=3).map(|n| insert(&mut reg, n)).collect();
    for id in &ids {
        let mut update = WindowUpdate::default();
        update.is_focused = Some(true);
        reg.update_window(*id, update).unwrap();
        let focused: Vec<WindowId> =
            reg.snapshot_all().iter().filter(|w| w.is_focused).map(|w| w.id).collect();
        assert_eq!(focused, vec![*id]);
    }
}

#[test]
fn failed_validation_changes_nothing() {
    let mut reg = Registry::new();
    let a = insert(&mut reg, 1);
    let mut update = WindowUpdate::default();
    update.title = Some(Some("kept?".to_string()));
    update.stack_index = Some(5);
    let err = reg.update_window(a, update).unwrap_err();
    assert!(matches!(err, RegistryError::StackIndexOutOfBounds { index: 5, count: 1, .. }));
    assert_eq!(reg.snapshot(a).unwrap().title, None);
}

#[test]
fn geometry_edges_at_the_limit() {
    let mut reg = Registry::new();
    let a = insert(&mut reg, 1);
    let mut update = WindowUpdate::default();
    update.geometry = Some(Some(WindowGeometry { x: i32::MAX - 10, y: 0, width: 10, height: 0 }));
    assert!(reg.update_window(a, update).is_ok());
    let mut update = WindowUpdate::default();
    update.geometry = Some(Some(WindowGeometry { x: 0, y: i32::MAX - 10, width: 0, height: 11 }));
    assert!(matches!(reg.update_window(a, update), Err(RegistryError::GeometryOverflow { .. })));
    let mut update = WindowUpdate::default();
    update.geometry = Some(Some(WindowGeometry { x: 0, y: 0, width: 5, height: -1 }));
    assert!(matches!(reg.update_window(a, update), Err(RegistryError::InvalidGeometry { .. })));
}

#[test]
fn invalid_state_combinations_are_refused() {
    let mut reg = Registry::new();
    let a = insert(&mut reg, 1);
    for (mi, ma, fu) in [(true, false, true), (false, true, true)] {
        let mut update = WindowUpdate::default();
        update.state = Some(WindowState { minimized: mi, maximized: ma, fullscreen: fu });
        assert!(matches!(reg.update_window(a, update), Err(RegistryError::InvalidState { .. })));
    }
    let mut update = WindowUpdate::default();
    update.state = Some(WindowState { minimized: false, maximized: true, fullscreen: false });
    assert!(reg.update_window(a, update).is_ok());
}

#[test]
fn reverse_lookup_follows_removal_and_reuse() {
    let mut reg = Registry::new();
    let (dk1, sk1) = keys(1);
    let a = reg.insert_window(dk1, sk1).unwrap().0;
    reg.remove_window(a).unwrap();
    let (dk2, sk2) = keys(2);
    let b = reg.insert_window(dk2, sk2).unwrap().0;
    assert_eq!(a.index(), b.index());
    assert_ne!(a.generation(), b.generation());
    assert_eq!(reg.from_desktop(dk1), None);
    assert_eq!(reg.from_desktop(dk2), Some(b));
    assert_eq!(reg.from_surface(sk2), Some(b));
    assert!(reg.get(a).is_none());
}

#[test]
fn detaching_an_unlisted_child_changes_nothing() {
    let mut reg = Registry::new();
    let a = insert(&mut reg, 1);
    let b = insert(&mut reg, 2);
    let mut update = WindowUpdate::default();
    update.remove_children.push(b);
    let events = reg.update_window(a, update).unwrap();
    assert!(events.is_empty());
}

#[test]
fn reused_slot_gets_next_generation() {
    let mut reg = Registry::new();
    let a = insert(&mut reg, 1);
    assert_eq!(a.generation(), 1);
    reg.remove_window(a).unwrap();
    let b = insert(&mut reg, 2);
    assert_eq!(b.index(), a.index());
    assert_eq!(b.generation(), 2);
    let c = insert(&mut reg, 3);
    assert_eq!(c.index(), 1);
    assert_eq!(c.generation(), 1);
}

#[test]
fn child_edits_update_both_sides() {
    let mut reg = Registry::new();
    let p = insert(&mut reg, 1);
    let c1 = insert(&mut reg, 2);
    let c2 = insert(&mut reg, 3);
    let other = insert(&mut reg, 4);
    let mut update = WindowUpdate::default();
    update.add_children.push(c1);
    update.add_children.push(c2);
    let events = reg.update_window(p, update).unwrap();
    assert_eq!(events.len(), 3);
    assert_eq!(reg.snapshot(p).unwrap().children, vec![c1, c2]);
    assert_eq!(reg.snapshot(c1).unwrap().parent_id, Some(p));
    assert_eq!(reg.snapshot(other).unwrap().parent_id, None);
    let mut update = WindowUpdate::default();
    update.remove_children.push(c1);
    reg.update_window(p, update).unwrap();
    assert_eq!(reg.snapshot(p).unwrap().children, vec![c2]);
    assert_eq!(reg.snapshot(c1).unwrap().parent_id, None);
}
