use vstd::prelude::*;
use crate::ids::{DesktopKey, SurfaceKey, WindowId};

verus! {

/// Lifecycle of a window. `Destroyed` is terminal and never retained.
#[derive(Clone, Copy, Debug, PartialEq, Eq, Structural)]
pub enum LifecycleState {
    Created,
    Mapped,
    Unmapped,
    Destroyed,
}

#[derive(Clone, Copy, Debug, PartialEq, Eq, Structural)]
pub struct WindowGeometry {
    pub x: i32,
    pub y: i32,
    pub width: i32,
    pub height: i32,
}

impl Default for WindowGeometry {
    fn default() -> (r: Self)
        ensures
            r == (WindowGeometry { x: 0, y: 0, width: 0, height: 0 }),
    {
        WindowGeometry { x: 0, y: 0, width: 0, height: 0 }
    }
}

impl WindowGeometry {
    /// Non-negative extent, and right and bottom edges that fit in an `i32`.
    pub open spec fn is_valid(self) -> bool {
        self.width >= 0 && self.height >= 0 && self.x + self.width <= i32::MAX && self.y
            + self.height <= i32::MAX
    }
}

#[derive(Clone, Copy, Debug, PartialEq, Eq, Structural)]
pub struct WindowState {
    pub minimized: bool,
    pub maximized: bool,
    pub fullscreen: bool,
}

impl WindowState {
    /// Minimized excludes maximized and fullscreen; maximized excludes fullscreen.
    pub open spec fn is_valid(self) -> bool {
        !(self.minimized && (self.maximized || self.fullscreen)) && !(self.maximized
            && self.fullscreen)
    }

    pub open spec fn plain() -> WindowState {
        WindowState { minimized: false, maximized: false, fullscreen: false }
    }
}

impl Default for WindowState {
    fn default() -> (r: Self)
        ensures
            r == WindowState::plain(),
    {
        WindowState { minimized: false, maximized: false, fullscreen: false }
    }
}

#[derive(Clone, Copy, Debug, PartialEq, Eq, Hash, Structural)]
pub struct WorkspaceId(pub u32);

#[derive(Clone, Copy, Debug, PartialEq, Eq, Hash, Structural)]
pub struct OutputId(pub u32);

/// A window as the registry owns it.
#[derive(Debug)]
pub struct WindowRecord {
    pub id: WindowId,
    pub dk: DesktopKey,
    pub sk: SurfaceKey,
    pub lifecycle: LifecycleState,
    pub geometry: Option<WindowGeometry>,
    pub state: WindowState,
    pub is_focused: bool,
    pub workspace: Option<WorkspaceId>,
    pub output: Option<OutputId>,
    pub stack_index: i32,
    pub parent_id: Option<WindowId>,
    pub children: Vec<WindowId>,
    pub title: Option<String>,
    pub app_id: Option<String>,
}

/// An immutable snapshot of a window record.
#[derive(Clone, Debug)]
pub struct WindowInfo {
    pub id: WindowId,
    pub dk: DesktopKey,
    pub sk: SurfaceKey,
    pub lifecycle: LifecycleState,
    pub geometry: Option<WindowGeometry>,
    pub state: WindowState,
    pub is_focused: bool,
    pub workspace: Option<WorkspaceId>,
    pub output: Option<OutputId>,
    pub stack_index: i32,
    pub parent_id: Option<WindowId>,
    pub children: Vec<WindowId>,
    pub title: Option<String>,
    pub app_id: Option<String>,
}

impl WindowRecord {
    /// Geometry and state pass validation; workspace and output are paired.
    pub open spec fn attrs_valid(self) -> bool {
        &&& (self.geometry is Some ==> self.geometry->0.is_valid())
        &&& self.state.is_valid()
        &&& (self.workspace is Some) == (self.output is Some)
    }
}

/// The text of an optional string, as a sequence of characters.
pub open spec fn text_of(s: Option<String>) -> Option<Seq<char>> {
    match s {
        Some(t) => Some(t@),
        None => None,
    }
}

/// Copies an id list element by element.
pub fn copy_ids(v: &Vec<WindowId>) -> (r: Vec<WindowId>)
    ensures
        r@ == v@,
{
    let mut r: Vec<WindowId> = Vec::new();
    let mut i: usize = 0;
    while i < v.len()
        invariant
            i <= v.len(),
            r@ == v@.subrange(0, i as int),
        decreases v.len() - i,
    {
        r.push(v[i]);
        i += 1;
    }
    assert(r@ =~= v@);
    r
}

/// Copies an optional string.
pub fn copy_text(s: &Option<String>) -> (r: Option<String>)
    ensures
        r == *s,
{
    match s {
        Some(t) => Some(t.clone()),
        None => None,
    }
}

/// Compares two optional strings by their text.
pub fn same_text(a: &Option<String>, b: &Option<String>) -> (r: bool)
    ensures
        r == (text_of(*a) == text_of(*b)),
{
    match (a, b) {
        (Some(x), Some(y)) => x.eq(y),
        (None, None) => true,
        _ => false,
    }
}

impl WindowInfo {
    /// A snapshot holding the same values as `r`.
    pub fn of(r: &WindowRecord) -> (s: WindowInfo)
        ensures
            s.matches(r),
    {
        WindowInfo {
            id: r.id,
            dk: r.dk,
            sk: r.sk,
            lifecycle: r.lifecycle,
            geometry: r.geometry,
            state: r.state,
            is_focused: r.is_focused,
            workspace: r.workspace,
            output: r.output,
            stack_index: r.stack_index,
            parent_id: r.parent_id,
            children: copy_ids(&r.children),
            title: copy_text(&r.title),
            app_id: copy_text(&r.app_id),
        }
    }

    /// The snapshot holds exactly the values of `r`.
    pub open spec fn matches(self, r: &WindowRecord) -> bool {
        &&& self.id == r.id
        &&& self.dk == r.dk
        &&& self.sk == r.sk
        &&& self.lifecycle == r.lifecycle
        &&& self.geometry == r.geometry
        &&& self.state == r.state
        &&& self.is_focused == r.is_focused
        &&& self.workspace == r.workspace
        &&& self.output == r.output
        &&& self.stack_index == r.stack_index
        &&& self.parent_id == r.parent_id
        &&& self.children@ == r.children@
        &&& self.title == r.title
        &&& self.app_id == r.app_id
    }
}

/// A sparse set of requested changes. An absent field leaves the value as it
/// is; `Some(None)` clears an optional value.
#[derive(Clone, Debug)]
pub struct WindowUpdate {
    pub geometry: Option<Option<WindowGeometry>>,
    pub state: Option<WindowState>,
    pub is_focused: Option<bool>,
    pub workspace: Option<Option<WorkspaceId>>,
    pub output: Option<Option<OutputId>>,
    pub stack_index: Option<i32>,
    pub parent_id: Option<Option<WindowId>>,
    pub add_children: Vec<WindowId>,
    pub remove_children: Vec<WindowId>,
    pub title: Option<Option<String>>,
    pub app_id: Option<Option<String>>,
}

impl Default for WindowUpdate {
    fn default() -> (r: Self)
        ensures
            r.geometry is None,
            r.state is None,
            r.is_focused is None,
            r.workspace is None,
            r.output is None,
            r.stack_index is None,
            r.parent_id is None,
            r.add_children@.len() == 0,
            r.remove_children@.len() == 0,
            r.title is None,
            r.app_id is None,
    {
        WindowUpdate {
            geometry: None,
            state: None,
            is_focused: None,
            workspace: None,
            output: None,
            stack_index: None,
            parent_id: None,
            add_children: Vec::new(),
            remove_children: Vec::new(),
            title: None,
            app_id: None,
        }
    }
}

} // verus!
