use vstd::prelude::*;
use crate::ids::{DesktopKey, SurfaceKey, WindowId};
use crate::model::{LifecycleState, OutputId, WindowGeometry, WindowState, WorkspaceId};

verus! {

/// One field's value before and after a mutation.
#[derive(Clone, Debug, PartialEq)]
pub struct WindowChange<T> {
    pub old: T,
    pub new: T,
}

/// Per-field changes of one window; an absent field did not change.
#[derive(Clone, Debug, PartialEq)]
pub struct WindowChanges {
    pub lifecycle: Option<WindowChange<LifecycleState>>,
    pub geometry: Option<WindowChange<Option<WindowGeometry>>>,
    pub state: Option<WindowChange<WindowState>>,
    pub is_focused: Option<WindowChange<bool>>,
    pub workspace: Option<WindowChange<Option<WorkspaceId>>>,
    pub output: Option<WindowChange<Option<OutputId>>>,
    pub stack_index: Option<WindowChange<i32>>,
    pub parent_id: Option<WindowChange<Option<WindowId>>>,
    pub children: Option<WindowChange<Vec<WindowId>>>,
    pub title: Option<WindowChange<Option<String>>>,
    pub app_id: Option<WindowChange<Option<String>>>,
}

impl WindowChanges {
    /// No field changed.
    pub open spec fn empty_spec(&self) -> bool {
        &&& self.lifecycle is None
        &&& self.geometry is None
        &&& self.state is None
        &&& self.is_focused is None
        &&& self.workspace is None
        &&& self.output is None
        &&& self.stack_index is None
        &&& self.parent_id is None
        &&& self.children is None
        &&& self.title is None
        &&& self.app_id is None
    }

    pub fn is_empty(&self) -> (r: bool)
        ensures
            r == self.empty_spec(),
    {
        self.lifecycle.is_none() && self.geometry.is_none() && self.state.is_none()
            && self.is_focused.is_none() && self.workspace.is_none() && self.output.is_none()
            && self.stack_index.is_none() && self.parent_id.is_none() && self.children.is_none()
            && self.title.is_none() && self.app_id.is_none()
    }

    /// A change set with no field set.
    pub fn none() -> (r: WindowChanges)
        ensures
            r.empty_spec(),
    {
        WindowChanges {
            lifecycle: None,
            geometry: None,
            state: None,
            is_focused: None,
            workspace: None,
            output: None,
            stack_index: None,
            parent_id: None,
            children: None,
            title: None,
            app_id: None,
        }
    }
}

impl Default for WindowChanges {
    fn default() -> (r: Self)
        ensures
            r.empty_spec(),
    {
        WindowChanges::none()
    }
}

/// What a mutation did, in order, for downstream observers.
#[derive(Clone, Debug)]
pub enum RegistryEvent {
    WindowCreated { id: WindowId, dk: DesktopKey, sk: SurfaceKey },
    WindowChanged { id: WindowId, changes: WindowChanges },
    WindowDestroyed { id: WindowId },
}

} // verus!
