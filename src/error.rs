use vstd::prelude::*;
use crate::ids::{DesktopKey, SurfaceKey, WindowId};
use crate::model::{OutputId, WindowGeometry, WindowState, WorkspaceId};

verus! {

/// Every way a registry operation or an event queue can fail.
#[derive(Clone, Debug)]
pub enum RegistryError {
    DesktopKeyAlreadyRegistered { dk: DesktopKey, existing: WindowId },
    SurfaceKeyAlreadyRegistered { sk: SurfaceKey, existing: WindowId },
    InvalidWindowId(WindowId),
    InvalidGeometry { id: WindowId, geometry: WindowGeometry },
    GeometryOverflow { id: WindowId, geometry: WindowGeometry },
    InvalidState { id: WindowId, state: WindowState },
    WorkspaceOutputMismatch {
        id: WindowId,
        workspace: Option<WorkspaceId>,
        output: Option<OutputId>,
    },
    ParentIsSelf { id: WindowId },
    ParentNotFound { id: WindowId, parent: WindowId },
    ParentCycle { id: WindowId, parent: WindowId },
    ChildNotFound { id: WindowId, child: WindowId },
    ChildAlreadyHasParent { id: WindowId, child: WindowId, existing_parent: WindowId },
    ChildAlreadyPresent { id: WindowId, child: WindowId },
    StackIndexOutOfBounds { id: WindowId, index: i32, count: usize },
    /// Every slot is taken and no more can be added.
    CapacityExhausted,
    EventQueueClosed,
    EventQueueTimeout,
}

} // verus!
