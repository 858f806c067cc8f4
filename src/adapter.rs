use vstd::prelude::*;
use crate::error::RegistryError;
use crate::event_queue::RegistryEventQueue;
use crate::events::RegistryEvent;
use crate::ids::{DesktopKey, SurfaceKey, WindowId};
use crate::model::{OutputId, WindowGeometry, WindowUpdate, WorkspaceId};
use crate::registry::{fresh_record, Registry};
use crate::shared::SharedRegistry;

verus! {

/// A compositor callback, expressed in registry terms.
#[derive(Clone, Debug)]
pub enum WestonEvent {
    NewSurface { dk: DesktopKey, sk: SurfaceKey },
    MapWindow { id: WindowId },
    Unmap { id: WindowId },
    Destroy { id: WindowId },
    Configure { id: WindowId, geom: WindowGeometry },
    Commit { id: WindowId },
    Focus { id: WindowId, focused: bool },
    Output { id: WindowId, output: OutputId, workspace: WorkspaceId },
    Parent { id: WindowId, parent: Option<WindowId> },
    Title { id: WindowId, title: Option<String> },
    AppId { id: WindowId, app_id: Option<String> },
}

/// Something that turns compositor callbacks into registry operations.
pub trait WestonAdapter {
    /// The adapter can take events.
    spec fn ready(&self) -> bool;

    fn handle_event(&mut self, event: WestonEvent) -> (r: Result<(), RegistryError>)
        requires
            old(self).ready(),
        ensures
            final(self).ready(),
    ;
}

/// The adapter that applies each event to a shared registry and sends the
/// resulting registry events to a queue.
pub struct RegistryAdapter {
    pub reg: SharedRegistry,
    pub queue: RegistryEventQueue,
}

impl RegistryAdapter {
    pub fn new(reg: SharedRegistry, queue: RegistryEventQueue) -> (r: RegistryAdapter)
        requires
            reg.guarded(),
            queue.wf(),
        ensures
            r.ready(),
    {
        RegistryAdapter { reg, queue }
    }
}

/// An update that sets nothing.
fn blank_update() -> (u: WindowUpdate)
    ensures
        u.geometry is None && u.state is None && u.is_focused is None && u.workspace is None
            && u.output is None && u.stack_index is None && u.parent_id is None
            && u.add_children@.len() == 0 && u.remove_children@.len() == 0 && u.title is None
            && u.app_id is None,
{
    WindowUpdate {
        geometry: None,
        state: None,
        is_focused: None,
        workspace: None,
        output: None,
        stack_index: None,
        parent_id: None,
        add_children: Vec::new(),
        remove_children: Vec::new(),
        title: None,
        app_id: None,
    }
}

/// `r` is what a map or unmap of `id` returns: `Ok` only for a live window,
/// `InvalidWindowId` only for one that is not.
pub open spec fn live_outcome(id: WindowId, r: Result<(), RegistryError>) -> bool {
    &&& r is Ok ==> exists|reg: Registry| reg.coherent() && #[trigger] reg.live(id)
    &&& r is Err ==> r == Err::<(), RegistryError>(RegistryError::InvalidWindowId(id)) && exists|
        reg: Registry,
    | reg.coherent() && !#[trigger] reg.live(id)
}

/// What `RegistryAdapter::apply` promises for each event: the outcome of the
/// registry call the event maps to, stated over the state the lock held.
pub open spec fn adapter_outcome(event: WestonEvent, r: Result<(), RegistryError>) -> bool {
    match event {
        WestonEvent::NewSurface { dk, sk } => r is Err ==> exists|reg: Registry|
            reg.coherent() && #[trigger] reg.insert_error(dk, sk) == Some(r->Err_0),
        WestonEvent::Destroy { id } => (r is Ok ==> exists|pre: Registry, post: Registry|
            pre.coherent() && post.coherent() && #[trigger] pre.remove_outcome(post, id)) && (r is Err
            ==> r == Err::<(), RegistryError>(RegistryError::InvalidWindowId(id)) && exists|reg: Registry|
            reg.coherent() && !#[trigger] reg.live(id)),
        WestonEvent::MapWindow { id } => live_outcome(id, r),
        WestonEvent::Unmap { id } => live_outcome(id, r),
        WestonEvent::Commit { .. } => r is Ok,
        _ => true,
    }
}

impl RegistryAdapter {
    /// Applies one event to the shared registry and sends the resulting
    /// registry events to the queue; returns what that registry call returns.
    pub fn apply(&mut self, event: WestonEvent) -> (r: Result<(), RegistryError>)
        requires
            old(self).ready(),
        ensures
            final(self).ready(),
            adapter_outcome(event, r),
    {
        self.dispatch_event(event)
    }
}

impl WestonAdapter for RegistryAdapter {
    open spec fn ready(&self) -> bool {
        self.reg.guarded() && self.queue.wf()
    }

    fn handle_event(&mut self, event: WestonEvent) -> (r: Result<(), RegistryError>) {
        self.apply(event)
    }
}

impl RegistryAdapter {
    fn dispatch_event(&mut self, event: WestonEvent) -> (r: Result<(), RegistryError>)
        requires
            old(self).ready(),
        ensures
            final(self).ready(),
            adapter_outcome(event, r),
    {
        match event {
            WestonEvent::NewSurface { dk, sk } => {
                match self.reg.insert_window_queued(dk, sk, &self.queue) {
                    Ok(_) => Ok(()),
                    Err(e) => Err(e),
                }
            },
            WestonEvent::MapWindow { id } => self.reg.on_map_queued(id, &self.queue),
            WestonEvent::Unmap { id } => self.reg.on_unmap_queued(id, &self.queue),
            WestonEvent::Destroy { id } => self.reg.remove_window_queued(id, &self.queue),
            WestonEvent::Configure { id, geom } => {
                let mut update = blank_update();
                update.geometry = Some(Some(geom));
                self.reg.update_window_queued(id, update, &self.queue)
            },
            WestonEvent::Commit { id } => Ok(()),
            WestonEvent::Focus { id, focused } => {
                let mut update = blank_update();
                update.is_focused = Some(focused);
                self.reg.update_window_queued(id, update, &self.queue)
            },
            WestonEvent::Output { id, output, workspace } => {
                let mut update = blank_update();
                update.output = Some(Some(output));
                update.workspace = Some(Some(workspace));
                self.reg.update_window_queued(id, update, &self.queue)
            },
            WestonEvent::Parent { id, parent } => {
                let mut update = blank_update();
                update.parent_id = Some(parent);
                self.reg.update_window_queued(id, update, &self.queue)
            },
            WestonEvent::Title { id, title } => {
                let mut update = blank_update();
                update.title = Some(title);
                self.reg.update_window_queued(id, update, &self.queue)
            },
            WestonEvent::AppId { id, app_id } => {
                let mut update = blank_update();
                update.app_id = Some(app_id);
                self.reg.update_window_queued(id, update, &self.queue)
            },
        }
    }
}

/// A scripted compositor: queues events and feeds them to an adapter.
pub struct FakeWeston<A: WestonAdapter> {
    adapter: A,
    events: Vec<WestonEvent>,
}

impl<A: WestonAdapter> FakeWeston<A> {
    pub closed spec fn ready(&self) -> bool {
        self.adapter.ready()
    }

    pub closed spec fn pending(&self) -> Seq<WestonEvent> {
        self.events@
    }

    pub fn new(adapter: A) -> (r: FakeWeston<A>)
        requires
            adapter.ready(),
        ensures
            r.ready(),
            r.pending().len() == 0,
    {
        FakeWeston { adapter, events: Vec::new() }
    }

    /// Queues `event` behind the pending ones.
    pub fn push(&mut self, event: WestonEvent)
        ensures
            final(self).pending() == old(self).pending().push(event),
            final(self).ready() == old(self).ready(),
    {
        self.events.push(event);
    }

    /// Feeds the pending events to the adapter in order and stops at the
    /// first error. Every pending event is consumed either way.
    pub fn run(&mut self) -> (r: Result<(), RegistryError>)
        requires
            old(self).ready(),
        ensures
            final(self).ready(),
            final(self).pending().len() == 0,
    {
        let mut events: Vec<WestonEvent> = Vec::new();
        std::mem::swap(&mut events, &mut self.events);
        let mut i: usize = 0;
        while i < events.len()
            invariant
                self.ready(),
                self.pending().len() == 0,
            decreases events@.len() - i,
        {
            let event = events[i].clone();
            match self.adapter.handle_event(event) {
                Ok(()) => {},
                Err(e) => {
                    return Err(e);
                },
            }
            i += 1;
        }
        Ok(())
    }
}

/// Registers a new desktop surface under its keys and returns its id.
pub fn on_new_desktop_surface_with_keys(dk: DesktopKey, sk: SurfaceKey, reg: &mut Registry) -> (r:
    Result<WindowId, RegistryError>)
    requires
        old(reg).wf(),
    ensures
        final(reg).wf(),
        old(reg).coherent() ==> final(reg).coherent(),
        old(reg).desktop_map@.contains_key(dk.0) ==> r == Err::<WindowId, RegistryError>(
            RegistryError::DesktopKeyAlreadyRegistered { dk, existing: old(reg).desktop_map@[dk.0] },
        ),
        !old(reg).desktop_map@.contains_key(dk.0) && old(reg).surface_map@.contains_key(sk.0) ==> r
            == Err::<WindowId, RegistryError>(
            RegistryError::SurfaceKeyAlreadyRegistered { sk, existing: old(reg).surface_map@[sk.0] },
        ),
        r is Ok <==> old(reg).insert_error(dk, sk) is None,
        r is Err ==> Some(r->Err_0) == old(reg).insert_error(dk, sk) && *final(reg) == *old(reg),
        r is Ok ==> old(reg).insert_outcome(*final(reg), r->Ok_0) && fresh_record(
            final(reg).record(r->Ok_0),
            r->Ok_0,
            dk,
            sk,
            old(reg).live_count_spec() as int,
        ) && final(reg).desktop_map@ == old(reg).desktop_map@.insert(dk.0, r->Ok_0)
            && final(reg).surface_map@ == old(reg).surface_map@.insert(sk.0, r->Ok_0),
{
    match reg.insert_window(dk, sk) {
        Ok((id, _events)) => Ok(id),
        Err(e) => Err(e),
    }
}

} // verus!
