use vstd::prelude::*;
use vstd::rwlock::RwLock;
use std::sync::Arc;
use crate::error::RegistryError;
use crate::event_queue::RegistryEventQueue;
use crate::events::RegistryEvent;
use crate::ids::{DesktopKey, SurfaceKey, WindowId};
use crate::model::{WindowInfo, WindowUpdate};
use crate::registry::Registry;

verus! {

/// The lock's invariant: the registry it guards is coherent.
pub open spec fn coherent_registry() -> spec_fn(Registry) -> bool {
    |r: Registry| r.coherent()
}

/// Some coherent registry accepted `insert_window(dk, sk)` and, in the
/// coherent state that followed, `id` was the new window.
#[verifier::opaque]
pub open spec fn inserted_under(dk: DesktopKey, sk: SurfaceKey, id: WindowId) -> bool {
    exists|pre: Registry, post: Registry|
        pre.coherent() && post.coherent() && pre.insert_error(dk, sk) is None
            && #[trigger] pre.insert_outcome(post, id)
}

/// A registry shared between threads. Readers proceed together; each
/// mutation holds the write lock while it runs, releases it, and only then
/// hands the events to the caller's dispatch, which may read the registry again.
#[derive(Clone)]
pub struct SharedRegistry {
    inner: Arc<RwLock<Registry, spec_fn(Registry) -> bool>>,
}

impl SharedRegistry {
    pub closed spec fn guarded(self) -> bool {
        self.inner.pred() == coherent_registry()
    }

    pub fn new(reg: Registry) -> (r: SharedRegistry)
        requires
            reg.coherent(),
        ensures
            r.guarded(),
    {
        SharedRegistry { inner: Arc::new(RwLock::new(reg, Ghost(coherent_registry()))) }
    }

    /// A snapshot of `id`, taken under the read lock.
    pub fn snapshot(&self, id: WindowId) -> (r: Option<WindowInfo>)
        requires
            self.guarded(),
        ensures
            exists|reg: Registry|
                reg.coherent() && (r is Some <==> reg.live(id)) && (r is Some ==> r->0.matches(
                    &reg.record(id),
                )),
    {
        let handle = self.inner.acquire_read();
        let reg = handle.borrow();
        let out = reg.snapshot(id);
        proof {
            assert(reg.coherent());
        }
        handle.release_read();
        out
    }

    /// Snapshots of every live window, taken under the read lock.
    pub fn snapshot_all(&self) -> (r: Vec<WindowInfo>)
        requires
            self.guarded(),
        ensures
            exists|reg: Registry| reg.coherent() && r@.len() == reg.live_count_spec(),
    {
        let handle = self.inner.acquire_read();
        let reg = handle.borrow();
        let out = reg.snapshot_all();
        proof {
            assert(reg.coherent());
        }
        handle.release_read();
        out
    }

    /// The id registered for a desktop key, read under the read lock.
    pub fn from_desktop(&self, dk: DesktopKey) -> (r: Option<WindowId>)
        requires
            self.guarded(),
        ensures
            exists|reg: Registry|
                reg.coherent() && (r is Some <==> reg.desktop_map@.contains_key(dk.0)) && (r is Some
                    ==> r->0 == reg.desktop_map@[dk.0]),
    {
        let handle = self.inner.acquire_read();
        let reg = handle.borrow();
        let out = reg.from_desktop(dk);
        proof {
            assert(reg.coherent());
        }
        handle.release_read();
        out
    }

    /// Inserts a window under the write lock, then dispatches its events.
    /// On an error the dispatch is not called and the registry is unchanged.
    pub fn insert_window_with<F: FnMut(Vec<RegistryEvent>)>(
        &self,
        dk: DesktopKey,
        sk: SurfaceKey,
        dispatch: F,
    ) -> (r: Result<WindowId, RegistryError>)
        requires
            self.guarded(),
            forall|evs: Vec<RegistryEvent>| dispatch.requires((evs,)),
        ensures
            r is Ok ==> inserted_under(dk, sk, r->Ok_0),
            r is Err ==> exists|reg: Registry|
                reg.coherent() && #[trigger] reg.insert_error(dk, sk) == Some(r->Err_0),
    {
        let mut dispatch = dispatch;
        let (mut reg, handle) = self.inner.acquire_write();
        let ghost pre = reg;
        let res = reg.insert_window(dk, sk);
        let ghost post = reg;
        handle.release_write(reg);
        match res {
            Ok((id, events)) => {
                proof {
                    assert(pre.coherent() && post.coherent() && pre.insert_error(dk, sk) is None
                        && pre.insert_outcome(post, id));
                    reveal(inserted_under);
                }
                dispatch(events);
                Ok(id)
            },
            Err(e) => {
                proof {
                    assert(pre.coherent() && pre.insert_error(dk, sk) == Some(e));
                }
                Err(e)
            },
        }
    }

    /// Removes a window under the write lock, then dispatches its events.
    /// On an error the dispatch is not called and the registry is unchanged.
    pub fn remove_window_with<F: FnMut(Vec<RegistryEvent>)>(&self, id: WindowId, dispatch: F) -> (r:
        Result<(), RegistryError>)
        requires
            self.guarded(),
            forall|evs: Vec<RegistryEvent>| dispatch.requires((evs,)),
        ensures
            r is Ok ==> exists|pre: Registry, post: Registry|
                pre.coherent() && post.coherent() && #[trigger] pre.remove_outcome(post, id),
            r is Err ==> r == Err::<(), RegistryError>(RegistryError::InvalidWindowId(id))
                && exists|reg: Registry| reg.coherent() && !#[trigger] reg.live(id),
    {
        let mut dispatch = dispatch;
        let (mut reg, handle) = self.inner.acquire_write();
        let ghost pre = reg;
        let res = reg.remove_window(id);
        let ghost post = reg;
        handle.release_write(reg);
        match res {
            Ok((_record, events)) => {
                proof {
                    assert(pre.remove_outcome(post, id));
                }
                dispatch(events);
                Ok(())
            },
            Err(e) => {
                proof {
                    assert(pre.coherent() && !pre.live(id));
                }
                Err(e)
            },
        }
    }

    /// Maps a window under the write lock, then dispatches its events.
    /// On an error the dispatch is not called and the registry is unchanged.
    pub fn on_map_with<F: FnMut(Vec<RegistryEvent>)>(&self, id: WindowId, dispatch: F) -> (r: Result<
        (),
        RegistryError,
    >)
        requires
            self.guarded(),
            forall|evs: Vec<RegistryEvent>| dispatch.requires((evs,)),
        ensures
            r is Ok ==> exists|reg: Registry| reg.coherent() && #[trigger] reg.live(id),
            r is Err ==> r == Err::<(), RegistryError>(RegistryError::InvalidWindowId(id))
                && exists|reg: Registry| reg.coherent() && !#[trigger] reg.live(id),
    {
        let mut dispatch = dispatch;
        let (mut reg, handle) = self.inner.acquire_write();
        let ghost pre = reg;
        let res = reg.on_map(id);
        handle.release_write(reg);
        match res {
            Ok(events) => {
                proof {
                    assert(pre.coherent() && pre.live(id));
                }
                dispatch(events);
                Ok(())
            },
            Err(e) => {
                proof {
                    assert(pre.coherent() && !pre.live(id));
                }
                Err(e)
            },
        }
    }

    /// Unmaps a window under the write lock, then dispatches its events.
    /// On an error the dispatch is not called and the registry is unchanged.
    pub fn on_unmap_with<F: FnMut(Vec<RegistryEvent>)>(&self, id: WindowId, dispatch: F) -> (r:
        Result<(), RegistryError>)
        requires
            self.guarded(),
            forall|evs: Vec<RegistryEvent>| dispatch.requires((evs,)),
        ensures
            r is Ok ==> exists|reg: Registry| reg.coherent() && #[trigger] reg.live(id),
            r is Err ==> r == Err::<(), RegistryError>(RegistryError::InvalidWindowId(id))
                && exists|reg: Registry| reg.coherent() && !#[trigger] reg.live(id),
    {
        let mut dispatch = dispatch;
        let (mut reg, handle) = self.inner.acquire_write();
        let ghost pre = reg;
        let res = reg.on_unmap(id);
        handle.release_write(reg);
        match res {
            Ok(events) => {
                proof {
                    assert(pre.coherent() && pre.live(id));
                }
                dispatch(events);
                Ok(())
            },
            Err(e) => {
                proof {
                    assert(pre.coherent() && !pre.live(id));
                }
                Err(e)
            },
        }
    }

    /// Applies an update under the write lock, then dispatches its events.
    /// On an error the dispatch is not called and the registry is unchanged.
    pub fn update_window_with<F: FnMut(Vec<RegistryEvent>)>(
        &self,
        id: WindowId,
        update: WindowUpdate,
        dispatch: F,
    ) -> (r: Result<(), RegistryError>)
        requires
            self.guarded(),
            forall|evs: Vec<RegistryEvent>| dispatch.requires((evs,)),
        ensures
            r is Ok ==> exists|reg: Registry| reg.coherent() && #[trigger] reg.update_error(id, update) is None,
            r is Err ==> exists|reg: Registry|
                reg.coherent() && #[trigger] reg.update_error(id, update) == Some(r->Err_0),
    {
        let mut dispatch = dispatch;
        let (mut reg, handle) = self.inner.acquire_write();
        let ghost pre = reg;
        let res = reg.update_window(id, update);
        handle.release_write(reg);
        match res {
            Ok(events) => {
                proof {
                    assert(pre.coherent() && pre.update_error(id, update) is None);
                }
                dispatch(events);
                Ok(())
            },
            Err(e) => {
                proof {
                    assert(pre.update_error(id, update) == Some(e));
                }
                Err(e)
            },
        }
    }

    /// Inserts a window, then sends its events to every subscriber of `queue`.
    /// On an error nothing is sent and the registry is unchanged.
    pub fn insert_window_queued(&self, dk: DesktopKey, sk: SurfaceKey, queue: &RegistryEventQueue) -> (r:
        Result<WindowId, RegistryError>)
        requires
            self.guarded(),
            queue.wf(),
        ensures
            r is Ok ==> inserted_under(dk, sk, r->Ok_0),
            r is Err ==> exists|reg: Registry|
                reg.coherent() && #[trigger] reg.insert_error(dk, sk) == Some(r->Err_0),
    {
        let (mut reg, handle) = self.inner.acquire_write();
        let ghost pre = reg;
        let res = reg.insert_window(dk, sk);
        let ghost post = reg;
        handle.release_write(reg);
        match res {
            Ok((id, events)) => {
                proof {
                    assert(pre.coherent() && post.coherent() && pre.insert_error(dk, sk) is None
                        && pre.insert_outcome(post, id));
                    reveal(inserted_under);
                }
                queue.send(events);
                Ok(id)
            },
            Err(e) => {
                proof {
                    assert(pre.coherent() && pre.insert_error(dk, sk) == Some(e));
                }
                Err(e)
            },
        }
    }

    /// Removes a window, then sends its events to every subscriber of `queue`.
    /// On an error nothing is sent and the registry is unchanged.
    pub fn remove_window_queued(&self, id: WindowId, queue: &RegistryEventQueue) -> (r: Result<
        (),
        RegistryError,
    >)
        requires
            self.guarded(),
            queue.wf(),
        ensures
            r is Ok ==> exists|pre: Registry, post: Registry|
                pre.coherent() && post.coherent() && #[trigger] pre.remove_outcome(post, id),
            r is Err ==> r == Err::<(), RegistryError>(RegistryError::InvalidWindowId(id))
                && exists|reg: Registry| reg.coherent() && !#[trigger] reg.live(id),
    {
        let (mut reg, handle) = self.inner.acquire_write();
        let ghost pre = reg;
        let res = reg.remove_window(id);
        let ghost post = reg;
        handle.release_write(reg);
        match res {
            Ok((_record, events)) => {
                proof {
                    assert(pre.remove_outcome(post, id));
                }
                queue.send(events);
                Ok(())
            },
            Err(e) => {
                proof {
                    assert(pre.coherent() && !pre.live(id));
                }
                Err(e)
            },
        }
    }

    /// Maps a window, then sends its events to every subscriber of `queue`.
    /// On an error nothing is sent and the registry is unchanged.
    pub fn on_map_queued(&self, id: WindowId, queue: &RegistryEventQueue) -> (r: Result<(), RegistryError>)
        requires
            self.guarded(),
            queue.wf(),
        ensures
            r is Ok ==> exists|reg: Registry| reg.coherent() && #[trigger] reg.live(id),
            r is Err ==> r == Err::<(), RegistryError>(RegistryError::InvalidWindowId(id))
                && exists|reg: Registry| reg.coherent() && !#[trigger] reg.live(id),
    {
        let (mut reg, handle) = self.inner.acquire_write();
        let ghost pre = reg;
        let res = reg.on_map(id);
        handle.release_write(reg);
        match res {
            Ok(events) => {
                proof {
                    assert(pre.coherent() && pre.live(id));
                }
                queue.send(events);
                Ok(())
            },
            Err(e) => {
                proof {
                    assert(pre.coherent() && !pre.live(id));
                }
                Err(e)
            },
        }
    }

    /// Unmaps a window, then sends its events to every subscriber of `queue`.
    /// On an error nothing is sent and the registry is unchanged.
    pub fn on_unmap_queued(&self, id: WindowId, queue: &RegistryEventQueue) -> (r: Result<(), RegistryError>)
        requires
            self.guarded(),
            queue.wf(),
        ensures
            r is Ok ==> exists|reg: Registry| reg.coherent() && #[trigger] reg.live(id),
            r is Err ==> r == Err::<(), RegistryError>(RegistryError::InvalidWindowId(id))
                && exists|reg: Registry| reg.coherent() && !#[trigger] reg.live(id),
    {
        let (mut reg, handle) = self.inner.acquire_write();
        let ghost pre = reg;
        let res = reg.on_unmap(id);
        handle.release_write(reg);
        match res {
            Ok(events) => {
                proof {
                    assert(pre.coherent() && pre.live(id));
                }
                queue.send(events);
                Ok(())
            },
            Err(e) => {
                proof {
                    assert(pre.coherent() && !pre.live(id));
                }
                Err(e)
            },
        }
    }

    /// Applies an update, then sends its events to every subscriber of `queue`.
    /// On an error nothing is sent and the registry is unchanged.
    pub fn update_window_queued(&self, id: WindowId, update: WindowUpdate, queue: &RegistryEventQueue) -> (r:
        Result<(), RegistryError>)
        requires
            self.guarded(),
            queue.wf(),
        ensures
            r is Ok ==> exists|reg: Registry| reg.coherent() && #[trigger] reg.update_error(id, update) is None,
            r is Err ==> exists|reg: Registry|
                reg.coherent() && #[trigger] reg.update_error(id, update) == Some(r->Err_0),
    {
        let (mut reg, handle) = self.inner.acquire_write();
        let ghost pre = reg;
        let res = reg.update_window(id, update);
        handle.release_write(reg);
        match res {
            Ok(events) => {
                proof {
                    assert(pre.coherent() && pre.update_error(id, update) is None);
                }
                queue.send(events);
                Ok(())
            },
            Err(e) => {
                proof {
                    assert(pre.update_error(id, update) == Some(e));
                }
                Err(e)
            },
        }
    }
}

} // verus!
