//! Identity-indexed window registry: generational ids, validated mutations,
//! minimal change sets, a shared handle with dispatch after unlock, and an
//! event bus with independent subscriber queues.

mod adapter;
mod error;
mod event_queue;
mod events;
mod handles;
mod hierarchy;
mod ids;
mod laws;
mod model;
mod phases;
mod registry;
mod shared;
mod update;

pub use adapter::{
    on_new_desktop_surface_with_keys, FakeWeston, RegistryAdapter, WestonAdapter, WestonEvent,
};
pub use error::RegistryError;
pub use event_queue::{
    keep_accepted, RegistryEventQueue, RegistryEventReceiver, MAX_QUEUE_CAPACITY,
};
pub use handles::CompositorHandles;
pub use events::{RegistryEvent, WindowChange, WindowChanges};
pub use ids::{DesktopKey, SurfaceKey, WindowId};
pub use model::{
    LifecycleState, OutputId, WindowGeometry, WindowInfo, WindowRecord, WindowState, WindowUpdate,
    WorkspaceId,
};
pub use registry::{Registry, Slot, MAX_SLOTS};
pub use shared::SharedRegistry;
pub use hierarchy::{acyclic, nth_ancestor, on_chain};
pub use laws::{
    lemma_focus_is_exclusive, lemma_parent_chain_never_returns, lemma_removed_id_stays_stale,
    lemma_reverse_lookup, lemma_stacking_is_dense,
};
pub use update::{geometry_error, reports_own_changes, reports_shifts};
