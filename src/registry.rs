use vstd::prelude::*;
use std::collections::HashMap;
use crate::error::RegistryError;
use crate::events::{RegistryEvent, WindowChange, WindowChanges};
use crate::hierarchy::{acyclic, only_cuts, lemma_acyclic_cut, ParentFn};
use crate::ids::{DesktopKey, SurfaceKey, WindowId};
use crate::model::{LifecycleState, WindowInfo, WindowRecord, WindowState};

verus! {

broadcast use vstd::std_specs::hash::group_hash_axioms;

/// One allocator cell: its current generation and the record it holds, if any.
pub struct Slot {
    pub gen: u32,
    pub value: Option<WindowRecord>,
}

/// The most slots a registry holds: stack indices must fit in an `i32`.
pub const MAX_SLOTS: usize = 0x7fff_ffff;

/// Number of occupied slots in `s`.
pub open spec fn count_live(s: Seq<Slot>) -> nat
    decreases s.len(),
{
    if s.len() == 0 {
        0
    } else {
        count_live(s.drop_last()) + if s.last().value is Some {
            1nat
        } else {
            0nat
        }
    }
}

/// The records of the occupied slots of `s`, in slot order.
pub open spec fn live_records(s: Seq<Slot>) -> Seq<WindowRecord>
    decreases s.len(),
{
    if s.len() == 0 {
        Seq::empty()
    } else {
        let prev = live_records(s.drop_last());
        match s.last().value {
            Some(r) => prev.push(r),
            None => prev,
        }
    }
}

pub proof fn lemma_live_records_len(s: Seq<Slot>)
    ensures
        live_records(s).len() == count_live(s),
    decreases s.len(),
{
    if s.len() > 0 {
        lemma_live_records_len(s.drop_last());
    }
}

pub proof fn lemma_count_bound(s: Seq<Slot>)
    ensures
        count_live(s) <= s.len(),
        (exists|i: int| 0 <= i < s.len() && s[i].value is None) ==> count_live(s) < s.len(),
    decreases s.len(),
{
    if s.len() > 0 {
        lemma_count_bound(s.drop_last());
        if exists|i: int| 0 <= i < s.len() && s[i].value is None {
            let i = choose|i: int| 0 <= i < s.len() && s[i].value is None;
            if i < s.len() - 1 {
                assert(s.drop_last()[i].value is None);
            }
        }
    }
}

/// Replacing one slot changes the count by the difference in occupancy.
pub proof fn lemma_count_update(s: Seq<Slot>, k: int, x: Slot)
    requires
        0 <= k < s.len(),
    ensures
        count_live(s.update(k, x)) + (if s[k].value is Some { 1nat } else { 0nat })
            == count_live(s) + (if x.value is Some { 1nat } else { 0nat }),
    decreases s.len(),
{
    if k < s.len() - 1 {
        lemma_count_update(s.drop_last(), k, x);
        assert(s.update(k, x).drop_last() =~= s.drop_last().update(k, x));
    } else {
        assert(s.update(k, x).drop_last() =~= s.drop_last());
    }
}

/// Two tables with the same occupancy pattern count the same.
pub proof fn lemma_count_same_occupancy(a: Seq<Slot>, b: Seq<Slot>)
    requires
        a.len() == b.len(),
        forall|i: int| 0 <= i < a.len() ==> (#[trigger] a[i].value is Some) == (b[i].value is Some),
    ensures
        count_live(a) == count_live(b),
    decreases a.len(),
{
    if a.len() > 0 {
        lemma_count_same_occupancy(a.drop_last(), b.drop_last());
    }
}

pub proof fn lemma_count_push(s: Seq<Slot>, x: Slot)
    ensures
        count_live(s.push(x)) == count_live(s) + (if x.value is Some { 1nat } else { 0nat }),
{
    assert(s.push(x).drop_last() =~= s);
}

/// The generation a reused slot gets: one more, wrapping to 1, never 0.
pub open spec fn next_gen(g: u32) -> u32 {
    if g == u32::MAX {
        1
    } else {
        (g + 1) as u32
    }
}

/// A change set that records one stacking move.
pub open spec fn stack_change(old: i32, new: i32) -> WindowChanges {
    WindowChanges {
        lifecycle: None,
        geometry: None,
        state: None,
        is_focused: None,
        workspace: None,
        output: None,
        stack_index: Some(WindowChange { old, new }),
        parent_id: None,
        children: None,
        title: None,
        app_id: None,
    }
}

/// A change set that records one lifecycle transition.
pub open spec fn lifecycle_change(old: LifecycleState, new: LifecycleState) -> WindowChanges {
    WindowChanges {
        lifecycle: Some(WindowChange { old, new }),
        geometry: None,
        state: None,
        is_focused: None,
        workspace: None,
        output: None,
        stack_index: None,
        parent_id: None,
        children: None,
        title: None,
        app_id: None,
    }
}

/// The attributes a window starts with.
pub open spec fn fresh_record(
    r: WindowRecord,
    id: WindowId,
    dk: DesktopKey,
    sk: SurfaceKey,
    stack_index: int,
) -> bool {
    &&& r.id == id
    &&& r.dk == dk
    &&& r.sk == sk
    &&& r.lifecycle == LifecycleState::Created
    &&& r.geometry is None
    &&& r.state == WindowState::plain()
    &&& !r.is_focused
    &&& r.workspace is None
    &&& r.output is None
    &&& r.stack_index == stack_index
    &&& r.parent_id is None
    &&& r.children@.len() == 0
    &&& r.title is None
    &&& r.app_id is None
}

/// The events a removal emits before `WindowDestroyed`: one per occupied slot
/// below `upto` (in slot order) whose stack index was above `removed`.
pub open spec fn shift_events(s: Seq<Slot>, removed: i32, upto: int) -> Seq<RegistryEvent>
    decreases upto,
{
    if upto <= 0 {
        Seq::empty()
    } else {
        let prev = shift_events(s, removed, upto - 1);
        let slot = s[upto - 1];
        match slot.value {
            Some(r) => if r.stack_index > removed {
                prev.push(
                    RegistryEvent::WindowChanged {
                        id: r.id,
                        changes: stack_change(r.stack_index, (r.stack_index - 1) as i32),
                    },
                )
            } else {
                prev
            },
            None => prev,
        }
    }
}

/// A slot after a removal at stack position `removed`: windows above it move
/// down by one.
pub open spec fn shifted(s: Slot, removed: i32) -> Slot {
    match s.value {
        Some(r) => if r.stack_index > removed {
            Slot {
                gen: s.gen,
                value: Some(WindowRecord { stack_index: (r.stack_index - 1) as i32, ..r }),
            }
        } else {
            s
        },
        None => s,
    }
}

/// Generational slot table of window records with reverse lookup by key.
pub struct Registry {
    pub slots: Vec<Slot>,
    pub free: Vec<u32>,
    pub desktop_map: HashMap<usize, WindowId>,
    pub surface_map: HashMap<usize, WindowId>,
}

impl Registry {
    pub open spec fn slot_seq(self) -> Seq<Slot> {
        self.slots@
    }

    pub open spec fn desktop_index(self) -> Map<usize, WindowId> {
        self.desktop_map@
    }

    pub open spec fn surface_index(self) -> Map<usize, WindowId> {
        self.surface_map@
    }

    pub open spec fn occupied(self, i: int) -> bool {
        0 <= i < self.slots@.len() && self.slots@[i].value is Some
    }

    pub open spec fn record_at(self, i: int) -> WindowRecord {
        self.slots@[i].value->0
    }

    pub open spec fn id_at(self, i: int) -> WindowId {
        WindowId { index: i as u32, gen: self.slots@[i].gen }
    }

    /// `id` names the window its slot currently holds.
    pub open spec fn live(self, id: WindowId) -> bool {
        self.occupied(id.index as int) && self.slots@[id.index as int].gen == id.gen
    }

    pub open spec fn record(self, id: WindowId) -> WindowRecord {
        self.record_at(id.index as int)
    }

    pub open spec fn live_count_spec(self) -> nat {
        count_live(self.slots@)
    }

    /// The parent of each live window; `None` where the chain stops.
    pub open spec fn parent_fn(self) -> ParentFn {
        |w: WindowId|
            if self.live(w) {
                self.record(w).parent_id
            } else {
                None
            }
    }

    /// The error `insert_window(dk, sk)` returns, checked in order; `None`
    /// when it succeeds.
    pub open spec fn insert_error(self, dk: DesktopKey, sk: SurfaceKey) -> Option<RegistryError> {
        if self.desktop_map@.contains_key(dk.0) {
            Some(RegistryError::DesktopKeyAlreadyRegistered { dk, existing: self.desktop_map@[dk.0] })
        } else if self.surface_map@.contains_key(sk.0) {
            Some(RegistryError::SurfaceKeyAlreadyRegistered { sk, existing: self.surface_map@[sk.0] })
        } else if !self.has_room() {
            Some(RegistryError::CapacityExhausted)
        } else {
            None
        }
    }

    /// A slot can be handed out: a freed one, or a new one within `MAX_SLOTS`.
    pub open spec fn has_room(self) -> bool {
        self.free@.len() > 0 || self.slots@.len() < MAX_SLOTS
    }

    /// What a successful insertion guarantees about identities: `id` is new,
    /// no other id changes liveness, and a reused slot gets a new generation.
    pub open spec fn insert_outcome(self, post: Registry, id: WindowId) -> bool {
        &&& !self.live(id)
        &&& post.live(id)
        &&& forall|w: WindowId| w != id ==> #[trigger] post.live(w) == self.live(w)
        &&& id.index < self.slots@.len() ==> id.gen != self.slots@[id.index as int].gen
    }

    /// What a successful removal guarantees about identities: `id` stops
    /// resolving, its slot keeps its generation, and no other id changes liveness.
    pub open spec fn remove_outcome(self, post: Registry, id: WindowId) -> bool {
        &&& self.live(id)
        &&& !post.live(id)
        &&& post.slots@.len() == self.slots@.len()
        &&& post.slots@[id.index as int].gen == id.gen
        &&& forall|w: WindowId| w != id ==> #[trigger] post.live(w) == self.live(w)
    }

    /// The slot table and the free list agree.
    pub open spec fn wf(self) -> bool {
        &&& self.slots@.len() <= MAX_SLOTS
        &&& forall|i: int| 0 <= i < self.slots@.len() ==> #[trigger] self.slots@[i].gen != 0
        &&& forall|j: int|
            0 <= j < self.free@.len() ==> (#[trigger] self.free@[j] as int) < self.slots@.len()
                && self.slots@[self.free@[j] as int].value is None
        &&& forall|j1: int, j2: int|
            0 <= j1 < self.free@.len() && 0 <= j2 < self.free@.len() && j1 != j2
                ==> #[trigger] self.free@[j1] != #[trigger] self.free@[j2]
    }

    /// Each live record carries its own id, and both indices map exactly the
    /// keys of live records to their ids.
    pub open spec fn keys_coherent(self) -> bool {
        &&& forall|i: int| #[trigger] self.occupied(i) ==> self.record_at(i).id == self.id_at(i)
        &&& forall|i: int|
            #[trigger] self.occupied(i) ==> self.desktop_map@.contains_key(self.record_at(i).dk.0)
                && self.desktop_map@[self.record_at(i).dk.0] == self.id_at(i)
                && self.surface_map@.contains_key(self.record_at(i).sk.0)
                && self.surface_map@[self.record_at(i).sk.0] == self.id_at(i)
        &&& forall|a: usize| #[trigger]
            self.desktop_map@.contains_key(a) ==> self.live(self.desktop_map@[a]) && self.record(
                self.desktop_map@[a],
            ).dk.0 == a
        &&& forall|a: usize| #[trigger]
            self.surface_map@.contains_key(a) ==> self.live(self.surface_map@[a]) && self.record(
                self.surface_map@[a],
            ).sk.0 == a
    }

    /// Stack indices of live windows are distinct and lie in `0..live_count`.
    pub open spec fn stacking_dense(self) -> bool {
        &&& forall|i: int| #[trigger]
            self.occupied(i) ==> 0 <= self.record_at(i).stack_index < self.live_count_spec()
        &&& forall|i: int, j: int|
            #[trigger] self.occupied(i) && #[trigger] self.occupied(j) && i != j
                ==> self.record_at(i).stack_index != self.record_at(j).stack_index
    }

    /// At most one live window is focused.
    pub open spec fn focus_exclusive(self) -> bool {
        forall|i: int, j: int|
            #[trigger] self.occupied(i) && #[trigger] self.occupied(j) && i != j
                ==> !(self.record_at(i).is_focused && self.record_at(j).is_focused)
    }

    /// Every live record's attributes pass validation.
    pub open spec fn attrs_valid(self) -> bool {
        forall|i: int| #[trigger] self.occupied(i) ==> self.record_at(i).attrs_valid()
    }

    /// Every invariant the bookkeeping operations maintain.
    ///
    /// Parent/children symmetry (a window names a parent exactly when that
    /// parent lists it) is deliberately not among them: a removal leaves the
    /// removed window in its parent's children list and leaves its own
    /// children naming it. Callers detach a window from the hierarchy before
    /// removing it; the registry does not do it for them.
    pub open spec fn coherent(self) -> bool {
        &&& self.wf()
        &&& self.attrs_valid()
        &&& self.keys_coherent()
        &&& self.stacking_dense()
        &&& self.focus_exclusive()
        &&& acyclic(self.parent_fn())
    }

    pub fn new() -> (r: Registry)
        ensures
            r.coherent(),
            r.slots@.len() == 0,
            r.live_count_spec() == 0,
            r.desktop_map@ == Map::<usize, WindowId>::empty(),
            r.surface_map@ == Map::<usize, WindowId>::empty(),
    {
        let r = Registry {
            slots: Vec::new(),
            free: Vec::new(),
            desktop_map: HashMap::new(),
            surface_map: HashMap::new(),
        };
        proof {
            assert forall|w: WindowId| crate::hierarchy::ends(r.parent_fn(), w) by {
                assert(r.parent_fn()(w) is None);
                assert(crate::hierarchy::chain_ends(r.parent_fn(), None, 0));
                assert(crate::hierarchy::chain_ends(r.parent_fn(), Some(w), 1));
            }
        }
        r
    }

    /// Reserves a slot and returns a fresh id for it; the slot stays empty.
    fn alloc_id(&mut self) -> (id: WindowId)
        requires
            old(self).wf(),
            old(self).free@.len() > 0 || old(self).slots@.len() < MAX_SLOTS,
        ensures
            final(self).wf(),
            (id.index as int) < final(self).slots@.len(),
            final(self).slots@[id.index as int].value is None,
            final(self).slots@[id.index as int].gen == id.gen,
            id.gen != 0,
            !old(self).live(id),
            final(self).slots@.len() >= old(self).slots@.len(),
            forall|i: int|
                0 <= i < old(self).slots@.len() && i != id.index ==> final(self).slots@[i]
                    == old(self).slots@[i],
            id.index < old(self).slots@.len() ==> old(self).slots@[id.index as int].value is None
                && final(self).slots@.len() == old(self).slots@.len()
                && id.gen != old(self).slots@[id.index as int].gen,
            id.index >= old(self).slots@.len() ==> id.index == old(self).slots@.len()
                && final(self).slots@.len() == old(self).slots@.len() + 1,
            final(self).free@.len() + 1 >= old(self).free@.len(),
            forall|j: int| 0 <= j < final(self).free@.len() ==> #[trigger] final(self).free@[j] != id.index,
            final(self).desktop_map == old(self).desktop_map,
            final(self).surface_map == old(self).surface_map,
            old(self).free@.len() > 0 ==> id.index == old(self).free@.last() && id.gen == next_gen(
                old(self).slots@[id.index as int].gen,
            ) && final(self).free@ == old(self).free@.drop_last() && final(self).slots@
                == old(self).slots@.update(id.index as int, Slot { gen: id.gen, value: None }),
            old(self).free@.len() == 0 ==> id.index == old(self).slots@.len() && id.gen == 1
                && final(self).free@ == old(self).free@ && final(self).slots@ == old(self).slots@.push(
                Slot { gen: 1, value: None },
            ),
    {
        match self.free.pop() {
            Some(index) => {
                proof {
                    assert(old(self).free@[old(self).free@.len() - 1] == index);
                }
                let g = self.slots[index as usize].gen;
                let next = if g == u32::MAX {
                    1
                } else {
                    g + 1
                };
                let value = self.slots[index as usize].value.take();
                self.slots.set(index as usize, Slot { gen: next, value });
                proof {
                    assert forall|j: int| 0 <= j < self.free@.len() implies (
                    #[trigger] self.free@[j] as int) < self.slots@.len()
                        && self.slots@[self.free@[j] as int].value is None by {
                        assert(self.free@[j] == old(self).free@[j]);
                        assert(old(self).free@[j] != old(self).free@[old(self).free@.len() - 1]);
                    }
                }
                proof {
                    assert forall|j: int| 0 <= j < self.free@.len() implies #[trigger] self.free@[j] != index by {
                        assert(self.free@[j] == old(self).free@[j]);
                        assert(old(self).free@[j] != old(self).free@[old(self).free@.len() - 1]);
                    }
                    assert forall|j1: int, j2: int|
                        0 <= j1 < self.free@.len() && 0 <= j2 < self.free@.len() && j1 != j2
                        implies #[trigger] self.free@[j1] != #[trigger] self.free@[j2] by {
                        assert(self.free@[j1] == old(self).free@[j1]);
                        assert(self.free@[j2] == old(self).free@[j2]);
                    }
                    assert forall|i: int| 0 <= i < self.slots@.len() implies #[trigger] self.slots@[i].gen != 0 by {
                        if i != index {
                            assert(self.slots@[i] == old(self).slots@[i]);
                        }
                    }
                }
                WindowId { index, gen: next }
            },
            None => {
                let index = self.slots.len() as u32;
                self.slots.push(Slot { gen: 1, value: None });
                proof {
                    assert forall|j: int| 0 <= j < self.free@.len() implies (
                    #[trigger] self.free@[j] as int) < self.slots@.len()
                        && self.slots@[self.free@[j] as int].value is None
                        && self.free@[j] != index by {
                        assert(old(self).slots@[old(self).free@[j] as int].value is None);
                    }
                    assert forall|i: int| 0 <= i < self.slots@.len() implies #[trigger] self.slots@[i].gen != 0 by {
                        if i < old(self).slots@.len() {
                            assert(self.slots@[i] == old(self).slots@[i]);
                        }
                    }
                }
                WindowId { index, gen: 1 }
            },
        }
    }

    /// Stores `value` in a fresh slot and returns its id. The key indices,
    /// stacking and hierarchy are left to the caller.
    pub fn insert(&mut self, value: WindowRecord) -> (id: WindowId)
        requires
            old(self).wf(),
            old(self).free@.len() > 0 || old(self).slots@.len() < MAX_SLOTS,
        ensures
            final(self).wf(),
            !old(self).live(id),
            final(self).live(id),
            final(self).record(id) == value,
            forall|w: WindowId| #[trigger]
                old(self).live(w) ==> final(self).live(w) && final(self).record(w)
                    == old(self).record(w),
            old(self).insert_outcome(*final(self), id),
            final(self).live_count_spec() == old(self).live_count_spec() + 1,
            final(self).desktop_map == old(self).desktop_map,
            final(self).surface_map == old(self).surface_map,
    {
        let ghost pre = *self;
        let id = self.alloc_id();
        let ghost mid = *self;
        let g = self.slots[id.index as usize].gen;
        self.slots.set(id.index as usize, Slot { gen: g, value: Some(value) });
        proof {
            assert forall|w: WindowId| w != id implies #[trigger] self.live(w) == pre.live(w) by {
                if w.index != id.index && w.index < pre.slots@.len() {
                    assert(self.slots@[w.index as int] == pre.slots@[w.index as int]);
                }
            }
            if pre.free@.len() > 0 {
                lemma_count_update(pre.slots@, id.index as int, mid.slots@[id.index as int]);
            } else {
                lemma_count_push(pre.slots@, mid.slots@[id.index as int]);
            }
            lemma_count_update(mid.slots@, id.index as int, self.slots@[id.index as int]);
            assert(self.slots@ =~= mid.slots@.update(id.index as int, self.slots@[id.index as int]));
        }
        id
    }

    /// Inserts a window under fresh keys: it gets a new id, default
    /// attributes, lifecycle `Created`, and the top stacking position.
    pub fn insert_window(&mut self, dk: DesktopKey, sk: SurfaceKey) -> (r: Result<
        (WindowId, Vec<RegistryEvent>),
        RegistryError,
    >)
        requires
            old(self).wf(),
        ensures
            final(self).wf(),
            old(self).coherent() ==> final(self).coherent(),
            r is Ok <==> old(self).insert_error(dk, sk) is None,
            r is Err ==> Some(r->Err_0) == old(self).insert_error(dk, sk) && *final(self) == *old(self),
            !old(self).desktop_map@.contains_key(dk.0) && !old(self).surface_map@.contains_key(sk.0)
                && !old(self).has_room() ==> *final(self) == *old(self) && r == Err::<
                (WindowId, Vec<RegistryEvent>),
                RegistryError,
            >(RegistryError::CapacityExhausted),
            old(self).desktop_map@.contains_key(dk.0) ==> *final(self) == *old(self) && r == Err::<
                (WindowId, Vec<RegistryEvent>),
                RegistryError,
            >(RegistryError::DesktopKeyAlreadyRegistered { dk, existing: old(self).desktop_map@[dk.0] }),
            !old(self).desktop_map@.contains_key(dk.0) && old(self).surface_map@.contains_key(sk.0)
                ==> *final(self) == *old(self) && r == Err::<
                (WindowId, Vec<RegistryEvent>),
                RegistryError,
            >(RegistryError::SurfaceKeyAlreadyRegistered { sk, existing: old(self).surface_map@[sk.0] }),
            !old(self).desktop_map@.contains_key(dk.0) && !old(self).surface_map@.contains_key(sk.0)
                && old(self).has_room() ==> r is Ok && {
                let (id, events) = r->Ok_0;
                &&& !old(self).live(id)
                &&& final(self).live(id)
                &&& fresh_record(final(self).record(id), id, dk, sk, old(self).live_count_spec() as int)
                &&& final(self).live_count_spec() == old(self).live_count_spec() + 1
                &&& events@ == seq![RegistryEvent::WindowCreated { id, dk, sk }]
                &&& final(self).desktop_map@ == old(self).desktop_map@.insert(dk.0, id)
                &&& final(self).surface_map@ == old(self).surface_map@.insert(sk.0, id)
                &&& forall|w: WindowId| #[trigger]
                    old(self).live(w) ==> final(self).live(w) && final(self).record(w)
                        == old(self).record(w)
                &&& old(self).insert_outcome(*final(self), id)
            },
    {
        if let Some(existing) = self.desktop_map.get(&dk.0) {
            return Err(RegistryError::DesktopKeyAlreadyRegistered { dk, existing: *existing });
        }
        if let Some(existing) = self.surface_map.get(&sk.0) {
            return Err(RegistryError::SurfaceKeyAlreadyRegistered { sk, existing: *existing });
        }
        if self.free.len() == 0 && self.slots.len() >= MAX_SLOTS {
            return Err(RegistryError::CapacityExhausted);
        }
        let count = self.live_count();
        proof {
            lemma_count_bound(self.slots@);
            if self.free@.len() > 0 {
                assert(self.slots@[self.free@[0] as int].value is None);
            }
        }
        let stack_index = count as i32;
        let ghost pre = *self;
        let id = self.alloc_id();
        let record = WindowRecord {
            id,
            dk,
            sk,
            lifecycle: LifecycleState::Created,
            geometry: None,
            state: WindowState { minimized: false, maximized: false, fullscreen: false },
            is_focused: false,
            workspace: None,
            output: None,
            stack_index,
            parent_id: None,
            children: Vec::new(),
            title: None,
            app_id: None,
        };
        let ghost mid = *self;
        self.slots.set(id.index as usize, Slot { gen: id.gen, value: Some(record) });
        self.desktop_map.insert(dk.0, id);
        self.surface_map.insert(sk.0, id);
        proof {
            if id.index < pre.slots@.len() {
                lemma_count_update(mid.slots@, id.index as int, self.slots@[id.index as int]);
                assert(mid.slots@ =~= pre.slots@.update(id.index as int, mid.slots@[id.index as int]));
                lemma_count_update(pre.slots@, id.index as int, mid.slots@[id.index as int]);
                assert(self.slots@ =~= mid.slots@.update(id.index as int, self.slots@[id.index as int]));
            } else {
                assert(mid.slots@ =~= pre.slots@.push(mid.slots@[id.index as int]));
                lemma_count_push(pre.slots@, mid.slots@[id.index as int]);
                lemma_count_update(mid.slots@, id.index as int, self.slots@[id.index as int]);
                assert(self.slots@ =~= mid.slots@.update(id.index as int, self.slots@[id.index as int]));
            }
            assert forall|w: WindowId| #[trigger]
                pre.live(w) implies self.live(w) && self.record(w) == pre.record(w) by {
                assert(w.index != id.index);
            }
            assert forall|w: WindowId| w != id implies #[trigger] self.live(w) == pre.live(w) by {
                if w.index != id.index && w.index < pre.slots@.len() {
                    assert(self.slots@[w.index as int] == pre.slots@[w.index as int]);
                }
            }
            assert forall|i: int|
                0 <= i < self.slots@.len() && i != id.index implies (i < pre.slots@.len()
                    && self.slots@[i] == pre.slots@[i]) || (i >= pre.slots@.len()
                    && self.slots@[i].value is None) by {
                assert(self.slots@[i] == mid.slots@[i]);
            }
            if pre.coherent() {
                self.lemma_insert_coherent(pre, id, dk, sk);
            }
        }
        Ok((id, vec![RegistryEvent::WindowCreated { id, dk, sk }]))
    }

    proof fn lemma_insert_coherent(self, pre: Registry, id: WindowId, dk: DesktopKey, sk: SurfaceKey)
        requires
            pre.coherent(),
            self.wf(),
            !pre.desktop_map@.contains_key(dk.0),
            !pre.surface_map@.contains_key(sk.0),
            !pre.live(id),
            self.live(id),
            id.index < pre.slots@.len() ==> pre.slots@[id.index as int].value is None,
            fresh_record(self.record(id), id, dk, sk, pre.live_count_spec() as int),
            self.live_count_spec() == pre.live_count_spec() + 1,
            self.slots@.len() >= pre.slots@.len(),
            forall|i: int|
                0 <= i < self.slots@.len() && i != id.index ==> (i < pre.slots@.len()
                    && self.slots@[i] == pre.slots@[i]) || (i >= pre.slots@.len()
                    && self.slots@[i].value is None),
            self.desktop_map@ == pre.desktop_map@.insert(dk.0, id),
            self.surface_map@ == pre.surface_map@.insert(sk.0, id),
        ensures
            self.coherent(),
    {
        assert(self.keys_coherent()) by {
            assert forall|i: int| #[trigger] self.occupied(i) implies self.record_at(i).id
                == self.id_at(i) by {
                if i != id.index {
                    assert(pre.occupied(i));
                }
            }
            assert forall|i: int| #[trigger] self.occupied(i) implies self.desktop_map@.contains_key(
                self.record_at(i).dk.0,
            ) && self.desktop_map@[self.record_at(i).dk.0] == self.id_at(i)
                && self.surface_map@.contains_key(self.record_at(i).sk.0)
                && self.surface_map@[self.record_at(i).sk.0] == self.id_at(i) by {
                if i != id.index {
                    assert(pre.occupied(i));
                    assert(self.record_at(i).dk.0 != dk.0);
                    assert(self.record_at(i).sk.0 != sk.0);
                }
            }
            assert forall|a: usize| #[trigger] self.desktop_map@.contains_key(a) implies self.live(
                self.desktop_map@[a],
            ) && self.record(self.desktop_map@[a]).dk.0 == a by {
                if a != dk.0 {
                    let w = pre.desktop_map@[a];
                    assert(pre.live(w));
                    assert(w.index != id.index);
                }
            }
            assert forall|a: usize| #[trigger] self.surface_map@.contains_key(a) implies self.live(
                self.surface_map@[a],
            ) && self.record(self.surface_map@[a]).sk.0 == a by {
                if a != sk.0 {
                    let w = pre.surface_map@[a];
                    assert(pre.live(w));
                    assert(w.index != id.index);
                }
            }
        }
        assert(self.stacking_dense()) by {
            assert forall|i: int| #[trigger] self.occupied(i) implies 0 <= self.record_at(
                i,
            ).stack_index < self.live_count_spec() by {
                if i != id.index {
                    assert(pre.occupied(i));
                }
            }
            assert forall|i: int, j: int|
                #[trigger] self.occupied(i) && #[trigger] self.occupied(j) && i != j implies self.record_at(
                i,
            ).stack_index != self.record_at(j).stack_index by {
                if i != id.index {
                    assert(pre.occupied(i));
                }
                if j != id.index {
                    assert(pre.occupied(j));
                }
            }
        }
        assert(self.focus_exclusive()) by {
            assert forall|i: int, j: int|
                #[trigger] self.occupied(i) && #[trigger] self.occupied(j) && i != j implies !(
                self.record_at(i).is_focused && self.record_at(j).is_focused) by {
                if i != id.index {
                    assert(pre.occupied(i));
                }
                if j != id.index {
                    assert(pre.occupied(j));
                }
            }
        }
        assert(self.attrs_valid()) by {
            assert forall|i: int| #[trigger] self.occupied(i) implies self.record_at(i).attrs_valid() by {
                if i != id.index {
                    assert(pre.occupied(i));
                }
            }
        }
        assert(only_cuts(pre.parent_fn(), self.parent_fn())) by {
            assert forall|w: WindowId| #[trigger]
                self.parent_fn()(w) == pre.parent_fn()(w) || self.parent_fn()(w) is None by {
                if w.index != id.index && self.live(w) {
                    assert(pre.occupied(w.index as int));
                }
            }
        }
        lemma_acyclic_cut(pre.parent_fn(), self.parent_fn());
    }

    /// Number of live windows.
    pub fn live_count(&self) -> (n: usize)
        ensures
            n == self.live_count_spec(),
    {
        let mut n: usize = 0;
        let mut i: usize = 0;
        while i < self.slots.len()
            invariant
                i <= self.slots@.len(),
                n == count_live(self.slots@.subrange(0, i as int)),
                n <= i,
            decreases self.slots@.len() - i,
        {
            proof {
                assert(self.slots@.subrange(0, i + 1).drop_last() =~= self.slots@.subrange(0, i as int));
            }
            if self.slots[i].value.is_some() {
                n += 1;
            }
            i += 1;
        }
        proof {
            assert(self.slots@.subrange(0, i as int) =~= self.slots@);
        }
        n
    }

    /// The record `id` names, if it is still live.
    pub fn get(&self, id: WindowId) -> (r: Option<&WindowRecord>)
        ensures
            r is Some <==> self.live(id),
            r is Some ==> *r->0 == self.record(id),
    {
        if (id.index as usize) < self.slots.len() {
            let slot = &self.slots[id.index as usize];
            if slot.gen == id.gen {
                slot.value.as_ref()
            } else {
                None
            }
        } else {
            None
        }
    }

    /// A snapshot of the window `id` names, if it is still live.
    pub fn snapshot(&self, id: WindowId) -> (r: Option<WindowInfo>)
        ensures
            r is Some <==> self.live(id),
            r is Some ==> r->0.matches(&self.record(id)),
    {
        match self.get(id) {
            Some(rec) => Some(WindowInfo::of(rec)),
            None => None,
        }
    }

    /// One snapshot per live window, in slot order.
    pub fn snapshot_all(&self) -> (r: Vec<WindowInfo>)
        ensures
            r@.len() == self.live_count_spec(),
            r@.len() == live_records(self.slots@).len(),
            forall|k: int| 0 <= k < r@.len() ==> #[trigger] r@[k].matches(&live_records(self.slots@)[k]),
    {
        let mut out: Vec<WindowInfo> = Vec::new();
        let mut i: usize = 0;
        proof {
            lemma_live_records_len(self.slots@);
        }
        while i < self.slots.len()
            invariant
                i <= self.slots@.len(),
                out@.len() == count_live(self.slots@.subrange(0, i as int)),
                out@.len() == live_records(self.slots@.subrange(0, i as int)).len(),
                forall|k: int| 0 <= k < out@.len() ==> #[trigger] out@[k].matches(
                    &live_records(self.slots@.subrange(0, i as int))[k],
                ),
            decreases self.slots@.len() - i,
        {
            proof {
                assert(self.slots@.subrange(0, i + 1).drop_last() =~= self.slots@.subrange(0, i as int));
            }
            match &self.slots[i].value {
                Some(rec) => out.push(WindowInfo::of(rec)),
                None => {},
            }
            i += 1;
        }
        proof {
            assert(self.slots@.subrange(0, i as int) =~= self.slots@);
        }
        out
    }

    /// The id registered for a desktop key.
    pub fn from_desktop(&self, dk: DesktopKey) -> (r: Option<WindowId>)
        ensures
            r is Some <==> self.desktop_map@.contains_key(dk.0),
            r is Some ==> r->0 == self.desktop_map@[dk.0],
    {
        match self.desktop_map.get(&dk.0) {
            Some(id) => Some(*id),
            None => None,
        }
    }

    /// The id registered for a surface key.
    pub fn from_surface(&self, sk: SurfaceKey) -> (r: Option<WindowId>)
        ensures
            r is Some <==> self.surface_map@.contains_key(sk.0),
            r is Some ==> r->0 == self.surface_map@[sk.0],
    {
        match self.surface_map.get(&sk.0) {
            Some(id) => Some(*id),
            None => None,
        }
    }

    /// The live record `id` names, for in-place changes.
    pub(crate) fn record_mut(&mut self, id: WindowId) -> (r: &mut WindowRecord)
        requires
            old(self).live(id),
        ensures
            *r == old(self).record(id),
            final(self).slots@ == old(self).slots@.update(
                id.index as int,
                Slot { gen: id.gen, value: Some(*final(r)) },
            ),
            final(self).free == old(self).free,
            final(self).desktop_map == old(self).desktop_map,
            final(self).surface_map == old(self).surface_map,
    {
        let slot = &mut self.slots[id.index as usize];
        slot.value.as_mut().unwrap()
    }

    /// The record `id` names, if it is still live, for in-place changes.
    /// Changing its keys, stack index, focus or parent through this reference
    /// bypasses the registry's bookkeeping.
    pub fn get_mut(&mut self, id: WindowId) -> (r: Option<&mut WindowRecord>)
        requires
            old(self).wf(),
        ensures
            r is Some <==> old(self).live(id),
            r is None ==> *final(self) == *old(self),
            r is Some ==> *r.unwrap() == old(self).record(id) && final(self).slots@
                == old(self).slots@.update(
                id.index as int,
                Slot { gen: id.gen, value: Some(*final(r.unwrap())) },
            ) && final(self).free == old(self).free && final(self).desktop_map
                == old(self).desktop_map && final(self).surface_map == old(self).surface_map,
    {
        if self.get(id).is_some() {
            Some(self.record_mut(id))
        } else {
            None
        }
    }

    /// Sets the title of a live window; returns whether `id` resolved.
    pub fn set_title(&mut self, id: WindowId, title: String) -> (r: bool)
        requires
            old(self).wf(),
        ensures
            final(self).wf(),
            old(self).coherent() ==> final(self).coherent(),
            r == old(self).live(id),
            !r ==> *final(self) == *old(self),
            r ==> final(self).slots@ == old(self).slots@.update(
                id.index as int,
                Slot {
                    gen: id.gen,
                    value: Some(WindowRecord { title: Some(title), ..old(self).record(id) }),
                },
            ),
            final(self).free == old(self).free,
            final(self).desktop_map == old(self).desktop_map,
            final(self).surface_map == old(self).surface_map,
    {
        if self.get(id).is_none() {
            return false;
        }
        let ghost pre = *self;
        let rec = self.record_mut(id);
        rec.title = Some(title);
        proof {
            pre.lemma_same_shape(*self, id);
        }
        true
    }

    /// Replacing the live record `id` by one with the same id, keys, stack
    /// index, focus and parent keeps the registry as coherent as it was.
    pub proof fn lemma_same_shape(self, post: Registry, id: WindowId)
        requires
            self.wf(),
            self.live(id),
            post.free == self.free,
            post.desktop_map == self.desktop_map,
            post.surface_map == self.surface_map,
            post.slots@.len() == self.slots@.len(),
            post.live(id),
            forall|i: int| 0 <= i < self.slots@.len() && i != id.index ==> post.slots@[i] == self.slots@[i],
            post.record(id).id == self.record(id).id,
            post.record(id).dk == self.record(id).dk,
            post.record(id).sk == self.record(id).sk,
            post.record(id).stack_index == self.record(id).stack_index,
            post.record(id).is_focused ==> self.record(id).is_focused || forall|i: int|
                #[trigger] self.occupied(i) && i != id.index ==> !self.record_at(i).is_focused,
            post.record(id).parent_id == self.record(id).parent_id,
            self.coherent() ==> post.record(id).attrs_valid(),
        ensures
            post.wf(),
            self.coherent() ==> post.coherent(),
    {
        assert(post.slots@ =~= self.slots@.update(id.index as int, post.slots@[id.index as int]));
        lemma_count_update(self.slots@, id.index as int, post.slots@[id.index as int]);
        assert forall|i: int| #[trigger] post.occupied(i) <==> self.occupied(i) by {}
        assert(post.wf()) by {
            assert forall|i: int| 0 <= i < post.slots@.len() implies #[trigger] post.slots@[i].gen != 0 by {
                if i != id.index {
                    assert(post.slots@[i] == self.slots@[i]);
                }
            }
            assert forall|j: int| 0 <= j < post.free@.len() implies (
            #[trigger] post.free@[j] as int) < post.slots@.len()
                && post.slots@[post.free@[j] as int].value is None by {
                assert(self.slots@[self.free@[j] as int].value is None);
            }
        }
        if self.coherent() {
            assert forall|w: WindowId| #[trigger] post.live(w) <==> self.live(w) by {
                if w.index == id.index {
                } else if self.occupied(w.index as int) {
                    assert(post.slots@[w.index as int] == self.slots@[w.index as int]);
                }
            }
            assert forall|i: int| #[trigger] post.occupied(i) implies post.record_at(i).id == self.record_at(i).id
                && post.record_at(i).dk == self.record_at(i).dk
                && post.record_at(i).sk == self.record_at(i).sk
                && post.record_at(i).stack_index == self.record_at(i).stack_index
                && (i != id.index ==> post.record_at(i) == self.record_at(i))
                && post.record_at(i).parent_id == self.record_at(i).parent_id
                && post.id_at(i) == self.id_at(i) by {
                if i != id.index {
                    assert(post.slots@[i] == self.slots@[i]);
                }
            }
            assert(post.keys_coherent()) by {
                assert forall|a: usize| #[trigger] post.desktop_map@.contains_key(a) implies post.live(
                    post.desktop_map@[a],
                ) && post.record(post.desktop_map@[a]).dk.0 == a by {
                    assert(self.live(self.desktop_map@[a]));
                    assert(post.occupied(self.desktop_map@[a].index as int));
                }
                assert forall|a: usize| #[trigger] post.surface_map@.contains_key(a) implies post.live(
                    post.surface_map@[a],
                ) && post.record(post.surface_map@[a]).sk.0 == a by {
                    assert(self.live(self.surface_map@[a]));
                    assert(post.occupied(self.surface_map@[a].index as int));
                }
            }
            assert(post.stacking_dense()) by {
                assert forall|i: int, j: int|
                    #[trigger] post.occupied(i) && #[trigger] post.occupied(j) && i != j implies post.record_at(
                    i,
                ).stack_index != post.record_at(j).stack_index by {
                    assert(self.occupied(i) && self.occupied(j));
                }
            }
            assert(post.focus_exclusive()) by {
                assert forall|i: int, j: int|
                    #[trigger] post.occupied(i) && #[trigger] post.occupied(j) && i != j implies !(
                    post.record_at(i).is_focused && post.record_at(j).is_focused) by {
                    assert(self.occupied(i) && self.occupied(j));
                }
            }
            assert(post.attrs_valid()) by {
                assert forall|i: int| #[trigger] post.occupied(i) implies post.record_at(i).attrs_valid() by {
                    assert(self.occupied(i));
                }
            }
            assert(only_cuts(self.parent_fn(), post.parent_fn())) by {
                assert forall|w: WindowId| #[trigger]
                    post.parent_fn()(w) == self.parent_fn()(w) || post.parent_fn()(w) is None by {
                    if post.live(w) {
                        assert(post.occupied(w.index as int));
                    }
                }
            }
            lemma_acyclic_cut(self.parent_fn(), post.parent_fn());
        }
    }

    /// Marks a live window as mapped; a window already mapped emits nothing.
    pub fn on_map(&mut self, id: WindowId) -> (r: Result<Vec<RegistryEvent>, RegistryError>)
        requires
            old(self).wf(),
        ensures
            final(self).wf(),
            old(self).coherent() ==> final(self).coherent(),
            !old(self).live(id) ==> *final(self) == *old(self) && r == Err::<
                Vec<RegistryEvent>,
                RegistryError,
            >(RegistryError::InvalidWindowId(id)),
            old(self).live(id) ==> r is Ok && final(self).slots@ == old(self).slots@.update(
                id.index as int,
                Slot {
                    gen: id.gen,
                    value: Some(WindowRecord { lifecycle: LifecycleState::Mapped, ..old(self).record(id) }),
                },
            ) && final(self).free == old(self).free && final(self).desktop_map
                == old(self).desktop_map && final(self).surface_map == old(self).surface_map
                && r->Ok_0@ == if old(self).record(id).lifecycle != LifecycleState::Mapped {
                seq![
                    RegistryEvent::WindowChanged {
                        id,
                        changes: lifecycle_change(old(self).record(id).lifecycle, LifecycleState::Mapped),
                    },
                ]
            } else {
                Seq::empty()
            },
    {
        if self.get(id).is_none() {
            return Err(RegistryError::InvalidWindowId(id));
        }
        let ghost pre = *self;
        let r = self.record_mut(id);
        let old_state = r.lifecycle;
        if old_state != LifecycleState::Mapped {
            r.lifecycle = LifecycleState::Mapped;
            proof {
                pre.lemma_same_shape(*self, id);
            }
            let mut changes = WindowChanges::none();
            changes.lifecycle = Some(WindowChange { old: old_state, new: LifecycleState::Mapped });
            Ok(vec![RegistryEvent::WindowChanged { id, changes }])
        } else {
            proof {
                assert(self.slots@ =~= pre.slots@.update(
                    id.index as int,
                    Slot {
                        gen: id.gen,
                        value: Some(WindowRecord { lifecycle: LifecycleState::Mapped, ..pre.record(id) }),
                    },
                ));
                pre.lemma_same_shape(*self, id);
            }
            Ok(Vec::new())
        }
    }

    /// Marks a mapped window as unmapped; any other window emits nothing.
    pub fn on_unmap(&mut self, id: WindowId) -> (r: Result<Vec<RegistryEvent>, RegistryError>)
        requires
            old(self).wf(),
        ensures
            final(self).wf(),
            old(self).coherent() ==> final(self).coherent(),
            !old(self).live(id) ==> *final(self) == *old(self) && r == Err::<
                Vec<RegistryEvent>,
                RegistryError,
            >(RegistryError::InvalidWindowId(id)),
            old(self).live(id) && old(self).record(id).lifecycle == LifecycleState::Mapped ==> r is Ok
                && final(self).slots@ == old(self).slots@.update(
                id.index as int,
                Slot {
                    gen: id.gen,
                    value: Some(WindowRecord { lifecycle: LifecycleState::Unmapped, ..old(self).record(id) }),
                },
            ) && final(self).free == old(self).free && final(self).desktop_map
                == old(self).desktop_map && final(self).surface_map == old(self).surface_map
                && r->Ok_0@ == seq![
                RegistryEvent::WindowChanged {
                    id,
                    changes: lifecycle_change(LifecycleState::Mapped, LifecycleState::Unmapped),
                },
            ],
            old(self).live(id) && old(self).record(id).lifecycle != LifecycleState::Mapped ==> r is Ok
                && *final(self) == *old(self) && r->Ok_0@ == Seq::<RegistryEvent>::empty(),
    {
        if self.get(id).is_none() {
            return Err(RegistryError::InvalidWindowId(id));
        }
        let is_mapped = match self.get(id) {
            Some(rec) => rec.lifecycle == LifecycleState::Mapped,
            None => false,
        };
        if !is_mapped {
            return Ok(Vec::new());
        }
        let ghost pre = *self;
        let r = self.record_mut(id);
        r.lifecycle = LifecycleState::Unmapped;
        proof {
            pre.lemma_same_shape(*self, id);
        }
        let mut changes = WindowChanges::none();
        changes.lifecycle = Some(
            WindowChange { old: LifecycleState::Mapped, new: LifecycleState::Unmapped },
        );
        Ok(vec![RegistryEvent::WindowChanged { id, changes }])
    }


    /// Empties the slot of a live window and frees its index. The key
    /// indices and the stacking of the other windows are left as they are.
    pub fn remove(&mut self, id: WindowId) -> (r: Option<WindowRecord>)
        requires
            old(self).wf(),
        ensures
            final(self).wf(),
            r is Some <==> old(self).live(id),
            r is None ==> *final(self) == *old(self),
            r is Some ==> r->0 == old(self).record(id) && !final(self).live(id)
                && final(self).slots@ == old(self).slots@.update(
                id.index as int,
                Slot { gen: id.gen, value: None },
            ) && final(self).desktop_map == old(self).desktop_map && final(self).surface_map
                == old(self).surface_map,
    {
        if self.get(id).is_none() {
            return None;
        }
        let out = self.take_slot(id);
        Some(out)
    }

    /// Takes the record out of a live slot and frees the index.
    fn take_slot(&mut self, id: WindowId) -> (out: WindowRecord)
        requires
            old(self).wf(),
            old(self).live(id),
        ensures
            final(self).wf(),
            out == old(self).record(id),
            final(self).slots@ == old(self).slots@.update(
                id.index as int,
                Slot { gen: id.gen, value: None },
            ),
            final(self).free@ == old(self).free@.push(id.index),
            final(self).desktop_map == old(self).desktop_map,
            final(self).surface_map == old(self).surface_map,
    {
        let slot = &mut self.slots[id.index as usize];
        let out = slot.value.take().unwrap();
        proof {
            assert forall|j: int| 0 <= j < old(self).free@.len() implies #[trigger] old(self).free@[j]
                != id.index by {
                assert(old(self).slots@[old(self).free@[j] as int].value is None);
            }
        }
        self.free.push(id.index);
        proof {
            assert forall|i: int| 0 <= i < self.slots@.len() implies #[trigger] self.slots@[i].gen != 0 by {
                if i != id.index {
                    assert(self.slots@[i] == old(self).slots@[i]);
                }
            }
            assert forall|j: int| 0 <= j < self.free@.len() implies (
            #[trigger] self.free@[j] as int) < self.slots@.len()
                && self.slots@[self.free@[j] as int].value is None by {
                if j < old(self).free@.len() {
                    assert(self.free@[j] == old(self).free@[j]);
                    assert(old(self).free@[j] != id.index);
                }
            }
            assert forall|j1: int, j2: int|
                0 <= j1 < self.free@.len() && 0 <= j2 < self.free@.len() && j1 != j2
                implies #[trigger] self.free@[j1] != #[trigger] self.free@[j2] by {
                if j1 < old(self).free@.len() {
                    assert(old(self).free@[j1] != id.index);
                }
                if j2 < old(self).free@.len() {
                    assert(old(self).free@[j2] != id.index);
                }
            }
        }
        out
    }

    /// Removes a live window: clears its keys, frees its slot, moves every
    /// window stacked above it down by one (one event each, in slot order),
    /// then emits `WindowDestroyed`. Its place in a parent's children list
    /// and its own children are left as they are.
    pub fn remove_window(&mut self, id: WindowId) -> (r: Result<
        (WindowRecord, Vec<RegistryEvent>),
        RegistryError,
    >)
        requires
            old(self).wf(),
        ensures
            final(self).wf(),
            old(self).coherent() ==> final(self).coherent(),
            !old(self).live(id) ==> *final(self) == *old(self) && r == Err::<
                (WindowRecord, Vec<RegistryEvent>),
                RegistryError,
            >(RegistryError::InvalidWindowId(id)),
            old(self).live(id) ==> r is Ok && {
                let (rec, events) = r->Ok_0;
                let emptied = old(self).slots@.update(id.index as int, Slot { gen: id.gen, value: None });
                &&& rec == old(self).record(id)
                &&& !final(self).live(id)
                &&& old(self).remove_outcome(*final(self), id)
                &&& final(self).desktop_map@ == old(self).desktop_map@.remove(rec.dk.0)
                &&& final(self).surface_map@ == old(self).surface_map@.remove(rec.sk.0)
                &&& final(self).slots@.len() == emptied.len()
                &&& forall|i: int| 0 <= i < emptied.len() ==> #[trigger] final(self).slots@[i] == if rec.stack_index >= 0 {
                    shifted(emptied[i], rec.stack_index)
                } else {
                    emptied[i]
                }
                &&& events@ == if rec.stack_index >= 0 {
                    shift_events(emptied, rec.stack_index, emptied.len() as int)
                } else {
                    Seq::empty()
                }.push(RegistryEvent::WindowDestroyed { id })
            },
    {
        if self.get(id).is_none() {
            return Err(RegistryError::InvalidWindowId(id));
        }
        let ghost pre = *self;
        let record = self.take_slot(id);
        let removed = record.stack_index;
        self.desktop_map.remove(&record.dk.0);
        self.surface_map.remove(&record.sk.0);
        let ghost s0 = self.slots@;
        let mut events: Vec<RegistryEvent> = Vec::new();
        if removed >= 0 {
            let mut i: usize = 0;
            while i < self.slots.len()
                invariant
                    self.wf(),
                    self.slots@.len() == s0.len(),
                    i <= s0.len(),
                    removed >= 0,
                    events@ == shift_events(s0, removed, i as int),
                    forall|j: int| 0 <= j < i ==> #[trigger] self.slots@[j] == shifted(s0[j], removed),
                    forall|j: int| i <= j < s0.len() ==> #[trigger] self.slots@[j] == s0[j],
                    self.desktop_map@ == pre.desktop_map@.remove(record.dk.0),
                    self.surface_map@ == pre.surface_map@.remove(record.sk.0),
                    self.free@ == pre.free@.push(id.index),
                decreases s0.len() - i,
            {
                let ghost before = self.slots@;
                let slot = &mut self.slots[i];
                match &mut slot.value {
                    Some(other) => {
                        if other.stack_index > removed {
                            let old_index = other.stack_index;
                            other.stack_index = old_index - 1;
                            let mut changes = WindowChanges::none();
                            changes.stack_index = Some(WindowChange { old: old_index, new: old_index - 1 });
                            events.push(RegistryEvent::WindowChanged { id: other.id, changes });
                        }
                    },
                    None => {},
                }
                proof {
                    assert(self.slots@ =~= before.update(i as int, shifted(s0[i as int], removed)));
                    assert forall|k: int| 0 <= k < self.slots@.len() implies #[trigger] self.slots@[k].gen != 0 by {
                        assert(self.slots@[k].gen == before[k].gen);
                    }
                    assert forall|j: int| 0 <= j < self.free@.len() implies (
                    #[trigger] self.free@[j] as int) < self.slots@.len()
                        && self.slots@[self.free@[j] as int].value is None by {
                        assert(before[self.free@[j] as int].value is None);
                    }
                }
                i += 1;
            }
        }
        events.push(RegistryEvent::WindowDestroyed { id });
        proof {
            assert forall|w: WindowId| w != id implies #[trigger] self.live(w) == pre.live(w) by {
                if 0 <= w.index < self.slots@.len() {
                    assert(self.slots@[w.index as int] == if removed >= 0 {
                        shifted(s0[w.index as int], removed)
                    } else {
                        s0[w.index as int]
                    });
                }
            }
            assert(self.slots@[id.index as int].gen == id.gen) by {
                assert(self.slots@[id.index as int] == if removed >= 0 {
                    shifted(s0[id.index as int], removed)
                } else {
                    s0[id.index as int]
                });
            }
            if pre.coherent() {
                pre.lemma_remove_coherent(*self, id, record);
            }
        }
        Ok((record, events))
    }

    proof fn lemma_remove_coherent(self, post: Registry, id: WindowId, rec: WindowRecord)
        requires
            self.coherent(),
            self.live(id),
            rec == self.record(id),
            post.wf(),
            post.slots@.len() == self.slots@.len(),
            forall|i: int| 0 <= i < post.slots@.len() ==> #[trigger] post.slots@[i] == shifted(
                self.slots@.update(id.index as int, Slot { gen: id.gen, value: None })[i],
                rec.stack_index,
            ),
            post.desktop_map@ == self.desktop_map@.remove(rec.dk.0),
            post.surface_map@ == self.surface_map@.remove(rec.sk.0),
        ensures
            post.coherent(),
    {
        let emptied = self.slots@.update(id.index as int, Slot { gen: id.gen, value: None });
        lemma_count_update(self.slots@, id.index as int, Slot { gen: id.gen, value: None });
        assert(count_live(post.slots@) == count_live(emptied)) by {
            assert forall|i: int| 0 <= i < post.slots@.len() implies (#[trigger] post.slots@[i].value is Some)
                == (emptied[i].value is Some) by {}
            lemma_count_same_occupancy(post.slots@, emptied);
        }
        assert forall|i: int| #[trigger] post.occupied(i) <==> (self.occupied(i) && i != id.index) by {
            if 0 <= i < post.slots@.len() {
                assert(post.slots@[i] == shifted(emptied[i], rec.stack_index));
            }
        }
        assert forall|i: int| #[trigger] post.occupied(i) implies post.id_at(i) == self.id_at(i)
            && post.record_at(i) == (WindowRecord {
                stack_index: if self.record_at(i).stack_index > rec.stack_index {
                    (self.record_at(i).stack_index - 1) as i32
                } else {
                    self.record_at(i).stack_index
                },
                ..self.record_at(i)
            }) by {
            assert(post.slots@[i] == shifted(emptied[i], rec.stack_index));
        }
        assert forall|w: WindowId| #[trigger] post.live(w) <==> (self.live(w) && w != id) by {
            if post.live(w) {
                assert(post.occupied(w.index as int));
            }
            if self.live(w) && w != id {
                assert(self.occupied(w.index as int));
                assert(w.index != id.index);
                assert(post.occupied(w.index as int));
            }
        }
        assert(post.keys_coherent()) by {
            assert forall|i: int| #[trigger] post.occupied(i) implies post.desktop_map@.contains_key(
                post.record_at(i).dk.0,
            ) && post.desktop_map@[post.record_at(i).dk.0] == post.id_at(i)
                && post.surface_map@.contains_key(post.record_at(i).sk.0)
                && post.surface_map@[post.record_at(i).sk.0] == post.id_at(i) by {
                assert(self.occupied(i));
                assert(self.occupied(id.index as int));
            }
            assert forall|a: usize| #[trigger] post.desktop_map@.contains_key(a) implies post.live(
                post.desktop_map@[a],
            ) && post.record(post.desktop_map@[a]).dk.0 == a by {
                let w = self.desktop_map@[a];
                assert(self.live(w));
                assert(self.occupied(w.index as int));
                assert(post.occupied(w.index as int));
            }
            assert forall|a: usize| #[trigger] post.surface_map@.contains_key(a) implies post.live(
                post.surface_map@[a],
            ) && post.record(post.surface_map@[a]).sk.0 == a by {
                let w = self.surface_map@[a];
                assert(self.live(w));
                assert(self.occupied(w.index as int));
                assert(post.occupied(w.index as int));
            }
        }
        assert(post.stacking_dense()) by {
            assert forall|i: int| #[trigger] post.occupied(i) implies 0 <= post.record_at(
                i,
            ).stack_index < post.live_count_spec() by {
                assert(self.occupied(i));
                assert(self.occupied(id.index as int));
            }
            assert forall|i: int, j: int|
                #[trigger] post.occupied(i) && #[trigger] post.occupied(j) && i != j implies post.record_at(
                i,
            ).stack_index != post.record_at(j).stack_index by {
                assert(self.occupied(i));
                assert(self.occupied(j));
                assert(self.occupied(id.index as int));
            }
        }
        assert(post.focus_exclusive()) by {
            assert forall|i: int, j: int|
                #[trigger] post.occupied(i) && #[trigger] post.occupied(j) && i != j implies !(
                post.record_at(i).is_focused && post.record_at(j).is_focused) by {
                assert(self.occupied(i));
                assert(self.occupied(j));
            }
        }
        assert(post.attrs_valid()) by {
            assert forall|i: int| #[trigger] post.occupied(i) implies post.record_at(i).attrs_valid() by {
                assert(self.occupied(i));
            }
        }
        assert(only_cuts(self.parent_fn(), post.parent_fn())) by {
            assert forall|w: WindowId| #[trigger]
                post.parent_fn()(w) == self.parent_fn()(w) || post.parent_fn()(w) is None by {
                if post.live(w) {
                    assert(post.occupied(w.index as int));
                }
            }
        }
        lemma_acyclic_cut(self.parent_fn(), post.parent_fn());
    }

}

} // verus!
