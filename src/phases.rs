use vstd::prelude::*;
use crate::events::{RegistryEvent, WindowChange, WindowChanges};
use crate::hierarchy::{
    acyclic, agree_except, lemma_acyclic_cut, lemma_acyclic_link, on_chain, only_cuts, ParentFn,
};
use crate::model::copy_ids;
use crate::ids::WindowId;
use crate::model::WindowRecord;
use crate::laws::{lemma_stacking_is_dense, occupied_below};
use crate::registry::{
    count_live, lemma_count_bound, lemma_count_same_occupancy, stack_change, Registry, Slot,
};
use vstd::set_lib::set_int_range;

verus! {

/// A change set that records one focus change.
pub open spec fn focus_change(old: bool, new: bool) -> WindowChanges {
    WindowChanges {
        lifecycle: None,
        geometry: None,
        state: None,
        is_focused: Some(WindowChange { old, new }),
        workspace: None,
        output: None,
        stack_index: None,
        parent_id: None,
        children: None,
        title: None,
        app_id: None,
    }
}

/// `e` reports that the live window now at stack position `q`, which is not
/// `target`, moved there from `from`.
pub open spec fn shift_event(reg: Registry, e: RegistryEvent, target: WindowId, q: int, from: int) -> bool {
    match e {
        RegistryEvent::WindowChanged { id: w, changes } => reg.live(w) && w != target
            && reg.record(w).stack_index == q && changes == stack_change(from as i32, q as i32),
        _ => false,
    }
}

/// The lowest stack position that moving a window from `o` to `n` shifts a
/// window into.
pub open spec fn first_shifted(o: int, n: int) -> int {
    if o < n {
        o
    } else {
        n + 1
    }
}

/// How many windows moving a window from `o` to `n` shifts.
pub open spec fn shift_count(o: int, n: int) -> int {
    if o < n {
        n - o
    } else {
        o - n
    }
}

/// Where the window now at `q` was before the move from `o` to `n`.
pub open spec fn shifted_from(o: int, n: int, q: int) -> int {
    if o < n {
        q + 1
    } else {
        q - 1
    }
}

/// Some live window other than `id` holds the focus.
pub open spec fn other_focused(reg: Registry, id: WindowId) -> bool {
    exists|w: WindowId| #[trigger] reg.live(w) && w != id && reg.record(w).is_focused
}

pub proof fn lemma_shift_event_stable(
    a: Registry,
    b: Registry,
    e: RegistryEvent,
    target: WindowId,
    q: int,
    from: int,
)
    requires
        a.same_frame(b),
        forall|i: int| #[trigger] a.occupied(i) ==> b.record_at(i).stack_index == a.record_at(i).stack_index,
        shift_event(a, e, target, q, from),
    ensures
        shift_event(b, e, target, q, from),
{
    a.lemma_frame_live(b);
    if let RegistryEvent::WindowChanged { id: w, changes } = e {
        assert(a.occupied(w.index as int));
    }
}

/// `s` without any occurrence of `x`.
pub open spec fn without_all(s: Seq<WindowId>, x: WindowId) -> Seq<WindowId>
    decreases s.len(),
{
    if s.len() == 0 {
        s
    } else {
        let p = without_all(s.drop_last(), x);
        if s.last() == x {
            p
        } else {
            p.push(s.last())
        }
    }
}

/// `b` is `a` with possibly another stack index.
pub open spec fn same_but_stack(a: WindowRecord, b: WindowRecord) -> bool {
    b == WindowRecord { stack_index: b.stack_index, ..a }
}

/// `b` is `a` with possibly another focus flag.
pub open spec fn same_but_focus(a: WindowRecord, b: WindowRecord) -> bool {
    b == WindowRecord { is_focused: b.is_focused, ..a }
}

/// `b` is `a` with possibly another parent and children list.
pub open spec fn same_but_links(a: WindowRecord, b: WindowRecord) -> bool {
    b == WindowRecord { parent_id: b.parent_id, children: b.children, ..a }
}

/// Where a window at stack position `s` ends up when the window at `o`
/// moves to `n`: the windows in between shift by one toward `o`.
pub open spec fn moved_index(s: i32, o: i32, n: i32) -> i32 {
    if o < n && o < s && s <= n {
        (s - 1) as i32
    } else if n < o && n <= s && s < o {
        (s + 1) as i32
    } else {
        s
    }
}

impl Registry {
    /// The same windows are live at the same indices, under the same keys.
    pub open spec fn same_frame(self, post: Registry) -> bool {
        &&& post.slots@.len() == self.slots@.len()
        &&& post.free == self.free
        &&& post.desktop_map == self.desktop_map
        &&& post.surface_map == self.surface_map
        &&& forall|i: int| 0 <= i < self.slots@.len() ==> (#[trigger] post.slots@[i]).gen == self.slots@[i].gen
            && (post.slots@[i].value is Some) == (self.slots@[i].value is Some)
    }

    pub proof fn lemma_frame_live(self, post: Registry)
        requires
            self.same_frame(post),
        ensures
            forall|w: WindowId| #[trigger] post.live(w) == self.live(w),
            forall|i: int| #[trigger] post.occupied(i) == self.occupied(i),
            forall|i: int| 0 <= i < self.slots@.len() ==> #[trigger] post.id_at(i) == self.id_at(i),
            post.live_count_spec() == self.live_count_spec(),
            self.wf() ==> post.wf(),
    {
        assert forall|i: int| 0 <= i < post.slots@.len() implies (#[trigger] post.slots@[i].value is Some)
            == (self.slots@[i].value is Some) by {}
        lemma_count_same_occupancy(post.slots@, self.slots@);
        assert forall|w: WindowId| #[trigger] post.live(w) == self.live(w) by {
            if 0 <= w.index < self.slots@.len() {
                assert(post.slots@[w.index as int].gen == self.slots@[w.index as int].gen);
            }
        }
        assert forall|i: int| #[trigger] post.occupied(i) == self.occupied(i) by {
            if 0 <= i < self.slots@.len() {
                assert(post.slots@[i].gen == self.slots@[i].gen);
            }
        }
        if self.wf() {
            assert forall|i: int| 0 <= i < post.slots@.len() implies #[trigger] post.slots@[i].gen != 0 by {
                assert(self.slots@[i].gen != 0);
            }
            assert forall|j: int| 0 <= j < post.free@.len() implies (
            #[trigger] post.free@[j] as int) < post.slots@.len()
                && post.slots@[post.free@[j] as int].value is None by {
                assert(self.slots@[self.free@[j] as int].value is None);
            }
        }
    }

    /// The live window, other than `exclude`, that holds the focus.
    pub fn find_focused(&self, exclude: WindowId) -> (r: Option<WindowId>)
        requires
            self.coherent(),
        ensures
            r is Some ==> self.live(r->0) && r->0 != exclude && self.record(r->0).is_focused,
            r is None ==> forall|i: int| #[trigger]
                self.occupied(i) && self.id_at(i) != exclude ==> !self.record_at(i).is_focused,
    {
        let mut i: usize = 0;
        while i < self.slots.len()
            invariant
                i <= self.slots@.len(),
                self.coherent(),
                forall|j: int| #[trigger]
                    self.occupied(j) && j < i && self.id_at(j) != exclude ==> !self.record_at(j).is_focused,
            decreases self.slots@.len() - i,
        {
            match &self.slots[i].value {
                Some(rec) => {
                    if rec.id != exclude && rec.is_focused {
                        proof {
                            assert(self.occupied(i as int));
                        }
                        return Some(rec.id);
                    }
                    proof {
                        assert(self.occupied(i as int));
                    }
                },
                None => {},
            }
            i += 1;
        }
        None
    }

    /// Clears the focus of every live window but `id`; at most one event.
    pub fn clear_other_focus(&mut self, id: WindowId) -> (events: Vec<RegistryEvent>)
        requires
            old(self).coherent(),
            old(self).live(id),
        ensures
            final(self).coherent(),
            old(self).same_frame(*final(self)),
            forall|i: int| #[trigger] old(self).occupied(i) ==> same_but_focus(
                old(self).record_at(i),
                final(self).record_at(i),
            ),
            final(self).record(id) == old(self).record(id),
            final(self).parent_fn() == old(self).parent_fn(),
            forall|i: int| #[trigger]
                final(self).occupied(i) && i != id.index ==> !final(self).record_at(i).is_focused,
            (forall|i: int| #[trigger]
                old(self).occupied(i) && i != id.index ==> !old(self).record_at(i).is_focused)
                ==> *final(self) == *old(self) && events@.len() == 0,
            events@.len() <= 1,
            forall|w: WindowId| #[trigger] old(self).live(w) && w != id && old(self).record(w).is_focused
                ==> events@.len() >= 1 && events@[0] == (RegistryEvent::WindowChanged {
                    id: w,
                    changes: focus_change(true, false),
                }),
    {
        let ghost pre = *self;
        match self.find_focused(id) {
            None => {
                proof {
                    assert forall|w: WindowId| #[trigger] pre.live(w) && w != id implies !pre.record(w).is_focused by {
                        assert(pre.occupied(w.index as int));
                        assert(pre.id_at(w.index as int) == w);
                    }
                    assert forall|i: int| #[trigger]
                        self.occupied(i) && i != id.index implies !self.record_at(i).is_focused by {
                        assert(self.id_at(i) != id);
                    }
                    self.lemma_frame_live(*self);
                }
                Vec::new()
            },
            Some(other) => {
                let rec = self.record_mut(other);
                rec.is_focused = false;
                proof {
                    pre.lemma_same_shape(*self, other);
                    assert forall|i: int| 0 <= i < pre.slots@.len() implies (#[trigger] self.slots@[i]).gen
                        == pre.slots@[i].gen && (self.slots@[i].value is Some) == (
                    pre.slots@[i].value is Some) by {}
                    pre.lemma_frame_live(*self);
                    assert forall|i: int| #[trigger]
                        self.occupied(i) && i != id.index implies !self.record_at(i).is_focused by {
                        if i != other.index {
                            assert(pre.occupied(i));
                            assert(pre.occupied(other.index as int));
                        }
                    }
                    assert forall|i: int| #[trigger] pre.occupied(i) implies same_but_focus(
                        pre.record_at(i),
                        self.record_at(i),
                    ) by {}
                    assert(other.index != id.index);
                    assert(pre.occupied(other.index as int));
                }
                proof {
                    pre.lemma_same_parents(*self);
                }
                let mut changes = WindowChanges::none();
                changes.is_focused = Some(WindowChange { old: true, new: false });
                proof {
                    assert(changes == focus_change(true, false));
                    assert forall|w: WindowId| #[trigger] pre.live(w) && w != id && pre.record(w).is_focused
                        implies w == other by {
                        assert(pre.occupied(w.index as int));
                        assert(pre.occupied(other.index as int));
                    }
                }
                vec![RegistryEvent::WindowChanged { id: other, changes }]
            },
        }
    }

    /// The live window at stack position `q`.
    pub fn window_at(&self, q: i32) -> (w: WindowId)
        requires
            self.coherent(),
            0 <= q < self.live_count_spec(),
        ensures
            self.live(w),
            self.record(w).stack_index == q,
    {
        proof {
            lemma_stacking_is_dense(*self);
            assert(set_int_range(0, self.live_count_spec() as int).contains(q as int));
            assert(self.stack_positions().contains(q as int));
        }
        let mut i: usize = 0;
        while i < self.slots.len()
            invariant
                self.coherent(),
                0 <= q < self.live_count_spec(),
                self.stack_positions().contains(q as int),
                i <= self.slots@.len(),
                forall|j: int| #[trigger] self.occupied(j) && j < i ==> self.record_at(j).stack_index != q,
            decreases self.slots@.len() - i,
        {
            match &self.slots[i].value {
                Some(rec) => {
                    if rec.stack_index == q {
                        proof {
                            assert(self.occupied(i as int));
                        }
                        return rec.id;
                    }
                    proof {
                        assert(self.occupied(i as int));
                    }
                },
                None => {},
            }
            i += 1;
        }
        proof {
            let j = choose|j: int|
                occupied_below(self.slots@, self.slots@.len() as int).contains(j) && self.record_at(j).stack_index as int == q as int;
            assert(self.occupied(j));
        }
        WindowId { index: 0, gen: 1 }
    }

    /// Moves `id` to stack position `new_index`; the windows in between shift
    /// by one. One event per shifted window, ordered by previous position.
    pub fn move_stack(&mut self, id: WindowId, new_index: i32) -> (events: Vec<RegistryEvent>)
        requires
            old(self).coherent(),
            old(self).live(id),
            0 <= new_index < old(self).live_count_spec(),
            new_index != old(self).record(id).stack_index,
        ensures
            final(self).coherent(),
            old(self).same_frame(*final(self)),
            final(self).parent_fn() == old(self).parent_fn(),
            forall|i: int| #[trigger] old(self).occupied(i) ==> same_but_stack(
                old(self).record_at(i),
                final(self).record_at(i),
            ) && final(self).record_at(i).stack_index == if i == id.index {
                new_index
            } else {
                moved_index(old(self).record_at(i).stack_index, old(self).record(id).stack_index, new_index)
            },
            ({
                let o = old(self).record(id).stack_index as int;
                let n = new_index as int;
                &&& events@.len() == shift_count(o, n)
                &&& forall|k: int| 0 <= k < events@.len() ==> shift_event(
                    *final(self),
                    #[trigger] events@[k],
                    id,
                    first_shifted(o, n) + k,
                    shifted_from(o, n, first_shifted(o, n) + k),
                )
            }),
    {
        let ghost pre = *self;
        let cur = match self.get(id) {
            Some(rec) => rec.stack_index,
            None => 0,
        };
        let mut i: usize = 0;
        while i < self.slots.len()
            invariant
                pre.coherent(),
                pre.live(id),
                cur == pre.record(id).stack_index,
                0 <= new_index < pre.live_count_spec(),
                pre.same_frame(*self),
                i <= self.slots@.len(),
                forall|j: int| 0 <= j < self.slots@.len() && (j >= i || j == id.index) ==> #[trigger] self.slots@[j] == pre.slots@[j],
                forall|j: int| #[trigger] pre.occupied(j) && j < i && j != id.index ==> same_but_stack(
                    pre.record_at(j),
                    self.record_at(j),
                ) && self.record_at(j).stack_index == moved_index(pre.record_at(j).stack_index, cur, new_index),
            decreases self.slots@.len() - i,
        {
            let ghost before = *self;
            if i != id.index as usize {
                let slot = &mut self.slots[i];
                match &mut slot.value {
                    Some(other) => {
                        let idx = other.stack_index;
                        proof {
                            assert(pre.occupied(i as int));
                            assert(0 <= idx < pre.live_count_spec());
                        }
                        if cur < new_index && idx > cur && idx <= new_index {
                            other.stack_index = idx - 1;
                        } else if new_index < cur && idx >= new_index && idx < cur {
                            other.stack_index = idx + 1;
                        }
                    },
                    None => {},
                }
            }
            proof {
                assert forall|j: int| 0 <= j < pre.slots@.len() implies (#[trigger] self.slots@[j]).gen
                    == pre.slots@[j].gen && (self.slots@[j].value is Some) == (
                pre.slots@[j].value is Some) by {
                    if j != i {
                        assert(self.slots@[j] == before.slots@[j]);
                    }
                }
                assert forall|j: int| #[trigger] pre.occupied(j) && j < i + 1 && j != id.index implies same_but_stack(
                    pre.record_at(j),
                    self.record_at(j),
                ) && self.record_at(j).stack_index == moved_index(pre.record_at(j).stack_index, cur, new_index) by {
                    if j != i {
                        assert(self.slots@[j] == before.slots@[j]);
                    }
                }
            }
            i += 1;
        }
        let target = self.record_mut(id);
        target.stack_index = new_index;
        proof {
            assert forall|j: int| 0 <= j < pre.slots@.len() implies (#[trigger] self.slots@[j]).gen
                == pre.slots@[j].gen && (self.slots@[j].value is Some) == (
            pre.slots@[j].value is Some) by {}
            pre.lemma_frame_live(*self);
            assert forall|j: int| #[trigger] pre.occupied(j) implies same_but_stack(
                pre.record_at(j),
                self.record_at(j),
            ) && self.record_at(j).stack_index == if j == id.index {
                new_index
            } else {
                moved_index(pre.record_at(j).stack_index, cur, new_index)
            } by {}
            pre.lemma_move_coherent(*self, id, new_index);
            pre.lemma_same_parents(*self);
        }
        proof {
            lemma_count_bound(pre.slots@);
        }
        let up = cur < new_index;
        let lo: i32 = if up {
            cur
        } else {
            new_index + 1
        };
        let hi: i32 = if up {
            new_index
        } else {
            cur + 1
        };
        let mut events: Vec<RegistryEvent> = Vec::new();
        let mut q: i32 = lo;
        while q < hi
            invariant
                self.coherent(),
                pre.coherent(),
                pre.live(id),
                self.live(id),
                self.record(id).stack_index == new_index,
                cur == pre.record(id).stack_index,
                self.live_count_spec() == pre.live_count_spec(),
                0 <= new_index < pre.live_count_spec(),
                0 <= cur < pre.live_count_spec(),
                up == (cur < new_index),
                lo as int == if up { cur as int } else { new_index + 1 },
                hi as int == if up { new_index as int } else { cur + 1 },
                lo <= q <= hi,
                events@.len() == q - lo,
                forall|k: int| 0 <= k < events@.len() ==> shift_event(
                    *self,
                    #[trigger] events@[k],
                    id,
                    first_shifted(cur as int, new_index as int) + k,
                    shifted_from(cur as int, new_index as int, first_shifted(cur as int, new_index as int) + k),
                ),
            decreases hi - q,
        {
            let w = self.window_at(q);
            let old_index = if up {
                q + 1
            } else {
                q - 1
            };
            let mut changes = WindowChanges::none();
            changes.stack_index = Some(WindowChange { old: old_index, new: q });
            proof {
                assert(changes == stack_change(old_index, q));
                assert(w != id);
            }
            events.push(RegistryEvent::WindowChanged { id: w, changes });
            q += 1;
        }
        events
    }

    proof fn lemma_move_coherent(self, post: Registry, id: WindowId, n: i32)
        requires
            self.coherent(),
            self.live(id),
            0 <= n < self.live_count_spec(),
            self.same_frame(post),
            forall|i: int| #[trigger] self.occupied(i) ==> same_but_stack(
                self.record_at(i),
                post.record_at(i),
            ) && post.record_at(i).stack_index == if i == id.index {
                n
            } else {
                moved_index(self.record_at(i).stack_index, self.record(id).stack_index, n)
            },
        ensures
            post.coherent(),
    {
        self.lemma_frame_live(post);
        let o = self.record(id).stack_index;
        assert(self.occupied(id.index as int));
        assert(post.keys_coherent()) by {
            assert forall|a: usize| #[trigger] post.desktop_map@.contains_key(a) implies post.live(
                post.desktop_map@[a],
            ) && post.record(post.desktop_map@[a]).dk.0 == a by {
                assert(self.occupied(self.desktop_map@[a].index as int));
            }
            assert forall|a: usize| #[trigger] post.surface_map@.contains_key(a) implies post.live(
                post.surface_map@[a],
            ) && post.record(post.surface_map@[a]).sk.0 == a by {
                assert(self.occupied(self.surface_map@[a].index as int));
            }
        }
        assert(post.stacking_dense()) by {
            assert forall|i: int| #[trigger] post.occupied(i) implies 0 <= post.record_at(
                i,
            ).stack_index < post.live_count_spec() by {
                assert(self.occupied(i));
            }
            assert forall|i: int, j: int|
                #[trigger] post.occupied(i) && #[trigger] post.occupied(j) && i != j implies post.record_at(
                i,
            ).stack_index != post.record_at(j).stack_index by {
                assert(self.occupied(i));
                assert(self.occupied(j));
                if i != id.index {
                    assert(self.record_at(i).stack_index != o);
                }
                if j != id.index {
                    assert(self.record_at(j).stack_index != o);
                }
            }
        }
        assert(post.focus_exclusive()) by {
            assert forall|i: int, j: int|
                #[trigger] post.occupied(i) && #[trigger] post.occupied(j) && i != j implies !(
                post.record_at(i).is_focused && post.record_at(j).is_focused) by {
                assert(self.occupied(i));
                assert(self.occupied(j));
            }
        }
        assert(post.attrs_valid()) by {
            assert forall|i: int| #[trigger] post.occupied(i) implies post.record_at(i).attrs_valid() by {
                assert(self.occupied(i));
            }
        }
        assert(only_cuts(self.parent_fn(), post.parent_fn())) by {
            assert forall|w: WindowId| #[trigger]
                post.parent_fn()(w) == self.parent_fn()(w) || post.parent_fn()(w) is None by {
                if post.live(w) {
                    assert(self.occupied(w.index as int));
                }
            }
        }
        lemma_acyclic_cut(self.parent_fn(), post.parent_fn());
    }


    /// With the same live windows and the same parents, the parent relation
    /// is the same.
    pub proof fn lemma_same_parents(self, post: Registry)
        requires
            self.same_frame(post),
            forall|i: int| #[trigger] self.occupied(i) ==> post.record_at(i).parent_id
                == self.record_at(i).parent_id,
        ensures
            post.parent_fn() == self.parent_fn(),
    {
        self.lemma_frame_live(post);
        assert forall|w: WindowId| #[trigger] post.parent_fn()(w) == self.parent_fn()(w) by {
            if self.live(w) {
                assert(self.occupied(w.index as int));
            }
        }
        assert(post.parent_fn() =~= self.parent_fn());
    }

    /// Changing children lists, and the parent of at most `c` so that no
    /// chain closes on itself, keeps the registry coherent.
    pub proof fn lemma_links_coherent(self, post: Registry, c: WindowId)
        requires
            self.coherent(),
            self.live(c),
            self.same_frame(post),
            forall|i: int| #[trigger] self.occupied(i) ==> same_but_links(
                self.record_at(i),
                post.record_at(i),
            ),
            forall|i: int| #[trigger] self.occupied(i) && i != c.index ==> post.record_at(i).parent_id
                == self.record_at(i).parent_id,
            post.parent_fn()(c) is None || post.parent_fn()(c) == self.parent_fn()(c) || !on_chain(
                self.parent_fn(),
                post.parent_fn()(c),
                c,
            ),
        ensures
            post.coherent(),
    {
        self.lemma_frame_live(post);
        assert(post.keys_coherent()) by {
            assert forall|a: usize| #[trigger] post.desktop_map@.contains_key(a) implies post.live(
                post.desktop_map@[a],
            ) && post.record(post.desktop_map@[a]).dk.0 == a by {
                assert(self.occupied(self.desktop_map@[a].index as int));
            }
            assert forall|a: usize| #[trigger] post.surface_map@.contains_key(a) implies post.live(
                post.surface_map@[a],
            ) && post.record(post.surface_map@[a]).sk.0 == a by {
                assert(self.occupied(self.surface_map@[a].index as int));
            }
        }
        assert(post.stacking_dense()) by {
            assert forall|i: int| #[trigger] post.occupied(i) implies 0 <= post.record_at(
                i,
            ).stack_index < post.live_count_spec() by {
                assert(self.occupied(i));
            }
            assert forall|i: int, j: int|
                #[trigger] post.occupied(i) && #[trigger] post.occupied(j) && i != j implies post.record_at(
                i,
            ).stack_index != post.record_at(j).stack_index by {
                assert(self.occupied(i));
                assert(self.occupied(j));
            }
        }
        assert(post.focus_exclusive()) by {
            assert forall|i: int, j: int|
                #[trigger] post.occupied(i) && #[trigger] post.occupied(j) && i != j implies !(
                post.record_at(i).is_focused && post.record_at(j).is_focused) by {
                assert(self.occupied(i));
                assert(self.occupied(j));
            }
        }
        assert(post.attrs_valid()) by {
            assert forall|i: int| #[trigger] post.occupied(i) implies post.record_at(i).attrs_valid() by {
                assert(self.occupied(i));
            }
        }
        let pf1 = self.parent_fn();
        let pf2 = post.parent_fn();
        assert(agree_except(pf1, pf2, c)) by {
            assert forall|w: WindowId| w != c implies #[trigger] pf2(w) == pf1(w) by {
                if self.live(w) {
                    assert(self.occupied(w.index as int));
                }
            }
        }
        if pf2(c) is None || pf2(c) == pf1(c) {
            assert(only_cuts(pf1, pf2)) by {
                assert forall|w: WindowId| #[trigger] pf2(w) == pf1(w) || pf2(w) is None by {
                    if w != c {
                        assert(pf2(w) == pf1(w));
                    }
                }
            }
            lemma_acyclic_cut(pf1, pf2);
        } else {
            lemma_acyclic_link(pf1, pf2, c, pf2(c)->0);
        }
    }

    /// Adds `x` to the children list of the live window `p` if absent
    /// (`add`), or removes it (`!add`); returns the old and new lists when
    /// they differ.
    pub(crate) fn edit_children(&mut self, p: WindowId, x: WindowId, add: bool) -> (r: Option<
        (Vec<WindowId>, Vec<WindowId>),
    >)
        requires
            old(self).coherent(),
            old(self).live(p),
        ensures
            final(self).coherent(),
            old(self).same_frame(*final(self)),
            forall|i: int| #[trigger] old(self).occupied(i) ==> same_but_links(
                old(self).record_at(i),
                final(self).record_at(i),
            ) && final(self).record_at(i).parent_id == old(self).record_at(i).parent_id,
            forall|i: int| #[trigger] old(self).occupied(i) && i != p.index ==> final(self).record_at(i)
                == old(self).record_at(i),
            final(self).parent_fn() == old(self).parent_fn(),
            r is None ==> final(self).record(p).children@ == old(self).record(p).children@,
            r is Some ==> r.unwrap().0@ == old(self).record(p).children@,
            r is Some ==> r.unwrap().1@ == final(self).record(p).children@,
            r is Some <==> add != old(self).record(p).children@.contains(x),
            r is Some ==> final(self).record(p).children@ == if add {
                old(self).record(p).children@.push(x)
            } else {
                without_all(old(self).record(p).children@, x)
            },
    {
        let ghost pre = *self;
        let rec = self.record_mut(p);
        let before = copy_ids(&rec.children);
        let mut after: Vec<WindowId> = Vec::new();
        let mut found = false;
        let mut i: usize = 0;
        while i < before.len()
            invariant
                i <= before@.len(),
                add ==> after@ == before@.subrange(0, i as int),
                !add ==> after@ == without_all(before@.subrange(0, i as int), x),
                found == before@.subrange(0, i as int).contains(x),
            decreases before@.len() - i,
        {
            proof {
                let t = before@.subrange(0, i + 1);
                assert(t.drop_last() =~= before@.subrange(0, i as int));
                assert(t.last() == before@[i as int]);
                if t.contains(x) && before@[i as int] != x {
                    let j = choose|j: int| 0 <= j < t.len() && t[j] == x;
                    assert(before@.subrange(0, i as int)[j] == x);
                }
                if before@.subrange(0, i as int).contains(x) {
                    let j = choose|j: int| 0 <= j < i && before@.subrange(0, i as int)[j] == x;
                    assert(t[j] == x);
                }
                if before@[i as int] == x {
                    assert(t[i as int] == x);
                }
            }
            if before[i] == x {
                found = true;
                if add {
                    after.push(before[i]);
                }
            } else {
                after.push(before[i]);
            }
            i += 1;
        }
        proof {
            assert(before@.subrange(0, i as int) =~= before@);
        }
        if add && !found {
            after.push(x);
        }
        let changed = found != add;
        if changed {
            rec.children = copy_ids(&after);
        }
        proof {
            assert forall|j: int| 0 <= j < pre.slots@.len() implies (#[trigger] self.slots@[j]).gen
                == pre.slots@[j].gen && (self.slots@[j].value is Some) == (
            pre.slots@[j].value is Some) by {}
            pre.lemma_frame_live(*self);
            assert(pre.occupied(p.index as int));
            assert forall|i: int| #[trigger] pre.occupied(i) implies same_but_links(
                pre.record_at(i),
                self.record_at(i),
            ) && self.record_at(i).parent_id == pre.record_at(i).parent_id by {}
            pre.lemma_links_coherent(*self, p);
            pre.lemma_same_parents(*self);
        }
        if changed {
            Some((before, after))
        } else {
            None
        }
    }

    /// Sets the parent of the live window `c`.
    pub(crate) fn set_parent(&mut self, c: WindowId, parent: Option<WindowId>)
        requires
            old(self).coherent(),
            old(self).live(c),
            parent is None || parent == old(self).record(c).parent_id || (old(self).live(parent->0)
                && !on_chain(old(self).parent_fn(), parent, c)),
        ensures
            final(self).coherent(),
            old(self).same_frame(*final(self)),
            forall|i: int| #[trigger] old(self).occupied(i) && i != c.index ==> final(self).record_at(i)
                == old(self).record_at(i),
            final(self).record(c) == (WindowRecord { parent_id: parent, ..old(self).record(c) }),
            agree_except(old(self).parent_fn(), final(self).parent_fn(), c),
            final(self).parent_fn()(c) == parent,
    {
        let ghost pre = *self;
        let rec = self.record_mut(c);
        rec.parent_id = parent;
        proof {
            assert forall|j: int| 0 <= j < pre.slots@.len() implies (#[trigger] self.slots@[j]).gen
                == pre.slots@[j].gen && (self.slots@[j].value is Some) == (
            pre.slots@[j].value is Some) by {}
            pre.lemma_frame_live(*self);
            assert(pre.occupied(c.index as int));
            assert forall|i: int| #[trigger] pre.occupied(i) implies same_but_links(
                pre.record_at(i),
                self.record_at(i),
            ) by {}
            assert(self.live(c));
            pre.lemma_links_coherent(*self, c);
            assert forall|w: WindowId| w != c implies #[trigger] self.parent_fn()(w) == pre.parent_fn()(w) by {
                if pre.live(w) {
                    assert(pre.occupied(w.index as int));
                }
            }
        }
    }

}

} // verus!
