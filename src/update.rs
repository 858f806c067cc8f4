use vstd::prelude::*;
use crate::error::RegistryError;
use crate::events::{RegistryEvent, WindowChange, WindowChanges};
use crate::hierarchy::{
    acyclic, agree_except, chain_ends, ends, lemma_acyclic_no_return, lemma_cut_off_chain,
    lemma_nth_add, lemma_nth_none, lemma_off_chain_stable, lemma_on_chain_unfold, nth_ancestor,
    on_chain, only_cuts,
};
use crate::ids::WindowId;
use crate::model::{
    copy_ids, copy_text, same_text, text_of, OutputId, WindowGeometry, WindowRecord, WindowState,
    WindowUpdate, WorkspaceId,
};
use crate::phases::{
    moved_index, without_all,
    first_shifted, focus_change, lemma_shift_event_stable, other_focused, same_but_links,
    same_but_stack, shift_count, shift_event, shifted_from,
};
use crate::registry::Registry;

verus! {

/// Why a geometry is refused, if it is: negative extent, or an edge past `i32::MAX`.
pub open spec fn geometry_error(id: WindowId, g: WindowGeometry) -> Option<RegistryError> {
    if g.width < 0 || g.height < 0 {
        Some(RegistryError::InvalidGeometry { id, geometry: g })
    } else if !g.is_valid() {
        Some(RegistryError::GeometryOverflow { id, geometry: g })
    } else {
        None
    }
}

/// Whether `v` holds `x`.
pub fn ids_contain(v: &Vec<WindowId>, x: WindowId) -> (r: bool)
    ensures
        r == v@.contains(x),
{
    let mut i: usize = 0;
    while i < v.len()
        invariant
            i <= v@.len(),
            forall|j: int| 0 <= j < i ==> v@[j] != x,
        decreases v@.len() - i,
    {
        if v[i] == x {
            proof {
                assert(v@[i as int] == x);
            }
            return true;
        }
        i += 1;
    }
    false
}

/// Whether two id lists are equal.
pub fn ids_equal(a: &Vec<WindowId>, b: &Vec<WindowId>) -> (r: bool)
    ensures
        r == (a@ == b@),
{
    if a.len() != b.len() {
        return false;
    }
    let mut i: usize = 0;
    while i < a.len()
        invariant
            a@.len() == b@.len(),
            i <= a@.len(),
            forall|j: int| 0 <= j < i ==> a@[j] == b@[j],
        decreases a@.len() - i,
    {
        if a[i] != b[i] {
            return false;
        }
        i += 1;
    }
    assert(a@ =~= b@);
    true
}

/// `s` without its first occurrence of `x`, if any.
pub open spec fn without_first(s: Seq<WindowId>, x: WindowId) -> Seq<WindowId>
    decreases s.len(),
{
    if s.len() == 0 {
        s
    } else if s[0] == x {
        s.drop_first()
    } else {
        seq![s[0]] + without_first(s.drop_first(), x)
    }
}

/// `s` after detaching the first `k` children `r` names, one occurrence each.
pub open spec fn detached(s: Seq<WindowId>, r: Seq<WindowId>, k: int) -> Seq<WindowId>
    decreases k,
{
    if k <= 0 {
        s
    } else {
        without_first(detached(s, r, k - 1), r[k - 1])
    }
}

/// `s` after appending each of the first `k` children `a` names that it lacks.
pub open spec fn attached(s: Seq<WindowId>, a: Seq<WindowId>, k: int) -> Seq<WindowId>
    decreases k,
{
    if k <= 0 {
        s
    } else {
        let t = attached(s, a, k - 1);
        if t.contains(a[k - 1]) {
            t
        } else {
            t.push(a[k - 1])
        }
    }
}

/// The children list `update_window(_, u)` leaves on a window whose list was `s`.
pub open spec fn children_after(s: Seq<WindowId>, u: WindowUpdate) -> Seq<WindowId> {
    attached(
        detached(s, u.remove_children@, u.remove_children@.len() as int),
        u.add_children@,
        u.add_children@.len() as int,
    )
}

proof fn lemma_without_first(s: Seq<WindowId>, x: WindowId, pos: int)
    requires
        0 <= pos <= s.len(),
        forall|j: int| 0 <= j < pos ==> s[j] != x,
        pos < s.len() ==> s[pos] == x,
    ensures
        without_first(s, x) == if pos < s.len() {
            s.remove(pos)
        } else {
            s
        },
    decreases s.len(),
{
    if s.len() > 0 {
        if pos == 0 {
            if s.len() > 0 && pos < s.len() {
                assert(s.drop_first() =~= s.remove(0));
            }
        } else {
            lemma_without_first(s.drop_first(), x, pos - 1);
            if pos < s.len() {
                assert(seq![s[0]] + s.drop_first().remove(pos - 1) =~= s.remove(pos));
            } else {
                assert(seq![s[0]] + s.drop_first() =~= s);
            }
        }
    }
}

/// A change set with no field set.
pub open spec fn no_changes() -> WindowChanges {
    WindowChanges {
        lifecycle: None,
        geometry: None,
        state: None,
        is_focused: None,
        workspace: None,
        output: None,
        stack_index: None,
        parent_id: None,
        children: None,
        title: None,
        app_id: None,
    }
}

/// `e` reports that the children list of `w` went from `old` to `new`, and nothing else.
pub open spec fn children_event(e: RegistryEvent, w: WindowId, old: Seq<WindowId>, new: Seq<WindowId>) -> bool {
    match e {
        RegistryEvent::WindowChanged { id: x, changes } => x == w && changes.children is Some
            && changes.children->0.old@ == old && changes.children->0.new@ == new && changes == (
        WindowChanges { children: changes.children, ..no_changes() }),
        _ => false,
    }
}

/// The old parent of `id` lists it, so moving `id` changes that list.
pub open spec fn leaves_old_parent(reg: Registry, id: WindowId) -> bool {
    let op = reg.record(id).parent_id;
    op is Some && reg.live(op->0) && reg.record(op->0).children@.contains(id)
}

/// The new parent `next` does not list `id` yet, so moving `id` changes that list.
pub open spec fn joins_new_parent(reg: Registry, id: WindowId, next: Option<WindowId>) -> bool {
    next is Some && !reg.record(next->0).children@.contains(id)
}

/// How many events moving `id` under `next` emits.
pub open spec fn reparent_count(reg: Registry, id: WindowId, next: Option<WindowId>) -> int {
    (if leaves_old_parent(reg, id) { 1int } else { 0int }) + (if joins_new_parent(reg, id, next) {
        1int
    } else {
        0int
    })
}

/// `evs` are the events of moving `id` under `next`: the old parent's
/// children list losing `id`, then the new parent's gaining it, each only
/// when it changes.
pub open spec fn reports_reparent(reg: Registry, id: WindowId, next: Option<WindowId>, evs: Seq<RegistryEvent>) -> bool {
    let op = reg.record(id).parent_id;
    let first = if leaves_old_parent(reg, id) { 1int } else { 0int };
    &&& evs.len() == reparent_count(reg, id, next)
    &&& leaves_old_parent(reg, id) ==> children_event(
        evs[0],
        op->0,
        reg.record(op->0).children@,
        without_all(reg.record(op->0).children@, id),
    )
    &&& joins_new_parent(reg, id, next) ==> children_event(
        evs[first],
        next->0,
        reg.record(next->0).children@,
        reg.record(next->0).children@.push(id),
    )
}

/// How many stacking events `update_window(id, u)` emits.
pub open spec fn shift_events_count(reg: Registry, id: WindowId, u: WindowUpdate) -> int {
    if field_change(u.stack_index, reg.record(id).stack_index) is Some {
        shift_count(reg.record(id).stack_index as int, u.stack_index->0 as int)
    } else {
        0
    }
}

/// How many parent-change events `update_window(id, u)` emits.
pub open spec fn reparent_events_count(reg: Registry, id: WindowId, u: WindowUpdate) -> int {
    if field_change(u.parent_id, reg.record(id).parent_id) is Some {
        reparent_count(reg, id, reg.next_parent(id, u))
    } else {
        0
    }
}

/// The stack index a window at `s` has after an update `u` of a window at `o`.
pub open spec fn stack_after(o: i32, u: WindowUpdate, s: i32) -> i32 {
    match field_change(u.stack_index, o) {
        Some(_) => moved_index(s, o, u.stack_index->0),
        None => s,
    }
}

/// `u` gives the focus to a window that did not have it.
pub open spec fn takes_focus(o: WindowRecord, u: WindowUpdate) -> bool {
    u.is_focused == Some(true) && !o.is_focused
}

/// Every other window of `pre` is in `post` as it was, but for the stacking
/// shift, losing the focus when `id` takes it, and, only where it is the old
/// or new parent or a listed child, its parent and children.
pub open spec fn others_after_update(pre: Registry, post: Registry, id: WindowId, u: WindowUpdate) -> bool {
    forall|i: int| #[trigger] pre.occupied(i) && i != id.index ==> {
        let r = pre.record_at(i);
        let n = post.record_at(i);
        &&& n == (WindowRecord {
            stack_index: stack_after(pre.record(id).stack_index, u, r.stack_index),
            is_focused: r.is_focused && !takes_focus(pre.record(id), u),
            parent_id: n.parent_id,
            children: n.children,
            ..r
        })
        &&& !link_touched(pre, id, u, pre.id_at(i)) ==> n.parent_id == r.parent_id && n.children
            == r.children
    }
}

/// `w` is a window whose parent or children `update_window(id, u)` may
/// change besides `id` itself: the old or new parent, or a listed child.
pub open spec fn link_touched(reg: Registry, id: WindowId, u: WindowUpdate, w: WindowId) -> bool {
    ||| Some(w) == reg.record(id).parent_id
    ||| Some(w) == reg.next_parent(id, u)
    ||| u.add_children@.contains(w)
    ||| u.remove_children@.contains(w)
}

/// The change a requested value makes to a field, if it differs.
pub open spec fn field_change<T>(requested: Option<T>, current: T) -> Option<WindowChange<T>> {
    match requested {
        Some(v) => if v != current {
            Some(WindowChange { old: current, new: v })
        } else {
            None
        },
        None => None,
    }
}

/// The change a requested text makes, if its characters differ.
pub open spec fn text_change(requested: Option<Option<String>>, current: Option<String>) -> Option<
    WindowChange<Option<String>>,
> {
    match requested {
        Some(v) => if text_of(v) != text_of(current) {
            Some(WindowChange { old: current, new: v })
        } else {
            None
        },
        None => None,
    }
}

/// `c` reports exactly the attribute, stacking and parent changes that `u`
/// makes to a window that was `o`.
pub open spec fn reports_own_changes(c: WindowChanges, o: WindowRecord, u: WindowUpdate) -> bool {
    &&& c.lifecycle is None
    &&& c.geometry == field_change(u.geometry, o.geometry)
    &&& c.state == field_change(u.state, o.state)
    &&& c.is_focused == field_change(u.is_focused, o.is_focused)
    &&& c.workspace == field_change(u.workspace, o.workspace)
    &&& c.output == field_change(u.output, o.output)
    &&& c.stack_index == field_change(u.stack_index, o.stack_index)
    &&& c.parent_id == field_change(u.parent_id, o.parent_id)
    &&& c.title == text_change(u.title, o.title)
    &&& c.app_id == text_change(u.app_id, o.app_id)
    &&& (c.children is Some <==> children_after(o.children@, u) != o.children@)
    &&& (c.children is Some ==> c.children->0.old@ == o.children@ && c.children->0.new@
        == children_after(o.children@, u))
}

/// `u` changes some attribute, the stacking or the parent of a window that was `o`.
pub open spec fn changes_own_fields(o: WindowRecord, u: WindowUpdate) -> bool {
    ||| field_change(u.geometry, o.geometry) is Some
    ||| field_change(u.state, o.state) is Some
    ||| field_change(u.is_focused, o.is_focused) is Some
    ||| field_change(u.workspace, o.workspace) is Some
    ||| field_change(u.output, o.output) is Some
    ||| field_change(u.stack_index, o.stack_index) is Some
    ||| field_change(u.parent_id, o.parent_id) is Some
    ||| text_change(u.title, o.title) is Some
    ||| text_change(u.app_id, o.app_id) is Some
    ||| children_after(o.children@, u) != o.children@
}

/// How many events precede the stacking events of `update_window`: one when
/// the focus moves to `id` from another window.
pub open spec fn focus_events(reg: Registry, id: WindowId, u: WindowUpdate) -> int {
    if u.is_focused == Some(true) && !reg.record(id).is_focused && other_focused(reg, id) {
        1
    } else {
        0
    }
}

/// From position `f` on, `events` reports, in stack order, each window that
/// moving `id` from `o` to `n` shifted, as it stands in `reg`.
pub open spec fn reports_shifts(reg: Registry, events: Seq<RegistryEvent>, id: WindowId, f: int, o: int, n: int) -> bool {
    &&& events.len() >= f + shift_count(o, n)
    &&& forall|j: int| f <= j < f + shift_count(o, n) ==> shift_event(
        reg,
        #[trigger] events[j],
        id,
        first_shifted(o, n) + (j - f),
        shifted_from(o, n, first_shifted(o, n) + (j - f)),
    )
}

/// A value the update leaves as it is, or sets to what it already is.
pub open spec fn keeps<T>(requested: Option<T>, current: T) -> bool {
    requested is None || requested == Some(current)
}

impl WindowUpdate {
    /// Every field the update sets already holds the requested value, and it
    /// names no child to add or detach.
    pub open spec fn is_noop_for(self, r: WindowRecord) -> bool {
        &&& keeps(self.geometry, r.geometry)
        &&& keeps(self.state, r.state)
        &&& keeps(self.is_focused, r.is_focused)
        &&& keeps(self.workspace, r.workspace)
        &&& keeps(self.output, r.output)
        &&& keeps(self.stack_index, r.stack_index)
        &&& keeps(self.parent_id, r.parent_id)
        &&& self.add_children@.len() == 0
        &&& self.remove_children@.len() == 0
        &&& (self.title is None || text_of(self.title->0) == text_of(r.title))
        &&& (self.app_id is None || text_of(self.app_id->0) == text_of(r.app_id))
    }
}

impl Registry {
    /// The parent `id` will have once `u` is applied.
    pub open spec fn next_parent(self, id: WindowId, u: WindowUpdate) -> Option<WindowId> {
        match u.parent_id {
            Some(p) => p,
            None => self.record(id).parent_id,
        }
    }

    pub open spec fn next_workspace(self, id: WindowId, u: WindowUpdate) -> Option<WorkspaceId> {
        match u.workspace {
            Some(w) => w,
            None => self.record(id).workspace,
        }
    }

    pub open spec fn next_output(self, id: WindowId, u: WindowUpdate) -> Option<OutputId> {
        match u.output {
            Some(o) => o,
            None => self.record(id).output,
        }
    }

    /// `anc` lies strictly above `start` in the parent chain.
    pub open spec fn is_ancestor_spec(self, start: WindowId, anc: WindowId) -> bool {
        on_chain(self.parent_fn(), self.parent_fn()(start), anc)
    }

    pub open spec fn parent_error(self, id: WindowId, p: WindowId) -> Option<RegistryError> {
        if p == id {
            Some(RegistryError::ParentIsSelf { id })
        } else if !self.live(p) {
            Some(RegistryError::ParentNotFound { id, parent: p })
        } else if self.is_ancestor_spec(p, id) {
            Some(RegistryError::ParentCycle { id, parent: p })
        } else {
            None
        }
    }

    /// Why the `k`-th requested child is refused, if it is.
    pub open spec fn child_error(self, id: WindowId, u: WindowUpdate, k: int) -> Option<RegistryError> {
        let c = u.add_children@[k];
        if c == id {
            Some(RegistryError::ParentIsSelf { id })
        } else if u.add_children@.subrange(0, k).contains(c) {
            Some(RegistryError::ChildAlreadyPresent { id, child: c })
        } else if !self.live(c) {
            Some(RegistryError::ChildNotFound { id, child: c })
        } else if self.record(c).parent_id is Some && self.record(c).parent_id->0 != id {
            Some(
                RegistryError::ChildAlreadyHasParent {
                    id,
                    child: c,
                    existing_parent: self.record(c).parent_id->0,
                },
            )
        } else if on_chain(self.parent_fn(), self.next_parent(id, u), c) {
            Some(RegistryError::ParentCycle { id: c, parent: id })
        } else if self.record(id).children@.contains(c) {
            Some(RegistryError::ChildAlreadyPresent { id, child: c })
        } else {
            None
        }
    }

    /// The first refused child at position `k` or later.
    pub open spec fn add_children_error(self, id: WindowId, u: WindowUpdate, k: int) -> Option<
        RegistryError,
    >
        decreases u.add_children@.len() - k,
    {
        if k < 0 || k >= u.add_children@.len() {
            None
        } else if self.child_error(id, u, k) is Some {
            self.child_error(id, u, k)
        } else {
            self.add_children_error(id, u, k + 1)
        }
    }

    /// The first child to detach, at position `k` or later, that is not live.
    pub open spec fn remove_children_error(self, id: WindowId, u: WindowUpdate, k: int) -> Option<
        RegistryError,
    >
        decreases u.remove_children@.len() - k,
    {
        if k < 0 || k >= u.remove_children@.len() {
            None
        } else if !self.live(u.remove_children@[k]) {
            Some(RegistryError::ChildNotFound { id, child: u.remove_children@[k] })
        } else {
            self.remove_children_error(id, u, k + 1)
        }
    }

    /// The error `update_window(id, u)` returns, checked in order; `None`
    /// when the update is accepted.
    pub open spec fn update_error(self, id: WindowId, u: WindowUpdate) -> Option<RegistryError> {
        if !self.live(id) {
            Some(RegistryError::InvalidWindowId(id))
        } else if u.geometry is Some && u.geometry->0 is Some && geometry_error(
            id,
            u.geometry->0->0,
        ) is Some {
            geometry_error(id, u.geometry->0->0)
        } else if u.state is Some && !u.state->0.is_valid() {
            Some(RegistryError::InvalidState { id, state: u.state->0 })
        } else if (self.next_workspace(id, u) is Some) != (self.next_output(id, u) is Some) {
            Some(
                RegistryError::WorkspaceOutputMismatch {
                    id,
                    workspace: self.next_workspace(id, u),
                    output: self.next_output(id, u),
                },
            )
        } else if u.stack_index is Some && (u.stack_index->0 < 0 || u.stack_index->0
            >= self.live_count_spec()) {
            Some(
                RegistryError::StackIndexOutOfBounds {
                    id,
                    index: u.stack_index->0,
                    count: self.live_count_spec() as usize,
                },
            )
        } else if u.parent_id is Some && u.parent_id->0 is Some && self.parent_error(
            id,
            u.parent_id->0->0,
        ) is Some {
            self.parent_error(id, u.parent_id->0->0)
        } else if self.add_children_error(id, u, 0) is Some {
            self.add_children_error(id, u, 0)
        } else {
            self.remove_children_error(id, u, 0)
        }
    }

    proof fn lemma_add_children_prefix(self, id: WindowId, u: WindowUpdate, k: int)
        requires
            0 <= k <= u.add_children@.len(),
            forall|j: int| 0 <= j < k ==> self.child_error(id, u, j) is None,
        ensures
            self.add_children_error(id, u, 0) == self.add_children_error(id, u, k),
        decreases k,
    {
        if k > 0 {
            self.lemma_add_children_prefix(id, u, k - 1);
        }
    }

    proof fn lemma_remove_children_prefix(self, id: WindowId, u: WindowUpdate, k: int)
        requires
            0 <= k <= u.remove_children@.len(),
            forall|j: int| 0 <= j < k ==> self.live(#[trigger] u.remove_children@[j]),
        ensures
            self.remove_children_error(id, u, 0) == self.remove_children_error(id, u, k),
        decreases k,
    {
        if k > 0 {
            self.lemma_remove_children_prefix(id, u, k - 1);
        }
    }

    /// Whether `c` lies on the parent chain that starts at `start`.
    pub fn chain_contains(&self, start: Option<WindowId>, c: WindowId) -> (r: bool)
        requires
            acyclic(self.parent_fn()),
        ensures
            r == on_chain(self.parent_fn(), start, c),
    {
        let ghost pf = self.parent_fn();
        let ghost mut fuel: nat = 0;
        proof {
            if let Some(w) = start {
                assert(ends(pf, w));
                fuel = choose|k: nat| chain_ends(pf, Some(w), k);
            }
        }
        let ghost mut steps: nat = 0;
        let mut cur = start;
        loop
            invariant
                pf == self.parent_fn(),
                cur == nth_ancestor(pf, start, steps),
                chain_ends(pf, cur, fuel),
                forall|j: nat| j < steps ==> nth_ancestor(pf, start, j) != Some(c),
            decreases fuel,
        {
            match cur {
                None => {
                    proof {
                        assert forall|j: nat| nth_ancestor(pf, start, j) != Some(c) by {
                            if j >= steps {
                                lemma_nth_add(pf, start, steps, (j - steps) as nat);
                                lemma_nth_none(pf, (j - steps) as nat);
                            }
                        }
                    }
                    return false;
                },
                Some(w) => {
                    if w == c {
                        return true;
                    }
                    let next = match self.get(w) {
                        Some(rec) => rec.parent_id,
                        None => None,
                    };
                    proof {
                        lemma_nth_add(pf, start, steps, 1);
                        assert(nth_ancestor(pf, cur, 1) == next) by {
                            assert(nth_ancestor(pf, next, 0) == next);
                        }
                        assert forall|j: nat| j < steps + 1 implies nth_ancestor(pf, start, j) != Some(c) by {
                            if j == steps {
                            }
                        }
                        fuel = (fuel - 1) as nat;
                        steps = steps + 1;
                    }
                    cur = next;
                },
            }
        }
    }

    /// Whether `ancestor` lies strictly above `start` in the parent chain.
    pub fn is_ancestor(&self, start: WindowId, ancestor: WindowId) -> (r: bool)
        requires
            acyclic(self.parent_fn()),
        ensures
            r == self.is_ancestor_spec(start, ancestor),
    {
        let first = match self.get(start) {
            Some(rec) => rec.parent_id,
            None => None,
        };
        self.chain_contains(first, ancestor)
    }

    /// Checks a geometry: non-negative extent, right and bottom edges within `i32`.
    pub fn validate_geometry(&self, id: WindowId, geometry: WindowGeometry) -> (r: Result<
        (),
        RegistryError,
    >)
        ensures
            r is Ok <==> geometry_error(id, geometry) is None,
            r is Err ==> Some(r->Err_0) == geometry_error(id, geometry),
    {
        if geometry.width < 0 || geometry.height < 0 {
            return Err(RegistryError::InvalidGeometry { id, geometry });
        }
        if geometry.x.checked_add(geometry.width).is_none() || geometry.y.checked_add(
            geometry.height,
        ).is_none() {
            return Err(RegistryError::GeometryOverflow { id, geometry });
        }
        Ok(())
    }

    /// Minimized excludes maximized and fullscreen; maximized excludes fullscreen.
    pub fn is_valid_state(state: WindowState) -> (r: bool)
        ensures
            r == state.is_valid(),
    {
        if state.minimized && (state.maximized || state.fullscreen) {
            return false;
        }
        if state.maximized && state.fullscreen {
            return false;
        }
        true
    }

    /// Runs every check of `update_window` without changing anything.
    pub fn validate_update(&self, id: WindowId, update: &WindowUpdate) -> (r: Result<(), RegistryError>)
        requires
            self.coherent(),
        ensures
            r is Ok <==> self.update_error(id, *update) is None,
            r is Err ==> Some(r->Err_0) == self.update_error(id, *update),
    {
        let current = match self.get(id) {
            Some(rec) => rec,
            None => {
                return Err(RegistryError::InvalidWindowId(id));
            },
        };
        if let Some(Some(geom)) = update.geometry {
            self.validate_geometry(id, geom)?;
        }
        if let Some(state) = update.state {
            if !Self::is_valid_state(state) {
                return Err(RegistryError::InvalidState { id, state });
            }
        }
        let next_workspace = match update.workspace {
            Some(w) => w,
            None => current.workspace,
        };
        let next_output = match update.output {
            Some(o) => o,
            None => current.output,
        };
        if next_workspace.is_some() != next_output.is_some() {
            return Err(
                RegistryError::WorkspaceOutputMismatch {
                    id,
                    workspace: next_workspace,
                    output: next_output,
                },
            );
        }
        if let Some(index) = update.stack_index {
            let count = self.live_count();
            if index < 0 || index as usize >= count {
                return Err(RegistryError::StackIndexOutOfBounds { id, index, count });
            }
        }
        if let Some(Some(parent)) = update.parent_id {
            if parent == id {
                return Err(RegistryError::ParentIsSelf { id });
            }
            if self.get(parent).is_none() {
                return Err(RegistryError::ParentNotFound { id, parent });
            }
            if self.is_ancestor(parent, id) {
                return Err(RegistryError::ParentCycle { id, parent });
            }
        }
        let next_parent = match update.parent_id {
            Some(p) => p,
            None => current.parent_id,
        };
        let mut k: usize = 0;
        while k < update.add_children.len()
            invariant
                self.coherent(),
                self.live(id),
                *current == self.record(id),
                next_parent == self.next_parent(id, *update),
                self.update_error(id, *update) == self.add_children_error(id, *update, 0)
                    || self.add_children_error(id, *update, 0) is None,
                self.add_children_error(id, *update, 0) is Some ==> self.update_error(id, *update)
                    == self.add_children_error(id, *update, 0),
                k <= update.add_children@.len(),
                forall|j: int| 0 <= j < k ==> self.child_error(id, *update, j) is None,
            decreases update.add_children@.len() - k,
        {
            let c = update.add_children[k];
            proof {
                self.lemma_add_children_prefix(id, *update, k as int);
            }
            if c == id {
                return Err(RegistryError::ParentIsSelf { id });
            }
            let mut j: usize = 0;
            let mut dup = false;
            while j < k && !dup
                invariant
                    j <= k,
                    k < update.add_children@.len(),
                    c == update.add_children@[k as int],
                    !dup ==> !update.add_children@.subrange(0, j as int).contains(c),
                    dup ==> update.add_children@.subrange(0, k as int).contains(c),
                decreases k - j + if dup { 0int } else { 1int },
            {
                if update.add_children[j] == c {
                    proof {
                        assert(update.add_children@.subrange(0, k as int)[j as int] == c);
                    }
                    dup = true;
                } else {
                    proof {
                        assert forall|x: WindowId| update.add_children@.subrange(0, j + 1).contains(x)
                            implies update.add_children@.subrange(0, j as int).contains(x) || x
                            == update.add_children@[j as int] by {
                            let t = choose|t: int| 0 <= t < j + 1 && #[trigger] update.add_children@.subrange(0, j + 1)[t] == x;
                            if t < j {
                                assert(update.add_children@.subrange(0, j as int)[t] == x);
                            }
                        }
                    }
                    j += 1;
                }
            }
            if dup {
                return Err(RegistryError::ChildAlreadyPresent { id, child: c });
            }
            let child = match self.get(c) {
                Some(rec) => rec,
                None => {
                    return Err(RegistryError::ChildNotFound { id, child: c });
                },
            };
            if let Some(existing_parent) = child.parent_id {
                if existing_parent != id {
                    return Err(RegistryError::ChildAlreadyHasParent { id, child: c, existing_parent });
                }
            }
            if self.chain_contains(next_parent, c) {
                return Err(RegistryError::ParentCycle { id: c, parent: id });
            }
            let mut t: usize = 0;
            let mut present = false;
            while t < current.children.len() && !present
                invariant
                    t <= current.children@.len(),
                    !present ==> forall|s: int| 0 <= s < t ==> current.children@[s] != c,
                    present ==> current.children@.contains(c),
                decreases current.children@.len() - t + if present { 0int } else { 1int },
            {
                if current.children[t] == c {
                    proof {
                        assert(current.children@[t as int] == c);
                    }
                    present = true;
                } else {
                    t += 1;
                }
            }
            if present {
                return Err(RegistryError::ChildAlreadyPresent { id, child: c });
            }
            k += 1;
        }
        proof {
            self.lemma_add_children_prefix(id, *update, k as int);
        }
        let mut k: usize = 0;
        while k < update.remove_children.len()
            invariant
                self.wf(),
                self.add_children_error(id, *update, 0) is None,
                self.update_error(id, *update) == self.remove_children_error(id, *update, 0),
                k <= update.remove_children@.len(),
                forall|j: int| 0 <= j < k ==> self.live(#[trigger] update.remove_children@[j]),
            decreases update.remove_children@.len() - k,
        {
            let c = update.remove_children[k];
            proof {
                self.lemma_remove_children_prefix(id, *update, k as int);
            }
            if self.get(c).is_none() {
                return Err(RegistryError::ChildNotFound { id, child: c });
            }
            k += 1;
        }
        proof {
            self.lemma_remove_children_prefix(id, *update, k as int);
        }
        Ok(())
    }

    proof fn lemma_children_ok(self, id: WindowId, u: WindowUpdate, k0: int)
        requires
            0 <= k0,
            self.add_children_error(id, u, k0) is None,
        ensures
            forall|k: int| k0 <= k < u.add_children@.len() ==> #[trigger] self.child_error(id, u, k) is None,
        decreases u.add_children@.len() - k0,
    {
        if k0 < u.add_children@.len() {
            self.lemma_children_ok(id, u, k0 + 1);
        }
    }

    proof fn lemma_detach_ok(self, id: WindowId, u: WindowUpdate, k0: int)
        requires
            0 <= k0,
            self.remove_children_error(id, u, k0) is None,
        ensures
            forall|k: int| k0 <= k < u.remove_children@.len() ==> self.live(#[trigger] u.remove_children@[k]),
        decreases u.remove_children@.len() - k0,
    {
        if k0 < u.remove_children@.len() {
            self.lemma_detach_ok(id, u, k0 + 1);
        }
    }

    /// An update that only restates the current values passes validation,
    /// provided the parent it restates is live.
    pub proof fn lemma_noop_accepted(self, id: WindowId, u: WindowUpdate)
        requires
            self.coherent(),
            self.live(id),
            u.is_noop_for(self.record(id)),
            u.parent_id is Some && u.parent_id->0 is Some ==> self.live(u.parent_id->0->0),
        ensures
            self.update_error(id, u) is None,
    {
        assert(self.occupied(id.index as int));
        if u.parent_id is Some && u.parent_id->0 is Some {
            let p = u.parent_id->0->0;
            let pf = self.parent_fn();
            assert(pf(id) == Some(p));
            assert(nth_ancestor(pf, Some(id), 1) == Some(p)) by {
                assert(nth_ancestor(pf, pf(id), 0) == pf(id));
            }
            lemma_acyclic_no_return(pf, id, 1);
            if self.is_ancestor_spec(p, id) {
                let j = choose|j: nat| #[trigger] nth_ancestor(pf, pf(p), j) == Some(id);
                lemma_nth_add(pf, Some(id), 1, j + 1);
                assert(nth_ancestor(pf, Some(p), j + 1) == nth_ancestor(pf, pf(p), j));
                lemma_acyclic_no_return(pf, id, j + 2);
            }
        }
    }

    proof fn lemma_others_after(
        pre: Registry,
        ordered: Registry,
        linked: Registry,
        post: Registry,
        id: WindowId,
        u: WindowUpdate,
    )
        requires
            pre.same_frame(ordered),
            ordered.same_frame(linked),
            linked.same_frame(post),
            ordered.record(id).parent_id == pre.record(id).parent_id,
            forall|i: int| #[trigger] pre.occupied(i) && i != id.index ==> ordered.record_at(i) == (
            WindowRecord {
                stack_index: stack_after(pre.record(id).stack_index, u, pre.record_at(i).stack_index),
                is_focused: pre.record_at(i).is_focused && !takes_focus(pre.record(id), u),
                ..pre.record_at(i)
            }),
            forall|i: int| #[trigger] ordered.occupied(i) ==> same_but_links(
                ordered.record_at(i),
                linked.record_at(i),
            ),
            forall|i: int| #[trigger] ordered.occupied(i) && i != id.index && !link_touched(
                ordered,
                id,
                u,
                ordered.id_at(i),
            ) ==> linked.record_at(i) == ordered.record_at(i),
            forall|i: int| #[trigger] linked.occupied(i) && i != id.index ==> post.record_at(i)
                == linked.record_at(i),
        ensures
            others_after_update(pre, post, id, u),
    {
        pre.lemma_frame_live(ordered);
        ordered.lemma_frame_live(linked);
        linked.lemma_frame_live(post);
        assert forall|i: int| #[trigger] pre.occupied(i) && i != id.index implies {
            let r = pre.record_at(i);
            let n = post.record_at(i);
            &&& n == (WindowRecord {
                stack_index: stack_after(pre.record(id).stack_index, u, r.stack_index),
                is_focused: r.is_focused && !takes_focus(pre.record(id), u),
                parent_id: n.parent_id,
                children: n.children,
                ..r
            })
            &&& !link_touched(pre, id, u, pre.id_at(i)) ==> n.parent_id == r.parent_id && n.children
                == r.children
        } by {
            assert(ordered.occupied(i));
            assert(linked.occupied(i));
            assert(ordered.id_at(i) == pre.id_at(i));
            assert(ordered.next_parent(id, u) == pre.next_parent(id, u));
        }
    }

    /// Validates `update` against the current state, then applies it: the
    /// previously focused window loses focus first, then stacking moves,
    /// parent changes and explicit child edits emit their side events, and
    /// finally one event for `id` carries its own changes, if any. A failed
    /// validation changes nothing.
    #[verifier::rlimit(100)]
    pub fn update_window(&mut self, id: WindowId, update: WindowUpdate) -> (r: Result<
        Vec<RegistryEvent>,
        RegistryError,
    >)
        requires
            old(self).coherent(),
        ensures
            final(self).coherent(),
            old(self).update_error(id, update) is Some ==> *final(self) == *old(self) && r == Err::<
                Vec<RegistryEvent>,
                RegistryError,
            >(old(self).update_error(id, update)->0),
            old(self).update_error(id, update) is None ==> r is Ok && final(self).live(id) && {
                let o = old(self).record(id);
                let n = final(self).record(id);
                &&& n.id == o.id && n.dk == o.dk && n.sk == o.sk && n.lifecycle == o.lifecycle
                &&& n.geometry == match update.geometry {
                    Some(g) => g,
                    None => o.geometry,
                }
                &&& n.state == match update.state {
                    Some(st) => st,
                    None => o.state,
                }
                &&& n.is_focused == match update.is_focused {
                    Some(f) => f,
                    None => o.is_focused,
                }
                &&& n.workspace == old(self).next_workspace(id, update)
                &&& n.output == old(self).next_output(id, update)
                &&& n.stack_index == match update.stack_index {
                    Some(si) => si,
                    None => o.stack_index,
                }
                &&& n.parent_id == old(self).next_parent(id, update)
                &&& n.title == match update.title {
                    Some(t) => t,
                    None => o.title,
                }
                &&& n.app_id == match update.app_id {
                    Some(a) => a,
                    None => o.app_id,
                }
            },
            forall|w: WindowId| #[trigger] final(self).live(w) == old(self).live(w),
            final(self).desktop_map == old(self).desktop_map,
            final(self).surface_map == old(self).surface_map,
            r is Ok && update.is_focused == Some(true) && !old(self).record(id).is_focused ==> forall|
                w: WindowId,
            |
                #[trigger] old(self).live(w) && w != id && old(self).record(w).is_focused ==> r->Ok_0@.len()
                    >= 1 && r->Ok_0@[0] == (RegistryEvent::WindowChanged {
                    id: w,
                    changes: focus_change(true, false),
                }),
            r is Ok && field_change(update.stack_index, old(self).record(id).stack_index) is Some
                ==> reports_shifts(
                *final(self),
                r->Ok_0@,
                id,
                focus_events(*old(self), id, update),
                old(self).record(id).stack_index as int,
                update.stack_index->0 as int,
            ),
            r is Ok ==> others_after_update(*old(self), *final(self), id, update),
            r is Ok ==> r->Ok_0@.len() >= focus_events(*old(self), id, update) + shift_events_count(
                *old(self),
                id,
                update,
            ) + reparent_events_count(*old(self), id, update),
            r is Ok && field_change(update.parent_id, old(self).record(id).parent_id) is Some
                ==> reports_reparent(
                *old(self),
                id,
                old(self).next_parent(id, update),
                r->Ok_0@.subrange(
                    focus_events(*old(self), id, update) + shift_events_count(*old(self), id, update),
                    focus_events(*old(self), id, update) + shift_events_count(*old(self), id, update)
                        + reparent_events_count(*old(self), id, update),
                ),
            ),
            r is Ok && update.add_children@.len() == 0 && update.remove_children@.len() == 0
                ==> r->Ok_0@.len() == focus_events(*old(self), id, update) + shift_events_count(
                *old(self),
                id,
                update,
            ) + reparent_events_count(*old(self), id, update) + if changes_own_fields(
                old(self).record(id),
                update,
            ) {
                1int
            } else {
                0int
            },
            old(self).live(id) && update.is_noop_for(old(self).record(id)) && (update.parent_id is Some
                && update.parent_id->0 is Some ==> old(self).live(update.parent_id->0->0)) ==> forall|
                i: int,
            |
                #[trigger] old(self).occupied(i) && i != id.index ==> final(self).record_at(i)
                    == old(self).record_at(i),
            r is Ok ==> final(self).record(id).children@ == children_after(old(self).record(id).children@, update),
            r is Ok && changes_own_fields(old(self).record(id), update) ==> r->Ok_0@.len() > 0
                && match r->Ok_0@.last() {
                RegistryEvent::WindowChanged { id: target, changes } => target == id
                    && reports_own_changes(changes, old(self).record(id), update),
                _ => false,
            },
            old(self).live(id) && update.is_noop_for(old(self).record(id)) && (update.parent_id is Some
                && update.parent_id->0 is Some ==> old(self).live(update.parent_id->0->0)) ==> r is Ok
                && r->Ok_0@.len() == 0,
    {
        let ghost pre = *self;
        proof {
            if pre.live(id) && update.is_noop_for(pre.record(id)) && (update.parent_id is Some
                && update.parent_id->0 is Some ==> pre.live(update.parent_id->0->0)) {
                pre.lemma_noop_accepted(id, update);
            }
        }
        match self.validate_update(id, &update) {
            Ok(()) => {},
            Err(e) => {
                return Err(e);
            },
        }
        proof {
            pre.lemma_children_ok(id, update, 0);
            pre.lemma_detach_ok(id, update, 0);
            pre.lemma_frame_live(pre);
            assert(pre.occupied(id.index as int));
        }
        let mut events: Vec<RegistryEvent> = Vec::new();
        let mut changes = WindowChanges::none();
        let mut ev = self.apply_order(id, &update, &mut changes);
        events.append(&mut ev);
        let ghost mid = *self;
        proof {
            pre.lemma_frame_live(*self);
            assert forall|k: int| 0 <= k < update.add_children@.len() implies #[trigger] self.child_error(id, update, k)
                is None by {
                assert(pre.child_error(id, update, k) is None);
                let c = update.add_children@[k];
                assert(self.occupied(c.index as int) ==> pre.occupied(c.index as int));
            }
            assert forall|k: int| 0 <= k < update.remove_children@.len() implies self.live(
                #[trigger] update.remove_children@[k],
            ) by {}
        }
        let ghost order_events = events@;
        let mut ev = self.apply_links(id, &update, &mut changes);
        let ghost link_events = ev@;
        events.append(&mut ev);
        proof {
            mid.lemma_frame_live(*self);
            pre.lemma_frame_live(*self);
        }
        let ghost linked = *self;
        self.apply_attrs(id, &update, &mut changes);
        proof {
            Self::lemma_others_after(pre, mid, linked, *self, id, update);
            if update.is_noop_for(pre.record(id)) {
                assert forall|i: int| #[trigger] pre.occupied(i) && i != id.index implies self.record_at(i)
                    == pre.record_at(i) by {
                    assert(mid.occupied(i));
                    assert(linked.occupied(i));
                }
            }
            pre.lemma_frame_live(*self);
            linked.lemma_frame_live(*self);
            if field_change(update.stack_index, pre.record(id).stack_index) is Some {
                let f = focus_events(pre, id, update);
                let o = pre.record(id).stack_index as int;
                let n = update.stack_index->0 as int;
                assert forall|i: int| #[trigger] mid.occupied(i) implies self.record_at(i).stack_index
                    == mid.record_at(i).stack_index by {
                    assert(linked.occupied(i));
                }
                assert forall|j: int| f <= j < f + shift_count(o, n) implies shift_event(
                    *self,
                    #[trigger] events@[j],
                    id,
                    first_shifted(o, n) + (j - f),
                    shifted_from(o, n, first_shifted(o, n) + (j - f)),
                ) by {
                    assert(events@[j] == order_events[j]);
                    lemma_shift_event_stable(mid, *self, order_events[j], id, first_shifted(o, n) + (j - f), shifted_from(o, n, first_shifted(o, n) + (j - f)));
                }
            }
            assert(reports_own_changes(changes, pre.record(id), update));
        }
        let ghost before_own = events@;
        if !changes.is_empty() {
            events.push(RegistryEvent::WindowChanged { id, changes });
        }
        proof {
            Self::lemma_reparent_same(pre, mid, id, update, link_events.subrange(
                0,
                reparent_events_count(mid, id, update),
            ));
            let k = order_events.len() as int;
            let rp = reparent_events_count(pre, id, update);
            assert(before_own =~= order_events + link_events);
            assert(events@.subrange(k, k + rp) =~= link_events.subrange(0, rp));
            assert(events@.len() == before_own.len() + if changes_own_fields(pre.record(id), update) {
                1int
            } else {
                0int
            });
        }
        Ok(events)
    }

    proof fn lemma_reparent_same(pre: Registry, mid: Registry, id: WindowId, u: WindowUpdate, evs: Seq<RegistryEvent>)
        requires
            pre.same_frame(mid),
            pre.live(id),
            mid.record(id).parent_id == pre.record(id).parent_id,
            forall|i: int| #[trigger] pre.occupied(i) ==> mid.record_at(i).children == pre.record_at(i).children,
            u.parent_id is Some && u.parent_id->0 is Some ==> pre.live(u.parent_id->0->0),
        ensures
            reparent_events_count(mid, id, u) == reparent_events_count(pre, id, u),
            mid.next_parent(id, u) == pre.next_parent(id, u),
            field_change(u.parent_id, pre.record(id).parent_id) is Some ==> reports_reparent(
                mid,
                id,
                mid.next_parent(id, u),
                evs,
            ) == reports_reparent(pre, id, pre.next_parent(id, u), evs),
    {
        pre.lemma_frame_live(mid);
        if let Some(op) = pre.record(id).parent_id {
            if pre.live(op) {
                assert(pre.occupied(op.index as int));
            }
        }
        if let Some(np) = pre.next_parent(id, u) {
            if pre.live(np) {
                assert(pre.occupied(np.index as int));
            }
        }
    }

    /// Focus and stacking: the window that held the focus loses it first,
    /// then the windows between the old and new stack positions shift.
    fn apply_order(&mut self, id: WindowId, update: &WindowUpdate, changes: &mut WindowChanges) -> (events: Vec<RegistryEvent>)
        requires
            old(self).coherent(),
            old(self).live(id),
            update.stack_index is Some ==> 0 <= update.stack_index->0 < old(self).live_count_spec(),
        ensures
            final(self).coherent(),
            old(self).same_frame(*final(self)),
            final(self).parent_fn() == old(self).parent_fn(),
            forall|i: int| #[trigger] old(self).occupied(i) ==> final(self).record_at(i).parent_id
                == old(self).record_at(i).parent_id,
            final(self).record(id) == (WindowRecord {
                stack_index: match update.stack_index {
                    Some(si) => si,
                    None => old(self).record(id).stack_index,
                },
                ..old(self).record(id)
            }),
            update.is_focused == Some(true) && !old(self).record(id).is_focused ==> forall|i: int|
                #[trigger] final(self).occupied(i) && i != id.index ==> !final(self).record_at(i).is_focused,
            keeps(update.is_focused, old(self).record(id).is_focused) && keeps(
                update.stack_index,
                old(self).record(id).stack_index,
            ) ==> events@.len() == 0 && *final(changes) == *old(changes),
            update.is_focused == Some(true) && !old(self).record(id).is_focused ==> forall|w: WindowId|
                #[trigger] old(self).live(w) && w != id && old(self).record(w).is_focused ==> events@.len()
                    >= 1 && events@[0] == (RegistryEvent::WindowChanged {
                    id: w,
                    changes: focus_change(true, false),
                }),
            events@.len() >= focus_events(*old(self), id, *update),
            field_change(update.stack_index, old(self).record(id).stack_index) is Some ==> reports_shifts(
                *final(self),
                events@,
                id,
                focus_events(*old(self), id, *update),
                old(self).record(id).stack_index as int,
                update.stack_index->0 as int,
            ),
            *final(changes) == (WindowChanges {
                stack_index: match field_change(update.stack_index, old(self).record(id).stack_index) {
                    Some(c) => Some(c),
                    None => old(changes).stack_index,
                },
                ..*old(changes)
            }),
            forall|i: int| #[trigger] old(self).occupied(i) && i != id.index ==> final(self).record_at(i) == (
            WindowRecord {
                stack_index: stack_after(old(self).record(id).stack_index, *update, old(self).record_at(i).stack_index),
                is_focused: old(self).record_at(i).is_focused && !takes_focus(old(self).record(id), *update),
                ..old(self).record_at(i)
            }),
            events@.len() == focus_events(*old(self), id, *update) + shift_events_count(*old(self), id, *update),
    {
        let ghost pre = *self;
        proof {
            pre.lemma_frame_live(pre);
            assert(pre.occupied(id.index as int));
        }
        let (cur_focus, cur_stack) = match self.get(id) {
            Some(rec) => (rec.is_focused, rec.stack_index),
            None => (false, 0),
        };
        let mut events: Vec<RegistryEvent> = Vec::new();
        let focus_taken = match update.is_focused {
            Some(f) => f && !cur_focus,
            None => false,
        };
        if focus_taken {
            let mut ev = self.clear_other_focus(id);
            events.append(&mut ev);
            proof {
                if !other_focused(pre, id) {
                    assert forall|i: int| #[trigger] pre.occupied(i) && i != id.index implies !pre.record_at(i).is_focused by {
                        assert(pre.live(pre.id_at(i)));
                        assert(pre.id_at(i) != id);
                    }
                } else {
                    let w = choose|w: WindowId| #[trigger] pre.live(w) && w != id && pre.record(w).is_focused;
                    assert(events@.len() >= 1);
                }
            }
        }
        let ghost after_focus = *self;
        let ghost nf = events@.len();
        proof {
            assert(nf == focus_events(pre, id, *update));
        }
        proof {
            pre.lemma_frame_live(*self);
        }
        if let Some(new_index) = update.stack_index {
            if new_index != cur_stack {
                let ghost before = events@;
                let mut ev = self.move_stack(id, new_index);
                let ghost moved = ev@;
                events.append(&mut ev);
                changes.stack_index = Some(WindowChange { old: cur_stack, new: new_index });
                proof {
                    assert forall|j: int| nf <= j < nf + shift_count(cur_stack as int, new_index as int) implies shift_event(
                        *self,
                        #[trigger] events@[j],
                        id,
                        first_shifted(cur_stack as int, new_index as int) + (j - nf),
                        shifted_from(cur_stack as int, new_index as int, first_shifted(cur_stack as int, new_index as int) + (j - nf)),
                    ) by {
                        assert(events@[j] == moved[j - nf]);
                    }
                    after_focus.lemma_frame_live(*self);
                    assert forall|i: int| #[trigger] self.occupied(i) && i != id.index && focus_taken implies !self.record_at(i).is_focused by {
                        assert(after_focus.occupied(i));
                    }
                }
            }
        }
        proof {
            pre.lemma_frame_live(*self);
            assert forall|i: int| #[trigger] pre.occupied(i) implies self.record_at(i).parent_id
                == pre.record_at(i).parent_id by {
                assert(after_focus.occupied(i));
            }
        }
        proof {
            assert forall|i: int| #[trigger] pre.occupied(i) && i != id.index implies self.record_at(i) == (
            WindowRecord {
                stack_index: stack_after(pre.record(id).stack_index, *update, pre.record_at(i).stack_index),
                is_focused: pre.record_at(i).is_focused && !takes_focus(pre.record(id), *update),
                ..pre.record_at(i)
            }) by {
                assert(after_focus.occupied(i));
                assert(after_focus.record_at(i) == (WindowRecord {
                    is_focused: pre.record_at(i).is_focused && !takes_focus(pre.record(id), *update),
                    ..pre.record_at(i)
                }));
            }
        }
        events
    }

    /// Parent and children: the parent change first, then the explicit
    /// detach and attach requests, then the new children list of `id`.
    fn apply_links(&mut self, id: WindowId, update: &WindowUpdate, changes: &mut WindowChanges) -> (events: Vec<RegistryEvent>)
        requires
            old(changes).children is None,
            old(self).coherent(),
            old(self).live(id),
            update.parent_id is Some && update.parent_id->0 is Some ==> old(self).parent_error(
                id,
                update.parent_id->0->0,
            ) is None,
            forall|k: int| 0 <= k < update.add_children@.len() ==> #[trigger] old(self).child_error(id, *update, k) is None,
            forall|k: int| 0 <= k < update.remove_children@.len() ==> old(self).live(
                #[trigger] update.remove_children@[k],
            ),
        ensures
            final(self).coherent(),
            old(self).same_frame(*final(self)),
            forall|i: int| #[trigger] old(self).occupied(i) ==> same_but_links(
                old(self).record_at(i),
                final(self).record_at(i),
            ),
            final(self).record(id).parent_id == old(self).next_parent(id, *update),
            keeps(update.parent_id, old(self).record(id).parent_id) && update.add_children@.len() == 0
                && update.remove_children@.len() == 0 ==> events@.len() == 0 && *final(changes)
                == *old(changes),
            *final(changes) == (WindowChanges {
                parent_id: match field_change(update.parent_id, old(self).record(id).parent_id) {
                    Some(c) => Some(c),
                    None => old(changes).parent_id,
                },
                children: final(changes).children,
                ..*old(changes)
            }),
            forall|i: int| #[trigger] old(self).occupied(i) && i != id.index && !link_touched(
                *old(self),
                id,
                *update,
                old(self).id_at(i),
            ) ==> final(self).record_at(i) == old(self).record_at(i),
            final(self).record(id) == (WindowRecord {
                parent_id: old(self).next_parent(id, *update),
                children: final(self).record(id).children,
                ..old(self).record(id)
            }),
            final(self).record(id).children@ == children_after(old(self).record(id).children@, *update),
            final(changes).children is Some <==> children_after(old(self).record(id).children@, *update)
                != old(self).record(id).children@,
            final(changes).children is Some ==> final(changes).children->0.old@ == old(self).record(
                id,
            ).children@ && final(changes).children->0.new@ == children_after(
                old(self).record(id).children@,
                *update,
            ),
            keeps(update.parent_id, old(self).record(id).parent_id) && update.add_children@.len() == 0
                && update.remove_children@.len() == 0 ==> *final(self) == *old(self),
            events@.len() >= reparent_events_count(*old(self), id, *update),
            field_change(update.parent_id, old(self).record(id).parent_id) is Some ==> reports_reparent(
                *old(self),
                id,
                old(self).next_parent(id, *update),
                events@.subrange(0, reparent_events_count(*old(self), id, *update)),
            ),
            update.add_children@.len() == 0 && update.remove_children@.len() == 0 ==> events@.len()
                == reparent_events_count(*old(self), id, *update),
    {
        let ghost pre = *self;
        let ghost pf0 = pre.parent_fn();
        proof {
            pre.lemma_frame_live(pre);
            assert(pre.occupied(id.index as int));
        }
        let (cur_parent, cur_children) = match self.get(id) {
            Some(rec) => (rec.parent_id, copy_ids(&rec.children)),
            None => (None, Vec::new()),
        };
        let mut events: Vec<RegistryEvent> = Vec::new();
        let mut parent_changed = false;
        if let Some(next) = update.parent_id {
            if next != cur_parent {
                parent_changed = true;
                let mut ev = self.change_parent(id, next);
                events.append(&mut ev);
                changes.parent_id = Some(WindowChange { old: cur_parent, new: next });
            }
        }
        let ghost after_parent = *self;
        proof {
            pre.lemma_frame_live(*self);
            assert(self.record(id).parent_id == pre.next_parent(id, *update));
            assert(agree_except(pf0, self.parent_fn(), id));
            assert forall|k: int| 0 <= k < update.add_children@.len() implies !on_chain(
                self.parent_fn(),
                Some(id),
                #[trigger] update.add_children@[k],
            ) by {
                let c = update.add_children@[k];
                assert(pre.child_error(id, *update, k) is None);
                lemma_on_chain_unfold(self.parent_fn(), id, c);
                if parent_changed {
                    lemma_off_chain_stable(pf0, self.parent_fn(), id, pre.next_parent(id, *update), c);
                }
            }
        }
        if update.add_children.len() > 0 || update.remove_children.len() > 0 {
            proof {
                assert forall|j: int| 0 <= j < update.add_children@.len() implies self.live(
                    #[trigger] update.add_children@[j],
                ) && update.add_children@[j] != id by {
                    assert(pre.child_error(id, *update, j) is None);
                }
            }
            let ghost before_edit = *self;
            let mut ev = self.edit_listed_children(id, update, cur_children, changes);
            events.append(&mut ev);
            proof {
                after_parent.lemma_frame_live(*self);
            }
        }
        proof {
            pre.lemma_frame_live(*self);
            assert forall|i: int| #[trigger] pre.occupied(i) implies same_but_links(
                pre.record_at(i),
                self.record_at(i),
            ) by {
                assert(after_parent.occupied(i));
            }
        }
        proof {
            assert forall|i: int| #[trigger] pre.occupied(i) && i != id.index && !link_touched(
                pre,
                id,
                *update,
                pre.id_at(i),
            ) implies self.record_at(i) == pre.record_at(i) by {
                assert(after_parent.occupied(i));
                assert(after_parent.record_at(i) == pre.record_at(i));
            }
        }
        events
    }


    /// The detach and attach requests of `update`, then the new children
    /// list of `id` when it differs from `cur_children`.
    fn edit_listed_children(&mut self, id: WindowId, update: &WindowUpdate, cur_children: Vec<WindowId>, changes: &mut WindowChanges) -> (events: Vec<RegistryEvent>)
        requires
            old(changes).children is None,
            old(self).coherent(),
            old(self).live(id),
            cur_children@ == old(self).record(id).children@,
            forall|j: int| 0 <= j < update.add_children@.len() ==> old(self).live(
                #[trigger] update.add_children@[j],
            ) && update.add_children@[j] != id,
            forall|j: int| 0 <= j < update.add_children@.len() ==> !on_chain(
                old(self).parent_fn(),
                Some(id),
                #[trigger] update.add_children@[j],
            ),
            forall|k: int| 0 <= k < update.remove_children@.len() ==> old(self).live(
                #[trigger] update.remove_children@[k],
            ),
        ensures
            final(self).coherent(),
            old(self).same_frame(*final(self)),
            forall|i: int| #[trigger] old(self).occupied(i) ==> same_but_links(
                old(self).record_at(i),
                final(self).record_at(i),
            ),
            final(self).record(id).parent_id == old(self).record(id).parent_id,
            *final(changes) == (WindowChanges { children: final(changes).children, ..*old(changes) }),
            final(self).record(id) == (WindowRecord {
                children: final(self).record(id).children,
                ..old(self).record(id)
            }),
            final(self).record(id).children@ == children_after(cur_children@, *update),
            final(changes).children is Some <==> children_after(cur_children@, *update) != cur_children@,
            final(changes).children is Some ==> final(changes).children->0.old@ == cur_children@
                && final(changes).children->0.new@ == children_after(cur_children@, *update),
            forall|i: int| #[trigger] old(self).occupied(i) && i != id.index && !update.remove_children@.contains(
                old(self).id_at(i),
            ) && !update.add_children@.contains(old(self).id_at(i)) ==> final(self).record_at(i)
                == old(self).record_at(i),
    {
        let ghost after_parent = *self;
        let mut events: Vec<RegistryEvent> = Vec::new();
        let mut new_children = copy_ids(&cur_children);
        let ghost before = *self;
        let mut ev = self.detach_children(id, update, &mut new_children);
        events.append(&mut ev);
        let ghost mid = *self;
        proof {
            before.lemma_frame_live(*self);
            assert forall|j: int| 0 <= j < update.add_children@.len() implies self.live(
                #[trigger] update.add_children@[j],
            ) && update.add_children@[j] != id by {
                
            }
        }
        let mut ev = self.attach_children(id, update, &mut new_children);
        events.append(&mut ev);
        proof {
            mid.lemma_frame_live(*self);
            assert forall|i: int| #[trigger] after_parent.occupied(i) implies same_but_links(
                after_parent.record_at(i),
                self.record_at(i),
            ) by {
                assert(before.occupied(i));
                assert(mid.occupied(i));
            }
        }
        if !ids_equal(&new_children, &cur_children) {
            let ghost before = *self;
            let target = self.record_mut(id);
            target.children = copy_ids(&new_children);
            proof {
                before.lemma_same_shape(*self, id);
                assert forall|j: int| 0 <= j < before.slots@.len() implies (#[trigger] self.slots@[j]).gen
                    == before.slots@[j].gen && (self.slots@[j].value is Some) == (
                before.slots@[j].value is Some) by {}
                before.lemma_frame_live(*self);
                assert forall|i: int| #[trigger] after_parent.occupied(i) implies same_but_links(
                    after_parent.record_at(i),
                    self.record_at(i),
                ) by {
                    assert(before.occupied(i));
                }
            }
            changes.children = Some(WindowChange { old: cur_children, new: new_children });
        }
        proof {
            after_parent.lemma_frame_live(*self);
            assert(after_parent.occupied(id.index as int));
            assert forall|i: int| #[trigger] after_parent.occupied(i) && i != id.index && !update.remove_children@.contains(
                after_parent.id_at(i),
            ) && !update.add_children@.contains(after_parent.id_at(i)) implies self.record_at(i)
                == after_parent.record_at(i) by {
                assert(before.occupied(i));
                assert(mid.occupied(i));
            }
        }
        events
    }

    /// Detaches the children `update` names: drops each from `children`, and
    /// clears its parent where that parent is `id`. One event per cleared parent.
    fn detach_children(&mut self, id: WindowId, update: &WindowUpdate, children: &mut Vec<WindowId>) -> (events: Vec<RegistryEvent>)
        requires
            old(self).coherent(),
            old(self).live(id),
            forall|j: int| 0 <= j < update.remove_children@.len() ==> old(self).live(
                #[trigger] update.remove_children@[j],
            ),
            forall|j: int| 0 <= j < update.add_children@.len() ==> !on_chain(
                old(self).parent_fn(),
                Some(id),
                #[trigger] update.add_children@[j],
            ),
        ensures
            final(self).coherent(),
            old(self).same_frame(*final(self)),
            final(self).record(id) == old(self).record(id),
            forall|i: int| #[trigger] old(self).occupied(i) ==> same_but_links(
                old(self).record_at(i),
                final(self).record_at(i),
            ),
            forall|j: int| 0 <= j < update.add_children@.len() ==> !on_chain(
                final(self).parent_fn(),
                Some(id),
                #[trigger] update.add_children@[j],
            ),
            update.remove_children@.len() == 0 ==> events@.len() == 0,
            forall|i: int| #[trigger] old(self).occupied(i) && i != id.index && !update.remove_children@.contains(
                old(self).id_at(i),
            ) ==> final(self).record_at(i) == old(self).record_at(i),
            final(children)@ == detached(old(children)@, update.remove_children@, update.remove_children@.len() as int),
    {
        let ghost pre = *self;
        let ghost c0 = children@;
        proof {
            pre.lemma_frame_live(pre);
        }
        let mut events: Vec<RegistryEvent> = Vec::new();
        let mut k: usize = 0;
        while k < update.remove_children.len()
            invariant
                self.coherent(),
                pre.coherent(),
                pre.live(id),
                pre.same_frame(*self),
                self.record(id) == pre.record(id),
                forall|j: int| 0 <= j < update.remove_children@.len() ==> pre.live(
                    #[trigger] update.remove_children@[j],
                ),
                forall|j: int| 0 <= j < update.add_children@.len() ==> !on_chain(
                    self.parent_fn(),
                    Some(id),
                    #[trigger] update.add_children@[j],
                ),
                forall|i: int| #[trigger] pre.occupied(i) ==> same_but_links(
                    pre.record_at(i),
                    self.record_at(i),
                ),
                k <= update.remove_children@.len(),
                update.remove_children@.len() == 0 ==> events@.len() == 0,
                forall|i: int| #[trigger] pre.occupied(i) && i != id.index && !update.remove_children@.contains(
                    pre.id_at(i),
                ) ==> self.record_at(i) == pre.record_at(i),
                children@ == detached(c0, update.remove_children@, k as int),
            decreases update.remove_children@.len() - k,
        {
            let c = update.remove_children[k];
            let mut pos: usize = 0;
            let mut found = false;
            while pos < children.len() && !found
                invariant
                    pos <= children@.len(),
                    found ==> pos < children@.len() && children@[pos as int] == c,
                    forall|j: int| 0 <= j < pos ==> children@[j] != c,
                decreases children@.len() - pos + if found { 0int } else { 1int },
            {
                if children[pos] == c {
                    found = true;
                } else {
                    pos += 1;
                }
            }
            proof {
                lemma_without_first(children@, c, if found { pos as int } else { children@.len() as int });
            }
            if found {
                children.remove(pos);
                let child_parent = match self.get(c) {
                    Some(rec) => rec.parent_id,
                    None => None,
                };
                if child_parent == Some(id) {
                    let ghost before = *self;
                    proof {
                        pre.lemma_frame_live(*self);
                        assert(self.live(c));
                        assert(before.parent_fn()(c) == Some(id));
                        assert(nth_ancestor(before.parent_fn(), Some(c), 1) == Some(id)) by {
                            assert(nth_ancestor(before.parent_fn(), before.parent_fn()(c), 0) == before.parent_fn()(c));
                        }
                        if c == id {
                            lemma_acyclic_no_return(before.parent_fn(), id, 1);
                        }
                    }
                    self.set_parent(c, None);
                    proof {
                        before.lemma_frame_live(*self);
                        assert(only_cuts(before.parent_fn(), self.parent_fn())) by {
                            assert forall|w: WindowId| #[trigger] self.parent_fn()(w)
                                == before.parent_fn()(w) || self.parent_fn()(w) is None by {
                                if w != c {
                                    assert(self.parent_fn()(w) == before.parent_fn()(w));
                                }
                            }
                        }
                        assert forall|j: int| 0 <= j < update.add_children@.len() implies !on_chain(
                            self.parent_fn(),
                            Some(id),
                            #[trigger] update.add_children@[j],
                        ) by {
                            lemma_cut_off_chain(before.parent_fn(), self.parent_fn(), Some(id), update.add_children@[j]);
                        }
                        assert forall|i: int| #[trigger] pre.occupied(i) implies same_but_links(
                            pre.record_at(i),
                            self.record_at(i),
                        ) by {
                            assert(before.occupied(i));
                        }
                        assert(update.remove_children@[k as int] == c);
                        assert forall|i: int| #[trigger] pre.occupied(i) && i != id.index && !update.remove_children@.contains(
                            pre.id_at(i),
                        ) implies self.record_at(i) == pre.record_at(i) by {
                            assert(before.occupied(i));
                            if i == c.index {
                                assert(pre.id_at(i) == c);
                            }
                        }
                    }
                    let mut cc = WindowChanges::none();
                    cc.parent_id = Some(WindowChange { old: Some(id), new: None });
                    events.push(RegistryEvent::WindowChanged { id: c, changes: cc });
                }
            }
            k += 1;
        }
        events
    }

    /// Attaches the children `update` names: appends each to `children` if
    /// absent, and makes `id` its parent. One event per changed parent.
    fn attach_children(&mut self, id: WindowId, update: &WindowUpdate, children: &mut Vec<WindowId>) -> (events: Vec<RegistryEvent>)
        requires
            old(self).coherent(),
            old(self).live(id),
            forall|j: int| 0 <= j < update.add_children@.len() ==> old(self).live(
                #[trigger] update.add_children@[j],
            ) && update.add_children@[j] != id,
            forall|j: int| 0 <= j < update.add_children@.len() ==> !on_chain(
                old(self).parent_fn(),
                Some(id),
                #[trigger] update.add_children@[j],
            ),
        ensures
            final(self).coherent(),
            old(self).same_frame(*final(self)),
            final(self).record(id) == old(self).record(id),
            forall|i: int| #[trigger] old(self).occupied(i) ==> same_but_links(
                old(self).record_at(i),
                final(self).record_at(i),
            ),
            update.add_children@.len() == 0 ==> events@.len() == 0,
            forall|i: int| #[trigger] old(self).occupied(i) && i != id.index && !update.add_children@.contains(
                old(self).id_at(i),
            ) ==> final(self).record_at(i) == old(self).record_at(i),
            final(children)@ == attached(old(children)@, update.add_children@, update.add_children@.len() as int),
    {
        let ghost pre = *self;
        let ghost c0 = children@;
        proof {
            pre.lemma_frame_live(pre);
        }
        let mut events: Vec<RegistryEvent> = Vec::new();
        let mut k: usize = 0;
        while k < update.add_children.len()
            invariant
                self.coherent(),
                pre.coherent(),
                pre.live(id),
                pre.same_frame(*self),
                self.record(id) == pre.record(id),
                forall|j: int| 0 <= j < update.add_children@.len() ==> pre.live(
                    #[trigger] update.add_children@[j],
                ) && update.add_children@[j] != id,
                forall|j: int| k <= j < update.add_children@.len() ==> !on_chain(
                    self.parent_fn(),
                    Some(id),
                    #[trigger] update.add_children@[j],
                ),
                forall|i: int| #[trigger] pre.occupied(i) ==> same_but_links(
                    pre.record_at(i),
                    self.record_at(i),
                ),
                k <= update.add_children@.len(),
                update.add_children@.len() == 0 ==> events@.len() == 0,
                forall|i: int| #[trigger] pre.occupied(i) && i != id.index && !update.add_children@.contains(
                    pre.id_at(i),
                ) ==> self.record_at(i) == pre.record_at(i),
                children@ == attached(c0, update.add_children@, k as int),
            decreases update.add_children@.len() - k,
        {
            let c = update.add_children[k];
            if !ids_contain(children, c) {
                children.push(c);
            }
            proof {
                pre.lemma_frame_live(*self);
            }
            let child_parent = match self.get(c) {
                Some(rec) => rec.parent_id,
                None => None,
            };
            if child_parent != Some(id) {
                let ghost before = *self;
                self.set_parent(c, Some(id));
                proof {
                    before.lemma_frame_live(*self);
                    assert forall|j: int| k < j < update.add_children@.len() implies !on_chain(
                        self.parent_fn(),
                        Some(id),
                        #[trigger] update.add_children@[j],
                    ) by {
                        lemma_off_chain_stable(before.parent_fn(), self.parent_fn(), c, Some(id), update.add_children@[j]);
                    }
                    assert forall|i: int| #[trigger] pre.occupied(i) implies same_but_links(
                        pre.record_at(i),
                        self.record_at(i),
                    ) by {
                        assert(before.occupied(i));
                    }
                    assert(update.add_children@[k as int] == c);
                    assert forall|i: int| #[trigger] pre.occupied(i) && i != id.index && !update.add_children@.contains(
                        pre.id_at(i),
                    ) implies self.record_at(i) == pre.record_at(i) by {
                        assert(before.occupied(i));
                        if i == c.index {
                            assert(pre.id_at(i) == c);
                        }
                    }
                }
                let mut cc = WindowChanges::none();
                cc.parent_id = Some(WindowChange { old: child_parent, new: Some(id) });
                events.push(RegistryEvent::WindowChanged { id: c, changes: cc });
            }
            k += 1;
        }
        events
    }


    /// Moves `id` under `next`: leaves the old parent's children list, joins
    /// the new one's, then takes `next` as its parent. One event per children
    /// list that changed.
    fn change_parent(&mut self, id: WindowId, next: Option<WindowId>) -> (events: Vec<RegistryEvent>)
        requires
            old(self).coherent(),
            old(self).live(id),
            next != old(self).record(id).parent_id,
            next is Some ==> old(self).parent_error(id, next->0) is None,
        ensures
            final(self).coherent(),
            old(self).same_frame(*final(self)),
            forall|i: int| #[trigger] old(self).occupied(i) ==> same_but_links(
                old(self).record_at(i),
                final(self).record_at(i),
            ),
            final(self).record(id) == (WindowRecord { parent_id: next, ..old(self).record(id) }),
            agree_except(old(self).parent_fn(), final(self).parent_fn(), id),
            final(self).parent_fn()(id) == next,
            next is None || !on_chain(old(self).parent_fn(), next, id),
            forall|i: int| #[trigger] old(self).occupied(i) && i != id.index && Some(old(self).id_at(i))
                != old(self).record(id).parent_id && Some(old(self).id_at(i)) != next
                ==> final(self).record_at(i) == old(self).record_at(i),
            reports_reparent(*old(self), id, next, events@),
    {
        let ghost pre = *self;
        let ghost pf0 = pre.parent_fn();
        proof {
            pre.lemma_frame_live(pre);
            assert(pre.occupied(id.index as int));
        }
        let cur_parent = match self.get(id) {
            Some(rec) => rec.parent_id,
            None => None,
        };
        let mut events: Vec<RegistryEvent> = Vec::new();
        if let Some(op) = cur_parent {
            if self.get(op).is_some() {
                proof {
                    assert(pf0(id) == Some(op));
                    assert(nth_ancestor(pf0, Some(id), 1) == Some(op)) by {
                        assert(nth_ancestor(pf0, pf0(id), 0) == pf0(id));
                    }
                    lemma_acyclic_no_return(pf0, id, 1);
                }
                match self.edit_children(op, id, false) {
                    Some((o, n)) => {
                        let mut c = WindowChanges::none();
                        c.children = Some(WindowChange { old: o, new: n });
                        proof {
                            assert(c == (WindowChanges { children: c.children, ..no_changes() }));
                        }
                        events.push(RegistryEvent::WindowChanged { id: op, changes: c });
                    },
                    None => {},
                }
                proof {
                    pre.lemma_frame_live(*self);
                }
            }
        }
        let ghost mid = *self;
        let ghost mid_events = events@;
        proof {
            assert(self.record(id) == pre.record(id));
            assert(self.parent_fn() == pf0);
            assert(mid_events.len() == if leaves_old_parent(pre, id) { 1int } else { 0int });
            if let Some(np) = next {
                assert(pre.occupied(np.index as int));
                if let Some(op) = pre.record(id).parent_id {
                    if pre.live(op) {
                        assert(np.index != op.index);
                    }
                }
                assert(self.record(np) == pre.record(np));
            }
        }
        if let Some(np) = next {
            proof {
                lemma_on_chain_unfold(pf0, np, id);
            }
            match self.edit_children(np, id, true) {
                Some((o, n)) => {
                    let mut c = WindowChanges::none();
                    c.children = Some(WindowChange { old: o, new: n });
                    proof {
                        assert(c == (WindowChanges { children: c.children, ..no_changes() }));
                    }
                    events.push(RegistryEvent::WindowChanged { id: np, changes: c });
                },
                None => {},
            }
            proof {
                mid.lemma_frame_live(*self);
            }
        }
        let ghost before = *self;
        proof {
            pre.lemma_frame_live(*self);
            assert(self.record(id) == pre.record(id));
            assert(self.parent_fn() == pf0);
        }
        self.set_parent(id, next);
        proof {
            before.lemma_frame_live(*self);
            assert forall|i: int| #[trigger] pre.occupied(i) implies same_but_links(
                pre.record_at(i),
                self.record_at(i),
            ) by {
                assert(mid.occupied(i));
                assert(before.occupied(i));
            }
        }
        proof {
            assert forall|i: int| #[trigger] pre.occupied(i) && i != id.index && Some(pre.id_at(i))
                != pre.record(id).parent_id && Some(pre.id_at(i)) != next implies self.record_at(i)
                == pre.record_at(i) by {
                assert(mid.occupied(i));
                assert(before.occupied(i));
                if let Some(op) = pre.record(id).parent_id {
                    if pre.live(op) && i == op.index {
                        assert(pre.id_at(i) == op);
                    }
                }
                if let Some(np) = next {
                    if i == np.index {
                        assert(pre.id_at(i) == np);
                    }
                }
            }
        }
        events
    }

    /// Sets the attributes of `id` that `update` names and records in
    /// `changes` each one whose value differs.
    #[verifier::rlimit(60)]
    fn apply_attrs(&mut self, id: WindowId, update: &WindowUpdate, changes: &mut WindowChanges)
        requires
            old(self).coherent(),
            old(self).live(id),
            update.geometry is Some && update.geometry->0 is Some ==> update.geometry->0->0.is_valid(),
            update.state is Some ==> update.state->0.is_valid(),
            (old(self).next_workspace(id, *update) is Some) == (old(self).next_output(id, *update) is Some),
            update.is_focused == Some(true) ==> old(self).record(id).is_focused || forall|i: int|
                #[trigger] old(self).occupied(i) && i != id.index ==> !old(self).record_at(i).is_focused,
        ensures
            final(self).coherent(),
            old(self).same_frame(*final(self)),
            forall|i: int| #[trigger] old(self).occupied(i) && i != id.index ==> final(self).record_at(i)
                == old(self).record_at(i),
            ({
                let o = old(self).record(id);
                let n = final(self).record(id);
                &&& n.id == o.id && n.dk == o.dk && n.sk == o.sk && n.lifecycle == o.lifecycle
                &&& n.stack_index == o.stack_index && n.parent_id == o.parent_id && n.children == o.children
                &&& n.geometry == match update.geometry {
                    Some(g) => g,
                    None => o.geometry,
                }
                &&& n.state == match update.state {
                    Some(st) => st,
                    None => o.state,
                }
                &&& n.is_focused == match update.is_focused {
                    Some(f) => f,
                    None => o.is_focused,
                }
                &&& n.workspace == old(self).next_workspace(id, *update)
                &&& n.output == old(self).next_output(id, *update)
                &&& n.title == match update.title {
                    Some(t) => t,
                    None => o.title,
                }
                &&& n.app_id == match update.app_id {
                    Some(a) => a,
                    None => o.app_id,
                }
            }),
            update.is_noop_for(old(self).record(id)) ==> *final(changes) == *old(changes),
            ({
                let o = old(self).record(id);
                let c = *old(changes);
                *final(changes) == (WindowChanges {
                    geometry: if field_change(update.geometry, o.geometry) is Some {
                        field_change(update.geometry, o.geometry)
                    } else {
                        c.geometry
                    },
                    state: if field_change(update.state, o.state) is Some {
                        field_change(update.state, o.state)
                    } else {
                        c.state
                    },
                    is_focused: if field_change(update.is_focused, o.is_focused) is Some {
                        field_change(update.is_focused, o.is_focused)
                    } else {
                        c.is_focused
                    },
                    workspace: if field_change(update.workspace, o.workspace) is Some {
                        field_change(update.workspace, o.workspace)
                    } else {
                        c.workspace
                    },
                    output: if field_change(update.output, o.output) is Some {
                        field_change(update.output, o.output)
                    } else {
                        c.output
                    },
                    title: if text_change(update.title, o.title) is Some {
                        text_change(update.title, o.title)
                    } else {
                        c.title
                    },
                    app_id: if text_change(update.app_id, o.app_id) is Some {
                        text_change(update.app_id, o.app_id)
                    } else {
                        c.app_id
                    },
                    ..c
                })
            }),
    {
        let ghost pre = *self;
        let target = self.record_mut(id);
        if let Some(g) = update.geometry {
            if g != target.geometry {
                changes.geometry = Some(WindowChange { old: target.geometry, new: g });
                target.geometry = g;
            }
        }
        if let Some(st) = update.state {
            if st != target.state {
                changes.state = Some(WindowChange { old: target.state, new: st });
                target.state = st;
            }
        }
        if let Some(f) = update.is_focused {
            if f != target.is_focused {
                changes.is_focused = Some(WindowChange { old: target.is_focused, new: f });
                target.is_focused = f;
            }
        }
        if let Some(ws) = update.workspace {
            if ws != target.workspace {
                changes.workspace = Some(WindowChange { old: target.workspace, new: ws });
                target.workspace = ws;
            }
        }
        if let Some(out) = update.output {
            if out != target.output {
                changes.output = Some(WindowChange { old: target.output, new: out });
                target.output = out;
            }
        }
        if let Some(t) = &update.title {
            if !same_text(t, &target.title) {
                changes.title = Some(WindowChange { old: copy_text(&target.title), new: copy_text(t) });
            }
            target.title = copy_text(t);
        }
        if let Some(a) = &update.app_id {
            if !same_text(a, &target.app_id) {
                changes.app_id = Some(WindowChange { old: copy_text(&target.app_id), new: copy_text(a) });
            }
            target.app_id = copy_text(a);
        }
        proof {
            assert(pre.occupied(id.index as int));
            pre.lemma_same_shape(*self, id);
            assert forall|j: int| 0 <= j < pre.slots@.len() implies (#[trigger] self.slots@[j]).gen
                == pre.slots@[j].gen && (self.slots@[j].value is Some) == (
            pre.slots@[j].value is Some) by {}
        }
    }

}

} // verus!
