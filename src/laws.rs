use vstd::prelude::*;
use vstd::set_lib::{lemma_int_range, lemma_map_size, lemma_subset_equality, set_int_range};
use crate::hierarchy::{lemma_acyclic_no_return, nth_ancestor};
use crate::ids::WindowId;
use crate::registry::{count_live, Registry, Slot};

verus! {

/// Slot indices below `k` that hold a record.
pub open spec fn occupied_below(s: Seq<Slot>, k: int) -> Set<int> {
    Set::new(|i: int| 0 <= i < k && i < s.len() && s[i].value is Some)
}

proof fn lemma_occupied_below_len(s: Seq<Slot>, k: int)
    requires
        0 <= k <= s.len(),
    ensures
        occupied_below(s, k).finite(),
        occupied_below(s, k).len() == count_live(s.subrange(0, k)),
    decreases k,
{
    if k == 0 {
        assert(occupied_below(s, 0) =~= Set::empty());
        assert(s.subrange(0, 0).len() == 0);
    } else {
        lemma_occupied_below_len(s, k - 1);
        assert(s.subrange(0, k).drop_last() =~= s.subrange(0, k - 1));
        if s[k - 1].value is Some {
            assert(occupied_below(s, k) =~= occupied_below(s, k - 1).insert(k - 1));
        } else {
            assert(occupied_below(s, k) =~= occupied_below(s, k - 1));
        }
    }
}

impl Registry {
    /// The stack positions the live windows occupy.
    pub open spec fn stack_positions(self) -> Set<int> {
        occupied_below(self.slots@, self.slots@.len() as int).map(
            |i: int| self.record_at(i).stack_index as int,
        )
    }
}

/// Stacking density: in every coherent registry (every state that
/// insertions, removals and updates reach from an empty one), the live
/// windows' stack indices are exactly `0, 1, ..., live_count - 1`.
pub proof fn lemma_stacking_is_dense(r: Registry)
    requires
        r.coherent(),
    ensures
        r.stack_positions() == set_int_range(0, r.live_count_spec() as int),
{
    let s = r.slots@;
    let occ = occupied_below(s, s.len() as int);
    let f = |i: int| r.record_at(i).stack_index as int;
    lemma_occupied_below_len(s, s.len() as int);
    assert(s.subrange(0, s.len() as int) =~= s);
    assert forall|i: int, j: int| occ.contains(i) && occ.contains(j) && #[trigger] f(i) == #[trigger] f(j) implies i == j by {
        assert(r.occupied(i) && r.occupied(j));
    }
    lemma_map_size(occ, r.stack_positions(), f);
    let n = r.live_count_spec() as int;
    lemma_int_range(0, n);
    assert forall|x: int| r.stack_positions().contains(x) implies set_int_range(0, n).contains(x) by {
        let i = choose|i: int| occ.contains(i) && f(i) == x;
        assert(r.occupied(i));
    }
    lemma_subset_equality(r.stack_positions(), set_int_range(0, n));
}

/// Focus exclusivity: in a coherent registry two focused live windows are
/// the same window.
pub proof fn lemma_focus_is_exclusive(r: Registry, a: WindowId, b: WindowId)
    requires
        r.coherent(),
        r.live(a),
        r.live(b),
        r.record(a).is_focused,
        r.record(b).is_focused,
    ensures
        a == b,
{
    assert(r.occupied(a.index as int) && r.occupied(b.index as int));
}

/// Acyclic hierarchy: in a coherent registry, following `parent_id` one or
/// more steps from any window never comes back to it.
pub proof fn lemma_parent_chain_never_returns(r: Registry, w: WindowId, steps: nat)
    requires
        r.coherent(),
        steps >= 1,
    ensures
        nth_ancestor(r.parent_fn(), Some(w), steps) != Some(w),
{
    lemma_acyclic_no_return(r.parent_fn(), w, steps);
}

/// Generational safety: once `id` is removed, an insertion (which may reuse
/// its slot) never makes `id` resolve again.
pub proof fn lemma_removed_id_stays_stale(r0: Registry, r1: Registry, r2: Registry, id: WindowId, fresh: WindowId)
    requires
        r0.remove_outcome(r1, id),
        r1.insert_outcome(r2, fresh),
    ensures
        !r2.live(id),
{
    if fresh == id {
        assert(id.index < r1.slots@.len());
    }
}

/// Reverse-lookup consistency: in a coherent registry both keys of a live
/// window map to its id, and once the removal has released them neither key
/// maps to anything.
pub proof fn lemma_reverse_lookup(r0: Registry, r1: Registry, w: WindowId)
    requires
        r0.coherent(),
        r0.live(w),
        r1.desktop_map@ == r0.desktop_map@.remove(r0.record(w).dk.0),
        r1.surface_map@ == r0.surface_map@.remove(r0.record(w).sk.0),
    ensures
        r0.desktop_map@.contains_key(r0.record(w).dk.0),
        r0.desktop_map@[r0.record(w).dk.0] == w,
        r0.surface_map@.contains_key(r0.record(w).sk.0),
        r0.surface_map@[r0.record(w).sk.0] == w,
        !r1.desktop_map@.contains_key(r0.record(w).dk.0),
        !r1.surface_map@.contains_key(r0.record(w).sk.0),
{
    assert(r0.occupied(w.index as int));
}

} // verus!
