use vstd::prelude::*;
use std::collections::HashMap;
use crate::ids::WindowId;

verus! {

broadcast use vstd::std_specs::hash::group_hash_axioms;

/// The map key of a window id: its index in the high half, its generation
/// in the low half.
pub open spec fn handle_key(id: WindowId) -> u64 {
    (id.index as int * 0x1_0000_0000 + id.gen as int) as u64
}

proof fn lemma_handle_key_injective(a: WindowId, b: WindowId)
    requires
        handle_key(a) == handle_key(b),
    ensures
        a == b,
{
    let ai = a.index as int;
    let ag = a.gen as int;
    let bi = b.index as int;
    let bg = b.gen as int;
    assert(ai * 0x1_0000_0000 + ag <= 0xffff_ffff_ffff_ffff) by (nonlinear_arith)
        requires
            0 <= ai <= 0xffff_ffff,
            0 <= ag <= 0xffff_ffff,
    ;
    assert(bi * 0x1_0000_0000 + bg <= 0xffff_ffff_ffff_ffff) by (nonlinear_arith)
        requires
            0 <= bi <= 0xffff_ffff,
            0 <= bg <= 0xffff_ffff,
    ;
    assert(ai == bi && ag == bg) by (nonlinear_arith)
        requires
            ai * 0x1_0000_0000 + ag == bi * 0x1_0000_0000 + bg,
            0 <= ag <= 0xffff_ffff,
            0 <= bg <= 0xffff_ffff,
            0 <= ai,
            0 <= bi,
    ;
}

fn key_of(id: WindowId) -> (k: u64)
    ensures
        k == handle_key(id),
{
    let i = id.index as u64;
    let g = id.gen as u64;
    assert(i * 0x1_0000_0000 + g <= 0xffff_ffff_ffff_ffff) by (nonlinear_arith)
        requires
            i <= 0xffff_ffff,
            g <= 0xffff_ffff,
    ;
    i * 0x1_0000_0000 + g
}

/// Compositor view handles (non-null addresses) attached to windows.
pub struct CompositorHandles {
    views: HashMap<u64, usize>,
}

impl CompositorHandles {
    /// The view attached to each window.
    pub closed spec fn view_map(self) -> Map<WindowId, usize> {
        Map::new(
            |id: WindowId| self.views@.contains_key(handle_key(id)),
            |id: WindowId| self.views@[handle_key(id)],
        )
    }

    pub fn new() -> (r: CompositorHandles)
        ensures
            r.view_map() == Map::<WindowId, usize>::empty(),
    {
        let r = CompositorHandles { views: HashMap::new() };
        proof {
            assert(r.view_map() =~= Map::<WindowId, usize>::empty());
        }
        r
    }

    /// Attaches `view` to `id`, replacing any view it had.
    pub fn set_view(&mut self, id: WindowId, view: usize)
        requires
            view != 0,
        ensures
            final(self).view_map() == old(self).view_map().insert(id, view),
    {
        let k = key_of(id);
        self.views.insert(k, view);
        proof {
            assert forall|w: WindowId| handle_key(w) == k implies w == id by {
                lemma_handle_key_injective(w, id);
            }
            assert(self.view_map() =~= old(self).view_map().insert(id, view));
        }
    }

    /// Detaches any view from `id`.
    pub fn remove_view(&mut self, id: WindowId)
        ensures
            final(self).view_map() == old(self).view_map().remove(id),
    {
        let k = key_of(id);
        self.views.remove(&k);
        proof {
            assert forall|w: WindowId| handle_key(w) == k implies w == id by {
                lemma_handle_key_injective(w, id);
            }
            assert(self.view_map() =~= old(self).view_map().remove(id));
        }
    }

    /// The view attached to `id`, if any.
    pub fn get_view(&self, id: WindowId) -> (r: Option<usize>)
        ensures
            r is Some <==> self.view_map().contains_key(id),
            r is Some ==> r->0 == self.view_map()[id],
    {
        match self.views.get(&key_of(id)) {
            Some(v) => Some(*v),
            None => None,
        }
    }
}

} // verus!
