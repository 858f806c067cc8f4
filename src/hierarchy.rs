use vstd::prelude::*;
use crate::ids::WindowId;

verus! {

/// The parent relation of a set of windows: the parent of each window, or
/// `None` where the chain stops.
pub type ParentFn = spec_fn(WindowId) -> Option<WindowId>;

/// Following parents from `o` stops within `k` steps.
pub open spec fn chain_ends(pf: ParentFn, o: Option<WindowId>, k: nat) -> bool
    decreases k,
{
    match o {
        None => true,
        Some(w) => k > 0 && chain_ends(pf, pf(w), (k - 1) as nat),
    }
}

/// The window `j` steps up the chain from `o` (`o` itself for `j == 0`).
pub open spec fn nth_ancestor(pf: ParentFn, o: Option<WindowId>, j: nat) -> Option<WindowId>
    decreases j,
{
    if j == 0 {
        o
    } else {
        match o {
            None => None,
            Some(w) => nth_ancestor(pf, pf(w), (j - 1) as nat),
        }
    }
}

/// `c` lies on the chain that starts at `o` (`o` included).
pub open spec fn on_chain(pf: ParentFn, o: Option<WindowId>, c: WindowId) -> bool {
    exists|j: nat| nth_ancestor(pf, o, j) == Some(c)
}

/// The chain from `w` stops after finitely many steps.
pub open spec fn ends(pf: ParentFn, w: WindowId) -> bool {
    exists|k: nat| chain_ends(pf, Some(w), k)
}

/// No parent chain goes on forever, so none comes back to where it started.
pub open spec fn acyclic(pf: ParentFn) -> bool {
    forall|w: WindowId| ends(pf, w)
}

/// `pf2` differs from `pf1` at most by cutting chains short.
pub open spec fn only_cuts(pf1: ParentFn, pf2: ParentFn) -> bool {
    forall|w: WindowId| #[trigger] pf2(w) == pf1(w) || pf2(w) is None
}

/// `pf2` agrees with `pf1` on every window but `c`.
pub open spec fn agree_except(pf1: ParentFn, pf2: ParentFn, c: WindowId) -> bool {
    forall|w: WindowId| w != c ==> #[trigger] pf2(w) == pf1(w)
}

pub proof fn lemma_chain_mono(pf: ParentFn, o: Option<WindowId>, k: nat, k2: nat)
    requires
        chain_ends(pf, o, k),
        k <= k2,
    ensures
        chain_ends(pf, o, k2),
    decreases k,
{
    if let Some(w) = o {
        lemma_chain_mono(pf, pf(w), (k - 1) as nat, (k2 - 1) as nat);
    }
}

pub proof fn lemma_chain_cut(pf1: ParentFn, pf2: ParentFn, o: Option<WindowId>, k: nat)
    requires
        only_cuts(pf1, pf2),
        chain_ends(pf1, o, k),
    ensures
        chain_ends(pf2, o, k),
    decreases k,
{
    if let Some(w) = o {
        assert(k > 0);
        if pf2(w) is None {
            assert(chain_ends(pf2, pf2(w), (k - 1) as nat));
        } else {
            lemma_chain_cut(pf1, pf2, pf1(w), (k - 1) as nat);
        }
    }
}

pub proof fn lemma_acyclic_cut(pf1: ParentFn, pf2: ParentFn)
    requires
        acyclic(pf1),
        only_cuts(pf1, pf2),
    ensures
        acyclic(pf2),
{
    assert forall|w: WindowId| ends(pf2, w) by {
        assert(ends(pf1, w));
        let k = choose|k: nat| chain_ends(pf1, Some(w), k);
        lemma_chain_cut(pf1, pf2, Some(w), k);
    }
}

pub proof fn lemma_on_chain_unfold(pf: ParentFn, x: WindowId, c: WindowId)
    ensures
        on_chain(pf, Some(x), c) <==> (x == c || on_chain(pf, pf(x), c)),
{
    if on_chain(pf, Some(x), c) {
        let j = choose|j: nat| #[trigger] nth_ancestor(pf, Some(x), j) == Some(c);
        if j > 0 {
            assert(nth_ancestor(pf, pf(x), (j - 1) as nat) == Some(c));
        }
    }
    if on_chain(pf, pf(x), c) {
        let j = choose|j: nat| #[trigger] nth_ancestor(pf, pf(x), j) == Some(c);
        assert(nth_ancestor(pf, Some(x), j + 1) == Some(c));
    }
    if x == c {
        assert(nth_ancestor(pf, Some(x), 0) == Some(c));
    }
}

/// Off the chain of `o`, a change at `c` does not alter the chain of `o`.
pub proof fn lemma_chain_off(pf1: ParentFn, pf2: ParentFn, c: WindowId, o: Option<WindowId>, j: nat)
    requires
        agree_except(pf1, pf2, c),
        !on_chain(pf1, o, c),
    ensures
        nth_ancestor(pf2, o, j) == nth_ancestor(pf1, o, j),
    decreases j,
{
    if j > 0 {
        if let Some(w) = o {
            lemma_on_chain_unfold(pf1, w, c);
            lemma_chain_off(pf1, pf2, c, pf1(w), (j - 1) as nat);
        }
    }
}

proof fn lemma_ends_off(pf1: ParentFn, pf2: ParentFn, c: WindowId, o: Option<WindowId>, k: nat)
    requires
        agree_except(pf1, pf2, c),
        !on_chain(pf1, o, c),
        chain_ends(pf1, o, k),
    ensures
        chain_ends(pf2, o, k),
    decreases k,
{
    if let Some(w) = o {
        lemma_on_chain_unfold(pf1, w, c);
        lemma_ends_off(pf1, pf2, c, pf1(w), (k - 1) as nat);
    }
}

proof fn lemma_ends_link(
    pf1: ParentFn,
    pf2: ParentFn,
    c: WindowId,
    p: WindowId,
    kp: nat,
    o: Option<WindowId>,
    k: nat,
)
    requires
        agree_except(pf1, pf2, c),
        pf2(c) == Some(p),
        chain_ends(pf2, Some(p), kp),
        chain_ends(pf1, o, k),
    ensures
        chain_ends(pf2, o, k + kp + 1),
    decreases k,
{
    if let Some(w) = o {
        if w == c {
            lemma_chain_mono(pf2, Some(p), kp, (k + kp) as nat);
        } else {
            lemma_ends_link(pf1, pf2, c, p, kp, pf1(w), (k - 1) as nat);
        }
    }
}

/// Giving `c` the parent `p` keeps every chain finite when `c` is not on the
/// chain of `p`.
pub proof fn lemma_acyclic_link(pf1: ParentFn, pf2: ParentFn, c: WindowId, p: WindowId)
    requires
        acyclic(pf1),
        agree_except(pf1, pf2, c),
        pf2(c) == Some(p),
        !on_chain(pf1, Some(p), c),
    ensures
        acyclic(pf2),
{
    assert(ends(pf1, p));
    let kp = choose|k: nat| chain_ends(pf1, Some(p), k);
    lemma_ends_off(pf1, pf2, c, Some(p), kp);
    assert forall|w: WindowId| ends(pf2, w) by {
        assert(ends(pf1, w));
        let k = choose|k: nat| chain_ends(pf1, Some(w), k);
        lemma_ends_link(pf1, pf2, c, p, kp, Some(w), k);
    }
}

pub proof fn lemma_nth_none(pf: ParentFn, j: nat)
    ensures
        nth_ancestor(pf, None, j) is None,
    decreases j,
{
    if j > 0 {
        lemma_nth_none(pf, (j - 1) as nat);
    }
}

/// Walking `a` steps then `b` steps is walking `a + b` steps.
pub proof fn lemma_nth_add(pf: ParentFn, o: Option<WindowId>, a: nat, b: nat)
    ensures
        nth_ancestor(pf, nth_ancestor(pf, o, a), b) == nth_ancestor(pf, o, a + b),
    decreases a,
{
    if a > 0 {
        match o {
            None => {
                lemma_nth_none(pf, b);
                lemma_nth_none(pf, a + b);
            },
            Some(w) => {
                lemma_nth_add(pf, pf(w), (a - 1) as nat, b);
            },
        }
    }
}

/// A chain that stops within `k` steps is empty after `k` steps.
pub proof fn lemma_ends_nth(pf: ParentFn, o: Option<WindowId>, k: nat, j: nat)
    requires
        chain_ends(pf, o, k),
        k <= j,
    ensures
        nth_ancestor(pf, o, j) is None,
    decreases k,
{
    match o {
        None => {
            lemma_nth_none(pf, j);
        },
        Some(w) => {
            lemma_ends_nth(pf, pf(w), (k - 1) as nat, (j - 1) as nat);
        },
    }
}

proof fn lemma_ends_after(pf: ParentFn, o: Option<WindowId>, k: nat, j: nat)
    requires
        chain_ends(pf, o, k),
        j <= k,
    ensures
        chain_ends(pf, nth_ancestor(pf, o, j), (k - j) as nat),
    decreases j,
{
    if j > 0 {
        if let Some(w) = o {
            lemma_ends_after(pf, pf(w), (k - 1) as nat, (j - 1) as nat);
        }
    }
}

proof fn lemma_no_return(pf: ParentFn, w: WindowId, j: nat, k: nat)
    requires
        chain_ends(pf, Some(w), k),
        j >= 1,
    ensures
        nth_ancestor(pf, Some(w), j) != Some(w),
    decreases k,
{
    if k < j {
        lemma_ends_nth(pf, Some(w), k, j);
    } else {
        lemma_ends_after(pf, Some(w), k, j);
        if nth_ancestor(pf, Some(w), j) == Some(w) {
            lemma_no_return(pf, w, j, (k - j) as nat);
        }
    }
}

/// In an acyclic relation no chain of one or more steps leads back to its start.
pub proof fn lemma_acyclic_no_return(pf: ParentFn, w: WindowId, j: nat)
    requires
        acyclic(pf),
        j >= 1,
    ensures
        nth_ancestor(pf, Some(w), j) != Some(w),
{
    assert(ends(pf, w));
    let k = choose|k: nat| chain_ends(pf, Some(w), k);
    lemma_no_return(pf, w, j, k);
}

/// Cutting chains short never puts a window on a chain it was not on.
pub proof fn lemma_cut_nth(pf1: ParentFn, pf2: ParentFn, o: Option<WindowId>, j: nat)
    requires
        only_cuts(pf1, pf2),
    ensures
        nth_ancestor(pf2, o, j) is None || nth_ancestor(pf2, o, j) == nth_ancestor(pf1, o, j),
    decreases j,
{
    if j > 0 {
        if let Some(w) = o {
            if pf2(w) is None {
                lemma_nth_none(pf2, (j - 1) as nat);
            } else {
                lemma_cut_nth(pf1, pf2, pf1(w), (j - 1) as nat);
            }
        }
    }
}

pub proof fn lemma_cut_off_chain(pf1: ParentFn, pf2: ParentFn, o: Option<WindowId>, c: WindowId)
    requires
        only_cuts(pf1, pf2),
        !on_chain(pf1, o, c),
    ensures
        !on_chain(pf2, o, c),
{
    if on_chain(pf2, o, c) {
        let j = choose|j: nat| #[trigger] nth_ancestor(pf2, o, j) == Some(c);
        lemma_cut_nth(pf1, pf2, o, j);
    }
}

/// A change at `c`, off the chain of `o`, leaves `x` on that chain or off it.
pub proof fn lemma_off_chain_stable(pf1: ParentFn, pf2: ParentFn, c: WindowId, o: Option<WindowId>, x: WindowId)
    requires
        agree_except(pf1, pf2, c),
        !on_chain(pf1, o, c),
    ensures
        on_chain(pf2, o, x) == on_chain(pf1, o, x),
{
    if on_chain(pf2, o, x) {
        let j = choose|j: nat| #[trigger] nth_ancestor(pf2, o, j) == Some(x);
        lemma_chain_off(pf1, pf2, c, o, j);
    }
    if on_chain(pf1, o, x) {
        let j = choose|j: nat| #[trigger] nth_ancestor(pf1, o, j) == Some(x);
        lemma_chain_off(pf1, pf2, c, o, j);
    }
}

} // verus!
