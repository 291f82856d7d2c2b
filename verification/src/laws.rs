//! Laws of the tab registry that relate several operations: creation order,
//! and the round trip that cycling makes through the whole registry.

use vstd::prelude::*;

use crate::model::{
    StateView, untitled, has_id, ids_of, index_of, spec_create, spec_create_all, spec_cycle,
    cycle_n, cycle_trace, lemma_index_of_unique, lemma_upsert_wf,
};
use vstd::arithmetic::div_mod::{
    lemma_add_mod_noop, lemma_mod_add_multiples_vanish, lemma_mod_bound, lemma_mod_equivalence,
    lemma_small_mod,
};

verus! {

/// Creation preserves call order: starting from any well-formed state, a
/// sequence of creates under pairwise-distinct identifiers that are not yet
/// registry members leaves the registry holding the old identifiers followed
/// by the new ones, in call order, all still unique.
pub proof fn lemma_create_order(s: StateView, ids: Seq<Seq<char>>)
    requires
        s.wf(),
        forall|k: int| 0 <= k < ids.len() ==> !has_id(s.tabs, #[trigger] ids[k]),
        forall|k1: int, k2: int| 0 <= k1 < k2 < ids.len() ==> ids[k1] != ids[k2],
    ensures
        spec_create_all(s, ids).wf(),
        ids_of(spec_create_all(s, ids).tabs) == ids_of(s.tabs) + ids,
    decreases ids.len(),
{
    if ids.len() == 0 {
        assert(ids_of(s.tabs) + ids =~= ids_of(s.tabs));
    } else {
        let s1 = spec_create(s, ids[0]);
        lemma_upsert_wf(s.tabs, ids[0], untitled());
        assert(s1.tabs == s.tabs.push(crate::model::TabView { id: ids[0], title: untitled() }));
        assert forall|k: int| 0 <= k < ids.skip(1).len() implies !has_id(
            s1.tabs,
            #[trigger] ids.skip(1)[k],
        ) by {
            assert(ids.skip(1)[k] == ids[k + 1]);
            assert(!has_id(s.tabs, ids[k + 1]));
            assert(ids[0] != ids[k + 1]);
            if has_id(s1.tabs, ids[k + 1]) {
                let j = choose|j: int|
                    0 <= j < s1.tabs.len() && s1.tabs[j].id == ids[k + 1];
                if j < s.tabs.len() {
                    assert(s.tabs[j].id == ids[k + 1]);
                } else {
                    assert(s1.tabs[j].id == ids[0]);
                }
            }
        }
        assert forall|k1: int, k2: int| 0 <= k1 < k2 < ids.skip(1).len() implies ids.skip(1)[k1]
            != ids.skip(1)[k2] by {
            assert(ids.skip(1)[k1] == ids[k1 + 1]);
            assert(ids.skip(1)[k2] == ids[k2 + 1]);
        }
        lemma_create_order(s1, ids.skip(1));
        assert(ids_of(s1.tabs) + ids.skip(1) =~= ids_of(s.tabs) + ids);
    }
}

/// Creation order from startup: creating tabs under pairwise-distinct
/// identifiers in an empty editor leaves the registry order equal to the
/// call order, every identifier unique.
pub proof fn lemma_create_order_from_empty(ids: Seq<Seq<char>>)
    requires
        forall|k1: int, k2: int| 0 <= k1 < k2 < ids.len() ==> ids[k1] != ids[k2],
    ensures
        spec_create_all(StateView::empty(), ids).wf(),
        ids_of(spec_create_all(StateView::empty(), ids).tabs) == ids,
{
    lemma_create_order(StateView::empty(), ids);
    assert(ids_of(StateView::empty().tabs) + ids =~= ids);
}

/// After `k` cycles the registry and the log are untouched and the active
/// tab sits `k` places past the starting one, modulo the registry's length.
proof fn lemma_cycle_k(s: StateView, k: nat)
    requires
        s.wf(),
        s.tabs.len() > 0,
        has_id(s.tabs, s.active),
    ensures
        cycle_n(s, k).tabs == s.tabs,
        cycle_n(s, k).recent == s.recent,
        cycle_n(s, k).active == s.tabs[(index_of(s.tabs, s.active) + k) % (
        s.tabs.len() as int)].id,
    decreases k,
{
    let n = s.tabs.len() as int;
    let i0 = index_of(s.tabs, s.active);
    assert(0 <= i0 < n && s.tabs[i0].id == s.active);
    if k == 0 {
        lemma_small_mod(i0 as nat, n as nat);
    } else {
        lemma_cycle_k(s, (k - 1) as nat);
        let sk1 = cycle_n(s, (k - 1) as nat);
        let a = i0 + k - 1;
        let m = a % n;
        lemma_mod_bound(a, n);
        lemma_index_of_unique(s.tabs, s.tabs[m].id, m);
        assert(cycle_n(s, k) == spec_cycle(sk1));
        assert(spec_cycle(sk1).active == s.tabs[(m + 1) % n].id);
        lemma_add_mod_noop(a, 1, n);
        if n == 1 {
            lemma_mod_bound(m + 1, n);
            lemma_mod_bound(a + 1, n);
        } else {
            lemma_small_mod(1nat, n as nat);
        }
        assert((m + 1) % n == (i0 + k) % n);
    }
}

/// Cycling visits every tab exactly once and comes back: on a well-formed,
/// non-empty registry whose active identifier is a member, as many cycles as
/// there are tabs return identifiers that are pairwise distinct, cover every
/// registry member, and leave the state exactly as it started.
pub proof fn lemma_cycle_round_trip(s: StateView)
    requires
        s.wf(),
        s.tabs.len() > 0,
        has_id(s.tabs, s.active),
    ensures
        cycle_n(s, s.tabs.len()) == s,
        forall|k1: int, k2: int|
            0 <= k1 < k2 < s.tabs.len() ==> cycle_trace(s, s.tabs.len())[k1] != cycle_trace(
                s,
                s.tabs.len(),
            )[k2],
        forall|m: int|
            0 <= m < s.tabs.len() ==> exists|k: int|
                0 <= k < s.tabs.len() && #[trigger] cycle_trace(s, s.tabs.len())[k] == (
                #[trigger] s.tabs[m]).id,
{
    let n = s.tabs.len() as int;
    let i0 = index_of(s.tabs, s.active);
    assert(0 <= i0 < n && s.tabs[i0].id == s.active);

    // Back to the start after n cycles.
    lemma_cycle_k(s, s.tabs.len());
    lemma_mod_add_multiples_vanish(i0, n);
    lemma_small_mod(i0 as nat, n as nat);
    assert(cycle_n(s, s.tabs.len()).active == s.tabs[i0].id);
    assert(cycle_n(s, s.tabs.len()) =~= s);

    // The identifier returned by the (k+1)-th cycle.
    assert forall|k: int| 0 <= k < n implies cycle_trace(s, s.tabs.len())[k] == s.tabs[(i0 + k
        + 1) % n].id by {
        lemma_cycle_k(s, (k + 1) as nat);
    }

    // Distinct positions modulo n give distinct identifiers.
    assert forall|k1: int, k2: int| 0 <= k1 < k2 < n implies cycle_trace(s, s.tabs.len())[k1]
        != cycle_trace(s, s.tabs.len())[k2] by {
        let m1 = (i0 + k1 + 1) % n;
        let m2 = (i0 + k2 + 1) % n;
        lemma_mod_bound(i0 + k1 + 1, n);
        lemma_mod_bound(i0 + k2 + 1, n);
        if m1 == m2 {
            lemma_mod_equivalence(i0 + k2 + 1, i0 + k1 + 1, n);
            lemma_small_mod((k2 - k1) as nat, n as nat);
            assert(false);
        }
        if m1 < m2 {
            assert(s.tabs[m1].id != s.tabs[m2].id);
        } else {
            assert(s.tabs[m2].id != s.tabs[m1].id);
        }
    }

    // Every registry position is reached by some cycle.
    assert forall|m: int| 0 <= m < n implies exists|k: int|
        0 <= k < n && #[trigger] cycle_trace(s, s.tabs.len())[k] == (#[trigger] s.tabs[m]).id by {
        let k = (m - i0 - 1) % n;
        lemma_mod_bound(m - i0 - 1, n);
        lemma_add_mod_noop(i0 + 1, k, n);
        lemma_add_mod_noop(i0 + 1, m - i0 - 1, n);
        vstd::arithmetic::div_mod::lemma_mod_twice(m - i0 - 1, n);
        lemma_small_mod(m as nat, n as nat);
        assert((i0 + k + 1) % n == m);
        assert(cycle_trace(s, s.tabs.len())[k] == s.tabs[m].id);
    }
}

} // verus!
