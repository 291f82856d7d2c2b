//! Mathematical model of the tab registry: abstract views of the tab records
//! and the editor state, and the spec-level transitions that the executable
//! operations are proved to implement.

use vstd::prelude::*;

verus! {

/// Abstract value of a tab record: an identifier and a display title.
pub struct TabView {
    pub id: Seq<char>,
    pub title: Seq<char>,
}

/// Abstract value of a recent-files entry: a snapshot of a tab's identifier
/// and title at the moment it was created.
pub struct RecentView {
    pub id: Seq<char>,
    pub title: Seq<char>,
}

/// Abstract value of the whole editor state: the ordered tab registry, the
/// active-tab pointer, and the recent-files log.
#[verifier::ext_equal]
pub struct StateView {
    pub tabs: Seq<TabView>,
    pub active: Seq<char>,
    pub recent: Seq<RecentView>,
}

/// The default title given to a freshly created tab.
pub open spec fn untitled() -> Seq<char> {
    "Untitled"@
}

/// The identifiers of a registry, in registry order.
pub open spec fn ids_of(tabs: Seq<TabView>) -> Seq<Seq<char>> {
    tabs.map_values(|t: TabView| t.id)
}

/// No two positions of the registry hold the same identifier.
pub open spec fn unique_ids(tabs: Seq<TabView>) -> bool {
    forall|i: int, j: int| 0 <= i < j < tabs.len() ==> tabs[i].id != tabs[j].id
}

/// Some position of the registry holds `id`.
pub open spec fn has_id(tabs: Seq<TabView>, id: Seq<char>) -> bool {
    exists|i: int| 0 <= i < tabs.len() && tabs[i].id == id
}

/// The position holding `id` (meaningful only when `has_id` holds; under
/// `unique_ids` it is the one such position).
pub open spec fn index_of(tabs: Seq<TabView>, id: Seq<char>) -> int {
    choose|i: int| 0 <= i < tabs.len() && tabs[i].id == id
}

impl StateView {
    /// The registry invariant: identifiers are unique.
    pub open spec fn wf(self) -> bool {
        unique_ids(self.tabs)
    }

    /// The state at startup: no tabs, empty active pointer, empty log.
    pub open spec fn empty() -> StateView {
        StateView { tabs: Seq::empty(), active: Seq::empty(), recent: Seq::empty() }
    }
}

/// Insert-or-overwrite at key `id`: an existing key keeps its position and
/// takes the new title; a new key is appended at the end.
pub open spec fn spec_upsert(tabs: Seq<TabView>, id: Seq<char>, title: Seq<char>) -> Seq<TabView> {
    if has_id(tabs, id) {
        tabs.update(index_of(tabs, id), TabView { id, title })
    } else {
        tabs.push(TabView { id, title })
    }
}

/// The state after creating a tab with identifier `id`: the tab is upserted
/// with the default title, a matching entry is appended to the recent-files
/// log, and the active pointer is set to `id`.
pub open spec fn spec_create(s: StateView, id: Seq<char>) -> StateView {
    StateView {
        tabs: spec_upsert(s.tabs, id, untitled()),
        active: id,
        recent: s.recent.push(RecentView { id, title: untitled() }),
    }
}

/// The state after one cycle: the active pointer advances to the tab after
/// the current one in registry order, wrapping from last to first.
/// Meaningful only when the registry is non-empty and holds the active id.
pub open spec fn spec_cycle(s: StateView) -> StateView {
    StateView {
        tabs: s.tabs,
        active: s.tabs[(index_of(s.tabs, s.active) + 1) % (s.tabs.len() as int)].id,
        recent: s.recent,
    }
}

/// The state after `n` consecutive cycles.
pub open spec fn cycle_n(s: StateView, n: nat) -> StateView
    decreases n,
{
    if n == 0 {
        s
    } else {
        spec_cycle(cycle_n(s, (n - 1) as nat))
    }
}

/// The identifiers returned by `n` consecutive cycles, in call order: the
/// active pointer after the first cycle, after the second, and so on.
pub open spec fn cycle_trace(s: StateView, n: nat) -> Seq<Seq<char>> {
    Seq::new(n, |k: int| cycle_n(s, (k + 1) as nat).active)
}

/// Under unique identifiers, any position holding `id` is the position that
/// `index_of` picks.
pub proof fn lemma_index_of_unique(tabs: Seq<TabView>, id: Seq<char>, i: int)
    requires
        unique_ids(tabs),
        0 <= i < tabs.len(),
        tabs[i].id == id,
    ensures
        has_id(tabs, id),
        index_of(tabs, id) == i,
{
    assert(has_id(tabs, id));
    let j = index_of(tabs, id);
    assert(0 <= j < tabs.len() && tabs[j].id == id);
    if j < i {
        assert(tabs[j].id != tabs[i].id);
    }
    if i < j {
        assert(tabs[i].id != tabs[j].id);
    }
}

/// Upserting preserves identifier uniqueness; the upserted key lands at its
/// old position if present, else at the end; the identifier order gains the
/// key at the end exactly when it was absent.
pub proof fn lemma_upsert_wf(tabs: Seq<TabView>, id: Seq<char>, title: Seq<char>)
    requires
        unique_ids(tabs),
    ensures
        unique_ids(spec_upsert(tabs, id, title)),
        has_id(spec_upsert(tabs, id, title), id),
        index_of(spec_upsert(tabs, id, title), id) == (if has_id(tabs, id) {
            index_of(tabs, id)
        } else {
            tabs.len() as int
        }),
        ids_of(spec_upsert(tabs, id, title)) == (if has_id(tabs, id) {
            ids_of(tabs)
        } else {
            ids_of(tabs).push(id)
        }),
{
    let u = spec_upsert(tabs, id, title);
    if has_id(tabs, id) {
        let i = index_of(tabs, id);
        assert(0 <= i < tabs.len() && tabs[i].id == id);
        assert forall|p: int, q: int| 0 <= p < q < u.len() implies u[p].id != u[q].id by {
            assert(tabs[p].id != tabs[q].id);
        }
        lemma_index_of_unique(u, id, i);
        assert(ids_of(u) =~= ids_of(tabs));
    } else {
        assert forall|p: int, q: int| 0 <= p < q < u.len() implies u[p].id != u[q].id by {
            if q < tabs.len() {
                assert(tabs[p].id != tabs[q].id);
            } else {
                assert(u[q].id == id);
                assert(tabs[p].id != id);
            }
        }
        lemma_index_of_unique(u, id, tabs.len() as int);
        assert(ids_of(u) =~= ids_of(tabs).push(id));
    }
}

/// Removing a position preserves identifier uniqueness, and removing the
/// position that holds `id` makes `id` absent.
pub proof fn lemma_remove_wf(tabs: Seq<TabView>, i: int)
    requires
        unique_ids(tabs),
        0 <= i < tabs.len(),
    ensures
        unique_ids(tabs.remove(i)),
        !has_id(tabs.remove(i), tabs[i].id),
{
    let r = tabs.remove(i);
    assert forall|p: int, q: int| 0 <= p < q < r.len() implies r[p].id != r[q].id by {
        let p0: int = if p < i { p } else { p + 1 };
        let q0: int = if q < i { q } else { q + 1 };
        assert(r[p] == tabs[p0]);
        assert(r[q] == tabs[q0]);
        assert(tabs[p0].id != tabs[q0].id);
    }
    assert forall|j: int| 0 <= j < r.len() implies r[j].id != tabs[i].id by {
        let j0: int = if j < i { j } else { j + 1 };
        assert(r[j] == tabs[j0]);
        assert(j0 != i);
        assert(tabs[j0].id != tabs[i].id);
    }
}

/// The state after a sequence of creates, one per identifier, in order.
pub open spec fn spec_create_all(s: StateView, ids: Seq<Seq<char>>) -> StateView
    decreases ids.len(),
{
    if ids.len() == 0 {
        s
    } else {
        spec_create_all(spec_create(s, ids[0]), ids.skip(1))
    }
}

} // verus!
