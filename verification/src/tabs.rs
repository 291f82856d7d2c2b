//! The tab registry and its operations: creating, listing, renaming,
//! loading, cycling, deleting and closing tabs, plus the active-tab pointer
//! and the recent-files log.

use vstd::prelude::*;

use crate::model::{
    StateView, TabView, RecentView, untitled, has_id, ids_of, index_of, spec_create, spec_cycle,
    spec_upsert, lemma_index_of_unique, lemma_remove_wf, lemma_upsert_wf,
};

verus! {

/// A tab record: an opaque unique identifier and a display title.
#[derive(Clone, Debug, PartialEq, Eq)]
pub struct Tab {
    pub id: String,
    pub title: String,
}

impl View for Tab {
    type V = TabView;

    open spec fn view(&self) -> TabView {
        TabView { id: self.id@, title: self.title@ }
    }
}

/// A recent-files entry: a snapshot of a tab's identifier and title taken
/// when the tab was created.
#[derive(Clone, Debug, PartialEq, Eq)]
pub struct RecentFileInfo {
    pub id: String,
    pub title: String,
}

impl View for RecentFileInfo {
    type V = RecentView;

    open spec fn view(&self) -> RecentView {
        RecentView { id: self.id@, title: self.title@ }
    }
}

/// The abstract contents of a sequence of tab records.
pub open spec fn tab_views(v: Seq<Tab>) -> Seq<TabView> {
    v.map_values(|t: Tab| t@)
}

/// The abstract contents of a sequence of recent-files entries.
pub open spec fn recent_views(v: Seq<RecentFileInfo>) -> Seq<RecentView> {
    v.map_values(|r: RecentFileInfo| r@)
}

/// The editor's tab state: the insertion-ordered registry of tab records,
/// the active-tab pointer, and the append-only recent-files log.
pub struct EditorState {
    tabs: Vec<Tab>,
    current_open_tab: String,
    recent_files: Vec<RecentFileInfo>,
}

impl View for EditorState {
    type V = StateView;

    closed spec fn view(&self) -> StateView {
        StateView {
            tabs: tab_views(self.tabs@),
            active: self.current_open_tab@,
            recent: recent_views(self.recent_files@),
        }
    }
}

proof fn lemma_tab_views_push(v: Seq<Tab>, t: Tab)
    ensures
        tab_views(v.push(t)) == tab_views(v).push(t@),
{
    assert(tab_views(v.push(t)) =~= tab_views(v).push(t@));
}

proof fn lemma_tab_views_update(v: Seq<Tab>, i: int, t: Tab)
    requires
        0 <= i < v.len(),
    ensures
        tab_views(v.update(i, t)) == tab_views(v).update(i, t@),
{
    assert(tab_views(v.update(i, t)) =~= tab_views(v).update(i, t@));
}

proof fn lemma_tab_views_remove(v: Seq<Tab>, i: int)
    requires
        0 <= i < v.len(),
    ensures
        tab_views(v.remove(i)) == tab_views(v).remove(i),
{
    assert(tab_views(v.remove(i)) =~= tab_views(v).remove(i));
}

proof fn lemma_recent_views_push(v: Seq<RecentFileInfo>, r: RecentFileInfo)
    ensures
        recent_views(v.push(r)) == recent_views(v).push(r@),
{
    assert(recent_views(v.push(r)) =~= recent_views(v).push(r@));
}

/// The position of the record keyed `id`, or `None` if no record has it.
fn find_index(tabs: &Vec<Tab>, id: &String) -> (r: Option<usize>)
    ensures
        match r {
            Some(i) => i < tabs@.len() && tab_views(tabs@)[i as int].id == id@,
            None => !has_id(tab_views(tabs@), id@),
        },
{
    let mut k: usize = 0;
    while k < tabs.len()
        invariant
            k <= tabs@.len(),
            forall|j: int| 0 <= j < k ==> tab_views(tabs@)[j].id != id@,
        decreases tabs@.len() - k,
    {
        if tabs[k].id == *id {
            return Some(k);
        }
        k += 1;
    }
    None
}

impl EditorState {
    /// The state at startup: no tabs, an empty active pointer, an empty log.
    pub fn new() -> (r: EditorState)
        ensures
            r@ == StateView::empty(),
            r@.wf(),
    {
        let r = EditorState {
            tabs: Vec::new(),
            current_open_tab: String::new(),
            recent_files: Vec::new(),
        };
        proof {
            assert(r@.tabs =~= StateView::empty().tabs);
            assert(r@.recent =~= StateView::empty().recent);
            assert(r@ =~= StateView::empty());
        }
        r
    }

    /// Sets the active-tab pointer, validating nothing: callers are trusted
    /// to pass an identifier of a registry member.
    pub fn send_current_open_tab(&mut self, id: String)
        ensures
            final(self)@ == (StateView { active: id@, ..old(self)@ }),
    {
        self.current_open_tab = id;
    }

    /// Returns the active-tab pointer as currently stored, possibly stale or
    /// empty if never set.
    pub fn get_current_open_tab(&self) -> (r: Result<String, String>)
        ensures
            r matches Ok(id) && id@ == self@.active,
    {
        Ok(self.current_open_tab.clone())
    }

    /// Returns a snapshot of the full registry in insertion order.
    pub fn get_tabs(&self) -> (r: Result<Vec<Tab>, String>)
        ensures
            r matches Ok(v) && tab_views(v@) == self@.tabs,
    {
        let mut out: Vec<Tab> = Vec::new();
        proof {
            assert(tab_views(out@) =~= self@.tabs.subrange(0, 0));
        }
        let mut k: usize = 0;
        while k < self.tabs.len()
            invariant
                k <= self.tabs@.len(),
                self@.tabs == tab_views(self.tabs@),
                tab_views(out@) == self@.tabs.subrange(0, k as int),
            decreases self.tabs@.len() - k,
        {
            let t = &self.tabs[k];
            let copy = Tab { id: t.id.clone(), title: t.title.clone() };
            proof {
                lemma_tab_views_push(out@, copy);
                assert(tab_views(out@).push(copy@) =~= self@.tabs.subrange(0, k + 1));
            }
            out.push(copy);
            k += 1;
        }
        proof {
            assert(self@.tabs.subrange(0, self.tabs@.len() as int) =~= self@.tabs);
        }
        Ok(out)
    }

    /// Returns a snapshot of the recent-files log in append order.
    pub fn get_recent_files(&self) -> (r: Vec<RecentFileInfo>)
        ensures
            recent_views(r@) == self@.recent,
    {
        let mut out: Vec<RecentFileInfo> = Vec::new();
        proof {
            assert(recent_views(out@) =~= self@.recent.subrange(0, 0));
        }
        let mut k: usize = 0;
        while k < self.recent_files.len()
            invariant
                k <= self.recent_files@.len(),
                self@.recent == recent_views(self.recent_files@),
                recent_views(out@) == self@.recent.subrange(0, k as int),
            decreases self.recent_files@.len() - k,
        {
            let e = &self.recent_files[k];
            let copy = RecentFileInfo { id: e.id.clone(), title: e.title.clone() };
            proof {
                lemma_recent_views_push(out@, copy);
                assert(recent_views(out@).push(copy@) =~= self@.recent.subrange(0, k + 1));
            }
            out.push(copy);
            k += 1;
        }
        proof {
            assert(self@.recent.subrange(0, self.recent_files@.len() as int) =~= self@.recent);
        }
        out
    }

    /// Creates a tab keyed `id` with the default title: the record is
    /// upserted into the registry, a snapshot entry is appended to the
    /// recent-files log, and the active pointer is set to `id`.
    pub fn create_tab(&mut self, id: String) -> (r: Tab)
        requires
            old(self)@.wf(),
        ensures
            final(self)@ == spec_create(old(self)@, id@),
            final(self)@.wf(),
            r@ == (TabView { id: id@, title: untitled() }),
    {
        let tab = Tab { id: id.clone(), title: "Untitled".to_owned() };
        proof {
            lemma_upsert_wf(old(self)@.tabs, id@, untitled());
        }
        match find_index(&self.tabs, &id) {
            Some(i) => {
                let ghost tabs0 = self.tabs@;
                proof {
                    lemma_index_of_unique(tab_views(tabs0), id@, i as int);
                }
                let e = vstd::std_specs::vec::vec_index_mut(&mut self.tabs, i);
                *e = Tab { id: id.clone(), title: "Untitled".to_owned() };
                proof {
                    lemma_tab_views_update(tabs0, i as int, self.tabs@[i as int]);
                }
            },
            None => {
                let ghost tabs0 = self.tabs@;
                self.tabs.push(Tab { id: id.clone(), title: "Untitled".to_owned() });
                proof {
                    lemma_tab_views_push(tabs0, self.tabs@[tabs0.len() as int]);
                }
            },
        }
        let ghost recent0 = self.recent_files@;
        self.recent_files.push(RecentFileInfo { id: id.clone(), title: "Untitled".to_owned() });
        proof {
            lemma_recent_views_push(recent0, self.recent_files@[recent0.len() as int]);
        }
        self.current_open_tab = id;
        tab
    }

    /// Creates a tab under a freshly generated identifier, with the default
    /// title, and returns it.
    pub fn new_tab(&mut self) -> (r: Result<Tab, String>)
        requires
            old(self)@.wf(),
        ensures
            final(self)@.wf(),
            r matches Ok(t) && t@.title == untitled() && final(self)@ == spec_create(
                old(self)@,
                t@.id,
            ),
    {
        let id = fresh_tab_id();
        let tab = self.create_tab(id);
        Ok(tab)
    }

    /// Replaces the title of the tab keyed `id`, leaving order and membership
    /// untouched, and returns the updated record; fails if `id` is absent.
    pub fn update_tab_title(&mut self, id: String, title: String) -> (r: Result<Tab, String>)
        requires
            old(self)@.wf(),
        ensures
            final(self)@.wf(),
            ids_of(final(self)@.tabs) == ids_of(old(self)@.tabs),
            final(self)@.active == old(self)@.active,
            final(self)@.recent == old(self)@.recent,
            has_id(old(self)@.tabs, id@) ==> (r matches Ok(t) && t@ == (TabView {
                id: id@,
                title: title@,
            }) && final(self)@.tabs == old(self)@.tabs.update(
                index_of(old(self)@.tabs, id@),
                (TabView { id: id@, title: title@ }),
            )),
            !has_id(old(self)@.tabs, id@) ==> (r matches Err(m) && m@ == "Tab not found"@
                && final(self)@ == old(self)@),
    {
        match find_index(&self.tabs, &id) {
            Some(i) => {
                let ghost tabs0 = self.tabs@;
                proof {
                    lemma_index_of_unique(tab_views(tabs0), id@, i as int);
                }
                let e = vstd::std_specs::vec::vec_index_mut(&mut self.tabs, i);
                *e = Tab { id: id.clone(), title: title.clone() };
                proof {
                    lemma_tab_views_update(tabs0, i as int, self.tabs@[i as int]);
                    assert(ids_of(self@.tabs) =~= ids_of(tab_views(tabs0)));
                    assert forall|p: int, q: int|
                        0 <= p < q < self@.tabs.len() implies self@.tabs[p].id
                        != self@.tabs[q].id by {
                        assert(tab_views(tabs0)[p].id != tab_views(tabs0)[q].id);
                    }
                }
                Ok(Tab { id, title })
            },
            None => Err("Tab not found".to_owned()),
        }
    }

    /// Inserts or overwrites the tab keyed `id` with the given title: an
    /// existing key keeps its position, a new key is appended at the end.
    pub fn load_tab(&mut self, id: String, title: String) -> (r: Result<Tab, String>)
        requires
            old(self)@.wf(),
        ensures
            final(self)@.wf(),
            r matches Ok(t) && t@ == (TabView { id: id@, title: title@ }),
            final(self)@.tabs == spec_upsert(old(self)@.tabs, id@, title@),
            final(self)@.active == old(self)@.active,
            final(self)@.recent == old(self)@.recent,
            has_id(old(self)@.tabs, id@) ==> ids_of(final(self)@.tabs) == ids_of(old(self)@.tabs),
            !has_id(old(self)@.tabs, id@) ==> ids_of(final(self)@.tabs) == ids_of(
                old(self)@.tabs,
            ).push(id@),
    {
        proof {
            lemma_upsert_wf(old(self)@.tabs, id@, title@);
        }
        match find_index(&self.tabs, &id) {
            Some(i) => {
                let ghost tabs0 = self.tabs@;
                proof {
                    lemma_index_of_unique(tab_views(tabs0), id@, i as int);
                }
                let e = vstd::std_specs::vec::vec_index_mut(&mut self.tabs, i);
                *e = Tab { id: id.clone(), title: title.clone() };
                proof {
                    lemma_tab_views_update(tabs0, i as int, self.tabs@[i as int]);
                }
                Ok(Tab { id, title })
            },
            None => {
                let ghost tabs0 = self.tabs@;
                self.tabs.push(Tab { id: id.clone(), title: title.clone() });
                proof {
                    lemma_tab_views_push(tabs0, self.tabs@[tabs0.len() as int]);
                }
                Ok(Tab { id, title })
            },
        }
    }

    /// Advances the active tab to the next one in registry order, wrapping
    /// from last to first, and returns its identifier. Fails on an empty
    /// registry, and separately if the stored active identifier is not a
    /// registry member (a stale pointer).
    pub fn cycle_tabs(&mut self) -> (r: Result<String, String>)
        requires
            old(self)@.wf(),
        ensures
            final(self)@.wf(),
            old(self)@.tabs.len() == 0 ==> (r matches Err(m) && m@ == "No tabs available"@
                && final(self)@ == old(self)@),
            old(self)@.tabs.len() > 0 && !has_id(old(self)@.tabs, old(self)@.active) ==> (
            r matches Err(m) && m@ == "Failed to cycle tabs"@ && final(self)@ == old(self)@),
            old(self)@.tabs.len() > 0 && has_id(old(self)@.tabs, old(self)@.active) ==> (
            r matches Ok(next) && final(self)@ == spec_cycle(old(self)@)
                && next@ == final(self)@.active),
    {
        if self.tabs.len() == 0 {
            return Err("No tabs available".to_owned());
        }
        match find_index(&self.tabs, &self.current_open_tab) {
            Some(i) => {
                proof {
                    lemma_index_of_unique(self@.tabs, self@.active, i as int);
                }
                let next_index: usize = (i + 1) % self.tabs.len();
                let next_id = self.tabs[next_index].id.clone();
                self.current_open_tab = next_id.clone();
                Ok(next_id)
            },
            None => Err("Failed to cycle tabs".to_owned()),
        }
    }

    /// Removes the tab keyed `id` from the registry, shifting later tabs
    /// down, touching neither the active pointer nor the recent-files log;
    /// a no-op if `id` is absent.
    pub fn delete_tab(&mut self, id: String) -> (r: Result<(), String>)
        requires
            old(self)@.wf(),
        ensures
            r is Ok,
            final(self)@.wf(),
            final(self)@.active == old(self)@.active,
            final(self)@.recent == old(self)@.recent,
            !has_id(final(self)@.tabs, id@),
            has_id(old(self)@.tabs, id@) ==> final(self)@.tabs == old(self)@.tabs.remove(
                index_of(old(self)@.tabs, id@),
            ),
            !has_id(old(self)@.tabs, id@) ==> final(self)@ == old(self)@,
    {
        match find_index(&self.tabs, &id) {
            Some(i) => {
                let ghost tabs0 = self.tabs@;
                proof {
                    lemma_index_of_unique(tab_views(tabs0), id@, i as int);
                    lemma_remove_wf(tab_views(tabs0), i as int);
                    lemma_tab_views_remove(tabs0, i as int);
                }
                self.tabs.remove(i);
                Ok(())
            },
            None => Ok(()),
        }
    }

    /// Closes the tab keyed `id` and selects the replacement to focus: the
    /// tab that slides into the vacated position, or the new last tab when
    /// the closed one was last. The sole remaining tab is never closed (a
    /// successful no-op returning no replacement); an absent `id` on a larger
    /// registry is an error.
    pub fn close_tab(&mut self, id: String) -> (r: Result<Option<String>, String>)
        requires
            old(self)@.wf(),
        ensures
            final(self)@.wf(),
            old(self)@.tabs.len() <= 1 ==> (r matches Ok(o) && o is None
                && final(self)@ == old(self)@),
            old(self)@.tabs.len() >= 2 && !has_id(old(self)@.tabs, id@) ==> (r matches Err(m)
                && m@ == "Tab not found"@ && final(self)@ == old(self)@),
            old(self)@.tabs.len() >= 2 && has_id(old(self)@.tabs, id@) ==> ({
                let i = index_of(old(self)@.tabs, id@);
                let next = if i + 1 < old(self)@.tabs.len() {
                    old(self)@.tabs[i + 1].id
                } else {
                    old(self)@.tabs[i - 1].id
                };
                &&& final(self)@.tabs == old(self)@.tabs.remove(i)
                &&& final(self)@.active == next
                &&& final(self)@.recent == old(self)@.recent
                &&& r matches Ok(o) && o matches Some(n) && n@ == next
            }),
    {
        if self.tabs.len() <= 1 {
            return Ok(None);
        }
        match find_index(&self.tabs, &id) {
            Some(i) => {
                let ghost tabs0 = self.tabs@;
                proof {
                    lemma_index_of_unique(tab_views(tabs0), id@, i as int);
                    lemma_remove_wf(tab_views(tabs0), i as int);
                    lemma_tab_views_remove(tabs0, i as int);
                }
                let next_index: usize = if i + 1 < self.tabs.len() {
                    i + 1
                } else {
                    i - 1
                };
                let next_id = self.tabs[next_index].id.clone();
                self.tabs.remove(i);
                self.current_open_tab = next_id.clone();
                Ok(Some(next_id))
            },
            None => Err("Tab not found".to_owned()),
        }
    }
}

/// Relies on uuid::Uuid::new_v4 and its Display rendering: a freshly drawn
/// random (version 4) identifier in the 36-character hyphenated form.
#[verifier::external_body]
fn fresh_tab_id() -> (r: String)
    ensures
        r@.len() == 36,
{
    uuid::Uuid::new_v4().to_string()
}

} // verus!
