//! Documents, their tabs and each tab's undo history ("checkpoints").
//!
//! A document holds one or more tabs, exactly one of which is active; every
//! tab keeps the serialized states it was saved in, newest last, and keeps at
//! most `MAX_CHECKPOINTS + 1` of them.

use vstd::prelude::*;
use std::collections::HashMap;
use std::collections::VecDeque;
use crate::text::push_decimal;
use crate::canvas::UiState;

verus! {

/// Once a tab holds more checkpoints than this, saving drops the oldest.
pub const MAX_CHECKPOINTS: usize = 7;

/// How many documents are kept in memory at a time.
pub const MAX_SAVED_DOCS_IN_MEMORY: usize = 7;

/// One tab of a document.
pub struct Tab {
    pub id: u128,
    pub name: String,
    pub checkpoints: VecDeque<String>,
    pub is_active: bool,
}

/// The mathematical value of a tab.
pub struct TabView {
    pub id: u128,
    pub name: Seq<char>,
    pub checkpoints: Seq<Seq<char>>,
    pub is_active: bool,
}

impl View for Tab {
    type V = TabView;

    open spec fn view(&self) -> TabView {
        TabView {
            id: self.id,
            name: self.name@,
            checkpoints: self.checkpoints@.map_values(|c: String| c@),
            is_active: self.is_active,
        }
    }
}

/// The history of a tab after saving `json` into it: the oldest entry goes
/// first when the history already holds more than `MAX_CHECKPOINTS`.
pub open spec fn history_after_save(history: Seq<Seq<char>>, json: Seq<char>) -> Seq<Seq<char>> {
    if history.len() > MAX_CHECKPOINTS {
        history.drop_first().push(json)
    } else {
        history.push(json)
    }
}

/// The checkpoint that loading a tab shows, and the history it leaves: none
/// for an empty history; the newest, removed from the history, when asked to
/// drop it and it is not the only one; else the newest, kept.
pub open spec fn history_after_load(history: Seq<Seq<char>>, drop_last: bool) -> (
    Option<Seq<char>>,
    Seq<Seq<char>>,
) {
    if history.len() == 0 {
        (None, history)
    } else if drop_last && history.len() > 1 {
        (Some(history.last()), history.drop_last())
    } else {
        (Some(history.last()), history)
    }
}

impl Tab {
    /// A fresh active tab with an empty history.
    pub fn new_active(id: u128, name: String) -> (tab: Tab)
        ensures
            tab@ == (TabView { id, name: name@, checkpoints: Seq::empty(), is_active: true }),
    {
        let tab = Tab { id, name, checkpoints: VecDeque::new(), is_active: true };
        proof {
            assert(tab@.checkpoints =~= Seq::<Seq<char>>::empty());
        }
        tab
    }

    /// A copy of this tab.
    pub fn duplicate(&self) -> (copy: Tab)
        ensures
            copy@ == self@,
    {
        let mut checkpoints: VecDeque<String> = VecDeque::new();
        let n = self.checkpoints.len();
        let mut i: usize = 0;
        while i < n
            invariant
                n == self.checkpoints@.len(),
                i <= n,
                checkpoints@ == self.checkpoints@.take(i as int),
            decreases n - i,
        {
            let c = self.checkpoints[i].clone();
            checkpoints.push_back(c);
            proof {
                assert(checkpoints@ =~= self.checkpoints@.take(i + 1));
            }
            i = i + 1;
        }
        proof {
            assert(self.checkpoints@.take(n as int) =~= self.checkpoints@);
        }
        let copy = Tab {
            id: self.id,
            name: self.name.clone(),
            checkpoints,
            is_active: self.is_active,
        };
        proof {
            assert(copy@.checkpoints =~= self@.checkpoints);
        }
        copy
    }

    /// Saves `json` as the newest checkpoint of this tab, dropping the
    /// oldest when the history already holds more than `MAX_CHECKPOINTS`.
    pub fn save_checkpoint(&mut self, json: String)
        ensures
            final(self)@ == (TabView {
                checkpoints: history_after_save(old(self)@.checkpoints, json@),
                ..old(self)@
            }),
    {
        let ghost old_seq = self.checkpoints@;
        if self.checkpoints.len() > MAX_CHECKPOINTS {
            self.checkpoints.pop_front();
        }
        let ghost mid = self.checkpoints@;
        self.checkpoints.push_back(json);
        proof {
            let v = |c: String| c@;
            if old_seq.len() > MAX_CHECKPOINTS {
                assert(mid == old_seq.subrange(1, old_seq.len() as int));
                assert(self.checkpoints@.map_values(v) =~= old_seq.map_values(
                    v,
                ).drop_first().push(json@));
            } else {
                assert(self.checkpoints@.map_values(v) =~= old_seq.map_values(v).push(json@));
            }
        }
    }

    /// The checkpoint to show when this tab is loaded; when `drop_last` is
    /// set and the history holds more than one entry, the newest is removed
    /// from the history as it is returned.
    pub fn take_checkpoint(&mut self, drop_last: bool) -> (json: Option<String>)
        ensures
            ({
                let (shown, rest) = history_after_load(old(self)@.checkpoints, drop_last);
                &&& json.is_some() == shown.is_some()
                &&& json.is_some() ==> json->0@ == shown->0
                &&& final(self)@ == (TabView { checkpoints: rest, ..old(self)@ })
            }),
    {
        let n = self.checkpoints.len();
        if n == 0 {
            return None;
        }
        if drop_last && n > 1 {
            let ghost old_seq = self.checkpoints@;
            let last = self.checkpoints.pop_back();
            proof {
                assert(self.checkpoints@.map_values(|c: String| c@) =~= old_seq.map_values(
                    |c: String| c@,
                ).drop_last());
            }
            last
        } else {
            Some(self.checkpoints[n - 1].clone())
        }
    }
}


/// A document: named tabs, of which one is active, and tags.
pub struct Doc {
    pub id: u128,
    pub name: String,
    pub tabs: Vec<Tab>,
    pub tags: Vec<String>,
}

/// The mathematical value of a document.
pub struct DocView {
    pub id: u128,
    pub name: Seq<char>,
    pub tabs: Seq<TabView>,
    pub tags: Seq<Seq<char>>,
}

impl View for Doc {
    type V = DocView;

    open spec fn view(&self) -> DocView {
        DocView {
            id: self.id,
            name: self.name@,
            tabs: self.tabs@.map_values(|t: Tab| t@),
            tags: self.tags@.map_values(|t: String| t@),
        }
    }
}

/// Whether saving with the given tab request lands in `tab`: the tab with
/// that id when one is named, else an active tab.
pub open spec fn is_save_target(tab: TabView, tab_id: Option<u128>) -> bool {
    match tab_id {
        Some(id) => tab.id == id,
        None => tab.is_active,
    }
}

/// The index of the first tab that a save lands in, or the number of tabs
/// when there is none.
pub open spec fn first_target(tabs: Seq<TabView>, tab_id: Option<u128>) -> int
    decreases tabs.len(),
{
    if tabs.len() == 0 {
        0
    } else if is_save_target(tabs[0], tab_id) {
        0
    } else {
        1 + first_target(tabs.drop_first(), tab_id)
    }
}

/// The tabs after a save of `json` under the given tab request: the first
/// target tab gets the checkpoint; without a target nothing changes.
pub open spec fn tabs_after_save(tabs: Seq<TabView>, tab_id: Option<u128>, json: Seq<char>) -> Seq<
    TabView,
> {
    let i = first_target(tabs, tab_id);
    if i < tabs.len() {
        tabs.update(
            i,
            TabView { checkpoints: history_after_save(tabs[i].checkpoints, json), ..tabs[i] },
        )
    } else {
        tabs
    }
}

/// `first_target` lies between zero and the number of tabs.
pub proof fn lemma_first_target_range(tabs: Seq<TabView>, tab_id: Option<u128>)
    ensures
        0 <= first_target(tabs, tab_id) <= tabs.len(),
    decreases tabs.len(),
{
    if tabs.len() > 0 && !is_save_target(tabs[0], tab_id) {
        lemma_first_target_range(tabs.drop_first(), tab_id);
    }
}

/// `first_target` is the least index of a target tab, or the length.
pub proof fn lemma_first_target(tabs: Seq<TabView>, tab_id: Option<u128>, i: int)
    requires
        0 <= i <= tabs.len(),
        forall|k: int| 0 <= k < i ==> !is_save_target(#[trigger] tabs[k], tab_id),
        i == tabs.len() || is_save_target(tabs[i], tab_id),
    ensures
        first_target(tabs, tab_id) == i,
    decreases i,
{
    if i > 0 {
        assert(!is_save_target(tabs[0], tab_id));
        let rest = tabs.drop_first();
        assert forall|k: int| 0 <= k < i - 1 implies !is_save_target(#[trigger] rest[k], tab_id) by {
            assert(rest[k] == tabs[k + 1]);
        }
        if i < tabs.len() {
            assert(rest[i - 1] == tabs[i]);
        }
        lemma_first_target(rest, tab_id, i - 1);
    }
}

/// The id of the last active tab, if any tab is active.
pub open spec fn last_active(tabs: Seq<TabView>) -> Option<u128>
    decreases tabs.len(),
{
    if tabs.len() == 0 {
        None
    } else if tabs.last().is_active {
        Some(tabs.last().id)
    } else {
        last_active(tabs.drop_last())
    }
}

/// The tabs with only the tab of the given id active (none when no id is
/// given).
pub open spec fn tabs_with_selected(tabs: Seq<TabView>, selected: Option<u128>) -> Seq<TabView> {
    tabs.map_values(|t: TabView| TabView { is_active: selected == Some(t.id), ..t })
}

/// The tabs after a new active tab with the given id is added: all others
/// inactive, the new one last, named after its position.
pub open spec fn tabs_after_add(tabs: Seq<TabView>, tab_id: u128) -> Seq<TabView> {
    tabs_with_selected(tabs, None).push(
        TabView {
            id: tab_id,
            name: tab_name((tabs.len() + 1) as nat),
            checkpoints: Seq::empty(),
            is_active: true,
        },
    )
}

/// The tabs after the active tab is deleted: the first active tab goes and
/// the last remaining tab becomes active; a lone tab is never deleted.
pub open spec fn tabs_after_delete(tabs: Seq<TabView>) -> Seq<TabView> {
    if tabs.len() > 1 {
        let rest = tabs.remove(first_target(tabs, None));
        rest.update(rest.len() - 1, TabView { is_active: true, ..rest.last() })
    } else {
        tabs
    }
}

/// The name of the `n`-th tab: `Tab n`.
pub open spec fn tab_name(n: nat) -> Seq<char> {
    seq!['T', 'a', 'b', ' '] + crate::text::decimal(n)
}

/// Exactly one tab is active.
pub open spec fn one_active(tabs: Seq<TabView>) -> bool {
    exists|i: int|
        0 <= i < tabs.len() && #[trigger] tabs[i].is_active && forall|k: int|
            0 <= k < tabs.len() && tabs[k].is_active ==> k == i
}

/// No two tabs share an id.
pub open spec fn distinct_tab_ids(tabs: Seq<TabView>) -> bool {
    forall|i: int, j: int| 0 <= i < j < tabs.len() ==> tabs[i].id != tabs[j].id
}

impl Doc {
    /// The tab to load when the document is opened: the last active one.
    pub fn tab_to_load(&self) -> (tab: Option<u128>)
        ensures
            tab == last_active(self@.tabs),
    {
        let mut found: Option<u128> = None;
        let mut i: usize = 0;
        while i < self.tabs.len()
            invariant
                i <= self.tabs.len(),
                found == last_active(self@.tabs.take(i as int)),
            decreases self.tabs.len() - i,
        {
            proof {
                assert(self@.tabs.take(i + 1).drop_last() =~= self@.tabs.take(i as int));
                assert(self@.tabs.take(i + 1).last() == self.tabs@[i as int]@);
            }
            if self.tabs[i].is_active {
                found = Some(self.tabs[i].id);
            }
            i = i + 1;
        }
        proof {
            assert(self@.tabs.take(self.tabs.len() as int) =~= self@.tabs);
        }
        found
    }

    /// A copy of this document.
    pub fn duplicate(&self) -> (copy: Doc)
        ensures
            copy@ == self@,
    {
        let mut tabs: Vec<Tab> = Vec::new();
        let mut i: usize = 0;
        while i < self.tabs.len()
            invariant
                i <= self.tabs.len(),
                tabs@.map_values(|t: Tab| t@) == self@.tabs.take(i as int),
            decreases self.tabs.len() - i,
        {
            let t = self.tabs[i].duplicate();
            let ghost before = tabs@;
            tabs.push(t);
            proof {
                assert(tabs@ == before.push(t));
                assert(tabs@.map_values(|t: Tab| t@) =~= before.map_values(|t: Tab| t@).push(t@));
                assert(self@.tabs.take(i + 1) =~= self@.tabs.take(i as int).push(
                    self.tabs@[i as int]@,
                ));
            }
            i = i + 1;
        }
        let mut tags: Vec<String> = Vec::new();
        let mut j: usize = 0;
        while j < self.tags.len()
            invariant
                j <= self.tags.len(),
                tags@ == self.tags@.take(j as int),
            decreases self.tags.len() - j,
        {
            tags.push(self.tags[j].clone());
            proof {
                assert(tags@ =~= self.tags@.take(j + 1));
            }
            j = j + 1;
        }
        proof {
            assert(self@.tabs.take(self.tabs.len() as int) =~= self@.tabs);
            assert(self.tags@.take(self.tags.len() as int) =~= self.tags@);
        }
        Doc { id: self.id, name: self.name.clone(), tabs, tags }
    }

    /// Saves `json` into the tab that the request names (`tab_id`), or into
    /// the first active tab when none is named.
    pub fn record_checkpoint(&mut self, tab_id: Option<u128>, json: String)
        ensures
            final(self)@ == (DocView {
                tabs: tabs_after_save(old(self)@.tabs, tab_id, json@),
                ..old(self)@
            }),
    {
        let ghost tabs0 = self@.tabs;
        let mut i: usize = 0;
        while i < self.tabs.len()
            invariant
                i <= self.tabs.len(),
                self@ == old(self)@,
                tabs0 == old(self)@.tabs,
                forall|k: int| 0 <= k < i ==> !is_save_target(#[trigger] tabs0[k], tab_id),
            decreases self.tabs.len() - i,
        {
            let hit = match tab_id {
                Some(id) => self.tabs[i].id == id,
                None => self.tabs[i].is_active,
            };
            assert(tabs0[i as int] == self.tabs@[i as int]@);
            if hit {
                proof {
                    lemma_first_target(tabs0, tab_id, i as int);
                }
                let ghost before = self.tabs@;
                self.tabs[i].save_checkpoint(json);
                proof {
                    assert forall|k: int| 0 <= k < self.tabs@.len() && k != i implies
                        #[trigger] self.tabs@[k] == before[k] by {}
                    assert(self@.tabs =~= tabs_after_save(tabs0, tab_id, json@));
                }
                return;
            }
            i = i + 1;
        }
        proof {
            lemma_first_target(tabs0, tab_id, i as int);
        }
    }

    /// Makes the tab with the given id the only active one (no tab when no
    /// id is given); returns the id of the tab that was active before (the
    /// last one, if several were).
    fn activate_only(&mut self, selected: Option<u128>) -> (previous: Option<u128>)
        ensures
            previous == last_active(old(self)@.tabs),
            final(self)@ == (DocView {
                tabs: tabs_with_selected(old(self)@.tabs, selected),
                ..old(self)@
            }),
    {
        let ghost tabs0 = self@.tabs;
        let mut previous: Option<u128> = None;
        let mut i: usize = 0;
        while i < self.tabs.len()
            invariant
                i <= self.tabs.len(),
                self.tabs.len() == tabs0.len(),
                self.id == old(self).id,
                self.name == old(self).name,
                self.tags == old(self).tags,
                previous == last_active(tabs0.take(i as int)),
                forall|k: int| i <= k < tabs0.len() ==> #[trigger] self@.tabs[k] == tabs0[k],
                forall|k: int|
                    0 <= k < i ==> #[trigger] self@.tabs[k] == (TabView {
                        is_active: selected == Some(tabs0[k].id),
                        ..tabs0[k]
                    }),
            decreases self.tabs.len() - i,
        {
            proof {
                assert(tabs0.take(i + 1).drop_last() =~= tabs0.take(i as int));
                assert(self@.tabs[i as int] == tabs0[i as int]);
            }
            if self.tabs[i].is_active {
                previous = Some(self.tabs[i].id);
            }
            let now_active = match selected {
                Some(id) => self.tabs[i].id == id,
                None => false,
            };
            let ghost before = self.tabs@;
            let ghost bv = self@.tabs;
            self.tabs[i].is_active = now_active;
            proof {
                assert forall|k: int| 0 <= k < self.tabs@.len() && k != i implies
                    #[trigger] self.tabs@[k] == before[k] by {}
                assert forall|k: int| i < k < tabs0.len() implies #[trigger] self@.tabs[k]
                    == tabs0[k] by {
                    assert(self.tabs@[k] == before[k]);
                    assert(self@.tabs[k] == self.tabs@[k]@);
                    assert(bv[k] == before[k]@);
                }
                assert forall|k: int| 0 <= k <= i implies #[trigger] self@.tabs[k] == (TabView {
                    is_active: selected == Some(tabs0[k].id),
                    ..tabs0[k]
                }) by {
                    assert(self@.tabs[k] == self.tabs@[k]@);
                    if k < i {
                        assert(self.tabs@[k] == before[k]);
                        assert(bv[k] == before[k]@);
                    }
                }
            }
            i = i + 1;
        }
        proof {
            assert(tabs0.take(tabs0.len() as int) =~= tabs0);
            assert(self@.tabs =~= tabs_with_selected(tabs0, selected));
        }
        previous
    }

    /// Makes the tab with id `selected` the only active tab; returns the id
    /// of the tab that was active before (the last one, if several were),
    /// whose state is to be saved.
    pub fn select_tab(&mut self, selected: u128) -> (previous: Option<u128>)
        ensures
            previous == last_active(old(self)@.tabs),
            final(self)@ == (DocView {
                tabs: tabs_with_selected(old(self)@.tabs, Some(selected)),
                ..old(self)@
            }),
    {
        self.activate_only(Some(selected))
    }

    /// Adds a new active tab with the given id, named `Tab n` where `n` is
    /// its position; every other tab becomes inactive. Returns the id of the
    /// tab that was active before, whose state is to be saved.
    pub fn add_tab(&mut self, tab_id: u128) -> (previous: Option<u128>)
        requires
            old(self).tabs.len() < u128::MAX,
        ensures
            previous == last_active(old(self)@.tabs),
            final(self)@ == (DocView { tabs: tabs_after_add(old(self)@.tabs, tab_id), ..old(self)@ }),
    {
        let previous = self.activate_only(None);
        let ghost mid = self.tabs@;
        let mut name = String::new();
        let count = self.tabs.len();
        let n: u128 = count as u128 + 1;
        crate::text::push_str(&mut name, "Tab ");
        push_decimal(&mut name, n);
        proof {
            reveal_strlit("Tab ");
            assert(name@ =~= tab_name(n as nat));
        }
        let tab = Tab::new_active(tab_id, name);
        self.tabs.push(tab);
        proof {
            assert(self.tabs@ == mid.push(tab));
            assert(self@.tabs =~= tabs_after_add(old(self)@.tabs, tab_id));
        }
        previous
    }

    /// The id of the first active tab.
    pub fn active_tab_id(&self) -> (active: Option<u128>)
        ensures
            ({
                let i = first_target(self@.tabs, None);
                &&& active.is_some() == (i < self@.tabs.len())
                &&& active.is_some() ==> active->0 == self@.tabs[i].id
            }),
    {
        let mut i: usize = 0;
        while i < self.tabs.len()
            invariant
                i <= self.tabs.len(),
                forall|k: int| 0 <= k < i ==> !is_save_target(#[trigger] self@.tabs[k], None),
            decreases self.tabs.len() - i,
        {
            assert(self@.tabs[i as int] == self.tabs@[i as int]@);
            if self.tabs[i].is_active {
                proof {
                    lemma_first_target(self@.tabs, None, i as int);
                }
                return Some(self.tabs[i].id);
            }
            i = i + 1;
        }
        proof {
            lemma_first_target(self@.tabs, None, i as int);
        }
        None
    }

    /// Deletes the active tab and activates the last remaining one; a
    /// document keeps its last tab. Returns whether a tab was deleted.
    pub fn delete_active_tab(&mut self) -> (deleted: bool)
        requires
            old(self).tabs.len() > 1 ==> first_target(old(self)@.tabs, None) < old(self).tabs.len(),
        ensures
            deleted == (old(self).tabs.len() > 1),
            final(self)@ == (DocView { tabs: tabs_after_delete(old(self)@.tabs), ..old(self)@ }),
    {
        if self.tabs.len() <= 1 {
            return false;
        }
        let ghost tabs0 = self@.tabs;
        let mut i: usize = 0;
        while i < self.tabs.len() && !self.tabs[i].is_active
            invariant
                i <= self.tabs.len(),
                self@ == old(self)@,
                tabs0 == old(self)@.tabs,
                first_target(tabs0, None) < tabs0.len(),
                forall|k: int| 0 <= k < i ==> !is_save_target(#[trigger] tabs0[k], None),
            decreases self.tabs.len() - i,
        {
            assert(tabs0[i as int] == self.tabs@[i as int]@);
            i = i + 1;
        }
        assert(i < self.tabs.len() ==> tabs0[i as int] == self.tabs@[i as int]@);
        if i == self.tabs.len() {
            proof {
                lemma_first_target(tabs0, None, i as int);
            }
            return false;
        }
        proof {
            lemma_first_target(tabs0, None, i as int);
        }
        let ghost before = self.tabs@;
        self.tabs.remove(i);
        let last = self.tabs.len() - 1;
        let ghost mid = self.tabs@;
        self.tabs[last].is_active = true;
        proof {
            assert(mid == before.remove(i as int));
            let rest = tabs0.remove(i as int);
            assert(mid.map_values(|t: Tab| t@) =~= rest);
            assert forall|k: int| 0 <= k < last implies #[trigger] self.tabs@[k] == mid[k] by {}
            assert(self@.tabs =~= rest.update(
                rest.len() - 1,
                TabView { is_active: true, ..rest.last() },
            ));
        }
        true
    }
}


/// A tab's history never grows past `MAX_CHECKPOINTS + 1` entries, and a
/// save makes `json` the newest entry.
pub proof fn lemma_history_bounded(history: Seq<Seq<char>>, json: Seq<char>)
    requires
        history.len() <= MAX_CHECKPOINTS + 1,
    ensures
        history_after_save(history, json).len() <= MAX_CHECKPOINTS + 1,
        history_after_save(history, json).last() == json,
{
}

/// Loading a tab right after a save shows what was saved; loading with the
/// newest entry dropped also removes it, which undoes the save whenever it
/// did not push out the oldest entry.
pub proof fn lemma_load_after_save(history: Seq<Seq<char>>, json: Seq<char>)
    ensures
        history_after_load(history_after_save(history, json), false) == (
            Some(json),
            history_after_save(history, json),
        ),
        history.len() > 0 ==> history_after_load(history_after_save(history, json), true).0
            == Some(json),
        0 < history.len() <= MAX_CHECKPOINTS ==> history_after_load(
            history_after_save(history, json),
            true,
        ).1 == history,
{
    if 0 < history.len() <= MAX_CHECKPOINTS {
        assert(history.push(json).drop_last() =~= history);
    }
}

/// Selecting an existing tab among tabs with distinct ids leaves exactly
/// that tab active.
pub proof fn lemma_select_tab_one_active(tabs: Seq<TabView>, selected: u128)
    requires
        distinct_tab_ids(tabs),
        exists|k: int| 0 <= k < tabs.len() && #[trigger] tabs[k].id == selected,
    ensures
        one_active(tabs_with_selected(tabs, Some(selected))),
        distinct_tab_ids(tabs_with_selected(tabs, Some(selected))),
{
    let after = tabs_with_selected(tabs, Some(selected));
    let k = choose|k: int| 0 <= k < tabs.len() && #[trigger] tabs[k].id == selected;
    assert(after[k].is_active);
    assert forall|j: int| 0 <= j < after.len() && after[j].is_active implies j == k by {
        assert(tabs[j].id == selected);
    }
}

/// After adding a tab, the new tab is the only active one.
pub proof fn lemma_add_tab_one_active(tabs: Seq<TabView>, tab_id: u128)
    ensures
        one_active(tabs_after_add(tabs, tab_id)),
        tabs_after_add(tabs, tab_id).len() == tabs.len() + 1,
{
    let after = tabs_after_add(tabs, tab_id);
    let last = tabs.len() as int;
    assert(after[last].is_active);
    assert forall|j: int| 0 <= j < after.len() && after[j].is_active implies j == last by {
        if j < last {
            assert(after[j] == tabs_with_selected(tabs, None)[j]);
        }
    }
}

/// Deleting the active tab of a document with several tabs and one active
/// tab leaves one tab fewer, exactly one of them active.
pub proof fn lemma_delete_tab_one_active(tabs: Seq<TabView>)
    requires
        tabs.len() > 1,
        one_active(tabs),
    ensures
        one_active(tabs_after_delete(tabs)),
        tabs_after_delete(tabs).len() == tabs.len() - 1,
{
    let a = choose|i: int|
        0 <= i < tabs.len() && #[trigger] tabs[i].is_active && forall|k: int|
            0 <= k < tabs.len() && tabs[k].is_active ==> k == i;
    assert forall|k: int| 0 <= k < a implies !is_save_target(#[trigger] tabs[k], None) by {}
    lemma_first_target(tabs, None, a);
    let rest = tabs.remove(a);
    let after = tabs_after_delete(tabs);
    let last = rest.len() - 1;
    assert(after[last].is_active);
    assert forall|j: int| 0 <= j < after.len() && after[j].is_active implies j == last by {
        if j < last {
            if j < a {
                assert(rest[j] == tabs[j]);
            } else {
                assert(rest[j] == tabs[j + 1]);
            }
        }
    }
}


/// The documents of a map, by value.
pub open spec fn docs_view(docs: Map<u128, Doc>) -> Map<u128, DocView> {
    docs.map_values(|d: Doc| d@)
}

/// `after` is `before` with `doc` stored under `doc_id`, after one other
/// document was dropped if `before` already held `MAX_SAVED_DOCS_IN_MEMORY`
/// documents or more. Which document is dropped is not fixed.
pub open spec fn brought_in(
    before: Map<u128, DocView>,
    after: Map<u128, DocView>,
    doc_id: u128,
    doc: DocView,
) -> bool {
    if before.len() < MAX_SAVED_DOCS_IN_MEMORY {
        after == before.insert(doc_id, doc)
    } else {
        exists|victim: u128|
            #[trigger] before.contains_key(victim) && after == before.remove(victim).insert(
                doc_id,
                doc,
            )
    }
}


/// The stored documents, by value, when they could be read.
pub open spec fn stored_view(stored: Option<&HashMap<u128, Doc>>) -> Option<Map<u128, DocView>> {
    match stored {
        Some(s) => Some(docs_view(s@)),
        None => None,
    }
}

/// The documents in memory after asking for `doc_id`: unchanged when it is
/// there already or nothing could be read from storage; else it is brought
/// in from storage.
pub open spec fn load_outcome(
    before: Map<u128, DocView>,
    after: Map<u128, DocView>,
    doc_id: u128,
    stored: Option<Map<u128, DocView>>,
) -> bool {
    if before.contains_key(doc_id) || stored is None {
        after == before
    } else {
        brought_in(before, after, doc_id, stored->0[doc_id])
    }
}

/// The documents with `json` saved into document `target` under the given
/// tab request.
pub open spec fn with_checkpoint(
    docs: Map<u128, DocView>,
    target: u128,
    tab_id: Option<u128>,
    json: Seq<char>,
) -> Map<u128, DocView> {
    docs.insert(
        target,
        DocView { tabs: tabs_after_save(docs[target].tabs, tab_id, json), ..docs[target] },
    )
}

/// The first id in `ids` other than `removed`.
pub open spec fn first_other(ids: Seq<u128>, removed: u128) -> Option<u128>
    decreases ids.len(),
{
    if ids.len() == 0 {
        None
    } else if ids[0] != removed {
        Some(ids[0])
    } else {
        first_other(ids.drop_first(), removed)
    }
}

/// The serialized state of an empty tab.
pub const EMPTY_CHECKPOINT: &'static str = "{\"arrows\":[],\"images\":{},\"nodes\":[]}";

/// The name of a new document.
pub const UNTITLED: &'static str = "Untitled";

/// A new document as the editor creates it: named `Untitled`, with one
/// active tab `Tab 1` whose history holds the empty state.
pub open spec fn fresh_doc(doc_id: u128, tab_id: u128) -> DocView {
    DocView {
        id: doc_id,
        name: UNTITLED@,
        tabs: seq![
            TabView {
                id: tab_id,
                name: tab_name(1),
                checkpoints: seq![EMPTY_CHECKPOINT@],
                is_active: true,
            },
        ],
        tags: Seq::empty(),
    }
}


/// The lower-case form of a text (`str::to_lowercase`).
pub uninterp spec fn lowercase(s: Seq<char>) -> Seq<char>;

/// Lower-cases a text with `str::to_lowercase`; the contract names the
/// result and states nothing of Unicode case mapping.
#[verifier::external_body]
fn to_lowercase(s: &str) -> (lower: String)
    ensures
        lower@ == lowercase(s@),
{
    s.to_lowercase()
}

/// Whether `a` comes no later than `b` in lexicographic order of code
/// points (the order of `str` comparison).
pub open spec fn text_le(a: Seq<char>, b: Seq<char>) -> bool
    decreases a.len(),
{
    if a.len() == 0 {
        true
    } else if b.len() == 0 {
        false
    } else if (a[0] as u32) != (b[0] as u32) {
        (a[0] as u32) < (b[0] as u32)
    } else {
        text_le(a.drop_first(), b.drop_first())
    }
}

/// Two texts are always ordered one way or the other.
pub proof fn lemma_text_le_total(a: Seq<char>, b: Seq<char>)
    ensures
        text_le(a, b) || text_le(b, a),
    decreases a.len(),
{
    if a.len() > 0 && b.len() > 0 && (a[0] as u32) == (b[0] as u32) {
        lemma_text_le_total(a.drop_first(), b.drop_first());
    }
}

/// Whether `a` and `b` first differ at position `i`, where `a` holds the
/// smaller code point.
pub open spec fn first_smaller_at(a: Seq<char>, b: Seq<char>, i: int) -> bool {
    &&& 0 <= i < a.len()
    &&& i < b.len()
    &&& a.take(i) == b.take(i)
    &&& (a[i] as u32) < (b[i] as u32)
}

/// The order of names is the lexicographic order of their code points (as
/// `str` compares): `a` comes no later than `b` exactly when `a` is a prefix
/// of `b` or, at the first position where they differ, `a` holds the
/// smaller code point.
pub proof fn lemma_text_le_is_lexicographic(a: Seq<char>, b: Seq<char>)
    ensures
        text_le(a, b) <==> (a.is_prefix_of(b) || exists|i: int| first_smaller_at(a, b, i)),
    decreases a.len(),
{
    if a.len() == 0 {
        assert(a =~= b.subrange(0, 0));
    } else if b.len() == 0 {
        assert forall|i: int| !first_smaller_at(a, b, i) by {}
    } else if (a[0] as u32) != (b[0] as u32) {
        if (a[0] as u32) < (b[0] as u32) {
            assert(a.take(0) =~= b.take(0));
            assert(first_smaller_at(a, b, 0));
        } else {
            if a.len() <= b.len() {
                assert(a[0] != b.subrange(0, a.len() as int)[0]);
            }
            assert forall|i: int| !first_smaller_at(a, b, i) by {
                if 0 < i && i < a.len() && i < b.len() && a.take(i) == b.take(i) {
                    assert(a.take(i)[0] == b.take(i)[0]);
                }
            }
        }
    } else {
        let (a1, b1) = (a.drop_first(), b.drop_first());
        lemma_text_le_is_lexicographic(a1, b1);
        vstd::utf8::char_u32_cast(a[0], a[0] as u32);
        vstd::utf8::char_u32_cast(b[0], b[0] as u32);
        assert(a[0] == b[0]);
        if a.is_prefix_of(b) {
            assert(a1 =~= b1.subrange(0, a1.len() as int));
        }
        if a1.is_prefix_of(b1) {
            assert forall|k: int| 0 <= k < a.len() implies a[k] == b.subrange(0, a.len() as int)[k] by {
                if k > 0 {
                    assert(a[k] == a1[k - 1]);
                    assert(a1[k - 1] == b1.subrange(0, a1.len() as int)[k - 1]);
                }
            }
            assert(a =~= b.subrange(0, a.len() as int));
        }
        assert forall|i: int| first_smaller_at(a, b, i) implies first_smaller_at(a1, b1, i - 1) by {
            if i == 0 {
                assert(false);
            }
            assert(a1.take(i - 1) =~= a.take(i).drop_first());
            assert(b1.take(i - 1) =~= b.take(i).drop_first());
        }
        assert forall|j: int| first_smaller_at(a1, b1, j) implies first_smaller_at(a, b, j + 1) by {
            assert(a.take(j + 1) =~= seq![a[0]] + a1.take(j));
            assert(b.take(j + 1) =~= seq![b[0]] + b1.take(j));
        }
    }
}

/// A name comes before every longer name that begins with it, and never
/// after it.
pub proof fn lemma_text_le_prefix_first(a: Seq<char>, s: Seq<char>)
    requires
        s.len() > 0,
    ensures
        text_le(a, a + s),
        !text_le(a + s, a),
{
    let ab = a + s;
    lemma_text_le_is_lexicographic(a, ab);
    lemma_text_le_is_lexicographic(ab, a);
    assert(a =~= ab.subrange(0, a.len() as int));
    assert forall|i: int| !first_smaller_at(ab, a, i) by {
        if 0 <= i < a.len() {
            assert(ab[i] == a[i]);
        }
    }
}

fn text_le_exec(a: &Vec<char>, b: &Vec<char>) -> (le: bool)
    ensures
        le == text_le(a@, b@),
{
    let mut i: usize = 0;
    proof {
        assert(a@.skip(0) =~= a@);
        assert(b@.skip(0) =~= b@);
    }
    while i < a.len() && i < b.len() && (a[i] as u32) == (b[i] as u32)
        invariant
            i <= a.len(),
            i <= b.len(),
            text_le(a@, b@) == text_le(a@.skip(i as int), b@.skip(i as int)),
        decreases a.len() - i,
    {
        proof {
            assert(a@.skip(i as int).drop_first() =~= a@.skip(i + 1));
            assert(b@.skip(i as int).drop_first() =~= b@.skip(i + 1));
        }
        i = i + 1;
    }
    proof {
        assert(a@.skip(i as int).len() == a.len() - i);
        assert(b@.skip(i as int).len() == b.len() - i);
        if i < a.len() && i < b.len() {
            assert(a@.skip(i as int)[0] == a@[i as int]);
            assert(b@.skip(i as int)[0] == b@[i as int]);
        }
    }
    if i == a.len() {
        true
    } else if i == b.len() {
        false
    } else {
        (a[i] as u32) < (b[i] as u32)
    }
}

/// An entry of the document list.
pub struct ListItem {
    pub id: u128,
    pub name: String,
    /// The entry of the open document is highlighted.
    pub highlighted: bool,
}

/// The document list built at start-up and the document to load.
pub struct DocListSetup {
    pub items: Vec<ListItem>,
    pub load: Option<u128>,
}

struct SortEntry {
    key: Vec<char>,
    item: ListItem,
}

/// Whether the entries are in order of their lower-case names, each no
/// later than the next.
pub open spec fn ordered_by_lowercase_name(items: Seq<ListItem>) -> bool {
    forall|i: int|
        0 <= i < items.len() - 1 ==> text_le(
            lowercase(#[trigger] items[i].name@),
            lowercase(items[i + 1].name@),
        )
}

/// `items` lists exactly the documents of `names`: one entry per document,
/// with its stored name, highlighted when it is `current`.
pub open spec fn lists_exactly(
    items: Seq<ListItem>,
    names: Map<u128, String>,
    current: Option<u128>,
) -> bool {
    &&& items.len() == names.len()
    &&& forall|i: int|
        0 <= i < items.len() ==> {
            &&& names.contains_key(#[trigger] items[i].id)
            &&& items[i].name@ == names[items[i].id]@
            &&& items[i].highlighted == (current == Some(items[i].id))
        }
    &&& forall|k: u128| #[trigger]
        names.contains_key(k) ==> exists|i: int| 0 <= i < items.len() && items[i].id == k
}

fn insert_sorted(entries: &mut Vec<SortEntry>, e: SortEntry)
    requires
        forall|i: int| 0 <= i < old(entries).len() ==> #[trigger] old(entries)@[i].key@ == lowercase(old(entries)@[i].item.name@),
        e.key@ == lowercase(e.item.name@),
        forall|i: int|
            0 <= i < old(entries).len() - 1 ==> text_le(
                #[trigger] old(entries)@[i].key@,
                old(entries)@[i + 1].key@,
            ),
    ensures
        exists|p: int| 0 <= p <= old(entries).len() && final(entries)@ == old(entries)@.insert(p, e),
        forall|i: int| 0 <= i < final(entries).len() ==> #[trigger] final(entries)@[i].key@ == lowercase(final(entries)@[i].item.name@),
        forall|i: int|
            0 <= i < final(entries).len() - 1 ==> text_le(
                #[trigger] final(entries)@[i].key@,
                final(entries)@[i + 1].key@,
            ),
{
    let mut p: usize = 0;
    while p < entries.len() && text_le_exec(&entries[p].key, &e.key)
        invariant
            p <= entries.len(),
            entries@ == old(entries)@,
            forall|k: int| 0 <= k < p ==> text_le(#[trigger] entries@[k].key@, e.key@),
        decreases entries.len() - p,
    {
        p = p + 1;
    }
    proof {
        if p < entries.len() {
            lemma_text_le_total(entries@[p as int].key@, e.key@);
        }
    }
    let ghost before = entries@;
    entries.insert(p, e);
    proof {
        assert(entries@ == before.insert(p as int, e));
        assert forall|i: int| 0 <= i < entries.len() - 1 implies text_le(
            #[trigger] entries@[i].key@,
            entries@[i + 1].key@,
        ) by {
            if i < p as int - 1 {
                assert(entries@[i] == before[i] && entries@[i + 1] == before[i + 1]);
            } else if i == p as int - 1 {
                assert(entries@[i] == before[i]);
            } else if i == p as int {
            } else {
                assert(entries@[i] == before[i - 1] && entries@[i + 1] == before[i]);
            }
        }
        assert forall|i: int| 0 <= i < entries.len() implies #[trigger] entries@[i].key@ == lowercase(entries@[i].item.name@) by {
            if i < p {
                assert(entries@[i] == before[i]);
            } else if i > p {
                assert(entries@[i] == before[i - 1]);
            }
        }
    }
}


/// A new document as the editor creates it at first start: named
/// `Untitled`, with one active tab `Tab 1` and no history yet.
pub open spec fn blank_doc(doc_id: u128, tab_id: u128) -> DocView {
    DocView {
        id: doc_id,
        name: UNTITLED@,
        tabs: seq![
            TabView { id: tab_id, name: tab_name(1), checkpoints: Seq::empty(), is_active: true },
        ],
        tags: Seq::empty(),
    }
}

spec fn listed(s: Seq<SortEntry>, k: u128) -> bool {
    exists|i: int| 0 <= i < s.len() && s[i].item.id == k
}

proof fn lemma_insert_keeps_members(s: Seq<SortEntry>, p: int, e: SortEntry)
    requires
        0 <= p <= s.len(),
    ensures
        forall|k: u128| #[trigger] listed(s, k) ==> listed(s.insert(p, e), k),
        listed(s.insert(p, e), e.item.id),
{
    assert forall|k: u128| #[trigger] listed(s, k) implies listed(s.insert(p, e), k) by {
        let i = choose|i: int| 0 <= i < s.len() && s[i].item.id == k;
        if i < p {
            assert(s.insert(p, e)[i] == s[i]);
        } else {
            assert(s.insert(p, e)[i + 1] == s[i]);
        }
    }
    assert(s.insert(p, e)[p] == e);
}


/// What a confirmation dialog deletes.
#[derive(Clone, Copy, Debug, PartialEq, Eq, Structural)]
pub enum ModalEntity {
    Tab,
    Document,
}

/// The documents in memory and which one is open.
pub struct AppState {
    pub current_document: Option<u128>,
    pub docs: HashMap<u128, Doc>,
    pub github_token: Option<String>,
}

impl AppState {
    /// The documents in memory, by value.
    pub open spec fn docs_view(&self) -> Map<u128, DocView> {
        docs_view(self.docs@)
    }

    /// Stores `doc` under `doc_id`, first dropping some other document when
    /// `MAX_SAVED_DOCS_IN_MEMORY` or more are held.
    fn bring_in(&mut self, doc_id: u128, doc: Doc)
        requires
            !old(self).docs@.contains_key(doc_id),
        ensures
            brought_in(old(self).docs_view(), final(self).docs_view(), doc_id, doc@),
            final(self).current_document == old(self).current_document,
            final(self).github_token == old(self).github_token,
    {
        let ghost before = self.docs_view();
        proof {
            assert(before.dom() =~= self.docs@.dom());
        }
        if self.docs.len() >= MAX_SAVED_DOCS_IN_MEMORY {
            let victim = some_key(&self.docs);
            let ghost mid0 = self.docs@;
            self.docs.remove(&victim);
            self.docs.insert(doc_id, doc);
            proof {
                assert(before.contains_key(victim));
                assert(self.docs_view() =~= before.remove(victim).insert(doc_id, doc@));
            }
        } else {
            self.docs.insert(doc_id, doc);
            proof {
                assert(self.docs_view() =~= before.insert(doc_id, doc@));
            }
        }
    }

    /// Makes sure document `doc_id` is in memory, reading it from the stored
    /// documents (`None` when they could not be read) and dropping another
    /// document first when `MAX_SAVED_DOCS_IN_MEMORY` are held.
    pub fn load_doc_to_memory(&mut self, doc_id: u128, stored: Option<&HashMap<u128, Doc>>)
        requires
            !old(self).docs@.contains_key(doc_id) && stored is Some ==> {
                &&& stored->0@.contains_key(doc_id)
                &&& old(self).docs@.len() <= MAX_SAVED_DOCS_IN_MEMORY
            },
        ensures
            load_outcome(old(self).docs_view(), final(self).docs_view(), doc_id, stored_view(stored)),
            final(self).current_document == old(self).current_document,
            final(self).github_token == old(self).github_token,
    {
        if self.docs.contains_key(&doc_id) {
            return;
        }
        match stored {
            Some(s) => {
                let doc = s.get(&doc_id).unwrap().duplicate();
                self.bring_in(doc_id, doc);
            },
            None => {},
        }
    }

    /// Saves `json` as a checkpoint: into document `doc_id` (read from the
    /// stored documents first if it is not in memory), or into the open
    /// document when no document is named; within it, into tab `tab_id`, or
    /// the active tab when none is named. Returns the document saved into.
    pub fn record_save(
        &mut self,
        doc_id: Option<u128>,
        tab_id: Option<u128>,
        json: String,
        stored: Option<&HashMap<u128, Doc>>,
    ) -> (target: u128)
        requires
            doc_id is None ==> {
                &&& old(self).current_document is Some
                &&& old(self).docs@.contains_key(old(self).current_document->0)
            },
            doc_id is Some && !old(self).docs@.contains_key(doc_id->0) ==> {
                &&& stored is Some
                &&& stored->0@.contains_key(doc_id->0)
            },
        ensures
            target == (match doc_id {
                Some(d) => d,
                None => old(self).current_document->0,
            }),
            old(self).docs@.contains_key(target) ==> final(self).docs_view() == with_checkpoint(
                old(self).docs_view(),
                target,
                tab_id,
                json@,
            ),
            !old(self).docs@.contains_key(target) ==> exists|loaded: Map<u128, DocView>|
                brought_in(old(self).docs_view(), loaded, target, stored_view(stored)->0[target])
                    && final(self).docs_view() == #[trigger] with_checkpoint(
                    loaded,
                    target,
                    tab_id,
                    json@,
                ),
            final(self).current_document == old(self).current_document,
            final(self).github_token == old(self).github_token,
    {
        let ghost before = self.docs_view();
        let target = match doc_id {
            Some(d) => {
                if !self.docs.contains_key(&d) {
                    match stored {
                        Some(s) => {
                            let doc = s.get(&d).unwrap().duplicate();
                            self.bring_in(d, doc);
                        },
                        None => {},
                    }
                }
                d
            },
            None => self.current_document.unwrap(),
        };
        let ghost loaded = self.docs_view();
        proof {
            if !old(self).docs@.contains_key(target) {
                let dv = stored_view(stored)->0[target];
                if before.len() >= MAX_SAVED_DOCS_IN_MEMORY {
                    let victim = choose|victim: u128|
                        #[trigger] before.contains_key(victim) && loaded == before.remove(
                            victim,
                        ).insert(target, dv);
                    assert(loaded.contains_key(target));
                } else {
                    assert(loaded.contains_key(target));
                }
            }
            assert(loaded.dom() =~= self.docs@.dom());
        }
        let mut doc = self.docs.remove(&target).unwrap();
        doc.record_checkpoint(tab_id, json);
        self.docs.insert(target, doc);
        proof {
            assert(self.docs_view() =~= with_checkpoint(loaded, target, tab_id, json@));
        }
        target
    }

    /// Opens a new document `doc_id` (see `fresh_doc`); returns the document
    /// that was open, whose state is to be saved.
    pub fn new_doc(&mut self, doc_id: u128, tab_id: u128) -> (previous: u128)
        requires
            old(self).current_document is Some,
        ensures
            previous == old(self).current_document->0,
            final(self).current_document == Some(doc_id),
            final(self).docs_view() == old(self).docs_view().insert(
                doc_id,
                fresh_doc(doc_id, tab_id),
            ),
            final(self).github_token == old(self).github_token,
    {
        let previous = self.current_document.unwrap();
        let mut checkpoints: VecDeque<String> = VecDeque::new();
        checkpoints.push_back(EMPTY_CHECKPOINT.to_string());
        let mut tab_title = String::new();
        crate::text::push_str(&mut tab_title, "Tab ");
        push_decimal(&mut tab_title, 1);
        let tab = Tab { id: tab_id, name: tab_title, checkpoints, is_active: true };
        let doc = Doc { id: doc_id, name: UNTITLED.to_string(), tabs: vec![tab], tags: Vec::new() };
        proof {
            reveal_strlit("Tab ");
            assert(tab@.name =~= tab_name(1));
            assert(tab@.checkpoints =~= seq![EMPTY_CHECKPOINT@]);
            assert(doc@.tabs =~= fresh_doc(doc_id, tab_id).tabs);
            assert(doc@.tags =~= Seq::<Seq<char>>::empty());
        }
        let ghost before = self.docs_view();
        self.docs.insert(doc_id, doc);
        self.current_document = Some(doc_id);
        proof {
            assert(self.docs_view() =~= before.insert(doc_id, fresh_doc(doc_id, tab_id)));
        }
        previous
    }

    /// Opens document `clicked` from the document list; returns the
    /// document that was open, whose state is to be saved, unless `clicked`
    /// was already open.
    pub fn list_item_click(&mut self, clicked: u128) -> (previous: Option<u128>)
        requires
            old(self).current_document != Some(clicked) ==> old(self).current_document is Some,
        ensures
            old(self).current_document == Some(clicked) ==> previous is None && *final(self)
                == *old(self),
            old(self).current_document != Some(clicked) ==> {
                &&& previous == old(self).current_document
                &&& final(self).current_document == Some(clicked)
                &&& final(self).docs == old(self).docs
                &&& final(self).github_token == old(self).github_token
            },
    {
        if self.current_document == Some(clicked) {
            return None;
        }
        let previous = self.current_document;
        self.current_document = Some(clicked);
        previous
    }

    /// Deletes the open document from memory and opens the first document
    /// of `listed` (the document list, in order) other than it; the open
    /// document stays unchanged when there is none. Returns the deleted id.
    pub fn delete_current_doc(&mut self, listed: &Vec<u128>) -> (removed: u128)
        requires
            old(self).current_document is Some,
        ensures
            removed == old(self).current_document->0,
            final(self).docs_view() == old(self).docs_view().remove(removed),
            final(self).current_document == (match first_other(listed@, removed) {
                Some(next) => Some(next),
                None => old(self).current_document,
            }),
            final(self).github_token == old(self).github_token,
    {
        let removed = self.current_document.unwrap();
        let ghost before = self.docs_view();
        self.docs.remove(&removed);
        proof {
            assert(self.docs_view() =~= before.remove(removed));
        }
        let mut i: usize = 0;
        while i < listed.len() && listed[i] == removed
            invariant
                i <= listed.len(),
                forall|k: int| 0 <= k < i ==> listed@[k] == removed,
                self.current_document == old(self).current_document,
            decreases listed.len() - i,
        {
            i = i + 1;
        }
        proof {
            lemma_first_other(listed@, removed, i as int);
        }
        if i < listed.len() {
            self.current_document = Some(listed[i]);
        }
        removed
    }

    /// Deletes the active tab of the open document unless it is the
    /// document's only tab; returns whether a tab was deleted.
    pub fn delete_current_tab(&mut self) -> (deleted: bool)
        requires
            old(self).current_document is Some,
            old(self).docs@.contains_key(old(self).current_document->0),
            ({
                let tabs = old(self).docs_view()[old(self).current_document->0].tabs;
                tabs.len() > 1 ==> first_target(tabs, None) < tabs.len()
            }),
        ensures
            ({
                let id = old(self).current_document->0;
                let doc = old(self).docs_view()[id];
                &&& deleted == (doc.tabs.len() > 1)
                &&& final(self).docs_view() == old(self).docs_view().insert(
                    id,
                    DocView { tabs: tabs_after_delete(doc.tabs), ..doc },
                )
            }),
            final(self).current_document == old(self).current_document,
            final(self).github_token == old(self).github_token,
    {
        let id = self.current_document.unwrap();
        let ghost before = self.docs_view();
        let mut doc = self.docs.remove(&id).unwrap();
        let deleted = doc.delete_active_tab();
        self.docs.insert(id, doc);
        proof {
            assert(self.docs_view() =~= before.insert(
                id,
                DocView { tabs: tabs_after_delete(before[id].tabs), ..before[id] },
            ));
        }
        deleted
    }

    /// Renames document `doc_id`.
    pub fn rename_doc(&mut self, doc_id: u128, name: String)
        requires
            old(self).docs@.contains_key(doc_id),
        ensures
            final(self).docs_view() == old(self).docs_view().insert(
                doc_id,
                DocView { name: name@, ..old(self).docs_view()[doc_id] },
            ),
            final(self).current_document == old(self).current_document,
            final(self).github_token == old(self).github_token,
    {
        let ghost before = self.docs_view();
        let mut doc = self.docs.remove(&doc_id).unwrap();
        doc.name = name;
        self.docs.insert(doc_id, doc);
        proof {
            assert(self.docs_view() =~= before.insert(
                doc_id,
                DocView { name: name@, ..before[doc_id] },
            ));
        }
    }

    /// The active tab of the open document, when that document is in
    /// memory and has an active tab.
    pub fn current_tab(&self) -> (tab: Option<u128>)
        requires
            self.current_document is Some,
        ensures
            ({
                let id = self.current_document->0;
                let tabs = self.docs_view()[id].tabs;
                let i = first_target(tabs, None);
                &&& tab is Some <==> (self.docs@.contains_key(id) && i < tabs.len())
                &&& tab is Some ==> tab->0 == tabs[i].id
            }),
    {
        let id = self.current_document.unwrap();
        match self.docs.get(&id) {
            Some(doc) => doc.active_tab_id(),
            None => None,
        }
    }


    /// Sets up the document list at start-up. When the store names a last
    /// saved document, it becomes the open one and is to be loaded. When the
    /// store's document names can be read, the list shows them ordered by
    /// lower-case name, the open one highlighted; otherwise a blank
    /// `Untitled` document (see `blank_doc`) is created, opened, listed and
    /// to be loaded.
    pub fn add_list(
        &mut self,
        last_saved: Option<u128>,
        names: Option<&HashMap<u128, String>>,
        fresh_doc: u128,
        fresh_tab: u128,
    ) -> (setup: DocListSetup)
        ensures
            final(self).github_token == old(self).github_token,
            names is Some ==> {
                let current = match last_saved {
                    Some(id) => Some(id),
                    None => old(self).current_document,
                };
                &&& final(self).current_document == current
                &&& setup.load == last_saved
                &&& final(self).docs_view() == old(self).docs_view()
                &&& lists_exactly(setup.items@, names->0@, current)
                &&& ordered_by_lowercase_name(setup.items@)
            },
            names is None ==> {
                &&& final(self).current_document == Some(fresh_doc)
                &&& setup.load == Some(fresh_doc)
                &&& final(self).docs_view() == old(self).docs_view().insert(
                    fresh_doc,
                    blank_doc(fresh_doc, fresh_tab),
                )
                &&& setup.items@.len() == 1
                &&& setup.items@[0].id == fresh_doc
                &&& setup.items@[0].name@ == UNTITLED@
                &&& setup.items@[0].highlighted
            },
    {
        match last_saved {
            Some(id) => {
                self.current_document = Some(id);
            },
            None => {},
        }
        match names {
            Some(m) => {
                let items = sorted_list(m, self.current_document);
                DocListSetup { items, load: last_saved }
            },
            None => {
                let mut tab_title = String::new();
                crate::text::push_str(&mut tab_title, "Tab ");
                push_decimal(&mut tab_title, 1);
                let tab = Tab::new_active(fresh_tab, tab_title);
                let doc = Doc {
                    id: fresh_doc,
                    name: UNTITLED.to_string(),
                    tabs: vec![tab],
                    tags: Vec::new(),
                };
                proof {
                    reveal_strlit("Tab ");
                    assert(tab@.name =~= tab_name(1));
                    assert(doc@.tabs =~= blank_doc(fresh_doc, fresh_tab).tabs);
                    assert(doc@.tags =~= Seq::<Seq<char>>::empty());
                }
                let ghost before = self.docs_view();
                self.docs.insert(fresh_doc, doc);
                self.current_document = Some(fresh_doc);
                proof {
                    assert(self.docs_view() =~= before.insert(fresh_doc, blank_doc(fresh_doc, fresh_tab)));
                }
                let items = vec![ListItem { id: fresh_doc, name: UNTITLED.to_string(), highlighted: true }];
                DocListSetup { items, load: Some(fresh_doc) }
            },
        }
    }


    /// Carries out a confirmed deletion. A tab: the open document's active
    /// tab is deleted unless it is the document's only tab (see
    /// `delete_current_tab`). A document: the open document is deleted from
    /// memory and from the store, the next listed document is opened (see
    /// `delete_current_doc`), and the store's last saved document moves to
    /// it. Either way the dialog closes: the interface state `ui` keeps no
    /// open dialog and is otherwise unchanged. Returns whether the view is
    /// to be reloaded.
    pub fn confirm_modal(
        &mut self,
        what: ModalEntity,
        listed: &Vec<u128>,
        saved: &mut SavedState,
        ui: &mut UiState,
    ) -> (reload: bool)
        requires
            old(self).current_document is Some,
            what == ModalEntity::Tab ==> {
                &&& old(self).docs@.contains_key(old(self).current_document->0)
                &&& ({
                    let tabs = old(self).docs_view()[old(self).current_document->0].tabs;
                    tabs.len() > 1 ==> first_target(tabs, None) < tabs.len()
                })
            },
        ensures
            final(self).github_token == old(self).github_token,
            *final(ui) == (UiState { modal_id: None, ..*old(ui) }),
            what == ModalEntity::Tab ==> {
                let id = old(self).current_document->0;
                let doc = old(self).docs_view()[id];
                &&& reload == (doc.tabs.len() > 1)
                &&& final(self).docs_view() == old(self).docs_view().insert(
                    id,
                    DocView { tabs: tabs_after_delete(doc.tabs), ..doc },
                )
                &&& final(self).current_document == old(self).current_document
                &&& final(saved)@ == old(saved)@
            },
            what == ModalEntity::Document ==> {
                let removed = old(self).current_document->0;
                let next = match first_other(listed@, removed) {
                    Some(n) => n,
                    None => removed,
                };
                &&& reload
                &&& final(self).docs_view() == old(self).docs_view().remove(removed)
                &&& final(self).current_document == Some(next)
                &&& final(saved)@ == saved_without(old(saved)@, removed, next)
            },
    {
        let reload = match what {
            ModalEntity::Tab => self.delete_current_tab(),
            ModalEntity::Document => {
                let removed = self.delete_current_doc(listed);
                let next = self.current_document.unwrap();
                saved.remove_doc(removed, next);
                true
            },
        };
        ui.modal_id = None;
        reload
    }

}


/// Some key of a non-empty map: the first one that the map's own order gives.
fn some_key(docs: &HashMap<u128, Doc>) -> (key: u128)
    requires
        docs@.len() > 0,
    ensures
        docs@.contains_key(key),
{
    let ghost dom = docs@.dom();
    let mut found: Option<u128> = None;
    for k in it: docs.keys()
        invariant
            dom == docs@.dom(),
            it.seq().len() == dom.len(),
            it.seq().unref().to_set() == dom,
            found is Some <==> it.index() > 0,
            found is Some ==> dom.contains(found->0),
    {
        proof {
            assert(it.seq().unref()[it.index() as int] == *k);
            assert(it.seq().unref().to_set().contains(*k));
        }
        if found.is_none() {
            found = Some(*k);
        }
    }
    proof {
        assert(dom.len() > 0);
    }
    found.unwrap()
}


/// `first_other` is the first id from position `i` on when all before it
/// are `removed`.
pub proof fn lemma_first_other(ids: Seq<u128>, removed: u128, i: int)
    requires
        0 <= i <= ids.len(),
        forall|k: int| 0 <= k < i ==> ids[k] == removed,
        i < ids.len() ==> ids[i] != removed,
    ensures
        first_other(ids, removed) == (if i < ids.len() {
            Some(ids[i])
        } else {
            None::<u128>
        }),
    decreases i,
{
    if i > 0 {
        let rest = ids.drop_first();
        assert forall|k: int| 0 <= k < i - 1 implies rest[k] == removed by {
            assert(rest[k] == ids[k + 1]);
        }
        lemma_first_other(rest, removed, i - 1);
    }
}


/// The `tags` entry of the store: one list of tags per document, a single
/// list, or nothing readable.
pub enum StoredTags {
    ByDoc(HashMap<u128, Vec<String>>),
    List(Vec<String>),
    Missing,
}

/// The value of a `tags` entry.
pub enum TagsView {
    ByDoc(Map<u128, Seq<Seq<char>>>),
    List(Seq<Seq<char>>),
    Missing,
}

/// A list of strings, by value.
pub open spec fn strings_view(v: Seq<String>) -> Seq<Seq<char>> {
    v.map_values(|s: String| s@)
}

impl View for StoredTags {
    type V = TagsView;

    open spec fn view(&self) -> TagsView {
        match self {
            StoredTags::ByDoc(m) => TagsView::ByDoc(
                m@.map_values(|v: Vec<String>| strings_view(v@)),
            ),
            StoredTags::List(v) => TagsView::List(strings_view(v@)),
            StoredTags::Missing => TagsView::Missing,
        }
    }
}

/// What the key-value store holds about documents: the documents, their
/// tags, their names, and the last document saved. An entry that is absent
/// or cannot be read as the expected map is `None` (`Missing` for tags).
pub struct SavedState {
    pub docs: Option<HashMap<u128, Doc>>,
    pub tags: StoredTags,
    pub names: Option<HashMap<u128, String>>,
    pub last_saved: Option<u128>,
}

/// The value of a `SavedState`.
pub struct SavedView {
    pub docs: Option<Map<u128, DocView>>,
    pub tags: TagsView,
    pub names: Option<Map<u128, Seq<char>>>,
    pub last_saved: Option<u128>,
}

impl View for SavedState {
    type V = SavedView;

    open spec fn view(&self) -> SavedView {
        SavedView {
            docs: match self.docs {
                Some(m) => Some(docs_view(m@)),
                None => None,
            },
            tags: self.tags@,
            names: match self.names {
                Some(m) => Some(m@.map_values(|n: String| n@)),
                None => None,
            },
            last_saved: self.last_saved,
        }
    }
}

/// The store after saving document `doc`: the document and its name are
/// written under its id, it becomes the last saved document, and the `tags`
/// entry becomes one list: the tags stored for the document followed by its
/// own tags when per-document tags could be read, else its own tags.
pub open spec fn saved_with(before: SavedView, doc: DocView) -> SavedView {
    SavedView {
        docs: Some(
            match before.docs {
                Some(m) => m.insert(doc.id, doc),
                None => Map::empty().insert(doc.id, doc),
            },
        ),
        tags: match before.tags {
            TagsView::ByDoc(m) => TagsView::List(m[doc.id] + doc.tags),
            _ => TagsView::List(doc.tags),
        },
        names: Some(
            match before.names {
                Some(m) => m.insert(doc.id, doc.name),
                None => Map::empty().insert(doc.id, doc.name),
            },
        ),
        last_saved: Some(doc.id),
    }
}

/// The store after deleting document `id`: it leaves the documents, the
/// per-document tags and the names; when it was the last saved document,
/// `new_id` takes its place.
pub open spec fn saved_without(before: SavedView, id: u128, new_id: u128) -> SavedView {
    SavedView {
        docs: match before.docs {
            Some(m) => Some(m.remove(id)),
            None => None,
        },
        tags: match before.tags {
            TagsView::ByDoc(m) => TagsView::ByDoc(m.remove(id)),
            other => other,
        },
        names: match before.names {
            Some(m) => Some(m.remove(id)),
            None => None,
        },
        last_saved: if before.last_saved == Some(id) {
            Some(new_id)
        } else {
            before.last_saved
        },
    }
}

fn copy_strings(v: &Vec<String>) -> (r: Vec<String>)
    ensures
        r@ == v@,
{
    let mut r: Vec<String> = Vec::new();
    let mut i: usize = 0;
    while i < v.len()
        invariant
            i <= v.len(),
            r@ == v@.take(i as int),
        decreases v.len() - i,
    {
        r.push(v[i].clone());
        proof {
            assert(r@ =~= v@.take(i + 1));
        }
        i = i + 1;
    }
    proof {
        assert(v@.take(v.len() as int) =~= v@);
    }
    r
}

impl SavedState {
    /// Writes document `doc` to the store (see `saved_with`).
    pub fn persist_doc(&mut self, doc: &Doc)
        requires
            old(self).tags matches StoredTags::ByDoc(m) ==> m@.contains_key(doc.id),
        ensures
            final(self)@ == saved_with(old(self)@, doc@),
    {
        let ghost before = self@;
        let id = doc.id;
        let copy = doc.duplicate();
        let docs = match self.docs.take() {
            Some(mut m) => {
                let ghost m0 = m@;
                m.insert(id, copy);
                proof {
                    assert(docs_view(m@) =~= docs_view(m0).insert(id, doc@));
                }
                m
            },
            None => {
                let mut m: HashMap<u128, Doc> = HashMap::new();
                m.insert(id, copy);
                proof {
                    assert(docs_view(m@) =~= Map::<u128, DocView>::empty().insert(id, doc@));
                }
                m
            },
        };
        self.docs = Some(docs);
        let mut old_tags = StoredTags::Missing;
        std::mem::swap(&mut old_tags, &mut self.tags);
        let new_tags = match old_tags {
            StoredTags::ByDoc(m) => {
                let mut list = copy_strings(m.get(&id).unwrap());
                let mut extra = copy_strings(&doc.tags);
                let ghost l0 = list@;
                list.append(&mut extra);
                proof {
                    assert(strings_view(list@) =~= strings_view(l0) + strings_view(doc.tags@));
                }
                StoredTags::List(list)
            },
            _ => StoredTags::List(copy_strings(&doc.tags)),
        };
        self.tags = new_tags;
        let names = match self.names.take() {
            Some(mut m) => {
                let ghost m0 = m@;
                m.insert(id, doc.name.clone());
                proof {
                    assert(m@.map_values(|n: String| n@) =~= m0.map_values(|n: String| n@).insert(
                        id,
                        doc.name@,
                    ));
                }
                m
            },
            None => {
                let mut m: HashMap<u128, String> = HashMap::new();
                m.insert(id, doc.name.clone());
                proof {
                    assert(m@.map_values(|n: String| n@) =~= Map::<u128, Seq<char>>::empty().insert(
                        id,
                        doc.name@,
                    ));
                }
                m
            },
        };
        self.names = Some(names);
        self.last_saved = Some(id);
        proof {
            assert(self@.tags == saved_with(before, doc@).tags);
            assert(self@ == saved_with(before, doc@));
        }
    }

    /// Deletes document `id` from the store (see `saved_without`).
    pub fn remove_doc(&mut self, id: u128, new_id: u128)
        ensures
            final(self)@ == saved_without(old(self)@, id, new_id),
    {
        let ghost before = self@;
        match &mut self.docs {
            Some(m) => {
                let ghost m0 = m@;
                m.remove(&id);
                proof {
                    assert(docs_view(m@) =~= docs_view(m0).remove(id));
                }
            },
            None => {},
        }
        match &mut self.tags {
            StoredTags::ByDoc(m) => {
                let ghost m0 = m@;
                m.remove(&id);
                proof {
                    assert(m@.map_values(|v: Vec<String>| strings_view(v@)) =~= m0.map_values(
                        |v: Vec<String>| strings_view(v@),
                    ).remove(id));
                }
            },
            _ => {},
        }
        match &mut self.names {
            Some(m) => {
                let ghost m0 = m@;
                m.remove(&id);
                proof {
                    assert(m@.map_values(|n: String| n@) =~= m0.map_values(|n: String| n@).remove(
                        id,
                    ));
                }
            },
            None => {},
        }
        if self.last_saved == Some(id) {
            self.last_saved = Some(new_id);
        }
        proof {
            assert(self@ == saved_without(before, id, new_id));
        }
    }
}


/// Loading never lets more than `MAX_SAVED_DOCS_IN_MEMORY` documents pile up
/// in memory, and afterwards the requested document is in memory whenever
/// it was there or could be read from storage, with the stored value in the
/// latter case.
pub proof fn lemma_load_keeps_memory_bounded(
    before: Map<u128, DocView>,
    after: Map<u128, DocView>,
    doc_id: u128,
    stored: Option<Map<u128, DocView>>,
)
    requires
        before.dom().finite(),
        before.len() <= MAX_SAVED_DOCS_IN_MEMORY,
        load_outcome(before, after, doc_id, stored),
    ensures
        after.len() <= MAX_SAVED_DOCS_IN_MEMORY,
        before.contains_key(doc_id) ==> after == before,
        !before.contains_key(doc_id) && stored is Some ==> after.contains_key(doc_id) && after[doc_id]
            == stored->0[doc_id],
{
    if !before.contains_key(doc_id) && stored is Some {
        let doc = stored->0[doc_id];
        if before.len() < MAX_SAVED_DOCS_IN_MEMORY {
            assert(after.dom() =~= before.dom().insert(doc_id));
        } else {
            let victim = choose|victim: u128|
                #[trigger] before.contains_key(victim) && after == before.remove(victim).insert(
                    doc_id,
                    doc,
                );
            assert(after.dom() =~= before.dom().remove(victim).insert(doc_id));
        }
    }
}

/// A document written to the store reads back as written, under its id,
/// together with its name; it becomes the last saved document, and the
/// other stored documents and names are untouched.
pub proof fn lemma_saved_doc_reads_back(before: SavedView, doc: DocView)
    ensures
        ({
            let after = saved_with(before, doc);
            &&& after.docs is Some && after.docs->0.contains_key(doc.id)
            &&& after.docs->0[doc.id] == doc
            &&& after.names is Some && after.names->0.contains_key(doc.id)
            &&& after.names->0[doc.id] == doc.name
            &&& after.last_saved == Some(doc.id)
            &&& forall|other: u128|
                other != doc.id && before.docs is Some ==> (#[trigger] after.docs->0.contains_key(
                    other,
                ) == before.docs->0.contains_key(other) && after.docs->0[other]
                    == before.docs->0[other])
            &&& forall|other: u128|
                other != doc.id && before.names is Some ==> (#[trigger] after.names->0.contains_key(
                    other,
                ) == before.names->0.contains_key(other) && after.names->0[other]
                    == before.names->0[other])
        }),
{
}

/// A document deleted from the store is gone from its documents, names and
/// per-document tags, and is no longer the last saved document unless it is
/// also the replacement.
pub proof fn lemma_removed_doc_is_gone(before: SavedView, id: u128, new_id: u128)
    ensures
        ({
            let after = saved_without(before, id, new_id);
            &&& after.docs matches Some(m) ==> !m.contains_key(id)
            &&& after.names matches Some(m) ==> !m.contains_key(id)
            &&& after.tags matches TagsView::ByDoc(m) ==> !m.contains_key(id)
            &&& after.last_saved == Some(id) ==> new_id == id
        }),
{
}


spec fn all_entries_listed(entries: Seq<SortEntry>, names: Map<u128, String>) -> bool {
    forall|key: u128| #[trigger] names.contains_key(key) ==> listed(entries, key)
}

/// The entries of `names` as list items ordered by lower-case name, the
/// entry of `current` highlighted.
fn sorted_list(names: &HashMap<u128, String>, current: Option<u128>) -> (items: Vec<ListItem>)
    ensures
        lists_exactly(items@, names@, current),
        ordered_by_lowercase_name(items@),
{
    let mut entries: Vec<SortEntry> = Vec::new();
    for (k, v) in it: names.iter()
        invariant
            entries.len() == it.index(),
            forall|i: int| 0 <= i < entries.len() ==> #[trigger] entries@[i].key@ == lowercase(entries@[i].item.name@),
            forall|i: int|
                0 <= i < entries.len() - 1 ==> text_le(
                    #[trigger] entries@[i].key@,
                    entries@[i + 1].key@,
                ),
            forall|i: int|
                0 <= i < entries.len() ==> {
                    &&& names@.contains_key(#[trigger] entries@[i].item.id)
                    &&& entries@[i].item.name@ == names@[entries@[i].item.id]@
                    &&& entries@[i].item.highlighted == (current == Some(entries@[i].item.id))
                },
            forall|j: int| 0 <= j < it.index() ==> listed(entries@, *(#[trigger] it.seq()[j]).0),
            it.seq().len() == names@.len(),
            forall|j: int| 0 <= j < it.seq().len() ==> names@.contains_key(*(#[trigger] it.seq()[j]).0) && names@[*it.seq()[j].0] == *it.seq()[j].1,
            forall|key: u128| #[trigger] names@.contains_key(key) ==> it.seq().contains((&key, &names@[key])),
            it.index() == it.seq().len() ==> all_entries_listed(entries@, names@),
    {
        let lower = to_lowercase(v.as_str());
        let key = crate::text::chars_of(lower.as_str());
        let id: u128 = *k;
        let item = ListItem { id, name: v.clone(), highlighted: current == Some(id) };
        let ghost before = entries@;
        let ghost e = SortEntry { key, item };
        insert_sorted(&mut entries, SortEntry { key, item });
        proof {
            let p = choose|p: int| 0 <= p <= before.len() && entries@ == before.insert(p, e);
            lemma_insert_keeps_members(before, p, e);
            assert forall|i: int| 0 <= i < entries.len() implies {
                &&& names@.contains_key(#[trigger] entries@[i].item.id)
                &&& entries@[i].item.name@ == names@[entries@[i].item.id]@
                &&& entries@[i].item.highlighted == (current == Some(entries@[i].item.id))
            } by {
                if i < p {
                    assert(entries@[i] == before[i]);
                } else if i > p {
                    assert(entries@[i] == before[i - 1]);
                }
            }
        }
    }
    assert(entries.len() == names@.len());
    assert(all_entries_listed(entries@, names@));
    let mut items: Vec<ListItem> = Vec::new();
    let mut i: usize = 0;
    while i < entries.len()
        invariant
            i <= entries.len(),
            items.len() == i,
            forall|k: int| 0 <= k < i ==> #[trigger] items@[k].id == entries@[k].item.id
                && items@[k].name@ == entries@[k].item.name@ && items@[k].highlighted
                == entries@[k].item.highlighted,
        decreases entries.len() - i,
    {
        let e = &entries[i];
        items.push(ListItem { id: e.item.id, name: e.item.name.clone(), highlighted: e.item.highlighted });
        i = i + 1;
    }
    proof {
        assert forall|key: u128| #[trigger] names@.contains_key(key) implies exists|k: int|
            0 <= k < items.len() && items@[k].id == key by {
            assert(listed(entries@, key));
            let w = choose|w: int| 0 <= w < entries.len() && entries@[w].item.id == key;
            assert(items@[w].id == key);
        }
        assert forall|k: int| 0 <= k < items.len() - 1 implies text_le(
            lowercase(#[trigger] items@[k].name@),
            lowercase(items@[k + 1].name@),
        ) by {
            assert(items@[k].id == entries@[k].item.id);
            assert(items@[k + 1].id == entries@[k + 1].item.id);
            assert(entries@[k].key@ == lowercase(entries@[k].item.name@));
            assert(entries@[k + 1].key@ == lowercase(entries@[k + 1].item.name@));
            assert(text_le(entries@[k].key@, entries@[k + 1].key@));
        }
    }
    items
}


/// Saving a state into a tab of a document in memory and then loading that
/// tab shows the saved state.
pub proof fn lemma_saved_tab_loads_back(
    docs: Map<u128, DocView>,
    target: u128,
    tab_id: Option<u128>,
    json: Seq<char>,
)
    requires
        docs.contains_key(target),
        first_target(docs[target].tabs, tab_id) < docs[target].tabs.len(),
    ensures
        ({
            let after = with_checkpoint(docs, target, tab_id, json);
            let i = first_target(docs[target].tabs, tab_id);
            &&& after.contains_key(target)
            &&& after[target].tabs.len() == docs[target].tabs.len()
            &&& history_after_load(after[target].tabs[i].checkpoints, false).0 == Some(json)
        }),
{
    let i = first_target(docs[target].tabs, tab_id);
    let tabs = docs[target].tabs;
    lemma_first_target_range(tabs, tab_id);
    let after = with_checkpoint(docs, target, tab_id, json);
    let saved_tab = TabView { checkpoints: history_after_save(tabs[i].checkpoints, json), ..tabs[i] };
    assert(after[target].tabs == tabs_after_save(tabs, tab_id, json));
    assert(tabs_after_save(tabs, tab_id, json) == tabs.update(i, saved_tab));
    assert(tabs.update(i, saved_tab)[i] == saved_tab);
    lemma_load_after_save(tabs[i].checkpoints, json);
}

} // verus!
