//! The hub's state. It has two levels: the *Apps* level (⌘Tab) lists every
//! open app; the *Windows* level is the sub-dock for one app (or for every
//! Chrome flavour): all of its windows. A search filters what a level shows.
use vstd::prelude::*;

use std::collections::HashMap;

use crate::chrome;
use crate::focus;
use crate::layout;
use crate::text;
use crate::windows::{AppEntry, AppModel, AxCache, Ranking, Snapshot, WindowInfo, WindowModel};
use crate::windows;
use crate::windows_laws;

verus! {

// ---- Types ------------------------------------------------------------------

/// How the hub was opened.
#[derive(Clone, Copy, Debug, PartialEq, Eq, Structural)]
pub enum Mode {
    /// Opened with ⌘Tab or ⌥Tab; releasing the held modifier commits the selection.
    Switch(u64),
    /// Opened from the menu bar or ⌥`; stays open until Enter/click/Esc.
    Browse,
}

/// What the hub shows.
pub enum Level {
    /// One card per open app.
    Apps,
    /// The windows of the apps with these pids (one app, or every Chrome flavour).
    Windows { pids: Vec<i32>, name: String },
}

/// What a [`Level`] holds.
pub enum LevelModel {
    Apps,
    Windows { pids: Seq<i32>, name: Seq<char> },
}

impl View for Level {
    type V = LevelModel;

    open spec fn view(&self) -> LevelModel {
        match self {
            Level::Apps => LevelModel::Apps,
            Level::Windows { pids, name } => LevelModel::Windows { pids: pids@, name: name@ },
        }
    }
}

/// Where the hub opens.
#[derive(Clone, Copy, Debug, PartialEq, Eq, Structural)]
pub enum Start {
    Apps,
    Chrome,
}

/// The hub.
pub struct Hub {
    pub apps: Vec<AppEntry>,
    /// Every window of every app, with the Accessibility cache applied.
    pub all_windows: Vec<WindowInfo>,
    /// The same, straight from the window server.
    pub raw_windows: Vec<WindowInfo>,
    /// Accessibility's last known view of each app's windows.
    pub ax_cache: AxCache,
    /// The windows shown at the Windows level, refined through Accessibility.
    pub scope: Vec<WindowInfo>,
    pub level: Level,
    /// Opened at the Apps level, so the Windows level can step back up.
    pub root_is_apps: bool,
    /// Which apps or windows have a card, by their position.
    pub filtered: Vec<usize>,
    /// The selected card.
    pub selected: usize,
    pub cols: usize,
    /// How many columns the screen has room for.
    pub max_cols: usize,
    pub query: String,
    pub mode: Mode,
    pub visible: bool,
    /// Counts openings and closings, so that what was asked for in an earlier
    /// one can be told apart.
    pub generation: u64,
}

/// What a [`Hub`] holds.
#[verifier::ext_equal]
pub struct HubModel {
    pub apps: Seq<AppModel>,
    pub all_windows: Seq<WindowModel>,
    pub raw_windows: Seq<WindowModel>,
    pub ax_cache: Map<i32, Map<u32, focus::AxModel>>,
    pub scope: Seq<WindowModel>,
    pub level: LevelModel,
    pub root_is_apps: bool,
    pub filtered: Seq<int>,
    pub selected: int,
    pub cols: nat,
    pub max_cols: nat,
    pub query: Seq<char>,
    pub mode: Mode,
    pub visible: bool,
    pub generation: u64,
}

/// A list of positions.
pub open spec fn positions(v: Seq<usize>) -> Seq<int> {
    v.map_values(|i: usize| i as int)
}

impl View for Hub {
    type V = HubModel;

    open spec fn view(&self) -> HubModel {
        HubModel {
            apps: windows::app_models(self.apps@),
            all_windows: windows::window_models(self.all_windows@),
            raw_windows: windows::window_models(self.raw_windows@),
            ax_cache: windows::ax_view(self.ax_cache),
            scope: windows::window_models(self.scope@),
            level: self.level@,
            root_is_apps: self.root_is_apps,
            filtered: positions(self.filtered@),
            selected: self.selected as int,
            cols: self.cols as nat,
            max_cols: self.max_cols as nat,
            query: self.query@,
            mode: self.mode,
            visible: self.visible,
            generation: self.generation,
        }
    }
}

// ---- What a level shows -----------------------------------------------------

/// An app is listed where it has a window that is not minimized.
pub open spec fn app_listed(a: AppModel) -> bool {
    a.active > 0
}

/// Every word of `query` stands somewhere in `hay`.
pub open spec fn has_all_words(hay: Seq<char>, query: Seq<char>) -> bool {
    forall|k: int|
        0 <= k < text::words_of(query).len() ==> text::has(hay, #[trigger] text::words_of(query)[k])
}

/// A text, or an empty one where there is none.
pub open spec fn or_empty(s: Option<Seq<char>>) -> Seq<char> {
    match s {
        Some(t) => t,
        None => Seq::empty(),
    }
}

/// What is known of the apps by pid and window ids, in their order.
pub open spec fn listing(apps: Seq<AppModel>) -> Seq<(i32, Seq<u32>)> {
    apps.map_values(|a: AppModel| (a.pid, a.windows))
}

/// The first listed app.
pub open spec fn first_listed(apps: Seq<AppModel>) -> Option<AppModel>
    decreases apps.len(),
{
    if apps.len() == 0 {
        None
    } else if app_listed(apps[0]) {
        Some(apps[0])
    } else {
        first_listed(apps.drop_first())
    }
}

/// The pids of the apps that are a Chrome flavour.
pub open spec fn chromes(apps: Seq<AppModel>) -> Seq<i32> {
    windows::pids_of(apps.filter(|a: AppModel| chrome::chrome_app(a.name)))
}

/// The first of the cards `filtered` that stands for the app with this pid.
pub open spec fn card_of(apps: Seq<AppModel>, filtered: Seq<int>, pid: i32, from: int) -> Option<
    int,
>
    decreases filtered.len() - from,
{
    if from < 0 || from >= filtered.len() {
        None
    } else if apps[filtered[from]].pid == pid {
        Some(from)
    } else {
        card_of(apps, filtered, pid, from + 1)
    }
}

/// The windows of any of `pids`.
pub open spec fn owned_by(ws: Seq<WindowModel>, pids: Seq<i32>) -> Seq<WindowModel> {
    ws.filter(|w: WindowModel| pids.contains(w.pid))
}

/// The next generation.
pub open spec fn next_generation(g: u64) -> u64 {
    if g == u64::MAX {
        0
    } else {
        (g + 1) as u64
    }
}

impl HubModel {
    /// At the Apps level.
    pub open spec fn at_apps(self) -> bool {
        self.level is Apps
    }

    /// How many apps or windows the level has, before any is left out.
    pub open spec fn items(self) -> nat {
        match self.level {
            LevelModel::Apps => self.apps.len(),
            LevelModel::Windows { .. } => self.scope.len(),
        }
    }

    /// How many items the level shows before the search filter.
    pub open spec fn total(self) -> nat {
        match self.level {
            LevelModel::Apps => self.apps.filter(|a: AppModel| app_listed(a)).len(),
            LevelModel::Windows { .. } => self.scope.len(),
        }
    }

    /// What the search looks through for the item at `i`: an app's name, or a
    /// window's title and profile.
    pub open spec fn haystack(self, i: int) -> Seq<char> {
        match self.level {
            LevelModel::Apps => self.apps[i].name,
            LevelModel::Windows { .. } => self.scope[i].title + " "@ + or_empty(
                self.scope[i].profile,
            ),
        }
    }

    /// The item at `i` has a card: an app must be listed, and every word of
    /// the search must stand in what is looked through, whatever the case.
    pub open spec fn shows(self, i: int) -> bool {
        &&& self.at_apps() ==> app_listed(self.apps[i])
        &&& self.query.len() == 0 || has_all_words(
            text::lowercase(self.haystack(i)),
            text::lowercase(self.query),
        )
    }

    /// The items that have a card, in their order.
    pub open spec fn shown(self) -> Seq<int> {
        Seq::new(self.items(), |i: int| i).filter(|i: int| self.shows(i))
    }

    /// The hub with its cards made anew: the selection stays where it is, or
    /// goes to the last card where it would stand behind it.
    pub open spec fn rebuilt(self) -> HubModel {
        let cards = self.shown();
        HubModel {
            filtered: cards,
            selected: if self.selected < cards.len() {
                self.selected
            } else if cards.len() == 0 {
                0
            } else {
                cards.len() - 1
            },
            cols: layout::columns_for(cards.len(), self.max_cols),
            ..self
        }
    }

    /// The hub with the card at `i` selected, where there is one.
    pub open spec fn selecting(self, i: int) -> HubModel {
        if 0 <= i < self.filtered.len() {
            HubModel { selected: i, ..self }
        } else {
            self
        }
    }

    /// The hub with the selection moved by `delta` cards, round the ends.
    pub open spec fn stepped(self, delta: int) -> HubModel {
        if self.filtered.len() == 0 {
            self
        } else {
            self.selecting((self.selected + delta) % self.filtered.len() as int)
        }
    }

    /// The hub with another search, the first card selected.
    pub open spec fn searching(self, query: Seq<char>) -> HubModel {
        HubModel { query, selected: 0, ..self }.rebuilt()
    }

    /// Some app's window list is not what the window server's list and the
    /// Accessibility cache give now.
    pub open spec fn windows_changed(self) -> bool {
        let ws = windows::applied(self.raw_windows, self.ax_cache, self.apps);
        listing(windows::all_assigned(self.apps, ws)) != listing(self.apps)
    }

    /// The hub with its app window lists derived anew from the window server's
    /// list and the Accessibility cache.
    pub open spec fn refreshed(self, mru: Seq<i32>, front: Option<i32>) -> HubModel {
        let ws = windows::applied(self.raw_windows, self.ax_cache, self.apps);
        HubModel {
            apps: (Ranking { front, windows: ws, mru }).ordered(
                windows::all_assigned(self.apps, ws),
            ),
            all_windows: ws,
            ..self
        }
    }

    /// The hub with more Accessibility answers.
    pub open spec fn knowing(self, ax: Map<i32, Map<u32, focus::AxModel>>) -> HubModel {
        HubModel { ax_cache: self.ax_cache.union_prefer_right(ax), ..self }
    }

    /// The windows that the sub-dock for `pids` shows, going by what
    /// Accessibility answered; without any answer, the titled ones.
    pub open spec fn sub_dock(
        self,
        pids: Seq<i32>,
        ax: Map<i32, Map<u32, focus::AxModel>>,
    ) -> Seq<WindowModel> {
        let mine = owned_by(self.raw_windows, pids);
        if ax.is_empty() {
            mine.filter(|w: WindowModel| windows::titled(w))
        } else {
            windows::applied(mine, ax, self.apps)
        }
    }

    /// The hub at the Windows level for `pids`. In a switcher, where one of
    /// these apps is in front, its previous window is selected.
    pub open spec fn opened(
        self,
        pids: Seq<i32>,
        name: Seq<char>,
        ax: Map<i32, Map<u32, focus::AxModel>>,
        front: Option<i32>,
        mru: Seq<i32>,
    ) -> HubModel {
        let scope = self.sub_dock(pids, ax);
        let base = if ax.is_empty() {
            self
        } else {
            self.knowing(ax).refreshed(mru, front)
        };
        let in_front = front matches Some(p) && pids.contains(p);
        HubModel {
            scope,
            level: LevelModel::Windows { pids, name },
            query: Seq::empty(),
            selected: if self.mode is Switch && in_front && scope.len() > 1 {
                1
            } else {
                0
            },
            ..base
        }.rebuilt()
    }

    /// The app whose windows the selected card opens: its pid and name. None
    /// at the Windows level, without a card, and for an app without windows.
    pub open spec fn entrance(self) -> Option<(i32, Seq<char>)> {
        if self.at_apps() && 0 <= self.selected < self.filtered.len() {
            let a = self.apps[self.filtered[self.selected]];
            if a.windows.len() > 0 {
                Some((a.pid, a.name))
            } else {
                None
            }
        } else {
            None
        }
    }

    /// The Apps level can be stepped back up to.
    pub open spec fn can_go_back(self) -> bool {
        self.level is Windows && self.root_is_apps
    }

    /// The hub back at the Apps level, the app it was entered from selected.
    pub open spec fn gone_back(self) -> HubModel {
        let up = HubModel { level: LevelModel::Apps, ..self }.searching(Seq::empty());
        let pids = self.level->pids;
        if pids.len() == 0 {
            up
        } else {
            match card_of(up.apps, up.filtered, pids[0], 0) {
                Some(p) => up.selecting(p),
                None => up,
            }
        }
    }

    /// The hub closed.
    pub open spec fn closed_up(self) -> HubModel {
        HubModel { visible: false, generation: next_generation(self.generation), ..self }
    }

    /// The hub about to open on these apps and windows.
    pub open spec fn loaded(
        self,
        mode: Mode,
        apps: Seq<AppModel>,
        all_windows: Seq<WindowModel>,
        raw_windows: Seq<WindowModel>,
        max_cols: nat,
    ) -> HubModel {
        HubModel {
            apps,
            all_windows,
            raw_windows,
            max_cols,
            mode,
            visible: true,
            generation: next_generation(self.generation),
            query: Seq::empty(),
            ..self
        }
    }

    /// The loaded hub opened at the Apps level. In a switcher, where the
    /// frontmost app heads the list, the next one is selected.
    pub open spec fn opened_at_apps(self, front: Option<i32>) -> HubModel {
        let front_first = first_listed(self.apps) matches Some(a) && front == Some(a.pid);
        HubModel {
            root_is_apps: true,
            level: LevelModel::Apps,
            selected: if self.mode is Switch && front_first {
                1
            } else {
                0
            },
            ..self
        }.rebuilt()
    }

    /// The loaded hub opened at the windows of every Chrome flavour.
    pub open spec fn opened_at_chrome(
        self,
        ax: Map<i32, Map<u32, focus::AxModel>>,
        front: Option<i32>,
        mru: Seq<i32>,
    ) -> HubModel {
        HubModel { root_is_apps: false, ..self }.opened(
            chromes(self.apps),
            "Chrome"@,
            ax,
            front,
            mru,
        )
    }

    /// What holds of the hub at all times: there is room for a column; every
    /// card stands for an item of the level; the selection is a card, or 0
    /// where there is none; apps and windows agree; and what the Windows level
    /// shows is on the window server's list.
    pub open spec fn wf(self) -> bool {
        &&& self.max_cols >= 1
        &&& self.cols >= 1
        &&& forall|k: int|
            0 <= k < self.filtered.len() ==> 0 <= #[trigger] self.filtered[k] < self.items()
        &&& 0 <= self.selected
        &&& self.selected < self.filtered.len() || (self.filtered.len() == 0 && self.selected == 0)
        &&& windows::coherent(self.apps, self.all_windows, self.raw_windows, self.ax_cache)
        &&& self.level is Windows ==> forall|k: int|
            0 <= k < self.scope.len() ==> windows::ids_of(self.raw_windows).contains(
                (#[trigger] self.scope[k]).id,
            )
    }
}

/// Every card stands for an item of the level that is to be shown.
pub proof fn lemma_shown(h: HubModel)
    ensures
        forall|k: int|
            0 <= k < h.shown().len() ==> 0 <= #[trigger] h.shown()[k] < h.items() && h.shows(
                h.shown()[k],
            ),
{
    let all = Seq::new(h.items(), |i: int| i);
    let p = |i: int| h.shows(i);
    assert forall|k: int| 0 <= k < h.shown().len() implies 0 <= #[trigger] h.shown()[k]
        < h.items() && h.shows(h.shown()[k]) by {
        all.lemma_filter_pred(p, k);
        assert(h.shown().contains(h.shown()[k]));
        all.lemma_filter_contains_rev(p, h.shown()[k]);
    }
}

/// Making the cards anew leaves a well-formed selection.
pub proof fn lemma_rebuilt(h: HubModel)
    requires
        h.max_cols >= 1,
        0 <= h.selected,
        windows::coherent(h.apps, h.all_windows, h.raw_windows, h.ax_cache),
        h.level is Windows ==> forall|k: int|
            0 <= k < h.scope.len() ==> windows::ids_of(h.raw_windows).contains(
                (#[trigger] h.scope[k]).id,
            ),
    ensures
        h.rebuilt().wf(),
{
    lemma_shown(h);
    layout::law_columns_in_range(h.shown().len(), h.max_cols);
    let r = h.rebuilt();
    assert(r.items() == h.items());
}

/// What the sub-dock shows is on the window server's list.
pub proof fn lemma_sub_dock(
    h: HubModel,
    pids: Seq<i32>,
    ax: Map<i32, Map<u32, focus::AxModel>>,
)
    ensures
        forall|k: int|
            0 <= k < h.sub_dock(pids, ax).len() ==> windows::ids_of(h.raw_windows).contains(
                (#[trigger] h.sub_dock(pids, ax)[k]).id,
            ) && pids.contains(h.sub_dock(pids, ax)[k].pid),
{
    let own = |w: WindowModel| pids.contains(w.pid);
    let mine = owned_by(h.raw_windows, pids);
    let r = h.sub_dock(pids, ax);
    assert forall|k: int| 0 <= k < mine.len() implies windows::ids_of(h.raw_windows).contains(
        (#[trigger] mine[k]).id,
    ) && pids.contains(mine[k].pid) by {
        h.raw_windows.lemma_filter_pred(own, k);
        assert(mine.contains(mine[k]));
        h.raw_windows.lemma_filter_contains_rev(own, mine[k]);
        let j = choose|j: int| 0 <= j < h.raw_windows.len() && h.raw_windows[j] == mine[k];
        assert(windows::ids_of(h.raw_windows)[j] == mine[k].id);
    }
    assert forall|k: int| 0 <= k < r.len() implies windows::ids_of(h.raw_windows).contains(
        (#[trigger] r[k]).id,
    ) && pids.contains(r[k].pid) by {
        if ax.is_empty() {
            let t = |w: WindowModel| windows::titled(w);
            assert(r.contains(r[k]));
            mine.lemma_filter_contains_rev(t, r[k]);
            let j = choose|j: int| 0 <= j < mine.len() && mine[j] == r[k];
            assert(windows::ids_of(h.raw_windows).contains(mine[j].id));
        } else {
            windows_laws::law_no_window_is_invented(mine, ax, h.apps, k);
            let j = choose|j: int|
                0 <= j < mine.len() && windows::kept(ax, #[trigger] mine[j]) && r[k]
                    == windows::refined(ax, h.apps, mine[j]);
            assert(windows::ids_of(h.raw_windows).contains(mine[j].id));
        }
    }
}

/// A well-formed hub opens the windows of `pids` well-formed.
pub proof fn lemma_opened(
    h: HubModel,
    pids: Seq<i32>,
    name: Seq<char>,
    ax: Map<i32, Map<u32, focus::AxModel>>,
    front: Option<i32>,
    mru: Seq<i32>,
)
    requires
        h.max_cols >= 1,
        windows::coherent(h.apps, h.all_windows, h.raw_windows, h.ax_cache),
    ensures
        h.opened(pids, name, ax, front, mru).wf(),
{
    lemma_sub_dock(h, pids, ax);
    let scope = h.sub_dock(pids, ax);
    let base = if ax.is_empty() {
        h
    } else {
        h.knowing(ax).refreshed(mru, front)
    };
    if !ax.is_empty() {
        let k = h.knowing(ax);
        let ws = windows::applied(k.raw_windows, k.ax_cache, k.apps);
        windows_laws::law_refresh_is_coherent(
            Ranking { front, windows: ws, mru },
            k.apps,
            k.raw_windows,
            k.ax_cache,
        );
    }
    let in_front = front matches Some(p) && pids.contains(p);
    lemma_rebuilt(
        HubModel {
            scope,
            level: LevelModel::Windows { pids, name },
            query: Seq::empty(),
            selected: if h.mode is Switch && in_front && scope.len() > 1 {
                1
            } else {
                0
            },
            ..base
        },
    );
}

/// Whether every word of `query` stands somewhere in `hay`.
pub fn matches_words(hay: &str, query: &str) -> (r: bool)
    ensures
        r == has_all_words(hay@, query@),
{
    let terms: Vec<String> = text::words(query);
    let ghost ws = text::words_of(query@);
    let mut i: usize = 0;
    while i < terms.len()
        invariant
            i <= terms.len(),
            text::texts(terms@) == ws,
            ws == text::words_of(query@),
            forall|k: int| 0 <= k < i ==> text::has(hay@, #[trigger] ws[k]),
        decreases terms.len() - i,
    {
        assert(ws[i as int] == terms@[i as int]@);
        if !text::contains(hay, terms[i].as_str()) {
            return false;
        }
        i = i + 1;
    }
    true
}

/// The pids of the apps that are a Chrome flavour.
pub fn chrome_pids(apps: &Vec<AppEntry>) -> (r: Vec<i32>)
    ensures
        r@ == chromes(windows::app_models(apps@)),
{
    let ghost all = windows::app_models(apps@);
    let ghost p = |a: AppModel| chrome::chrome_app(a.name);
    let mut out: Vec<i32> = Vec::new();
    let mut i: usize = 0;
    assert(windows::pids_of(all.take(0).filter(p)) =~= Seq::empty());
    while i < apps.len()
        invariant
            i <= apps.len(),
            all == windows::app_models(apps@),
            p == (|a: AppModel| chrome::chrome_app(a.name)),
            out@ == windows::pids_of(all.take(i as int).filter(p)),
        decreases apps.len() - i,
    {
        proof {
            assert(all.take(i + 1).drop_last() =~= all.take(i as int));
            reveal(Seq::filter);
        }
        let ghost before = all.take(i as int).filter(p);
        if chrome::is_chrome(apps[i].name.as_str()) {
            out.push(apps[i].pid);
            assert(out@ =~= windows::pids_of(before.push(all[i as int])));
        }
        i = i + 1;
    }
    assert(all.take(i as int) =~= all);
    out
}

/// Whether two lists of ids are the same.
fn same_ids(a: &Vec<u32>, b: &Vec<u32>) -> (r: bool)
    ensures
        r == (a@ == b@),
{
    if a.len() != b.len() {
        return false;
    }
    let mut i: usize = 0;
    while i < a.len()
        invariant
            i <= a.len(),
            a.len() == b.len(),
            forall|j: int| 0 <= j < i ==> a@[j] == b@[j],
        decreases a.len() - i,
    {
        if a[i] != b[i] {
            return false;
        }
        i = i + 1;
    }
    assert(a@ =~= b@);
    true
}

/// A copy of a list of ids.
fn clone_ids(a: &Vec<u32>) -> (r: Vec<u32>)
    ensures
        r@ == a@,
{
    let mut out: Vec<u32> = Vec::new();
    let mut i: usize = 0;
    while i < a.len()
        invariant
            i <= a.len(),
            out@ == a@.take(i as int),
        decreases a.len() - i,
    {
        out.push(a[i]);
        assert(out@ =~= a@.take(i + 1));
        i = i + 1;
    }
    assert(a@.take(i as int) =~= a@);
    out
}

/// An app's pid and window ids.
struct Listed {
    pid: i32,
    windows: Vec<u32>,
}

/// What a list of pids and window ids holds.
spec fn listed_of(v: Seq<Listed>) -> Seq<(i32, Seq<u32>)> {
    v.map_values(|l: Listed| (l.pid, l.windows@))
}

/// The apps by pid and window ids, in their order.
fn list_apps(apps: &Vec<AppEntry>) -> (r: Vec<Listed>)
    ensures
        listed_of(r@) == listing(windows::app_models(apps@)),
{
    let ghost all = listing(windows::app_models(apps@));
    let mut out: Vec<Listed> = Vec::new();
    let mut i: usize = 0;
    assert(listed_of(out@) =~= all.take(0));
    while i < apps.len()
        invariant
            i <= apps.len(),
            all == listing(windows::app_models(apps@)),
            listed_of(out@) == all.take(i as int),
        decreases apps.len() - i,
    {
        let ghost before = out@;
        out.push(Listed { pid: apps[i].pid, windows: clone_ids(&apps[i].windows) });
        assert(listed_of(out@) =~= listed_of(before).push(all[i as int]));
        assert(all.take(i + 1) =~= all.take(i as int).push(all[i as int]));
        i = i + 1;
    }
    assert(all.take(i as int) =~= all);
    out
}

/// Whether the apps are still listed as `before`.
fn still_listed(before: &Vec<Listed>, apps: &Vec<AppEntry>) -> (r: bool)
    ensures
        r == (listed_of(before@) == listing(windows::app_models(apps@))),
{
    let ghost a = listed_of(before@);
    let ghost b = listing(windows::app_models(apps@));
    if before.len() != apps.len() {
        assert(a.len() != b.len());
        return false;
    }
    let mut i: usize = 0;
    while i < apps.len()
        invariant
            i <= apps.len(),
            before.len() == apps.len(),
            a == listed_of(before@),
            b == listing(windows::app_models(apps@)),
            forall|j: int| 0 <= j < i ==> a[j] == b[j],
        decreases apps.len() - i,
    {
        if before[i].pid != apps[i].pid || !same_ids(&before[i].windows, &apps[i].windows) {
            assert(a[i as int] != b[i as int]);
            return false;
        }
        i = i + 1;
    }
    assert(a =~= b);
    true
}

// ---- The hub's own steps ----------------------------------------------------

impl Hub {
    /// A closed hub that has not been opened yet.
    pub fn new() -> (r: Hub)
        ensures
            r@.wf(),
            !r@.visible,
            r@.at_apps(),
            r@.apps.len() == 0 && r@.filtered.len() == 0 && r@.query.len() == 0,
            r@.raw_windows.len() == 0 && r@.scope.len() == 0,
            r@.ax_cache == Map::<i32, Map<u32, focus::AxModel>>::empty(),
            r@.root_is_apps && r@.mode == Mode::Browse && r@.generation == 0,
            r@.cols == 1 && r@.max_cols == 1,
    {
        let r: Hub = Hub {
            apps: Vec::new(),
            all_windows: Vec::new(),
            raw_windows: Vec::new(),
            ax_cache: HashMap::new(),
            scope: Vec::new(),
            level: Level::Apps,
            root_is_apps: true,
            filtered: Vec::new(),
            selected: 0,
            cols: 1,
            max_cols: 1,
            query: String::new(),
            mode: Mode::Browse,
            visible: false,
            generation: 0,
        };
        assert(r@.all_windows =~= windows::applied(r@.raw_windows, r@.ax_cache, r@.apps));
        assert(r@.ax_cache =~= Map::empty());
        r
    }

    /// Apps with no window on screen anywhere (Finder idling, Calendar with
    /// its window closed or minimized) are running but not open: the hub
    /// leaves them out.
    pub fn listed(a: &AppEntry) -> (r: bool)
        ensures
            r == app_listed(a@),
    {
        a.active > 0
    }

    /// Whether the hub is at the Apps level.
    pub fn at_apps(&self) -> (r: bool)
        ensures
            r == self@.at_apps(),
    {
        match self.level {
            Level::Apps => true,
            Level::Windows { .. } => false,
        }
    }

    /// Items the current level shows before the search filter.
    pub fn item_count(&self) -> (r: usize)
        ensures
            r == self@.total(),
    {
        match self.level {
            Level::Windows { .. } => self.scope.len(),
            Level::Apps => {
                let ghost all = self@.apps;
                let ghost p = |a: AppModel| app_listed(a);
                let mut n: usize = 0;
                let mut i: usize = 0;
                assert(all.take(0).filter(p) =~= Seq::empty());
                while i < self.apps.len()
                    invariant
                        i <= self.apps.len(),
                        n <= i,
                        all == windows::app_models(self.apps@),
                        p == (|a: AppModel| app_listed(a)),
                        n == all.take(i as int).filter(p).len(),
                    decreases self.apps.len() - i,
                {
                    proof {
                        assert(all.take(i + 1).drop_last() =~= all.take(i as int));
                        reveal(Seq::filter);
                    }
                    if Hub::listed(&self.apps[i]) {
                        n = n + 1;
                    }
                    i = i + 1;
                }
                assert(all.take(i as int) =~= all);
                n
            },
        }
    }

    /// Whether the item at `i` has a card.
    pub fn matches(&self, i: usize) -> (r: bool)
        requires
            i < self@.items(),
        ensures
            r == self@.shows(i as int),
    {
        let hay: String = match self.level {
            Level::Apps => {
                if !Hub::listed(&self.apps[i]) {
                    return false;
                }
                if self.query.as_str().is_empty() {
                    return true;
                }
                self.apps[i].name.as_str().to_lowercase()
            },
            Level::Windows { .. } => {
                if self.query.as_str().is_empty() {
                    return true;
                }
                let mut s: String = self.scope[i].title.clone();
                s.append(" ");
                match &self.scope[i].profile {
                    Some(p) => s.append(p.as_str()),
                    None => s.append(""),
                }
                proof {
                    reveal_strlit("");
                    assert(""@ =~= Seq::<char>::empty());
                }
                s.as_str().to_lowercase()
            },
        };
        let query: String = self.query.as_str().to_lowercase();
        matches_words(hay.as_str(), query.as_str())
    }

    /// Makes the cards anew.
    pub fn rebuild(&mut self)
        requires
            old(self)@.max_cols >= 1,
        ensures
            final(self)@ == old(self)@.rebuilt(),
    {
        let ghost h = self@;
        let ghost p = |i: int| h.shows(i);
        let ghost all = Seq::new(h.items(), |i: int| i);
        let items: usize = match self.level {
            Level::Apps => self.apps.len(),
            Level::Windows { .. } => self.scope.len(),
        };
        let mut cards: Vec<usize> = Vec::new();
        let mut i: usize = 0;
        assert(positions(cards@) =~= all.take(0).filter(p));
        while i < items
            invariant
                i <= items,
                items == h.items(),
                h == self@,
                p == (|i: int| h.shows(i)),
                all == Seq::new(h.items(), |i: int| i),
                positions(cards@) == all.take(i as int).filter(p),
            decreases items - i,
        {
            proof {
                assert(all.take(i + 1).drop_last() =~= all.take(i as int));
                reveal(Seq::filter);
            }
            let ghost before = cards@;
            if self.matches(i) {
                cards.push(i);
                assert(positions(cards@) =~= positions(before).push(i as int));
            }
            i = i + 1;
        }
        assert(all.take(i as int) =~= all);
        let n: usize = cards.len();
        self.filtered = cards;
        if self.selected >= n {
            self.selected = if n == 0 {
                0
            } else {
                n - 1
            };
        }
        self.cols = layout::columns(n, self.max_cols);
        assert(self@ =~= h.rebuilt());
    }

    /// Selects the card at `i`, where there is one. True when the selection
    /// changed.
    pub fn select(&mut self, i: usize) -> (r: bool)
        ensures
            final(self)@ == old(self)@.selecting(i as int),
            r == (final(self)@.selected != old(self)@.selected),
    {
        let ghost h = self@;
        if i < self.filtered.len() && i != self.selected {
            self.selected = i;
            assert(self@ =~= h.selecting(i as int));
            true
        } else {
            assert(self@ =~= h.selecting(i as int));
            false
        }
    }

    /// Moves the selection by `delta` cards, round the ends. True when it
    /// changed.
    fn move_by(&mut self, delta: i128) -> (r: bool)
        requires
            -usize::MAX <= delta <= usize::MAX,
        ensures
            final(self)@ == old(self)@.stepped(delta as int),
            r == (final(self)@.selected != old(self)@.selected),
    {
        let n: usize = self.filtered.len();
        if n == 0 {
            return false;
        }
        let sum: i128 = self.selected as i128 + delta;
        let next: u128 = if sum >= 0 {
            (sum as u128) % (n as u128)
        } else {
            let m: u128 = ((-sum) as u128) % (n as u128);
            proof {
                lemma_negative_mod(-(sum as int), n as int);
            }
            if m == 0 {
                0
            } else {
                n as u128 - m
            }
        };
        proof {
            vstd::arithmetic::div_mod::lemma_mod_bound(sum as int, n as int);
        }
        self.select(next as usize)
    }

    /// Moves the selection by `delta` cards, round the ends. True when it
    /// changed.
    pub fn step(&mut self, delta: isize) -> (r: bool)
        ensures
            final(self)@ == old(self)@.stepped(delta as int),
            r == (final(self)@.selected != old(self)@.selected),
    {
        self.move_by(delta as i128)
    }

    /// Moves the selection one row up or down, round the ends. True when it
    /// changed.
    pub fn step_row(&mut self, up: bool) -> (r: bool)
        ensures
            final(self)@ == old(self)@.stepped(
                if up {
                    -(old(self)@.cols as int)
                } else {
                    old(self)@.cols as int
                },
            ),
            r == (final(self)@.selected != old(self)@.selected),
    {
        let cols: i128 = self.cols as i128;
        if up {
            self.move_by(-cols)
        } else {
            self.move_by(cols)
        }
    }

    /// Adds a character to the search.
    pub fn type_char(&mut self, c: char)
        requires
            old(self)@.max_cols >= 1,
        ensures
            final(self)@ == old(self)@.searching(old(self)@.query.push(c)),
    {
        self.query.push(c);
        self.selected = 0;
        self.rebuild();
    }

    /// Re-derives the app window lists from the window-server list and the
    /// current Accessibility cache. True when any app's windows changed; a new
    /// order of the apps is no such change.
    pub fn refresh_from_ax(&mut self, mru: &Vec<i32>, front: Option<i32>) -> (r: bool)
        ensures
            final(self)@ == old(self)@.refreshed(mru@, front),
            r == old(self)@.windows_changed(),
    {
        let ghost h = self@;
        let before: Vec<Listed> = list_apps(&self.apps);
        let mut w: Vec<WindowInfo> = windows::clone_windows(&self.raw_windows);
        windows::apply_ax(&mut w, &self.ax_cache, &self.apps);
        windows::assign_windows(&mut self.apps, &w);
        let changed: bool = !still_listed(&before, &self.apps);
        windows::order_apps(&mut self.apps, &w, mru, front);
        self.all_windows = w;
        assert(self@ =~= h.refreshed(mru@, front));
        changed
    }

    /// The windows that the sub-dock for `pids` shows.
    fn windows_for(&self, pids: &Vec<i32>, ax: &AxCache) -> (r: Vec<WindowInfo>)
        ensures
            windows::window_models(r@) == self@.sub_dock(pids@, windows::ax_view(*ax)),
    {
        let ghost raw = self@.raw_windows;
        let ghost own = |w: WindowModel| pids@.contains(w.pid);
        let ghost titled = |w: WindowModel| windows::titled(w);
        let none: bool = ax.is_empty();
        assert(windows::ax_view(*ax).dom() =~= ax@.dom());
        let mut mine: Vec<WindowInfo> = Vec::new();
        let mut i: usize = 0;
        assert(windows::window_models(mine@) =~= raw.take(0).filter(own));
        while i < self.raw_windows.len()
            invariant
                i <= self.raw_windows.len(),
                raw == windows::window_models(self.raw_windows@),
                own == (|w: WindowModel| pids@.contains(w.pid)),
                windows::window_models(mine@) == raw.take(i as int).filter(own),
            decreases self.raw_windows.len() - i,
        {
            proof {
                assert(raw.take(i + 1).drop_last() =~= raw.take(i as int));
                reveal(Seq::filter);
            }
            let ghost before = mine@;
            if windows::holds_pid(pids, self.raw_windows[i].pid) {
                mine.push(self.raw_windows[i].clone());
                assert(windows::window_models(mine@) =~= windows::window_models(before).push(
                    raw[i as int],
                ));
            }
            i = i + 1;
        }
        assert(raw.take(i as int) =~= raw);
        if !none {
            windows::apply_ax(&mut mine, ax, &self.apps);
            return mine;
        }
        let ghost all = windows::window_models(mine@);
        let mut named: Vec<WindowInfo> = Vec::new();
        let mut k: usize = 0;
        assert(windows::window_models(named@) =~= all.take(0).filter(titled));
        while k < mine.len()
            invariant
                k <= mine.len(),
                all == windows::window_models(mine@),
                titled == (|w: WindowModel| windows::titled(w)),
                windows::window_models(named@) == all.take(k as int).filter(titled),
            decreases mine.len() - k,
        {
            proof {
                assert(all.take(k + 1).drop_last() =~= all.take(k as int));
                reveal(Seq::filter);
            }
            let ghost before = named@;
            if !mine[k].title.as_str().is_empty() {
                named.push(mine[k].clone());
                assert(windows::window_models(named@) =~= windows::window_models(before).push(
                    all[k as int],
                ));
            }
            k = k + 1;
        }
        assert(all.take(k as int) =~= all);
        named
    }

    /// Switches to the Windows level for `pids`. `ax` is what Accessibility
    /// has just answered for them: it is kept, so that the app cards agree
    /// with it when stepping back up.
    pub fn open_windows(
        &mut self,
        pids: Vec<i32>,
        name: String,
        ax: &AxCache,
        front: Option<i32>,
        mru: &Vec<i32>,
    )
        requires
            old(self)@.wf(),
        ensures
            final(self)@ == old(self)@.opened(
                pids@,
                name@,
                windows::ax_view(*ax),
                front,
                mru@,
            ),
            final(self)@.wf(),
    {
        self.reopen(pids, name, ax, front, mru)
    }

    /// Back up from the Windows level to the Apps level it was entered from.
    pub fn back(&mut self) -> (r: bool)
        requires
            old(self)@.wf(),
        ensures
            final(self)@.wf(),
            r == old(self)@.can_go_back(),
            r ==> final(self)@ == old(self)@.gone_back(),
            !r ==> final(self)@ == old(self)@,
    {
        let ghost h = self@;
        let first: Option<i32> = match &self.level {
            Level::Apps => {
                return false;
            },
            Level::Windows { pids, .. } => if pids.len() > 0 {
                Some(pids[0])
            } else {
                None
            },
        };
        if !self.root_is_apps {
            return false;
        }
        self.level = Level::Apps;
        self.query = String::new();
        self.selected = 0;
        proof {
            lemma_rebuilt(self@);
        }
        self.rebuild();
        let ghost up = self@;
        if let Some(pid) = first {
            let mut p: usize = 0;
            while p < self.filtered.len()
                invariant
                    p <= self.filtered.len(),
                    h == old(self)@,
                    up == self@,
                    up.wf(),
                    up.at_apps(),
                    card_of(up.apps, up.filtered, pid, 0) == card_of(
                        up.apps,
                        up.filtered,
                        pid,
                        p as int,
                    ),
                    h.can_go_back(),
                    h.level->pids.len() > 0,
                    pid == h.level->pids[0],
                    up == (HubModel { level: LevelModel::Apps, ..h }).searching(Seq::empty()),
                decreases self.filtered.len() - p,
            {
                assert(up.filtered[p as int] == self.filtered@[p as int] as int);
                if self.apps[self.filtered[p]].pid == pid {
                    let _ = self.select(p);
                    return true;
                }
                p = p + 1;
            }
        }
        true
    }

    /// Opens the hub on freshly listed apps and windows. `ax` is what
    /// Accessibility has just answered for [`chrome_pids`] of these apps, where
    /// the hub opens at Chrome's windows; `max_cols` is how many columns the
    /// screen has room for, where that is known.
    pub fn prepare_show(
        &mut self,
        mode: Mode,
        start: Start,
        snap: Snapshot,
        ax: &AxCache,
        front: Option<i32>,
        mru: &Vec<i32>,
        max_cols: Option<usize>,
    )
        requires
            old(self)@.wf(),
            windows::coherent(
                windows::app_models(snap.apps@),
                windows::window_models(snap.windows@),
                windows::window_models(snap.raw@),
                old(self)@.ax_cache,
            ),
            max_cols matches Some(m) ==> m >= 1,
        ensures
            final(self)@.wf(),
            ({
                let ready = old(self)@.loaded(
                    mode,
                    windows::app_models(snap.apps@),
                    windows::window_models(snap.windows@),
                    windows::window_models(snap.raw@),
                    match max_cols {
                        Some(m) => m as nat,
                        None => old(self)@.max_cols,
                    },
                );
                final(self)@ == match start {
                    Start::Apps => ready.opened_at_apps(front),
                    Start::Chrome => ready.opened_at_chrome(windows::ax_view(*ax), front, mru@),
                }
            }),
    {
        let ghost h = self@;
        self.apps = snap.apps;
        self.all_windows = snap.windows;
        self.raw_windows = snap.raw;
        self.mode = mode;
        self.visible = true;
        self.generation = self.generation.wrapping_add(1);
        self.query = String::new();
        if let Some(m) = max_cols {
            self.max_cols = m;
        }
        let ghost ready = h.loaded(
            mode,
            self@.apps,
            self@.all_windows,
            self@.raw_windows,
            self@.max_cols,
        );
        assert(self@ =~= ready);
        match start {
            Start::Apps => {
                self.root_is_apps = true;
                self.level = Level::Apps;
                let mut i: usize = 0;
                let ghost all = self@.apps;
                assert(all.skip(0) =~= all);
                while i < self.apps.len() && !Hub::listed(&self.apps[i])
                    invariant
                        i <= self.apps.len(),
                        all == windows::app_models(self.apps@),
                        first_listed(all) == first_listed(all.skip(i as int)),
                    decreases self.apps.len() - i,
                {
                    assert(all.skip(i as int).drop_first() =~= all.skip(i + 1));
                    i = i + 1;
                }
                let front_first: bool = match front {
                    Some(p) => i < self.apps.len() && self.apps[i].pid == p,
                    None => false,
                };
                let switching: bool = match mode {
                    Mode::Switch(_) => true,
                    Mode::Browse => false,
                };
                self.selected = if switching && front_first {
                    1
                } else {
                    0
                };
                proof {
                    lemma_rebuilt(self@);
                }
                self.rebuild();
            },
            Start::Chrome => {
                self.root_is_apps = false;
                let pids: Vec<i32> = chrome_pids(&self.apps);
                self.reopen(pids, "Chrome".to_owned(), ax, front, mru);
            },
        }
    }

    /// Switches to the Windows level for `pids`, whatever the cards are now.
    fn reopen(
        &mut self,
        pids: Vec<i32>,
        name: String,
        ax: &AxCache,
        front: Option<i32>,
        mru: &Vec<i32>,
    )
        requires
            old(self)@.max_cols >= 1,
            windows::coherent(
                old(self)@.apps,
                old(self)@.all_windows,
                old(self)@.raw_windows,
                old(self)@.ax_cache,
            ),
        ensures
            final(self)@ == old(self)@.opened(
                pids@,
                name@,
                windows::ax_view(*ax),
                front,
                mru@,
            ),
            final(self)@.wf(),
    {
        let ghost h = self@;
        proof {
            lemma_opened(h, pids@, name@, windows::ax_view(*ax), front, mru@);
            assert(windows::ax_view(*ax).dom() =~= ax@.dom());
        }
        let scope: Vec<WindowInfo> = self.windows_for(&pids, ax);
        if !ax.is_empty() {
            windows::extend_cache(&mut self.ax_cache, ax);
            assert(self@ =~= h.knowing(windows::ax_view(*ax)));
            let _ = self.refresh_from_ax(mru, front);
        }
        let in_front: bool = match front {
            Some(p) => windows::holds_pid(&pids, p),
            None => false,
        };
        let switching: bool = match self.mode {
            Mode::Switch(_) => true,
            Mode::Browse => false,
        };
        self.selected = if switching && in_front && scope.len() > 1 {
            1
        } else {
            0
        };
        self.scope = scope;
        self.level = Level::Windows { pids, name };
        self.query = String::new();
        self.rebuild();
    }
}

/// The remainder of a negative number, counted from the other end.
proof fn lemma_negative_mod(x: int, n: int)
    requires
        x > 0,
        n > 0,
    ensures
        (-x) % n == if x % n == 0 {
            0
        } else {
            n - x % n
        },
{
    let (q, r) = (x / n, x % n);
    vstd::arithmetic::div_mod::lemma_fundamental_div_mod(x, n);
    vstd::arithmetic::div_mod::lemma_mod_bound(x, n);
    if r == 0 {
        assert(-x == (-q) * n + 0) by (nonlinear_arith)
            requires
                x == n * q + r,
                r == 0,
        ;
        vstd::arithmetic::div_mod::lemma_fundamental_div_mod_converse(-x, n, -q, 0);
    } else {
        assert(-x == (-q - 1) * n + (n - r)) by (nonlinear_arith)
            requires
                x == n * q + r,
        ;
        vstd::arithmetic::div_mod::lemma_fundamental_div_mod_converse(-x, n, -q - 1, n - r);
    }
}

} // verus!
