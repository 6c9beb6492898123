//! Applications and their windows. The window server gives ids, z-order and
//! visibility for every app in one call, but it also lists invisible helper
//! windows (omnibox dropdowns, offscreen Electron windows, tooltips).
//! Accessibility knows which windows are real, which are minimized, and their
//! full title (for Chrome that carries the profile). Its answers are gathered
//! per app into an [`AxCache`] that the hub keeps across shows, so the app
//! cards count exactly the windows the sub-dock will show.
use std::collections::HashMap;

use vstd::prelude::*;

use crate::chrome;
use crate::focus;
use crate::text;
use crate::windows_laws;

verus! {

// ---- Types ------------------------------------------------------------------

/// One window as the window server lists it.
pub struct WindowInfo {
    pub id: u32,
    pub pid: i32,
    /// Application name as reported by the window server ("Google Chrome", "Finder", ...).
    pub app: String,
    /// Window title; for Chrome the tab title with the app/profile suffixes stripped.
    pub title: String,
    /// Chrome profile, when known.
    pub profile: Option<String>,
    pub on_screen: bool,
    pub minimized: bool,
    /// False when the window server has the window on no desktop at all:
    /// closed but kept alive by its app (Calendar, Mail viewers), or a
    /// hidden helper window. Such a window is not one the user can switch to.
    pub on_space: bool,
    /// On the desktop currently shown. Off screen yet on the current desktop
    /// means minimized (or the app is hidden).
    pub on_current_space: bool,
    /// Window-server bounds (x, y, width, height) in thousandths of a screen
    /// point.
    pub bounds: (i64, i64, i64, i64),
}

/// What a [`WindowInfo`] holds.
#[verifier::ext_equal]
pub struct WindowModel {
    pub id: u32,
    pub pid: i32,
    pub app: Seq<char>,
    pub title: Seq<char>,
    pub profile: Option<Seq<char>>,
    pub on_screen: bool,
    pub minimized: bool,
    pub on_space: bool,
    pub on_current_space: bool,
    pub bounds: (i64, i64, i64, i64),
}

impl View for WindowInfo {
    type V = WindowModel;

    open spec fn view(&self) -> WindowModel {
        WindowModel {
            id: self.id,
            pid: self.pid,
            app: self.app@,
            title: self.title@,
            profile: chrome::optional(self.profile),
            on_screen: self.on_screen,
            minimized: self.minimized,
            on_space: self.on_space,
            on_current_space: self.on_current_space,
            bounds: self.bounds,
        }
    }
}

impl Clone for WindowInfo {
    fn clone(&self) -> (r: WindowInfo)
        ensures
            r == *self,
    {
        WindowInfo {
            id: self.id,
            pid: self.pid,
            app: self.app.clone(),
            title: self.title.clone(),
            profile: match &self.profile {
                Some(p) => Some(p.clone()),
                None => None,
            },
            on_screen: self.on_screen,
            minimized: self.minimized,
            on_space: self.on_space,
            on_current_space: self.on_current_space,
            bounds: self.bounds,
        }
    }
}

/// A running application that would appear in the system ⌘Tab switcher.
pub struct AppEntry {
    pub pid: i32,
    pub name: String,
    pub hidden: bool,
    /// Window ids, front to back.
    pub windows: Vec<u32>,
    /// How many of `windows` are not minimized.
    pub active: usize,
    /// Has an un-minimized window on the desktop currently shown.
    pub on_current: bool,
    /// The window whose thumbnail represents the app.
    pub front: Option<u32>,
}

/// What an [`AppEntry`] holds.
#[verifier::ext_equal]
pub struct AppModel {
    pub pid: i32,
    pub name: Seq<char>,
    pub hidden: bool,
    pub windows: Seq<u32>,
    pub active: int,
    pub on_current: bool,
    pub front: Option<u32>,
}

impl View for AppEntry {
    type V = AppModel;

    open spec fn view(&self) -> AppModel {
        AppModel {
            pid: self.pid,
            name: self.name@,
            hidden: self.hidden,
            windows: self.windows@,
            active: self.active as int,
            on_current: self.on_current,
            front: self.front,
        }
    }
}

/// Accessibility's view of one app's windows, by window id.
pub type AxMap = HashMap<u32, focus::AxWindow>;

/// Per app (pid). An app is absent when Accessibility could not answer for it.
pub type AxCache = HashMap<i32, AxMap>;

/// The apps and their windows at one moment.
pub struct Snapshot {
    pub apps: Vec<AppEntry>,
    /// Every window of every app in `apps`, front to back (on-screen first),
    /// with Accessibility's view applied.
    pub windows: Vec<WindowInfo>,
    /// The same list straight from the window server, so a fresher `AxCache`
    /// can be applied later without asking the window server again.
    pub raw: Vec<WindowInfo>,
}

/// What a list of windows holds.
pub open spec fn window_models(ws: Seq<WindowInfo>) -> Seq<WindowModel> {
    ws.map_values(|w: WindowInfo| w@)
}

/// What a list of apps holds.
pub open spec fn app_models(apps: Seq<AppEntry>) -> Seq<AppModel> {
    apps.map_values(|a: AppEntry| a@)
}

/// What Accessibility's view of one app's windows holds.
pub open spec fn ax_map(m: AxMap) -> Map<u32, focus::AxModel> {
    m@.map_values(|w: focus::AxWindow| w@)
}

/// What Accessibility's view of every app's windows holds.
pub open spec fn ax_view(c: AxCache) -> Map<i32, Map<u32, focus::AxModel>> {
    c@.map_values(|m: AxMap| ax_map(m))
}

/// A copy of a list of windows.
pub fn clone_windows(ws: &Vec<WindowInfo>) -> (r: Vec<WindowInfo>)
    ensures
        r@ == ws@,
{
    let mut out: Vec<WindowInfo> = Vec::new();
    let mut i: usize = 0;
    while i < ws.len()
        invariant
            i <= ws.len(),
            out@ == ws@.take(i as int),
        decreases ws.len() - i,
    {
        out.push(ws[i].clone());
        assert(out@ =~= ws@.take(i + 1));
        i = i + 1;
    }
    assert(ws@.take(i as int) =~= ws@);
    out
}

/// Whether one of `ws` has this id.
pub fn holds_id(ws: &Vec<WindowInfo>, id: u32) -> (r: bool)
    ensures
        r == ids_of(window_models(ws@)).contains(id),
{
    let ghost ids = ids_of(window_models(ws@));
    let mut i: usize = 0;
    while i < ws.len()
        invariant
            i <= ws.len(),
            ids == ids_of(window_models(ws@)),
            forall|j: int| 0 <= j < i ==> ids[j] != id,
        decreases ws.len() - i,
    {
        if ws[i].id == id {
            assert(ids[i as int] == id);
            return true;
        }
        i = i + 1;
    }
    false
}

/// Whether `pids` holds `pid`.
pub fn holds_pid(pids: &Vec<i32>, pid: i32) -> (r: bool)
    ensures
        r == pids@.contains(pid),
{
    let mut i: usize = 0;
    while i < pids.len()
        invariant
            i <= pids.len(),
            forall|j: int| 0 <= j < i ==> pids@[j] != pid,
        decreases pids.len() - i,
    {
        if pids[i] == pid {
            return true;
        }
        i = i + 1;
    }
    false
}

// ---- Accessibility's answers ------------------------------------------------

/// What Accessibility answered for one app; no windows when it could not.
pub struct AxReply {
    pub pid: i32,
    pub windows: Option<Vec<focus::AxWindow>>,
}

/// A list of windows by id; of two with one id, the later.
pub open spec fn by_id(ws: Seq<focus::AxModel>) -> Map<u32, focus::AxModel>
    decreases ws.len(),
{
    if ws.len() == 0 {
        Map::empty()
    } else {
        by_id(ws.drop_last()).insert(ws.last().id, ws.last())
    }
}

/// The answers by pid; an app that was not answered for is left out.
pub open spec fn answers(replies: Seq<AxReply>) -> Map<i32, Map<u32, focus::AxModel>>
    decreases replies.len(),
{
    if replies.len() == 0 {
        Map::empty()
    } else {
        let before = answers(replies.drop_last());
        match replies.last().windows {
            Some(ws) => before.insert(replies.last().pid, by_id(focus::ax_models(ws@))),
            None => before,
        }
    }
}

/// A list of windows by id.
fn index_windows(ws: &Vec<focus::AxWindow>) -> (r: AxMap)
    ensures
        ax_map(r) == by_id(focus::ax_models(ws@)),
{
    let ghost all = focus::ax_models(ws@);
    let mut out: AxMap = HashMap::new();
    let mut i: usize = 0;
    assert(ax_map(out) =~= by_id(all.take(0)));
    while i < ws.len()
        invariant
            i <= ws.len(),
            all == focus::ax_models(ws@),
            ax_map(out) == by_id(all.take(i as int)),
        decreases ws.len() - i,
    {
        let ghost before = out;
        out.insert(ws[i].id, ws[i].clone());
        assert(all.take(i + 1).drop_last() =~= all.take(i as int));
        assert(ax_map(out) =~= ax_map(before).insert(ws@[i as int].id, ws@[i as int]@));
        i = i + 1;
    }
    assert(all.take(i as int) =~= all);
    out
}

/// Gathers what Accessibility answered about each app's windows.
pub fn ax_lookup(replies: &Vec<AxReply>) -> (r: AxCache)
    ensures
        ax_view(r) == answers(replies@),
{
    let mut out: AxCache = HashMap::new();
    let mut i: usize = 0;
    assert(ax_view(out) =~= answers(replies@.take(0)));
    while i < replies.len()
        invariant
            i <= replies.len(),
            ax_view(out) == answers(replies@.take(i as int)),
        decreases replies.len() - i,
    {
        assert(replies@.take(i + 1).drop_last() =~= replies@.take(i as int));
        if let Some(ws) = &replies[i].windows {
            let ghost before = out;
            let map: AxMap = index_windows(ws);
            out.insert(replies[i].pid, map);
            assert(ax_view(out) =~= ax_view(before).insert(replies@[i as int].pid, ax_map(map)));
        }
        i = i + 1;
    }
    assert(replies@.take(i as int) =~= replies@);
    out
}

/// Adds every answer of `fresh` to `cache`; of two for one app, the fresh one
/// stays.
pub fn extend_cache(cache: &mut AxCache, fresh: &AxCache)
    ensures
        ax_view(*final(cache)) == ax_view(*old(cache)).union_prefer_right(ax_view(*fresh)),
{
    let ghost base = ax_view(*cache);
    let ghost added = ax_view(*fresh);
    let ghost mut done: Set<i32> = Set::empty();
    assert(base =~= base.union_prefer_right(added.restrict(done)));
    for kv in it: fresh.iter()
        invariant
            added == ax_view(*fresh),
            forall|i: int|
                0 <= i < it.seq().len() ==> fresh@.contains_key(*(#[trigger] it.seq()[i]).0)
                    && fresh@[*it.seq()[i].0] == *it.seq()[i].1,
            forall|k: i32| #[trigger]
                fresh@.contains_key(k) ==> it.seq().contains((&k, &fresh@[k])),
            forall|i: int| 0 <= i < it.index() ==> done.contains(*(#[trigger] it.seq()[i]).0),
            ax_view(*cache) == base.union_prefer_right(added.restrict(done)),
    {
        let (k, v) = kv;
        let ghost before = *cache;
        cache.insert(*k, v.clone());
        proof {
            done = done.insert(*k);
            assert(fresh@[*k] == *v);
            assert(ax_view(*cache) =~= ax_view(before).insert(*k, ax_map(*v)));
            assert(ax_view(*cache) =~= base.union_prefer_right(added.restrict(done)));
        }
    }
    proof {
        assert forall|k: i32| fresh@.contains_key(k) implies done.contains(k) by {
        }
        assert(added.restrict(done) =~= added);
    }
}

/// Forgets the answers for apps that are not among `pids`.
pub fn retain_pids(cache: &mut AxCache, pids: &Vec<i32>)
    ensures
        ax_view(*final(cache)) == ax_view(*old(cache)).restrict(pids@.to_set()),
{
    let ghost base = *cache;
    let mut kept: AxCache = HashMap::new();
    let mut i: usize = 0;
    assert(kept@ =~= base@.restrict(pids@.take(0).to_set()));
    assert(cache@ =~= base@.remove_keys(pids@.take(0).to_set()));
    while i < pids.len()
        invariant
            i <= pids.len(),
            kept@ == base@.restrict(pids@.take(i as int).to_set()),
            cache@ == base@.remove_keys(pids@.take(i as int).to_set()),
        decreases pids.len() - i,
    {
        let pid: i32 = pids[i];
        let ghost done = pids@.take(i as int).to_set();
        let ghost (kept0, cache0) = (kept@, cache@);
        proof {
            assert(pids@.take(i + 1) =~= pids@.take(i as int).push(pid));
            pids@.take(i as int).lemma_push_to_set_commute(pid);
        }
        match cache.remove(&pid) {
            Some(m) => {
                kept.insert(pid, m);
                assert(cache0.contains_key(pid));
                assert(kept@ =~= base@.restrict(done.insert(pid)));
            },
            None => {
                assert(!cache0.contains_key(pid));
                assert(kept@ =~= base@.restrict(done.insert(pid)));
            },
        }
        assert(cache@ =~= base@.remove_keys(done.insert(pid)));
        i = i + 1;
    }
    assert(pids@.take(i as int) =~= pids@);
    *cache = kept;
    assert(ax_view(*cache) =~= ax_view(base).restrict(pids@.to_set()));
}

// ---- Which windows are real -------------------------------------------------

/// The window-server-only test for a window on another desktop: titled, and on
/// some Space.
pub open spec fn on_other_desktop(w: WindowModel) -> bool {
    w.title.len() > 0 && w.on_space
}

/// A window of the app is a standard one.
pub open spec fn any_standard(m: Map<u32, focus::AxModel>) -> bool {
    exists|k: u32| #[trigger] m.contains_key(k) && m[k].standard
}

/// A window the user can switch to. Accessibility lists the windows on the
/// current Space (plus minimized ones): of those, a standard window counts, or
/// any window for apps whose windows carry no standard subrole (some
/// Electron/Qt apps). A window Accessibility has never heard of is on another
/// desktop if it is off screen, titled and on some Space.
pub open spec fn switchable(m: Map<u32, focus::AxModel>, w: WindowModel) -> bool {
    if m.contains_key(w.id) {
        m[w.id].standard || !any_standard(m)
    } else {
        !w.on_screen && on_other_desktop(w)
    }
}

/// A window that stays: real where Accessibility answered for its app, else any
/// but a closed one that its app keeps alive, which is on no Space.
pub open spec fn kept(ax: Map<i32, Map<u32, focus::AxModel>>, w: WindowModel) -> bool {
    if ax.contains_key(w.pid) {
        switchable(ax[w.pid], w)
    } else {
        w.on_screen || w.on_space
    }
}

/// The app with this pid is hidden.
pub open spec fn app_hidden(apps: Seq<AppModel>, pid: i32) -> bool {
    exists|i: int| 0 <= i < apps.len() && (#[trigger] apps[i]).pid == pid && apps[i].hidden
}

/// What Accessibility knows of the window.
pub open spec fn ax_info(ax: Map<i32, Map<u32, focus::AxModel>>, w: WindowModel) -> Option<
    focus::AxModel,
> {
    if ax.contains_key(w.pid) && ax[w.pid].contains_key(w.id) {
        Some(ax[w.pid][w.id])
    } else {
        None
    }
}

/// A window with what Accessibility knows of it filled in: whether it is
/// minimized, and the title and profile that the window server did not give.
/// One that Accessibility does not list is minimized where it is off screen
/// yet on the current desktop and its app is not hidden.
pub open spec fn refined(
    ax: Map<i32, Map<u32, focus::AxModel>>,
    apps: Seq<AppModel>,
    w: WindowModel,
) -> WindowModel {
    match ax_info(ax, w) {
        None => WindowModel {
            minimized: !w.on_screen && w.on_current_space && !app_hidden(apps, w.pid),
            ..w
        },
        Some(info) => {
            let (title, profile) = if chrome::chrome_app(w.app) {
                chrome::title_parts(info.title, w.app)
            } else {
                (info.title, None)
            };
            WindowModel {
                minimized: info.minimized,
                title: if w.title.len() == 0 {
                    title
                } else {
                    w.title
                },
                profile: if w.profile is None {
                    profile
                } else {
                    w.profile
                },
                ..w
            }
        },
    }
}

/// The windows that stay, each with what Accessibility knows of it.
pub open spec fn applied(
    ws: Seq<WindowModel>,
    ax: Map<i32, Map<u32, focus::AxModel>>,
    apps: Seq<AppModel>,
) -> Seq<WindowModel> {
    ws.filter(|w: WindowModel| kept(ax, w)).map_values(|w: WindowModel| refined(ax, apps, w))
}

/// The window-server-only test for a window on another desktop.
pub fn other_desktop(w: &WindowInfo) -> (r: bool)
    ensures
        r == on_other_desktop(w@),
{
    !w.title.as_str().is_empty() && w.on_space
}

/// Whether a window is one the user can switch to, going by Accessibility's
/// view of its app.
pub fn is_real(m: &AxMap, w: &WindowInfo) -> (r: bool)
    ensures
        r == switchable(ax_map(*m), w@),
{
    match m.get(&w.id) {
        Some(a) => a.standard || !has_standard(m),
        None => !w.on_screen && other_desktop(w),
    }
}

/// Whether a window of the app is a standard one.
fn has_standard(m: &AxMap) -> (r: bool)
    ensures
        r == any_standard(ax_map(*m)),
{
    for kv in it: m.iter()
        invariant
            forall|i: int|
                0 <= i < it.seq().len() ==> m@.contains_key(*(#[trigger] it.seq()[i]).0)
                    && m@[*it.seq()[i].0] == *it.seq()[i].1,
            forall|k: u32| #[trigger] m@.contains_key(k) ==> it.seq().contains((&k, &m@[k])),
            forall|i: int| 0 <= i < it.index() ==> !(#[trigger] it.seq()[i]).1.standard,
    {
        let (k, v) = kv;
        if v.standard {
            assert(ax_map(*m).contains_key(*k));
            return true;
        }
    }
    false
}

/// Whether the app with this pid is hidden.
fn is_hidden(apps: &Vec<AppEntry>, pid: i32) -> (r: bool)
    ensures
        r == app_hidden(app_models(apps@), pid),
{
    let mut i: usize = 0;
    while i < apps.len()
        invariant
            i <= apps.len(),
            forall|j: int|
                0 <= j < i ==> !((#[trigger] app_models(apps@)[j]).pid == pid && app_models(
                    apps@,
                )[j].hidden),
        decreases apps.len() - i,
    {
        if apps[i].pid == pid && apps[i].hidden {
            assert(app_models(apps@)[i as int].pid == pid);
            return true;
        }
        i = i + 1;
    }
    false
}

/// Fills in what Accessibility knows of a window.
fn refine(w: &WindowInfo, ax: &AxCache, apps: &Vec<AppEntry>) -> (r: WindowInfo)
    ensures
        r@ == refined(ax_view(*ax), app_models(apps@), w@),
{
    let mut out: WindowInfo = w.clone();
    out.minimized = !w.on_screen && w.on_current_space && !is_hidden(apps, w.pid);
    if let Some(m) = ax.get(&w.pid) {
        if let Some(info) = m.get(&w.id) {
            out.minimized = info.minimized;
            let (title, profile) = if chrome::is_chrome(w.app.as_str()) {
                chrome::split_title(info.title.as_str(), w.app.as_str())
            } else {
                (info.title.clone(), None)
            };
            if w.title.as_str().is_empty() {
                out.title = title;
            }
            if w.profile.is_none() {
                out.profile = profile;
            }
        }
    }
    out
}

/// Applies Accessibility's view to the windows of every app present in `ax`:
/// drops the ones that are not real (see [`is_real`]) and fills in
/// `minimized` and the full title (for Chrome: the profile). For apps absent
/// from `ax`, only closed-but-kept windows are dropped. Windows Accessibility
/// does not list get `minimized` from the window server: off screen yet on
/// the current desktop, unless the app is hidden.
pub fn apply_ax(windows: &mut Vec<WindowInfo>, ax: &AxCache, apps: &Vec<AppEntry>)
    ensures
        window_models(final(windows)@) == applied(
            window_models(old(windows)@),
            ax_view(*ax),
            app_models(apps@),
        ),
{
    let ghost all = window_models(windows@);
    let ghost keep = |w: WindowModel| kept(ax_view(*ax), w);
    let ghost fill = |w: WindowModel| refined(ax_view(*ax), app_models(apps@), w);
    let mut out: Vec<WindowInfo> = Vec::new();
    let mut i: usize = 0;
    assert(window_models(out@) =~= all.take(0).filter(keep).map_values(fill));
    while i < windows.len()
        invariant
            i <= windows.len(),
            all == window_models(windows@),
            keep == (|w: WindowModel| kept(ax_view(*ax), w)),
            fill == (|w: WindowModel| refined(ax_view(*ax), app_models(apps@), w)),
            window_models(out@) == all.take(i as int).filter(keep).map_values(fill),
        decreases windows.len() - i,
    {
        let w: &WindowInfo = &windows[i];
        let stays: bool = match ax.get(&w.pid) {
            Some(m) => is_real(m, w),
            None => w.on_screen || w.on_space,
        };
        proof {
            assert(all.take(i + 1).drop_last() =~= all.take(i as int));
            reveal(Seq::filter);
        }
        let ghost before = out@;
        if stays {
            out.push(refine(w, ax, apps));
            assert(window_models(out@) =~= window_models(before).push(fill(w@)));
        }
        assert(window_models(out@) =~= all.take(i + 1).filter(keep).map_values(fill));
        i = i + 1;
    }
    assert(all.take(i as int) =~= all);
    *windows = out;
}

// ---- The windows of each app ------------------------------------------------

/// The windows of one app, front to back.
pub open spec fn owned(ws: Seq<WindowModel>, pid: i32) -> Seq<WindowModel> {
    ws.filter(|w: WindowModel| w.pid == pid)
}

/// The ids of a list of windows.
pub open spec fn ids_of(ws: Seq<WindowModel>) -> Seq<u32> {
    ws.map_values(|w: WindowModel| w.id)
}

/// The first of `ws` of which `p` holds.
pub open spec fn first_with(ws: Seq<WindowModel>, p: spec_fn(WindowModel) -> bool) -> Option<
    WindowModel,
>
    decreases ws.len(),
{
    if ws.len() == 0 {
        None
    } else {
        match first_with(ws.drop_last(), p) {
            Some(w) => Some(w),
            None => if p(ws.last()) {
                Some(ws.last())
            } else {
                None
            },
        }
    }
}

/// On screen, not minimized and titled.
pub open spec fn in_view(w: WindowModel) -> bool {
    w.on_screen && !w.minimized && w.title.len() > 0
}

/// Not minimized and titled.
pub open spec fn open_titled(w: WindowModel) -> bool {
    !w.minimized && w.title.len() > 0
}

/// Titled.
pub open spec fn titled(w: WindowModel) -> bool {
    w.title.len() > 0
}

/// The window whose thumbnail represents an app with these windows: the first
/// in view, else the first open titled one, else the first titled one, else
/// the first. Untitled ones tend to be helpers.
pub open spec fn representative(mine: Seq<WindowModel>) -> Option<u32> {
    if let Some(w) = first_with(mine, |w: WindowModel| in_view(w)) {
        Some(w.id)
    } else if let Some(w) = first_with(mine, |w: WindowModel| open_titled(w)) {
        Some(w.id)
    } else if let Some(w) = first_with(mine, |w: WindowModel| titled(w)) {
        Some(w.id)
    } else if mine.len() > 0 {
        Some(mine[0].id)
    } else {
        None
    }
}

/// An app with its windows out of `ws` counted and represented.
pub open spec fn assigned(a: AppModel, ws: Seq<WindowModel>) -> AppModel {
    let mine = owned(ws, a.pid);
    AppModel {
        windows: ids_of(mine),
        active: mine.filter(|w: WindowModel| !w.minimized).len() as int,
        on_current: mine.any(|w: WindowModel| !w.minimized && w.on_current_space),
        front: representative(mine),
        ..a
    }
}

/// Every app with its windows out of `ws`.
pub open spec fn all_assigned(apps: Seq<AppModel>, ws: Seq<WindowModel>) -> Seq<AppModel> {
    apps.map_values(|a: AppModel| assigned(a, ws))
}

/// Counts and represents one app's windows out of `windows`.
fn summarize(app: &AppEntry, windows: &Vec<WindowInfo>) -> (r: AppEntry)
    ensures
        r@ == assigned(app@, window_models(windows@)),
{
    let ghost all = window_models(windows@);
    let ghost own = |w: WindowModel| w.pid == app.pid;
    let ghost open = |w: WindowModel| !w.minimized;
    let ghost here = |w: WindowModel| !w.minimized && w.on_current_space;
    let ghost p1 = |w: WindowModel| in_view(w);
    let ghost p2 = |w: WindowModel| open_titled(w);
    let ghost p3 = |w: WindowModel| titled(w);
    let pid: i32 = app.pid;
    let mut ids: Vec<u32> = Vec::new();
    let mut active: usize = 0;
    let mut on_current: bool = false;
    let mut shown: Option<u32> = None;
    let mut awake: Option<u32> = None;
    let mut named: Option<u32> = None;
    let mut i: usize = 0;
    let ghost mut mine: Seq<WindowModel> = Seq::empty();
    assert(all.take(0).filter(own) =~= mine);
    assert(ids_of(mine) =~= ids@);
    assert(mine.filter(open) =~= Seq::empty());
    while i < windows.len()
        invariant
            i <= windows.len(),
            all == window_models(windows@),
            pid == app.pid,
            own == (|w: WindowModel| w.pid == app.pid),
            open == (|w: WindowModel| !w.minimized),
            here == (|w: WindowModel| !w.minimized && w.on_current_space),
            p1 == (|w: WindowModel| in_view(w)),
            p2 == (|w: WindowModel| open_titled(w)),
            p3 == (|w: WindowModel| titled(w)),
            mine == all.take(i as int).filter(own),
            ids@ == ids_of(mine),
            active == mine.filter(open).len(),
            active <= i,
            on_current == mine.any(here),
            shown == match first_with(mine, p1) {
                Some(w) => Some(w.id),
                None => None,
            },
            awake == match first_with(mine, p2) {
                Some(w) => Some(w.id),
                None => None,
            },
            named == match first_with(mine, p3) {
                Some(w) => Some(w.id),
                None => None,
            },
        decreases windows.len() - i,
    {
        let w: &WindowInfo = &windows[i];
        proof {
            assert(all.take(i + 1).drop_last() =~= all.take(i as int));
            reveal(Seq::filter);
        }
        if w.pid == pid {
            let ghost before = mine;
            proof {
                mine = mine.push(w@);
                assert(mine.drop_last() =~= before);
                assert(mine.last() == w@);
                assert forall|k: int| 0 <= k < before.len() implies before[k] == mine[k] by {
                }
                if before.any(here) {
                    let k = choose|k: int| 0 <= k < before.len() && here(before[k]);
                    assert(here(mine[k]));
                }
                if here(w@) {
                    assert(here(mine[before.len() as int]));
                }
                if mine.any(here) && !here(w@) {
                    let k = choose|k: int| 0 <= k < mine.len() && here(mine[k]);
                    assert(here(before[k]));
                }
            }
            ids.push(w.id);
            assert(ids@ =~= ids_of(mine));
            let has_title: bool = !w.title.as_str().is_empty();
            if !w.minimized {
                active = active + 1;
                if w.on_current_space {
                    on_current = true;
                }
            }
            if shown.is_none() && w.on_screen && !w.minimized && has_title {
                shown = Some(w.id);
            }
            if awake.is_none() && !w.minimized && has_title {
                awake = Some(w.id);
            }
            if named.is_none() && has_title {
                named = Some(w.id);
            }
        }
        i = i + 1;
    }
    assert(all.take(i as int) =~= all);
    let front: Option<u32> = if shown.is_some() {
        shown
    } else if awake.is_some() {
        awake
    } else if named.is_some() {
        named
    } else if ids.len() > 0 {
        Some(ids[0])
    } else {
        None
    };
    AppEntry {
        pid,
        name: app.name.clone(),
        hidden: app.hidden,
        windows: ids,
        active,
        on_current,
        front,
    }
}

/// Gives each app its window ids (front to back) and the window whose
/// thumbnail represents it.
pub fn assign_windows(apps: &mut Vec<AppEntry>, windows: &Vec<WindowInfo>)
    ensures
        app_models(final(apps)@) == all_assigned(
            app_models(old(apps)@),
            window_models(windows@),
        ),
{
    let ghost before = app_models(apps@);
    let ghost ws = window_models(windows@);
    let mut i: usize = 0;
    while i < apps.len()
        invariant
            i <= apps.len(),
            apps.len() == before.len(),
            ws == window_models(windows@),
            forall|j: int| 0 <= j < i ==> (#[trigger] apps@[j])@ == assigned(before[j], ws),
            forall|j: int| i <= j < apps.len() ==> (#[trigger] apps@[j])@ == before[j],
        decreases apps.len() - i,
    {
        let entry: AppEntry = summarize(&apps[i], windows);
        apps.set(i, entry);
        i = i + 1;
    }
    assert(app_models(apps@) =~= all_assigned(before, ws));
}

// ---- The order of apps ------------------------------------------------------

/// What apps are ordered by.
pub struct OrderKey {
    /// No un-minimized window on the current desktop.
    pub elsewhere: bool,
    /// 0 for the frontmost app, else from 1 on by last use.
    pub recency: int,
    /// Position of the app's foremost window on screen.
    pub depth: int,
    /// Lowercase name.
    pub name: Seq<char>,
}

impl OrderKey {
    /// This key comes before `other`, or is `other`.
    pub open spec fn le(self, other: OrderKey) -> bool {
        if self.elsewhere != other.elsewhere {
            other.elsewhere
        } else if self.recency != other.recency {
            self.recency < other.recency
        } else if self.depth != other.depth {
            self.depth < other.depth
        } else {
            text::text_le(self.name, other.name)
        }
    }
}

/// The first position of `pid` in `pids`.
pub open spec fn position(pids: Seq<i32>, pid: i32) -> Option<int>
    decreases pids.len(),
{
    if pids.len() == 0 {
        None
    } else {
        match position(pids.drop_last(), pid) {
            Some(i) => Some(i),
            None => if pids.last() == pid {
                Some(pids.len() - 1)
            } else {
                None
            },
        }
    }
}

/// The first position of `pid` in `pids`.
pub fn position_of(pids: &Vec<i32>, pid: i32) -> (r: Option<usize>)
    ensures
        r matches Some(i) ==> i < pids.len() && position(pids@, pid) == Some(i as int),
        r is None ==> position(pids@, pid) is None,
{
    let mut i: usize = 0;
    let mut found: Option<usize> = None;
    while i < pids.len()
        invariant
            i <= pids.len(),
            match found {
                Some(p) => p < i && position(pids@.take(i as int), pid) == Some(p as int),
                None => position(pids@.take(i as int), pid) is None,
            },
        decreases pids.len() - i,
    {
        assert(pids@.take(i + 1).drop_last() =~= pids@.take(i as int));
        if found.is_none() && pids[i] == pid {
            found = Some(i);
        }
        i = i + 1;
    }
    assert(pids@.take(i as int) =~= pids@);
    found
}

/// The position of the app's foremost window on screen.
pub open spec fn foremost(ws: Seq<WindowModel>, pid: i32) -> Option<int>
    decreases ws.len(),
{
    if ws.len() == 0 {
        None
    } else {
        match foremost(ws.drop_last(), pid) {
            Some(i) => Some(i),
            None => if ws.last().on_screen && ws.last().pid == pid {
                Some(ws.len() - 1)
            } else {
                None
            },
        }
    }
}

/// What the order of apps goes by: the frontmost app, the windows front to
/// back and the activation history, most recent first.
pub struct Ranking {
    pub front: Option<i32>,
    pub windows: Seq<WindowModel>,
    pub mru: Seq<i32>,
}

impl Ranking {
    /// What an app is ordered by.
    pub open spec fn key(self, a: AppModel) -> OrderKey {
        OrderKey {
            elsewhere: !a.on_current,
            recency: if self.front == Some(a.pid) {
                0
            } else {
                match position(self.mru, a.pid) {
                    Some(p) => p + 1,
                    None => usize::MAX as int,
                }
            },
            depth: match foremost(self.windows, a.pid) {
                Some(z) => z,
                None => usize::MAX as int,
            },
            name: text::lowercase(a.name),
        }
    }

    /// `a` put into the ordered list `apps`, before those it does not come
    /// after.
    pub open spec fn inserted(self, a: AppModel, apps: Seq<AppModel>) -> Seq<AppModel>
        decreases apps.len(),
    {
        if apps.len() == 0 {
            seq![a]
        } else if self.key(a).le(self.key(apps[0])) {
            seq![a] + apps
        } else {
            seq![apps[0]] + self.inserted(a, apps.drop_first())
        }
    }

    /// `apps` in order; those with one key stay as they were among themselves.
    pub open spec fn ordered(self, apps: Seq<AppModel>) -> Seq<AppModel>
        decreases apps.len(),
    {
        if apps.len() == 0 {
            Seq::empty()
        } else {
            self.inserted(apps[0], self.ordered(apps.drop_first()))
        }
    }
}

/// What an app is ordered by.
struct Key {
    elsewhere: bool,
    recency: usize,
    depth: usize,
    name: String,
}

impl View for Key {
    type V = OrderKey;

    closed spec fn view(&self) -> OrderKey {
        OrderKey {
            elsewhere: self.elsewhere,
            recency: self.recency as int,
            depth: self.depth as int,
            name: self.name@,
        }
    }
}

impl Key {
    /// Whether this key comes before `other`, or is `other`.
    fn at_most(&self, other: &Key) -> (r: bool)
        ensures
            r == self@.le(other@),
    {
        if self.elsewhere != other.elsewhere {
            other.elsewhere
        } else if self.recency != other.recency {
            self.recency < other.recency
        } else if self.depth != other.depth {
            self.depth < other.depth
        } else {
            text::at_most(self.name.as_str(), other.name.as_str())
        }
    }
}

/// What an app is ordered by.
fn key_of(a: &AppEntry, windows: &Vec<WindowInfo>, mru: &Vec<i32>, front: Option<i32>) -> (r: Key)
    ensures
        r@ == (Ranking { front, windows: window_models(windows@), mru: mru@ }).key(a@),
{
    let pid: i32 = a.pid;
    let frontmost: bool = match front {
        Some(p) => p == pid,
        None => false,
    };
    let used: Option<usize> = position_of(mru, pid);
    let ghost ws = window_models(windows@);
    let mut depth: Option<usize> = None;
    let mut z: usize = 0;
    while z < windows.len()
        invariant
            z <= windows.len(),
            ws == window_models(windows@),
            match depth {
                Some(d) => foremost(ws.take(z as int), pid) == Some(d as int),
                None => foremost(ws.take(z as int), pid) is None,
            },
        decreases windows.len() - z,
    {
        assert(ws.take(z + 1).drop_last() =~= ws.take(z as int));
        if depth.is_none() && windows[z].on_screen && windows[z].pid == pid {
            depth = Some(z);
        }
        z = z + 1;
    }
    assert(ws.take(z as int) =~= ws);
    Key {
        elsewhere: !a.on_current,
        recency: if frontmost {
            0
        } else {
            match used {
                Some(p) => p + 1,
                None => usize::MAX,
            }
        },
        depth: match depth {
            Some(d) => d,
            None => usize::MAX,
        },
        name: a.name.as_str().to_lowercase(),
    }
}

/// Orders apps the way the hub lists them: apps with a window on the current
/// desktop first, then apps whose windows are all on other desktops; within
/// each group the frontmost app, then most recently used, then front to back.
pub fn order_apps(
    apps: &mut Vec<AppEntry>,
    windows: &Vec<WindowInfo>,
    mru: &Vec<i32>,
    front: Option<i32>,
)
    ensures
        app_models(final(apps)@) == (Ranking {
            front,
            windows: window_models(windows@),
            mru: mru@,
        }).ordered(app_models(old(apps)@)),
{
    let ghost rank = Ranking { front, windows: window_models(windows@), mru: mru@ };
    let ghost all = app_models(apps@);
    let mut out: Vec<AppEntry> = Vec::new();
    let mut keys: Vec<Key> = Vec::new();
    assert(all.skip(all.len() as int) =~= Seq::empty());
    assert(app_models(out@) =~= Seq::empty());
    while apps.len() > 0
        invariant
            rank == (Ranking { front, windows: window_models(windows@), mru: mru@ }),
            apps.len() <= all.len(),
            app_models(apps@) == all.take(apps.len() as int),
            app_models(out@) == rank.ordered(all.skip(apps.len() as int)),
            keys.len() == out.len(),
            forall|j: int| 0 <= j < out.len() ==> (#[trigger] keys@[j])@ == rank.key(out@[j]@),
        decreases apps.len(),
    {
        let a: AppEntry = apps.pop().unwrap();
        let ghost n = apps.len() as int;
        let key: Key = key_of(&a, windows, mru, front);
        proof {
            assert(app_models(apps@) =~= all.take(n));
            assert(all.take(n + 1)[n] == a@);
            assert(all.skip(n).drop_first() =~= all.skip(n + 1));
        }
        let ghost rest = app_models(out@);
        let mut p: usize = 0;
        assert(rest.take(0) + rank.inserted(a@, rest.skip(0)) =~= rank.inserted(a@, rest)) by {
            assert(rest.skip(0) =~= rest);
        }
        while p < out.len() && !key.at_most(&keys[p])
            invariant
                p <= out.len(),
                keys.len() == out.len(),
                key@ == rank.key(a@),
                rest == app_models(out@),
                forall|j: int| 0 <= j < out.len() ==> (#[trigger] keys@[j])@ == rank.key(out@[j]@),
                rank.inserted(a@, rest) == rest.take(p as int) + rank.inserted(
                    a@,
                    rest.skip(p as int),
                ),
            decreases out.len() - p,
        {
            proof {
                let tail = rest.skip(p as int);
                assert(tail.drop_first() =~= rest.skip(p + 1));
                assert(tail[0] == out@[p as int]@);
                assert(rest.take(p as int) + (seq![tail[0]] + rank.inserted(a@, rest.skip(p + 1)))
                    =~= rest.take(p + 1) + rank.inserted(a@, rest.skip(p + 1)));
            }
            p = p + 1;
        }
        proof {
            let tail = rest.skip(p as int);
            if p < out.len() {
                assert(tail[0] == out@[p as int]@);
            }
            assert(rank.inserted(a@, tail) =~= seq![a@] + tail);
        }
        out.insert(p, a);
        keys.insert(p, key);
        assert(app_models(out@) =~= rest.take(p as int) + (seq![a@] + rest.skip(p as int)));
    }
    assert(all.skip(0) =~= all);
    *apps = out;
}

// ---- The window server's list -----------------------------------------------

/// A window's bounds as the window server lists them, in thousandths of a
/// point, rounded down; `None` for one that it does not give.
pub struct CgBounds {
    pub x: Option<i64>,
    pub y: Option<i64>,
    pub width: Option<i64>,
    pub height: Option<i64>,
}

/// One entry of the window server's list; `None` for a field that it does not
/// give.
pub struct CgWindow {
    pub pid: Option<i32>,
    /// The window's level; 0 for ordinary windows.
    pub layer: Option<i64>,
    /// Opacity in thousandths, rounded up.
    pub alpha: Option<i64>,
    pub bounds: Option<CgBounds>,
    pub id: Option<u32>,
    /// The owning application's name.
    pub owner: Option<String>,
    /// The window's title.
    pub name: Option<String>,
    pub on_screen: Option<bool>,
    /// How many Spaces that are shown the window is on; `None` when unknown.
    pub current_spaces: Option<usize>,
    /// How many Spaces the window is on; `None` when unknown.
    pub all_spaces: Option<usize>,
}

/// A number, or 0 where there is none.
pub open spec fn or_zero(n: Option<i64>) -> i64 {
    match n {
        Some(v) => v,
        None => 0,
    }
}

/// The entry has bounds and is at least 200 points wide and 120 high. Apps
/// keep small invisible helper windows (tab-strip hover targets etc.).
pub open spec fn large_enough(r: CgWindow) -> bool {
    match r.bounds {
        Some(b) => or_zero(b.width) >= 200_000 && or_zero(b.height) >= 120_000,
        None => false,
    }
}

/// The entry stands for a window of one of `pids`: on the ordinary level, not
/// transparent, not small, and with an id.
pub open spec fn admitted(r: CgWindow, pids: Seq<i32>) -> bool {
    &&& r.pid matches Some(pid) && pids.contains(pid)
    &&& r.layer == Some(0i64)
    &&& r.alpha matches Some(a) ==> a > 0
    &&& large_enough(r)
    &&& r.id is Some
}

/// The window is on the desktop currently shown.
pub open spec fn placed_here(r: CgWindow) -> bool {
    ||| r.on_screen == Some(true)
    ||| (r.current_spaces matches Some(n) && n > 0)
}

/// The window is on some desktop; where that is unknown, it is taken to be.
pub open spec fn placed(r: CgWindow) -> bool {
    ||| placed_here(r)
    ||| (r.all_spaces matches Some(n) ==> n > 0)
}

/// The window that an admitted entry stands for.
pub open spec fn window_at(r: CgWindow) -> WindowModel {
    let owner = focus::text_or_empty(r.owner);
    let name = focus::text_or_empty(r.name);
    let (title, profile) = if chrome::chrome_app(owner) {
        chrome::title_parts(name, owner)
    } else {
        (name, None)
    };
    let b = r.bounds->0;
    WindowModel {
        id: r.id->0,
        pid: r.pid->0,
        app: owner,
        title,
        profile,
        on_screen: r.on_screen == Some(true),
        minimized: false,
        on_space: placed(r),
        on_current_space: placed_here(r),
        bounds: (or_zero(b.x), or_zero(b.y), or_zero(b.width), or_zero(b.height)),
    }
}

/// The windows on screen, then the others; each in their order.
pub open spec fn screen_first(ws: Seq<WindowModel>) -> Seq<WindowModel> {
    ws.filter(|w: WindowModel| w.on_screen) + ws.filter(|w: WindowModel| !w.on_screen)
}

/// The windows of `pids` that the window server's list stands for.
pub open spec fn listed_windows(records: Seq<CgWindow>, pids: Seq<i32>) -> Seq<WindowModel> {
    screen_first(
        records.filter(|r: CgWindow| admitted(r, pids)).map_values(|r: CgWindow| window_at(r)),
    )
}

fn number(n: Option<i64>) -> (r: i64)
    ensures
        r == or_zero(n),
{
    match n {
        Some(v) => v,
        None => 0,
    }
}

fn string(s: &Option<String>) -> (r: String)
    ensures
        r@ == focus::text_or_empty(*s),
{
    match s {
        Some(t) => t.clone(),
        None => String::new(),
    }
}

/// Whether an entry of the window server's list stands for a window of one of
/// `pids`.
pub fn admits(record: &CgWindow, pids: &Vec<i32>) -> (r: bool)
    ensures
        r == admitted(*record, pids@),
{
    let owned: bool = match record.pid {
        Some(pid) => holds_pid(pids, pid),
        None => false,
    };
    let ordinary: bool = match record.layer {
        Some(l) => l == 0,
        None => false,
    };
    let visible: bool = match record.alpha {
        Some(a) => a > 0,
        None => true,
    };
    let large: bool = match &record.bounds {
        Some(b) => number(b.width) >= 200_000 && number(b.height) >= 120_000,
        None => false,
    };
    owned && ordinary && visible && large && record.id.is_some()
}

/// The window that an admitted entry stands for.
fn window_from(record: &CgWindow, id: u32, pid: i32, b: &CgBounds) -> (r: WindowInfo)
    requires
        record.id == Some(id),
        record.pid == Some(pid),
        record.bounds == Some(*b),
    ensures
        r@ == window_at(*record),
{
    let on_screen: bool = match record.on_screen {
        Some(o) => o,
        None => false,
    };
    let on_current_space: bool = on_screen || match record.current_spaces {
        Some(n) => n > 0,
        None => false,
    };
    let on_space: bool = on_current_space || match record.all_spaces {
        Some(n) => n > 0,
        None => true,
    };
    let app: String = string(&record.owner);
    let name: String = string(&record.name);
    let (title, profile) = if chrome::is_chrome(app.as_str()) {
        chrome::split_title(name.as_str(), app.as_str())
    } else {
        (name, None)
    };
    WindowInfo {
        id,
        pid,
        app,
        title,
        profile,
        on_screen,
        minimized: false,
        on_space,
        on_current_space,
        bounds: (number(b.x), number(b.y), number(b.width), number(b.height)),
    }
}

/// Window-server view of the windows owned by `pids`: visible ones first in
/// z-order, then windows on other desktops or minimized.
pub fn cg_windows(records: &Vec<CgWindow>, pids: &Vec<i32>) -> (r: Vec<WindowInfo>)
    ensures
        window_models(r@) == listed_windows(records@, pids@),
{
    let ghost keep = |r: CgWindow| admitted(r, pids@);
    let ghost make = |r: CgWindow| window_at(r);
    let ghost on = |w: WindowModel| w.on_screen;
    let ghost off = |w: WindowModel| !w.on_screen;
    let ghost mut seen: Seq<WindowModel> = Seq::empty();
    let mut shown: Vec<WindowInfo> = Vec::new();
    let mut others: Vec<WindowInfo> = Vec::new();
    let mut i: usize = 0;
    assert(seen =~= records@.take(0).filter(keep).map_values(make));
    assert(window_models(shown@) =~= seen.filter(on));
    assert(window_models(others@) =~= seen.filter(off));
    while i < records.len()
        invariant
            i <= records.len(),
            keep == (|r: CgWindow| admitted(r, pids@)),
            make == (|r: CgWindow| window_at(r)),
            on == (|w: WindowModel| w.on_screen),
            off == (|w: WindowModel| !w.on_screen),
            seen == records@.take(i as int).filter(keep).map_values(make),
            window_models(shown@) == seen.filter(on),
            window_models(others@) == seen.filter(off),
        decreases records.len() - i,
    {
        let record: &CgWindow = &records[i];
        proof {
            assert(records@.take(i + 1).drop_last() =~= records@.take(i as int));
            reveal(Seq::filter);
        }
        if admits(record, pids) {
            if let (Some(id), Some(pid), Some(b)) = (record.id, record.pid, &record.bounds) {
                let w: WindowInfo = window_from(record, id, pid, b);
                let ghost m = w@;
                let ghost (shown0, others0, seen0) = (shown@, others@, seen);
                if w.on_screen {
                    shown.push(w);
                    assert(window_models(shown@) =~= window_models(shown0).push(m));
                } else {
                    others.push(w);
                    assert(window_models(others@) =~= window_models(others0).push(m));
                }
                proof {
                    seen = seen.push(m);
                    assert(seen.drop_last() =~= seen0);
                    assert(seen =~= records@.take(i + 1).filter(keep).map_values(make));
                }
            }
        }
        i = i + 1;
    }
    assert(records@.take(i as int) =~= records@);
    let ghost (shown1, others1) = (shown@, others@);
    shown.append(&mut others);
    assert(window_models(shown@) =~= window_models(shown1) + window_models(others1));
    shown
}

// ---- The apps that are running ----------------------------------------------

/// A running application as the system lists it.
pub struct RunningApp {
    pub pid: i32,
    /// Has the regular activation policy, as an app in the Dock has.
    pub regular: bool,
    pub terminated: bool,
    pub name: Option<String>,
    pub hidden: bool,
}

/// The app appears in the system ⌘Tab switcher, and is not this app (`me`).
pub open spec fn in_switcher(a: RunningApp, me: i32) -> bool {
    a.regular && !a.terminated && a.pid != me
}

/// The entry for an app, before its windows are known.
pub open spec fn entry_of(a: RunningApp) -> AppModel {
    AppModel {
        pid: a.pid,
        name: focus::text_or_empty(a.name),
        hidden: a.hidden,
        windows: Seq::empty(),
        active: 0,
        on_current: false,
        front: None,
    }
}

/// The entries for the apps in the switcher, in the system's order.
pub open spec fn entries(running: Seq<RunningApp>, me: i32) -> Seq<AppModel> {
    running.filter(|a: RunningApp| in_switcher(a, me)).map_values(|a: RunningApp| entry_of(a))
}

/// The pids of a list of apps.
pub open spec fn pids_of(apps: Seq<AppModel>) -> Seq<i32> {
    apps.map_values(|a: AppModel| a.pid)
}

/// The entries for the apps in the switcher, before their windows are known.
pub fn running_apps(running: &Vec<RunningApp>, me: i32) -> (r: Vec<AppEntry>)
    ensures
        app_models(r@) == entries(running@, me),
{
    let ghost keep = |a: RunningApp| in_switcher(a, me);
    let ghost make = |a: RunningApp| entry_of(a);
    let mut out: Vec<AppEntry> = Vec::new();
    let mut i: usize = 0;
    assert(app_models(out@) =~= running@.take(0).filter(keep).map_values(make));
    while i < running.len()
        invariant
            i <= running.len(),
            keep == (|a: RunningApp| in_switcher(a, me)),
            make == (|a: RunningApp| entry_of(a)),
            app_models(out@) == running@.take(i as int).filter(keep).map_values(make),
        decreases running.len() - i,
    {
        let a: &RunningApp = &running[i];
        proof {
            assert(running@.take(i + 1).drop_last() =~= running@.take(i as int));
            reveal(Seq::filter);
        }
        let ghost before = out@;
        if a.regular && !a.terminated && a.pid != me {
            let entry: AppEntry = AppEntry {
                pid: a.pid,
                name: string(&a.name),
                hidden: a.hidden,
                windows: Vec::new(),
                active: 0,
                on_current: false,
                front: None,
            };
            assert(entry@ =~= entry_of(*a));
            out.push(entry);
            assert(app_models(out@) =~= app_models(before).push(make(*a)));
        }
        assert(app_models(out@) =~= running@.take(i + 1).filter(keep).map_values(make));
        i = i + 1;
    }
    assert(running@.take(i as int) =~= running@);
    out
}

/// The pids of a list of apps.
pub fn app_pids(apps: &Vec<AppEntry>) -> (r: Vec<i32>)
    ensures
        r@ == pids_of(app_models(apps@)),
{
    let ghost all = app_models(apps@);
    let mut out: Vec<i32> = Vec::new();
    let mut i: usize = 0;
    while i < apps.len()
        invariant
            i <= apps.len(),
            all == app_models(apps@),
            out@ == pids_of(all).take(i as int),
        decreases apps.len() - i,
    {
        out.push(apps[i].pid);
        assert(out@ =~= pids_of(all).take(i + 1));
        i = i + 1;
    }
    assert(pids_of(all).take(i as int) =~= pids_of(all));
    out
}

/// The apps and windows agree: `ws` is `raw` with Accessibility's view applied,
/// and every app has just its windows in `ws`.
pub open spec fn coherent(
    apps: Seq<AppModel>,
    ws: Seq<WindowModel>,
    raw: Seq<WindowModel>,
    ax: Map<i32, Map<u32, focus::AxModel>>,
) -> bool {
    &&& ws == applied(raw, ax, apps)
    &&& forall|i: int| 0 <= i < apps.len() ==> #[trigger] apps[i] == assigned(apps[i], ws)
}

/// Lists the switchable apps, most recently used first, and all their windows.
/// `running` is the system's list of apps and `me` this process; `records` is
/// the window server's list; `mru` is the app activation history, most recent
/// first, and `front` the frontmost app; `ax` is the last known Accessibility
/// view (see [`apply_ax`]).
pub fn snapshot(
    running: &Vec<RunningApp>,
    me: i32,
    records: &Vec<CgWindow>,
    mru: &Vec<i32>,
    ax: &AxCache,
    front: Option<i32>,
) -> (r: Snapshot)
    ensures
        window_models(r.raw@) == listed_windows(records@, pids_of(entries(running@, me))),
        window_models(r.windows@) == applied(
            window_models(r.raw@),
            ax_view(*ax),
            entries(running@, me),
        ),
        app_models(r.apps@) == (Ranking {
            front,
            windows: window_models(r.windows@),
            mru: mru@,
        }).ordered(all_assigned(entries(running@, me), window_models(r.windows@))),
        coherent(
            app_models(r.apps@),
            window_models(r.windows@),
            window_models(r.raw@),
            ax_view(*ax),
        ),
{
    let mut apps: Vec<AppEntry> = running_apps(running, me);
    let pids: Vec<i32> = app_pids(&apps);
    let raw: Vec<WindowInfo> = cg_windows(records, &pids);
    let mut windows: Vec<WindowInfo> = clone_windows(&raw);
    apply_ax(&mut windows, ax, &apps);
    assign_windows(&mut apps, &windows);
    order_apps(&mut apps, &windows, mru, front);
    proof {
        let rank = Ranking { front, windows: window_models(windows@), mru: mru@ };
        windows_laws::law_refresh_is_coherent(
            rank,
            entries(running@, me),
            window_models(raw@),
            ax_view(*ax),
        );
    }
    Snapshot { apps, windows, raw }
}

} // verus!
