//! What holds of the hub, whatever its apps and windows are and whatever
//! happens to it.
use vstd::prelude::*;

use crate::cards;
use crate::events::EffectModel;
use crate::events;
use crate::focus;
use crate::hub::{HubModel, LevelModel, Mode, Start};
use crate::hub;
use crate::modifiers;
use crate::sequences;
use crate::tap;
use crate::windows::{AppModel, Ranking, WindowModel};
use crate::windows;
use crate::windows_laws;

verus! {

// ---- Cards and search -------------------------------------------------------

/// The cards are those of the items that are to be shown, and of no others:
/// at the Apps level only open apps have a card.
pub proof fn law_cards_are_what_is_shown(h: HubModel, i: int)
    ensures
        h.rebuilt().filtered.contains(i) <==> 0 <= i < h.items() && h.shows(i),
        h.at_apps() && h.rebuilt().filtered.contains(i) ==> hub::app_listed(h.apps[i]),
{
    let all = Seq::new(h.items(), |k: int| k);
    let p = |k: int| h.shows(k);
    hub::lemma_shown(h);
    if 0 <= i < h.items() && h.shows(i) {
        assert(all[i] == i);
        all.lemma_filter_contains(p, i);
    }
}

/// An app is open where it has a window that is not minimized. One without
/// windows, or with all of them minimized, is not.
pub proof fn law_open_apps_have_a_window(h: HubModel, i: int)
    requires
        h.wf(),
        0 <= i < h.apps.len(),
    ensures
        hub::app_listed(h.apps[i]) <==> exists|w: WindowModel| #[trigger]
            h.all_windows.contains(w) && w.pid == h.apps[i].pid && !w.minimized,
{
    let pid = h.apps[i].pid;
    let own = |w: WindowModel| w.pid == pid;
    let awake = |w: WindowModel| !w.minimized;
    let mine = windows::owned(h.all_windows, pid);
    assert(h.apps[i] == windows::assigned(h.apps[i], h.all_windows));
    if hub::app_listed(h.apps[i]) {
        let w = mine.filter(awake)[0];
        mine.lemma_filter_pred(awake, 0);
        assert(mine.filter(awake).contains(w));
        mine.lemma_filter_contains_rev(awake, w);
        h.all_windows.lemma_filter_contains_rev(own, w);
        let k = choose|k: int| 0 <= k < mine.len() && mine[k] == w;
        h.all_windows.lemma_filter_pred(own, k);
        assert(h.all_windows.contains(w) && w.pid == pid && !w.minimized);
    }
    if exists|w: WindowModel| #[trigger]
        h.all_windows.contains(w) && w.pid == pid && !w.minimized {
        let w = choose|w: WindowModel| #[trigger]
            h.all_windows.contains(w) && w.pid == pid && !w.minimized;
        let k = choose|k: int| 0 <= k < h.all_windows.len() && h.all_windows[k] == w;
        h.all_windows.lemma_filter_contains(own, k);
        let m = choose|m: int| 0 <= m < mine.len() && mine[m] == w;
        mine.lemma_filter_contains(awake, m);
    }
}

proof fn lemma_filter_ascends(s: Seq<int>, p: spec_fn(int) -> bool)
    requires
        forall|a: int, b: int| 0 <= a < b < s.len() ==> s[a] < s[b],
    ensures
        forall|a: int, b: int|
            0 <= a < b < s.filter(p).len() ==> #[trigger] s.filter(p)[a] < #[trigger] s.filter(
                p,
            )[b],
    decreases s.len(),
{
    reveal(Seq::filter);
    if s.len() > 0 {
        let init = s.drop_last();
        lemma_filter_ascends(init, p);
        let f = init.filter(p);
        assert forall|a: int| 0 <= a < f.len() implies #[trigger] f[a] < s.last() by {
            assert(f.contains(f[a]));
            init.lemma_filter_contains_rev(p, f[a]);
            let j = choose|j: int| 0 <= j < init.len() && init[j] == f[a];
            assert(s[j] < s[s.len() - 1]);
        }
    }
}

/// The cards stand in the order of the apps or windows, each once.
pub proof fn law_cards_keep_the_order(h: HubModel, a: int, b: int)
    requires
        0 <= a < b < h.rebuilt().filtered.len(),
    ensures
        h.rebuilt().filtered[a] < h.rebuilt().filtered[b],
{
    lemma_filter_ascends(Seq::new(h.items(), |k: int| k), |k: int| h.shows(k));
}

proof fn lemma_filter_len_by_index(apps: Seq<AppModel>, p: spec_fn(AppModel) -> bool, n: nat)
    requires
        n <= apps.len(),
    ensures
        Seq::new(n, |k: int| k).filter(|k: int| p(apps[k])).len() == apps.take(
            n as int,
        ).filter(p).len(),
    decreases n,
{
    reveal(Seq::filter);
    if n > 0 {
        let m = (n - 1) as nat;
        lemma_filter_len_by_index(apps, p, m);
        assert(Seq::new(n, |k: int| k).drop_last() =~= Seq::new(m, |k: int| k));
        assert(apps.take(n as int).drop_last() =~= apps.take(m as int));
    }
}

/// Without a search every open app, or every window, has a card: there are as
/// many cards as the header counts.
pub proof fn law_no_search_shows_all(h: HubModel)
    requires
        h.query.len() == 0,
    ensures
        h.rebuilt().filtered.len() == h.total(),
{
    let all = Seq::new(h.items(), |k: int| k);
    let p = |k: int| h.shows(k);
    if h.at_apps() {
        let open = |a: AppModel| hub::app_listed(a);
        sequences::lemma_filter_agrees(all, p, |k: int| open(h.apps[k]));
        lemma_filter_len_by_index(h.apps, open, h.apps.len());
        assert(h.apps.take(h.apps.len() as int) =~= h.apps);
    } else {
        sequences::lemma_filter_all(all, p);
    }
}

/// ⌫ undoes a typed character: the search and its cards are those of before
/// it was typed, the first card selected.
pub proof fn law_delete_undoes_typing(h: HubModel, c: char)
    ensures
        events::deleted(h.searching(h.query.push(c))) == (
            h.searching(h.query),
            EffectModel::Draw,
        ),
{
    let q = h.query.push(c);
    assert(q.drop_last() =~= h.query);
    let typed = h.searching(q);
    let back = HubModel { query: q.drop_last(), ..typed };
    let fresh = HubModel { query: h.query, selected: 0, ..h };
    assert(back.shown() =~= fresh.shown()) by {
        let all = Seq::new(h.items(), |k: int| k);
        sequences::lemma_filter_agrees(all, |k: int| back.shows(k), |k: int| fresh.shows(k));
    }
    assert(back.rebuilt() =~= fresh.rebuilt());
}

// ---- Moving -----------------------------------------------------------------

/// Two moves are one move by their sum.
pub proof fn law_moves_add_up(h: HubModel, a: int, b: int)
    requires
        h.wf(),
    ensures
        h.stepped(a).stepped(b) == h.stepped(a + b),
{
    let n = h.filtered.len() as int;
    if n > 0 {
        vstd::arithmetic::div_mod::lemma_mod_bound(h.selected + a, n);
        vstd::arithmetic::div_mod::lemma_mod_bound(h.selected + a + b, n);
        vstd::arithmetic::div_mod::lemma_add_mod_noop_right(b, h.selected + a, n);
        assert((b + (h.selected + a) % n) % n == (b + (h.selected + a)) % n);
        assert(h.stepped(a).selected == (h.selected + a) % n);
    }
}

/// A move back undoes a move, and a move by all the cards goes nowhere.
pub proof fn law_moves_go_round(h: HubModel, delta: int)
    requires
        h.wf(),
    ensures
        h.stepped(delta).stepped(-delta) == h,
        h.stepped(h.filtered.len() as int) == h,
{
    law_moves_add_up(h, delta, -delta);
    let n = h.filtered.len() as int;
    if n > 0 {
        vstd::arithmetic::div_mod::lemma_small_mod(h.selected as nat, n as nat);
        vstd::arithmetic::div_mod::lemma_mod_add_multiples_vanish(h.selected, n);
        assert((h.selected + n) % n == h.selected);
        assert(h.selected + (delta + -delta) == h.selected);
    }
}

// ---- The two levels ---------------------------------------------------------

proof fn lemma_one_owner(ws: Seq<WindowModel>, pid: i32)
    ensures
        hub::owned_by(ws, seq![pid]) == windows::owned(ws, pid),
    decreases ws.len(),
{
    reveal(Seq::filter);
    if ws.len() > 0 {
        lemma_one_owner(ws.drop_last(), pid);
        let last = ws.last();
        assert(seq![pid].contains(last.pid) <==> last.pid == pid) by {
            if last.pid == pid {
                assert(seq![pid][0] == last.pid);
            }
        }
    }
}

proof fn lemma_owned_of_owned_by(ws: Seq<WindowModel>, pids: Seq<i32>, pid: i32)
    requires
        pids.contains(pid),
    ensures
        windows::owned(hub::owned_by(ws, pids), pid) == windows::owned(ws, pid),
    decreases ws.len(),
{
    reveal(Seq::filter);
    if ws.len() > 0 {
        lemma_owned_of_owned_by(ws.drop_last(), pids, pid);
        let own = |w: WindowModel| w.pid == pid;
        let any = |w: WindowModel| pids.contains(w.pid);
        let init = ws.drop_last().filter(any);
        if any(ws.last()) {
            assert(ws.filter(any) =~= init.push(ws.last()));
            assert(ws.filter(any).drop_last() =~= init);
        } else {
            assert(ws.filter(any) =~= init);
        }
    }
}

/// The app cards count exactly the windows that their sub-dock shows: once
/// Accessibility has answered for an app and its windows (or those of several
/// apps) are open, the card of the app lists the sub-dock's windows of that
/// app, in their order, and counts those that are not minimized.
pub proof fn law_cards_agree_with_the_sub_dock(
    h: HubModel,
    pids: Seq<i32>,
    name: Seq<char>,
    ax: Map<i32, Map<u32, focus::AxModel>>,
    front: Option<i32>,
    mru: Seq<i32>,
    i: int,
)
    requires
        h.wf(),
        0 <= i < h.opened(pids, name, ax, front, mru).apps.len(),
        pids.contains(h.opened(pids, name, ax, front, mru).apps[i].pid),
        ax.contains_key(h.opened(pids, name, ax, front, mru).apps[i].pid),
    ensures
        ({
            let open = h.opened(pids, name, ax, front, mru);
            let app = open.apps[i];
            let mine = windows::owned(open.scope, app.pid);
            &&& app.windows == windows::ids_of(mine)
            &&& app.active == mine.filter(|w: WindowModel| !w.minimized).len()
            &&& pids == seq![app.pid] ==> app.windows == windows::ids_of(open.scope)
        }),
{
    let open = h.opened(pids, name, ax, front, mru);
    let pid = open.apps[i].pid;
    hub::lemma_opened(h, pids, name, ax, front, mru);
    let known = h.knowing(ax);
    assert(ax.dom().contains(pid));
    assert(!ax.is_empty());
    let ws = windows::applied(known.raw_windows, known.ax_cache, known.apps);
    assert(open.all_windows == ws);
    assert(open.apps[i] == windows::assigned(open.apps[i], ws));
    assert(known.ax_cache.contains_key(pid) && known.ax_cache[pid] == ax[pid]);
    windows_laws::law_apps_are_independent(h.raw_windows, known.ax_cache, ax, h.apps, pid);
    let mine = hub::owned_by(h.raw_windows, pids);
    windows_laws::law_apps_are_independent(mine, ax, ax, h.apps, pid);
    lemma_owned_of_owned_by(h.raw_windows, pids, pid);
    assert(windows::owned(open.scope, pid) == windows::owned(ws, pid));
    if pids == seq![pid] {
        lemma_one_owner(h.raw_windows, pid);
        assert(open.scope == windows::applied(windows::owned(h.raw_windows, pid), ax, h.apps));
    }
}

/// An app's card already lists the windows that stepping into it will show,
/// where Accessibility answers as it last did.
pub proof fn law_cards_foretell_the_sub_dock(
    h: HubModel,
    ax: Map<i32, Map<u32, focus::AxModel>>,
    i: int,
)
    requires
        h.wf(),
        0 <= i < h.apps.len(),
        ax.contains_key(h.apps[i].pid),
        h.ax_cache.contains_key(h.apps[i].pid),
        h.ax_cache[h.apps[i].pid] == ax[h.apps[i].pid],
    ensures
        h.apps[i].windows == windows::ids_of(h.sub_dock(seq![h.apps[i].pid], ax)),
{
    let pid = h.apps[i].pid;
    assert(ax.dom().contains(pid));
    assert(!ax.is_empty());
    assert(h.apps[i] == windows::assigned(h.apps[i], h.all_windows));
    windows_laws::law_apps_are_independent(h.raw_windows, h.ax_cache, ax, h.apps, pid);
    lemma_one_owner(h.raw_windows, pid);
}

pub(crate) proof fn lemma_card_of(apps: Seq<AppModel>, filtered: Seq<int>, pid: i32, from: int)
    requires
        0 <= from,
    ensures
        hub::card_of(apps, filtered, pid, from) matches Some(p) ==> from <= p < filtered.len()
            && apps[filtered[p]].pid == pid && forall|k: int|
            from <= k < p ==> apps[#[trigger] filtered[k]].pid != pid,
        hub::card_of(apps, filtered, pid, from) is None ==> forall|k: int|
            from <= k < filtered.len() ==> apps[#[trigger] filtered[k]].pid != pid,
    decreases filtered.len() - from,
{
    if from < filtered.len() && apps[filtered[from]].pid != pid {
        lemma_card_of(apps, filtered, pid, from + 1);
    }
}

/// Going back undoes stepping into an app: the hub is at the apps again,
/// without a search, and that app is selected where it is still open.
pub proof fn law_back_undoes_entering(
    h: HubModel,
    ax: Map<i32, Map<u32, focus::AxModel>>,
    front: Option<i32>,
    mru: Seq<i32>,
)
    requires
        h.wf(),
        h.root_is_apps,
        h.entrance() is Some,
    ensures
        ({
            let (pid, name) = h.entrance()->0;
            let inside = h.opened(seq![pid], name, ax, front, mru);
            let (back, effect) = events::backed(inside);
            &&& inside.can_go_back()
            &&& effect == EffectModel::DrawAndCapture
            &&& back.at_apps() && back.query.len() == 0
            &&& back.apps == inside.apps
            &&& (exists|k: int|
                0 <= k < back.apps.len() && (#[trigger] back.apps[k]).pid == pid
                    && hub::app_listed(back.apps[k])) ==> back.apps[back.filtered[back.selected]].pid
                == pid
        }),
{
    let (pid, name) = h.entrance()->0;
    let inside = h.opened(seq![pid], name, ax, front, mru);
    let (back, effect) = events::backed(inside);
    let up = HubModel { level: LevelModel::Apps, ..inside }.searching(Seq::empty());
    let base = HubModel { level: LevelModel::Apps, query: Seq::empty(), selected: 0, ..inside };
    lemma_card_of(up.apps, up.filtered, pid, 0);
    if exists|k: int|
        0 <= k < back.apps.len() && (#[trigger] back.apps[k]).pid == pid && hub::app_listed(
            back.apps[k],
        ) {
        let k = choose|k: int|
            0 <= k < back.apps.len() && (#[trigger] back.apps[k]).pid == pid && hub::app_listed(
                back.apps[k],
            );
        assert(base.shows(k));
        law_cards_are_what_is_shown(base, k);
        let c = choose|c: int| 0 <= c < up.filtered.len() && up.filtered[c] == k;
        assert(up.apps[up.filtered[c]].pid == pid);
    }
}

/// The thumbnails that are captured are of windows on the window server's
/// list, and of no others.
pub proof fn law_only_listed_windows_are_captured(h: HubModel, k: int)
    requires
        h.wf(),
        0 <= k < cards::thumbnails(h).len(),
    ensures
        windows::ids_of(h.raw_windows).contains(cards::thumbnails(h)[k]),
{
    let id = cards::thumbnails(h)[k];
    match h.level {
        LevelModel::Windows { .. } => {
            assert(windows::ids_of(h.raw_windows).contains(h.scope[k].id));
        },
        LevelModel::Apps => {
            let listed = h.apps.filter(|a: AppModel| hub::app_listed(a));
            lemma_filter_map_source(listed, k);
            let n = choose|n: int| 0 <= n < listed.len() && (#[trigger] listed[n]).front == Some(id);
            assert(listed.contains(listed[n]));
            h.apps.lemma_filter_contains_rev(|a: AppModel| hub::app_listed(a), listed[n]);
            let j = choose|j: int| 0 <= j < h.apps.len() && h.apps[j] == listed[n];
            let mine = windows::owned(h.all_windows, h.apps[j].pid);
            assert(h.apps[j] == windows::assigned(h.apps[j], h.all_windows));
            windows_laws::law_representative_is_own(h.apps[j], h.all_windows);
            let w = choose|w: int|
                0 <= w < mine.len() && #[trigger] windows::ids_of(mine)[w] == id;
            let own = |x: WindowModel| x.pid == h.apps[j].pid;
            assert(mine.contains(mine[w]));
            h.all_windows.lemma_filter_contains_rev(own, mine[w]);
            let v = choose|v: int| 0 <= v < h.all_windows.len() && h.all_windows[v] == mine[w];
            windows_laws::law_no_window_is_invented(h.raw_windows, h.ax_cache, h.apps, v);
            let r = choose|r: int|
                0 <= r < h.raw_windows.len() && windows::kept(
                    h.ax_cache,
                    #[trigger] h.raw_windows[r],
                ) && h.all_windows[v] == windows::refined(
                    h.ax_cache,
                    h.apps,
                    h.raw_windows[r],
                );
            assert(windows::ids_of(h.raw_windows)[r] == id);
        },
    }
}

proof fn lemma_filter_map_source(apps: Seq<AppModel>, k: int)
    requires
        0 <= k < apps.filter_map(|a: AppModel| a.front).len(),
    ensures
        exists|j: int|
            0 <= j < apps.len() && (#[trigger] apps[j]).front == Some(
                apps.filter_map(|a: AppModel| a.front)[k],
            ),
    decreases apps.len(),
{
    reveal(Seq::filter_map);
    let f = |a: AppModel| a.front;
    if apps.len() > 0 {
        let init = apps.drop_last();
        let id = apps.filter_map(f)[k];
        if k < init.filter_map(f).len() {
            lemma_filter_map_source(init, k);
            let j = choose|j: int|
                0 <= j < init.len() && (#[trigger] init[j]).front == Some(init.filter_map(f)[k]);
            assert(apps[j].front == Some(id));
        } else {
            assert(apps[apps.len() - 1].front == Some(id));
        }
    }
}

// ---- Opening and closing ----------------------------------------------------

/// Opening and closing both begin a new generation: a thumbnail or an
/// Accessibility answer asked for before is told apart.
pub proof fn law_generations_differ(
    h: HubModel,
    mode: Mode,
    apps: Seq<AppModel>,
    all_windows: Seq<WindowModel>,
    raw_windows: Seq<WindowModel>,
    max_cols: nat,
)
    ensures
        h.closed_up().generation != h.generation,
        h.loaded(mode, apps, all_windows, raw_windows, max_cols).generation != h.generation,
        h.loaded(
            mode,
            apps,
            all_windows,
            raw_windows,
            max_cols,
        ).closed_up().generation != h.generation,
{
}

/// A commit always leaves the hub closed. It acts where the hub was open and
/// the selection is a card, on that card.
pub proof fn law_commit_closes(h: HubModel)
    requires
        h.wf(),
    ensures
        !events::committed(h).0.visible,
        events::committed(h).1 is Nothing <==> !h.visible,
        events::committed(h).1 is Activate <==> h.visible && h.filtered.len() > 0 && h.at_apps(),
        events::committed(h).1 is Focus <==> h.visible && h.filtered.len() > 0 && !h.at_apps(),
        events::committed(events::committed(h).0) == (
            events::committed(h).0,
            EffectModel::Nothing,
        ),
{
}

/// Esc always leads out: three presses close the hub, whatever it shows. The
/// first ones clear the search and go back up, where there is one and it can.
pub proof fn law_escape_leads_out(h: HubModel)
    ensures
        ({
            let one = events::escaped(h).0;
            let two = events::escaped(one).0;
            let three = events::escaped(two).0;
            &&& h.query.len() == 0 && !h.can_go_back() ==> !one.visible
            &&& h.query.len() == 0 || !h.can_go_back() ==> !one.visible || !two.visible
            &&& !one.visible || !two.visible || !three.visible
        }),
{
    let one = events::escaped(h).0;
    let two = events::escaped(one).0;
    if h.query.len() > 0 {
        assert(one.query.len() == 0);
        assert(one.can_go_back() == h.can_go_back());
        if one.can_go_back() {
            lemma_gone_back(one);
        }
    } else if h.can_go_back() {
        lemma_gone_back(h);
    }
}

proof fn lemma_gone_back(h: HubModel)
    requires
        h.can_go_back(),
    ensures
        h.gone_back().at_apps(),
        h.gone_back().query.len() == 0,
        h.gone_back().visible == h.visible,
{
}

/// ⌥` and the menu bar open a closed hub and close an open one: an open one is
/// never opened again, and a closed one is not touched until it is shown.
pub proof fn law_toggle_alternates(h: HubModel, mode: Mode, start: Start, shift: bool)
    ensures
        !events::toggled(h, mode, start).0.visible,
        events::toggled(h, mode, start).1 is Show <==> !h.visible,
        events::toggled(h, mode, start).1 is Hide <==> h.visible,
        !h.visible ==> events::toggled(h, mode, start).0 == h,
        events::hotkey_pressed(h, events::HOTKEY_BROWSE, shift) == events::toggled(
            h,
            Mode::Browse,
            Start::Chrome,
        ),
{
}

// ---- The switcher -----------------------------------------------------------

proof fn lemma_first_listed(apps: Seq<AppModel>)
    ensures
        hub::first_listed(apps) matches Some(a) ==> exists|k: int|
            0 <= k < apps.len() && #[trigger] apps[k] == a && hub::app_listed(a) && forall|j: int|
                0 <= j < k ==> !hub::app_listed(#[trigger] apps[j]),
        hub::first_listed(apps) is None ==> forall|j: int|
            0 <= j < apps.len() ==> !hub::app_listed(#[trigger] apps[j]),
    decreases apps.len(),
{
    if apps.len() > 0 && !hub::app_listed(apps[0]) {
        let rest = apps.drop_first();
        lemma_first_listed(rest);
        if let Some(a) = hub::first_listed(apps) {
            let k = choose|k: int|
                0 <= k < rest.len() && #[trigger] rest[k] == a && hub::app_listed(a) && forall|
                    j: int,
                |
                    0 <= j < k ==> !hub::app_listed(#[trigger] rest[j]);
            assert(apps[k + 1] == a);
            assert forall|j: int| 0 <= j < k + 1 implies !hub::app_listed(
                #[trigger] apps[j],
            ) by {
                if j > 0 {
                    assert(rest[j - 1] == apps[j]);
                }
            }
        } else {
            assert forall|j: int| 0 <= j < apps.len() implies !hub::app_listed(
                #[trigger] apps[j],
            ) by {
                if j > 0 {
                    assert(rest[j - 1] == apps[j]);
                }
            }
        }
    } else if apps.len() > 0 {
        assert(apps[0] == apps[0]);
    }
}

/// The first card of a hub that opens at the apps is the first open app.
pub proof fn law_first_card_is_the_first_open_app(h: HubModel, front: Option<i32>)
    requires
        h.query.len() == 0,
    ensures
        ({
            let open = h.opened_at_apps(front);
            match hub::first_listed(h.apps) {
                Some(a) => open.filtered.len() > 0 && open.apps[open.filtered[0]] == a,
                None => open.filtered.len() == 0,
            }
        }),
{
    let open = h.opened_at_apps(front);
    let base = HubModel {
        root_is_apps: true,
        level: LevelModel::Apps,
        selected: if h.mode is Switch && (hub::first_listed(h.apps) matches Some(a) && front
            == Some(a.pid)) {
            1
        } else {
            0
        },
        ..h
    };
    assert(open == base.rebuilt());
    lemma_first_listed(h.apps);
    if let Some(a) = hub::first_listed(h.apps) {
        let k = choose|k: int|
            0 <= k < h.apps.len() && #[trigger] h.apps[k] == a && hub::app_listed(a) && forall|
                j: int,
            |
                0 <= j < k ==> !hub::app_listed(#[trigger] h.apps[j]);
        assert(base.shows(k));
        law_cards_are_what_is_shown(base, k);
        let c = choose|c: int| 0 <= c < open.filtered.len() && open.filtered[c] == k;
        law_cards_are_what_is_shown(base, open.filtered[0]);
        assert(open.filtered.contains(open.filtered[0]));
        if c > 0 {
            law_cards_keep_the_order(base, 0, c);
        }
    } else if open.filtered.len() > 0 {
        law_cards_are_what_is_shown(base, open.filtered[0]);
        assert(open.filtered.contains(open.filtered[0]));
    }
}

/// A quick tap jumps to the previous app: where the switcher opens at the apps
/// and its modifier is up before it appears, the hub closes at once. Where the
/// frontmost app is the first card, the app of the second card is activated
/// (the first one's where it is the only card); else the app of the first
/// card, which is then already the one to go back to.
pub proof fn law_quick_tap_goes_back(h: HubModel, held: u64, front: Option<i32>, flags: u64)
    requires
        h.visible,
        h.query.len() == 0,
        h.mode == Mode::Switch(held),
        !modifiers::all_held(flags, held),
        h.opened_at_apps(front).filtered.len() > 0,
    ensures
        ({
            let open = h.opened_at_apps(front);
            let (closed, effect) = events::appeared(open, h.mode, flags);
            let first = open.apps[open.filtered[0]];
            &&& !closed.visible
            &&& front != Some(first.pid) ==> effect == EffectModel::Activate { pid: first.pid }
            &&& front == Some(first.pid) && open.filtered.len() > 1 ==> effect
                == EffectModel::Activate { pid: open.apps[open.filtered[1]].pid }
            &&& front == Some(first.pid) && open.filtered.len() == 1 ==> effect
                == EffectModel::Activate { pid: first.pid }
        }),
{
    law_first_card_is_the_first_open_app(h, front);
}

/// The app that a quick tap goes to where the frontmost app is the first card
/// is the most recently used one: no other open app on the same side (on the
/// current desktop, or elsewhere) was used later.
pub proof fn law_second_card_is_the_most_recent(
    h: HubModel,
    listed: Seq<AppModel>,
    rank: Ranking,
    front: Option<i32>,
    k: int,
)
    requires
        h.query.len() == 0,
        h.apps == rank.ordered(listed),
        rank.mru.len() < usize::MAX,
        1 < k < h.opened_at_apps(front).filtered.len(),
        ({
            let open = h.opened_at_apps(front);
            let (a, b) = (open.apps[open.filtered[1]], open.apps[open.filtered[k]]);
            &&& a.on_current == b.on_current
            &&& rank.front != Some(a.pid) && rank.front != Some(b.pid)
            &&& windows::position(rank.mru, b.pid) is Some
        }),
    ensures
        ({
            let open = h.opened_at_apps(front);
            let (a, b) = (open.apps[open.filtered[1]], open.apps[open.filtered[k]]);
            windows::position(rank.mru, a.pid) matches Some(p) && p <= windows::position(
                rank.mru,
                b.pid,
            )->0
        }),
{
    let open = h.opened_at_apps(front);
    let base = HubModel {
        root_is_apps: true,
        level: LevelModel::Apps,
        selected: if h.mode is Switch && (hub::first_listed(h.apps) matches Some(a) && front
            == Some(a.pid)) {
            1
        } else {
            0
        },
        ..h
    };
    assert(open == base.rebuilt());
    hub::lemma_shown(base);
    law_cards_keep_the_order(base, 1, k);
    windows_laws::law_order_keeps_apps(rank, listed);
    windows_laws::law_recent_first(rank, listed, open.filtered[1], open.filtered[k]);
}

/// ⌘Tab on an open hub makes it a ⌘Tab switcher: letting ⌘ go then commits
/// the card that it moved to.
pub proof fn law_command_tab_makes_a_switcher(h: HubModel, shift: bool)
    requires
        h.wf(),
        h.visible,
    ensures
        ({
            let (next, effect) = events::tapped(h, tap::Key::Tab, shift);
            &&& next.mode == Mode::Switch(modifiers::COMMAND)
            &&& next.selected == h.stepped(events::direction(shift)).selected
            &&& next.visible
            &&& events::command_released(next) == events::committed(next)
            &&& !events::command_released(next).0.visible
        }),
{
}

/// Letting a modifier go commits in a switcher that it keeps open, and does
/// nothing in a hub that was opened to browse.
pub proof fn law_browsing_outlives_the_modifiers(h: HubModel, flags: u64)
    ensures
        h.mode is Browse ==> events::flags_changed(h, flags) == (h, EffectModel::Nothing),
        h.mode is Browse ==> events::command_released(h) == (h, EffectModel::Nothing),
        h.mode is Browse ==> events::appeared(h, h.mode, flags) == (h, EffectModel::Refresh),
        h.visible && h.mode is Switch && !events::holding(h, flags) ==> !events::flags_changed(
            h,
            flags,
        ).0.visible,
        events::holding(h, flags) ==> events::flags_changed(h, flags) == (
            h,
            EffectModel::Nothing,
        ),
{
}

/// While the modifier of the switcher is held, or ⌘ or ⌃, no key types.
pub proof fn law_held_modifiers_type_nothing(
    h: HubModel,
    flags: u64,
    chars: Option<Seq<char>>,
)
    requires
        events::holding(h, flags) || modifiers::any_held(
            flags,
            modifiers::COMMAND | modifiers::CONTROL,
        ),
    ensures
        events::other_key(h, flags, chars) == (h, EffectModel::Nothing),
{
}

/// `1` – `9` jump straight to that app or window, where there is such a card
/// and no search has begun.
pub proof fn law_digits_jump(h: HubModel, flags: u64, c: char)
    requires
        h.wf(),
        h.visible,
        h.query.len() == 0,
        '1' <= c <= '9',
        (c as int - '1' as int) < h.filtered.len(),
        !modifiers::any_held(flags, modifiers::COMMAND | modifiers::CONTROL),
        !events::holding(h, flags),
    ensures
        ({
            let i = h.filtered[c as int - '1' as int];
            let (next, effect) = events::other_key(h, flags, Some(seq![c]));
            &&& !next.visible
            &&& h.at_apps() ==> effect == EffectModel::Activate { pid: h.apps[i].pid }
            &&& !h.at_apps() ==> effect == EffectModel::Focus { window: h.scope[i] }
        }),
{
    assert(seq![c][0] == c);
    assert(!events::untyped(c));
}

/// The number on a card is the key that jumps to it, where no search has begun.
pub proof fn law_badges_name_the_keys(h: HubModel, pos: nat)
    requires
        h.query.len() == 0,
        pos < h.filtered.len(),
        cards::badge_of(pos) is Some,
    ensures
        ({
            let badge = cards::badge_of(pos)->0;
            badge.len() == 1 && events::jump_to(h, badge[0]) == Some(pos as int)
        }),
{
}

/// A committed window is focused; where that fails, its app is brought forward,
/// and no other.
pub proof fn law_a_failed_focus_brings_the_app_forward(h: HubModel, focused: bool)
    requires
        h.wf(),
        h.visible,
        h.filtered.len() > 0,
        !h.at_apps(),
    ensures
        events::committed(h).1 == (EffectModel::Focus { window: h.scope[h.filtered[h.selected]] }),
        events::focus_followed(h.scope[h.filtered[h.selected]], focused) == if focused {
            EffectModel::Nothing
        } else {
            EffectModel::BringForward { pid: h.scope[h.filtered[h.selected]].pid }
        },
{
}

/// An Accessibility answer makes the app cards anew just where some app's
/// windows changed and the cards of the very opening that asked are shown. Else
/// it leaves them alone: as many are there as before, the same one is selected,
/// and each stands for the app or window that it stood for, in whatever order
/// the apps are now. It forgets the apps that are no longer running.
pub proof fn law_late_answers_leave_the_cards(
    h: HubModel,
    pids: Seq<i32>,
    ax: Map<i32, Map<u32, focus::AxModel>>,
    generation: u64,
    mru: Seq<i32>,
    front: Option<i32>,
    pid: i32,
)
    requires
        h.wf(),
    ensures
        ({
            let known = HubModel { ax_cache: h.ax_cache.restrict(pids.to_set()), ..h }.knowing(ax);
            let (next, effect) = events::answered(h, pids, ax, generation, mru, front);
            &&& next.query == h.query && next.level == h.level && next.scope == h.scope
            &&& next.visible == h.visible && next.generation == h.generation
            &&& effect == EffectModel::DrawAndCapture <==> known.windows_changed() && h.visible
                && h.generation == generation && h.at_apps()
            &&& effect is Nothing || effect == EffectModel::DrawAndCapture
            &&& effect is Nothing ==> next.filtered.len() == h.filtered.len() && next.selected
                == h.selected
            &&& effect is Nothing && h.at_apps() ==> forall|k: int|
                0 <= k < h.filtered.len() ==> next.apps[next.filtered[k]].pid
                    == h.apps[#[trigger] h.filtered[k]].pid
            &&& !h.at_apps() ==> next.filtered == h.filtered
            &&& next.ax_cache.contains_key(pid) <==> ax.contains_key(pid) || (pids.contains(pid)
                && h.ax_cache.contains_key(pid))
        }),
{
    assert(pids.to_set().contains(pid) <==> pids.contains(pid));
    let known = HubModel { ax_cache: h.ax_cache.restrict(pids.to_set()), ..h }.knowing(ax);
    let (next, effect) = events::answered(h, pids, ax, generation, mru, front);
    if effect is Nothing && h.at_apps() {
        let ws = windows::applied(known.raw_windows, known.ax_cache, known.apps);
        let rank = Ranking { front, windows: ws, mru };
        let counted = windows::all_assigned(known.apps, ws);
        windows_laws::law_order_keeps_apps(rank, counted);
        let (before, after) = (windows::pids_of(h.apps), windows::pids_of(next.apps));
        assert forall|k: int| 0 <= k < h.filtered.len() implies next.apps[next.filtered[k]].pid
            == h.apps[#[trigger] h.filtered[k]].pid by {
            let i = h.filtered[k];
            assert(counted.contains(counted[i]));
            assert(next.apps.contains(counted[i]));
            let j = choose|j: int| 0 <= j < next.apps.len() && next.apps[j] == counted[i];
            assert(after[j] == before[i]);
            windows_laws::lemma_position(after, before[i]);
            let p = events::place_after(before, after, i);
            assert(after[p] == before[i]);
            assert(next.filtered[k] == p);
        }
    }
}

/// A new order of the apps is no change of their windows: windows changed just
/// where some app's own list did.
pub proof fn law_windows_changed(h: HubModel)
    ensures
        h.windows_changed() <==> exists|i: int|
            0 <= i < h.apps.len() && windows::assigned(
                #[trigger] h.apps[i],
                windows::applied(h.raw_windows, h.ax_cache, h.apps),
            ).windows != h.apps[i].windows,
{
    let ws = windows::applied(h.raw_windows, h.ax_cache, h.apps);
    let (a, b) = (hub::listing(windows::all_assigned(h.apps, ws)), hub::listing(h.apps));
    if forall|i: int|
        0 <= i < h.apps.len() ==> windows::assigned(#[trigger] h.apps[i], ws).windows
            == h.apps[i].windows {
        assert forall|i: int| 0 <= i < a.len() implies a[i] == b[i] by {
            assert(windows::assigned(h.apps[i], ws).windows == h.apps[i].windows);
        }
        assert(a =~= b);
    } else {
        let i = choose|i: int|
            0 <= i < h.apps.len() && windows::assigned(#[trigger] h.apps[i], ws).windows
                != h.apps[i].windows;
        assert(a[i] != b[i]);
    }
}

} // verus!
