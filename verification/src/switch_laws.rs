//! What the user sees of the hub: what a search finds, where the selection
//! goes, and what every key, click and release does.
use vstd::prelude::*;

use crate::chrome_laws;
use crate::chrome;
use crate::events::EffectModel;
use crate::events;
use crate::focus;
use crate::hub::{HubModel, LevelModel, Mode, Start};
use crate::hub;
use crate::hub_laws;
use crate::layout;
use crate::sequences;
use crate::tap;
use crate::text;
use crate::text_laws;
use crate::windows::{AppModel, Ranking, WindowModel};
use crate::windows;
use crate::windows_laws;

verus! {

// ---- Searching --------------------------------------------------------------

/// Every word of a search stands in a text, whatever the case of either.
pub open spec fn finds(hay: Seq<char>, query: Seq<char>) -> bool {
    query.len() == 0 || forall|k: int|
        0 <= k < text::words_of(text::lowercase(query)).len() ==> text::has(
            text::lowercase(hay),
            #[trigger] text::words_of(text::lowercase(query))[k],
        )
}

/// At the Apps level an app has a card just where it has a window that is not
/// minimized and its name holds every word of the search.
pub proof fn law_apps_are_found_by_name(h: HubModel, i: int)
    requires
        h.level is Apps,
    ensures
        h.rebuilt().filtered.contains(i) <==> 0 <= i < h.apps.len() && h.apps[i].active > 0
            && finds(h.apps[i].name, h.query),
{
    hub_laws::law_cards_are_what_is_shown(h, i);
}

/// At the Windows level a window has a card just where its title and profile,
/// with a space between them, hold every word of the search.
pub proof fn law_windows_are_found_by_title_and_profile(h: HubModel, i: int)
    requires
        h.level is Windows,
    ensures
        h.rebuilt().filtered.contains(i) <==> 0 <= i < h.scope.len() && finds(
            h.scope[i].title + seq![' '] + match h.scope[i].profile {
                Some(p) => p,
                None => Seq::empty(),
            },
            h.query,
        ),
{
    reveal_strlit(" ");
    assert(" "@ =~= seq![' ']);
    hub_laws::law_cards_are_what_is_shown(h, i);
}

/// An open app is found by its own name, in whatever case it is typed, and by
/// any part of it.
pub proof fn law_an_open_app_is_found(h: HubModel, i: int, a: Seq<char>, b: Seq<char>)
    requires
        h.level is Apps,
        0 <= i < h.apps.len(),
        h.apps[i].active > 0,
        text::words_of(text::lowercase(h.query)) == seq![text::lowercase(h.query)],
        text::lowercase(h.apps[i].name) == a + text::lowercase(h.query) + b,
    ensures
        h.rebuilt().filtered.contains(i),
{
    let word = text::lowercase(h.query);
    text_laws::law_holds_what_was_put_in(a, word, b);
    law_apps_are_found_by_name(h, i);
    assert forall|k: int| 0 <= k < text::words_of(word).len() implies text::has(
        text::lowercase(h.apps[i].name),
        #[trigger] text::words_of(word)[k],
    ) by {
        assert(text::words_of(word)[k] == word);
    }
}

/// Making the cards anew changes the cards alone: the selection stays where it
/// is, or goes to the last card where it would stand behind it.
pub proof fn law_new_cards_keep_the_selection(h: HubModel)
    requires
        0 <= h.selected,
    ensures
        ({
            let r = h.rebuilt();
            let n = r.filtered.len();
            &&& h.selected < n ==> r.selected == h.selected
            &&& h.selected >= n && n > 0 ==> r.selected == n - 1
            &&& n == 0 ==> r.selected == 0
            &&& r == HubModel {
                filtered: r.filtered,
                selected: r.selected,
                cols: r.cols,
                ..h
            }
        }),
{
}

/// The cards stand in the fewest columns that are wanted for them: five times
/// the square is at least eight times the count. No more than fit, no more than
/// there are cards, but two where there are two.
pub proof fn law_columns_of_the_cards(h: HubModel)
    requires
        h.max_cols >= 1,
    ensures
        ({
            let (n, c, m) = (h.rebuilt().filtered.len(), h.rebuilt().cols, h.max_cols);
            &&& n <= 1 ==> c == 1
            &&& n >= 2 ==> 2 <= c <= n && (c <= m || c == 2)
            &&& c > 2 ==> 5 * ((c - 1) * (c - 1)) < 8 * n
            &&& c < n && c < m ==> 5 * (c * c) >= 8 * n
        }),
{
    layout::law_columns(h.rebuilt().filtered.len(), h.max_cols);
}

// ---- Moving -----------------------------------------------------------------

/// Moving goes on by so many cards, round the ends, and changes nothing else.
pub proof fn law_moving(h: HubModel, delta: int)
    requires
        h.wf(),
    ensures
        h.filtered.len() == 0 ==> h.stepped(delta) == h,
        h.filtered.len() > 0 ==> h.stepped(delta) == (HubModel {
            selected: (h.selected + delta) % (h.filtered.len() as int),
            ..h
        }),
{
    if h.filtered.len() > 0 {
        vstd::arithmetic::div_mod::lemma_mod_bound(h.selected + delta, h.filtered.len() as int);
    }
}

/// Selecting a card changes the selection alone; there is nothing to select
/// where there is no card.
pub proof fn law_selecting(h: HubModel, i: int)
    ensures
        0 <= i < h.filtered.len() ==> h.selecting(i) == (HubModel { selected: i, ..h }),
        i < 0 || i >= h.filtered.len() ==> h.selecting(i) == h,
{
}

/// What a move is answered with: the card is marked where it is another one.
pub open spec fn goes(h: HubModel, delta: int, next: HubModel, effect: EffectModel) -> bool {
    let n = h.filtered.len() as int;
    if n == 0 {
        next == h && effect is Nothing
    } else {
        &&& next == (HubModel { selected: (h.selected + delta) % n, ..h })
        &&& effect is Mark <==> next.selected != h.selected
        &&& effect is Mark || effect is Nothing
    }
}

/// The modifier keys in these bits are all held.
pub open spec fn held(flags: u64, bits: u64) -> bool {
    flags & bits == bits
}

/// ⇧ is bit 17 of the modifiers, ⌃ bit 18, ⌥ bit 19 and ⌘ bit 20.
pub open spec fn shift_held(flags: u64) -> bool {
    held(flags, 0x2_0000)
}

/// Tab and → go one card on, ⇧Tab and ← one back, ↓ one row on and ↑ one row
/// back.
pub proof fn law_arrows_and_tab(h: HubModel, flags: u64, chars: Option<Seq<char>>)
    requires
        h.wf(),
    ensures
        ({
            let (next, effect) = events::key_pressed(h, 48, flags, chars);
            goes(
                h,
                if shift_held(flags) {
                    -1
                } else {
                    1
                },
                next,
                effect,
            )
        }),
        goes(
            h,
            -1,
            events::key_pressed(h, 123, flags, chars).0,
            events::key_pressed(h, 123, flags, chars).1,
        ),
        goes(
            h,
            1,
            events::key_pressed(h, 124, flags, chars).0,
            events::key_pressed(h, 124, flags, chars).1,
        ),
        goes(
            h,
            h.cols as int,
            events::key_pressed(h, 125, flags, chars).0,
            events::key_pressed(h, 125, flags, chars).1,
        ),
        goes(
            h,
            -(h.cols as int),
            events::key_pressed(h, 126, flags, chars).0,
            events::key_pressed(h, 126, flags, chars).1,
        ),
{
    law_moving(h, 1);
    law_moving(h, -1);
    law_moving(h, h.cols as int);
    law_moving(h, -(h.cols as int));
}

// ---- Cycling ----------------------------------------------------------------

/// At the Windows level ⌘`, ` and (without a search) Space go to the next
/// window, and with ⇧ to the previous one, round the ends.
pub proof fn law_cycling_windows(h: HubModel, flags: u64, chars: Option<Seq<char>>, shift: bool)
    requires
        h.wf(),
        h.level is Windows,
    ensures
        ({
            let (next, effect) = events::tapped(h, tap::Key::Grave, shift);
            goes(
                h,
                if shift {
                    -1
                } else {
                    1
                },
                next,
                effect,
            )
        }),
        ({
            let (next, effect) = events::key_pressed(h, 50, flags, chars);
            goes(
                h,
                if shift_held(flags) {
                    -1
                } else {
                    1
                },
                next,
                effect,
            )
        }),
        h.query.len() == 0 ==> ({
            let (next, effect) = events::key_pressed(h, 49, flags, chars);
            goes(
                h,
                if shift_held(flags) {
                    -1
                } else {
                    1
                },
                next,
                effect,
            )
        }),
        ({
            let (next, effect) = events::cycled(h, shift);
            goes(
                h,
                if shift {
                    -1
                } else {
                    1
                },
                next,
                effect,
            )
        }),
{
    law_moving(h, 1);
    law_moving(h, -1);
}

/// What stepping into the selected app asks for: its windows, where it has any.
pub open spec fn asks_for_windows(h: HubModel, effect: EffectModel) -> bool {
    if h.level is Apps && h.selected < h.filtered.len() && h.apps[h.filtered[h.selected]].windows.len()
        > 0 {
        let a = h.apps[h.filtered[h.selected]];
        effect == (EffectModel::Lookup { pids: seq![a.pid], name: a.name })
    } else {
        effect is Nothing
    }
}

/// At the Apps level ⌘`, ` and (without a search) Space step into the selected
/// app: its windows are asked for, and the hub waits for the answer.
pub proof fn law_stepping_into_an_app(
    h: HubModel,
    flags: u64,
    chars: Option<Seq<char>>,
    shift: bool,
)
    requires
        h.wf(),
        h.level is Apps,
    ensures
        asks_for_windows(h, events::entered(h)),
        events::tapped(h, tap::Key::Grave, shift).0 == h && asks_for_windows(
            h,
            events::tapped(h, tap::Key::Grave, shift).1,
        ),
        events::key_pressed(h, 50, flags, chars).0 == h && asks_for_windows(
            h,
            events::key_pressed(h, 50, flags, chars).1,
        ),
        h.query.len() == 0 ==> events::key_pressed(h, 49, flags, chars).0 == h && asks_for_windows(
            h,
            events::key_pressed(h, 49, flags, chars).1,
        ),
        events::cycled(h, shift).0 == h && asks_for_windows(h, events::cycled(h, shift).1),
{
}

/// The "show windows" button of a card selects the card and steps into its app;
/// a click elsewhere on the card selects and commits it.
pub proof fn law_clicks(h: HubModel, i: int, expand: bool)
    requires
        h.wf(),
        0 <= i < h.filtered.len(),
    ensures
        ({
            let on = HubModel { selected: i, ..h };
            let (next, effect) = events::clicked(h, i, expand);
            &&& !expand ==> (next, effect) == events::committed(on)
            &&& expand ==> next == on
            &&& expand && h.level is Apps && h.apps[h.filtered[i]].windows.len() > 0
                ==> asks_for_windows(on, effect)
            &&& expand && (h.level is Windows || h.apps[h.filtered[i]].windows.len() == 0) ==> (
            effect is Mark <==> i != h.selected) && (effect is Mark || effect is Nothing)
        }),
{
}

// ---- Opening an app's windows -----------------------------------------------

/// Opening windows shows every window of the sub-dock, in its order, without a
/// search. In a switcher, where one of the apps is frontmost and there are two
/// windows or more, the second one, which was used before, is selected; else
/// the first.
pub proof fn law_the_previous_window_is_selected(
    h: HubModel,
    pids: Seq<i32>,
    name: Seq<char>,
    ax: Map<i32, Map<u32, focus::AxModel>>,
    front: Option<i32>,
    mru: Seq<i32>,
)
    ensures
        ({
            let open = h.opened(pids, name, ax, front, mru);
            let in_front = match front {
                Some(p) => pids.contains(p),
                None => false,
            };
            &&& open.level == (LevelModel::Windows { pids, name })
            &&& open.query.len() == 0
            &&& open.filtered == Seq::new(open.scope.len(), |k: int| k)
            &&& h.mode is Switch && in_front && open.scope.len() >= 2 ==> open.selected == 1
            &&& h.mode is Browse || !in_front || open.scope.len() < 2 ==> open.selected == 0
            &&& open.mode == h.mode && open.visible == h.visible && open.generation
                == h.generation
            &&& open.root_is_apps == h.root_is_apps && open.raw_windows == h.raw_windows
                && open.max_cols == h.max_cols
        }),
{
    let open = h.opened(pids, name, ax, front, mru);
    let all = Seq::new(open.scope.len(), |k: int| k);
    let base = if ax.is_empty() {
        h
    } else {
        h.knowing(ax).refreshed(mru, front)
    };
    let in_front = front matches Some(p) && pids.contains(p);
    let fresh = HubModel {
        scope: h.sub_dock(pids, ax),
        level: LevelModel::Windows { pids, name },
        query: Seq::empty(),
        selected: if h.mode is Switch && in_front && h.sub_dock(pids, ax).len() > 1 {
            1
        } else {
            0
        },
        ..base
    };
    assert(open == fresh.rebuilt());
    sequences::lemma_filter_all(all, |i: int| fresh.shows(i));
}

/// A quick tap, or letting the modifier go, then focuses that window: the one
/// used before the front one.
pub proof fn law_letting_go_focuses_the_previous_window(
    h: HubModel,
    pids: Seq<i32>,
    name: Seq<char>,
    ax: Map<i32, Map<u32, focus::AxModel>>,
    p: i32,
    mru: Seq<i32>,
    bits: u64,
    flags: u64,
)
    requires
        h.visible,
        h.mode == Mode::Switch(bits),
        !held(flags, bits),
        pids.contains(p),
        h.opened(pids, name, ax, Some(p), mru).scope.len() >= 2,
    ensures
        ({
            let open = h.opened(pids, name, ax, Some(p), mru);
            let focus = EffectModel::Focus { window: open.scope[1] };
            &&& events::flags_changed(open, flags).1 == focus
            &&& events::appeared(open, h.mode, flags).1 == focus
            &&& !events::flags_changed(open, flags).0.visible
        }),
{
    law_the_previous_window_is_selected(h, pids, name, ax, Some(p), mru);
}

/// The sub-dock shows the windows of its apps as the window server lists them:
/// without any answer from Accessibility the titled ones; with one, those that
/// stay when it is applied.
pub proof fn law_what_the_sub_dock_shows(
    h: HubModel,
    pids: Seq<i32>,
    name: Seq<char>,
    ax: Map<i32, Map<u32, focus::AxModel>>,
    front: Option<i32>,
    mru: Seq<i32>,
)
    ensures
        (forall|p: i32| !#[trigger] ax.contains_key(p)) ==> h.opened(
            pids,
            name,
            ax,
            front,
            mru,
        ).scope == h.raw_windows.filter(
            |w: WindowModel| pids.contains(w.pid) && w.title.len() > 0,
        ) && h.opened(pids, name, ax, front, mru).ax_cache == h.ax_cache && h.opened(
            pids,
            name,
            ax,
            front,
            mru,
        ).apps == h.apps,
        (exists|p: i32| #[trigger] ax.contains_key(p)) ==> h.opened(
            pids,
            name,
            ax,
            front,
            mru,
        ).scope == windows::applied(
            h.raw_windows.filter(|w: WindowModel| pids.contains(w.pid)),
            ax,
            h.apps,
        ),
{
    if forall|p: i32| !#[trigger] ax.contains_key(p) {
        assert(ax =~= Map::empty());
        assert(ax.is_empty());
        lemma_filter_twice(
            h.raw_windows,
            |w: WindowModel| pids.contains(w.pid),
            |w: WindowModel| windows::titled(w),
            |w: WindowModel| pids.contains(w.pid) && w.title.len() > 0,
        );
    } else {
        let p = choose|p: i32| #[trigger] ax.contains_key(p);
        assert(ax.dom().contains(p));
        assert(!ax.is_empty());
    }
}

proof fn lemma_filter_twice(
    s: Seq<WindowModel>,
    p: spec_fn(WindowModel) -> bool,
    q: spec_fn(WindowModel) -> bool,
    both: spec_fn(WindowModel) -> bool,
)
    requires
        forall|w: WindowModel| #[trigger] both(w) == (p(w) && q(w)),
    ensures
        s.filter(p).filter(q) == s.filter(both),
    decreases s.len(),
{
    reveal(Seq::filter);
    if s.len() > 0 {
        let init = s.drop_last();
        lemma_filter_twice(init, p, q, both);
        assert(both(s.last()) == (p(s.last()) && q(s.last())));
        if p(s.last()) {
            assert(s.filter(p).drop_last() =~= init.filter(p));
        }
    }
}

/// What Accessibility answers is remembered: a fresh answer for an app replaces
/// the older one, and the others stay.
pub proof fn law_answers_are_remembered(
    h: HubModel,
    pids: Seq<i32>,
    name: Seq<char>,
    ax: Map<i32, Map<u32, focus::AxModel>>,
    front: Option<i32>,
    mru: Seq<i32>,
    p: i32,
)
    ensures
        ({
            let open = h.opened(pids, name, ax, front, mru);
            &&& open.ax_cache.contains_key(p) <==> ax.contains_key(p) || h.ax_cache.contains_key(p)
            &&& ax.contains_key(p) ==> open.ax_cache[p] == ax[p]
            &&& !ax.contains_key(p) && h.ax_cache.contains_key(p) ==> open.ax_cache[p]
                == h.ax_cache[p]
        }),
{
    if ax.is_empty() {
        assert(!ax.dom().contains(p));
    }
}

/// The windows and apps follow what is remembered: every app counts the windows
/// that stay when it is applied to the window server's list.
pub proof fn law_apps_follow_the_answers(h: HubModel, mru: Seq<i32>, front: Option<i32>, a: AppModel)
    ensures
        ({
            let next = h.refreshed(mru, front);
            &&& next.all_windows == windows::applied(h.raw_windows, h.ax_cache, h.apps)
            &&& next.apps.contains(a) <==> exists|i: int|
                0 <= i < h.apps.len() && a == windows::assigned(
                    #[trigger] h.apps[i],
                    next.all_windows,
                )
            &&& next.apps.len() == h.apps.len()
            &&& next.apps == (Ranking { front, windows: next.all_windows, mru }).ordered(
                Seq::new(h.apps.len(), |i: int| windows::assigned(h.apps[i], next.all_windows)),
            )
            &&& next == HubModel { apps: next.apps, all_windows: next.all_windows, ..h }
        }),
{
    let next = h.refreshed(mru, front);
    let ws = next.all_windows;
    let counted = windows::all_assigned(h.apps, ws);
    assert(counted =~= Seq::new(h.apps.len(), |i: int| windows::assigned(h.apps[i], ws)));
    windows_laws::law_order_keeps_apps(
        Ranking { front, windows: ws, mru },
        counted,
    );
    if counted.contains(a) {
        let i = choose|i: int| 0 <= i < counted.len() && counted[i] == a;
        assert(a == windows::assigned(h.apps[i], ws));
    }
    if exists|i: int| 0 <= i < h.apps.len() && a == windows::assigned(#[trigger] h.apps[i], ws) {
        let i = choose|i: int|
            0 <= i < h.apps.len() && a == windows::assigned(#[trigger] h.apps[i], ws);
        assert(counted[i] == a);
    }
}

/// Opening windows leaves the apps as they are where Accessibility did not
/// answer; else they follow the answers, and are put in order anew.
pub proof fn law_opening_brings_the_apps_up_to_date(
    h: HubModel,
    pids: Seq<i32>,
    name: Seq<char>,
    ax: Map<i32, Map<u32, focus::AxModel>>,
    front: Option<i32>,
    mru: Seq<i32>,
)
    ensures
        ({
            let open = h.opened(pids, name, ax, front, mru);
            let answered = exists|p: i32| #[trigger] ax.contains_key(p);
            &&& !answered ==> open.apps == h.apps && open.all_windows == h.all_windows
            &&& answered ==> open.all_windows == windows::applied(
                h.raw_windows,
                open.ax_cache,
                h.apps,
            )
            &&& answered ==> open.apps == (Ranking { front, windows: open.all_windows, mru }).ordered(
                Seq::new(h.apps.len(), |i: int| windows::assigned(h.apps[i], open.all_windows)),
            )
        }),
{
    if exists|p: i32| #[trigger] ax.contains_key(p) {
        let p = choose|p: i32| #[trigger] ax.contains_key(p);
        assert(ax.dom().contains(p));
        assert(!ax.is_empty());
        let known = h.knowing(ax);
        law_apps_follow_the_answers(known, mru, front, known.apps[0]);
    } else {
        assert(ax =~= Map::empty());
        assert(ax.is_empty());
    }
}

/// Answers that come in later are remembered for the apps that still run, and
/// the windows and apps follow them. The cards are made anew and drawn just
/// where the app cards of the opening that asked are shown and some app's
/// windows are others now; else they stay as they are.
pub proof fn law_late_answers(
    h: HubModel,
    pids: Seq<i32>,
    ax: Map<i32, Map<u32, focus::AxModel>>,
    generation: u64,
    mru: Seq<i32>,
    front: Option<i32>,
    p: i32,
)
    ensures
        ({
            let (next, effect) = events::answered(h, pids, ax, generation, mru, front);
            let changed = exists|i: int|
                0 <= i < h.apps.len() && windows::assigned(
                    #[trigger] h.apps[i],
                    next.all_windows,
                ).windows != h.apps[i].windows;
            let after = HubModel {
                ax_cache: next.ax_cache,
                all_windows: next.all_windows,
                apps: next.apps,
                ..h
            };
            &&& next.ax_cache.contains_key(p) <==> ax.contains_key(p) || (pids.contains(p)
                && h.ax_cache.contains_key(p))
            &&& ax.contains_key(p) ==> next.ax_cache[p] == ax[p]
            &&& !ax.contains_key(p) && pids.contains(p) && h.ax_cache.contains_key(p)
                ==> next.ax_cache[p] == h.ax_cache[p]
            &&& next.all_windows == windows::applied(h.raw_windows, next.ax_cache, h.apps)
            &&& next.apps == (Ranking { front, windows: next.all_windows, mru }).ordered(
                Seq::new(h.apps.len(), |i: int| windows::assigned(h.apps[i], next.all_windows)),
            )
            &&& h.visible && h.generation == generation && h.level is Apps && changed ==> effect
                == EffectModel::DrawAndCapture && next == after.rebuilt()
            &&& !(h.visible && h.generation == generation && h.level is Apps && changed) ==> effect
                is Nothing && next == HubModel { filtered: next.filtered, ..after }
        }),
{
    assert(pids.to_set().contains(p) <==> pids.contains(p));
    let known = HubModel { ax_cache: h.ax_cache.restrict(pids.to_set()), ..h }.knowing(ax);
    let ws = windows::applied(known.raw_windows, known.ax_cache, known.apps);
    hub_laws::law_windows_changed(known);
    assert(windows::all_assigned(h.apps, ws) =~= Seq::new(
        h.apps.len(),
        |i: int| windows::assigned(h.apps[i], ws),
    ));
}

/// The Chrome shortcuts open the windows of the apps with one of Chrome's names,
/// and of no others, in the order of the apps.
pub proof fn law_chrome_apps(apps: Seq<AppModel>, a: AppModel)
    ensures
        hub::chromes(Seq::empty()).len() == 0,
        hub::chromes(apps.push(a)) == if seq![
            "Google Chrome"@,
            "Google Chrome Beta"@,
            "Google Chrome Canary"@,
            "Google Chrome Dev"@,
            "Chromium"@,
        ].contains(a.name) {
            hub::chromes(apps).push(a.pid)
        } else {
            hub::chromes(apps)
        },
{
    chrome_laws::law_chrome_names(a.name);
    reveal(Seq::filter);
    let p = |a: AppModel| chrome::chrome_app(a.name);
    assert(apps.push(a).drop_last() =~= apps);
    assert(Seq::<AppModel>::empty().filter(p) =~= Seq::empty());
    assert(hub::chromes(apps.push(a)) =~= if p(a) {
        hub::chromes(apps).push(a.pid)
    } else {
        hub::chromes(apps)
    });
}

// ---- Opening and closing ----------------------------------------------------

/// The hub opens on what was listed just now, without a search, in the mode that
/// was asked for, and begins a new generation.
pub proof fn law_opening(
    h: HubModel,
    mode: Mode,
    apps: Seq<AppModel>,
    all: Seq<WindowModel>,
    raw: Seq<WindowModel>,
    max_cols: nat,
    front: Option<i32>,
    ax: Map<i32, Map<u32, focus::AxModel>>,
    mru: Seq<i32>,
)
    ensures
        ({
            let ready = h.loaded(mode, apps, all, raw, max_cols);
            let at_apps = ready.opened_at_apps(front);
            let at_chrome = ready.opened_at_chrome(ax, front, mru);
            &&& at_apps.visible && at_chrome.visible
            &&& at_apps.mode == mode && at_chrome.mode == mode
            &&& at_apps.query.len() == 0 && at_chrome.query.len() == 0
            &&& at_apps.generation == (h.generation + 1) % 0x1_0000_0000_0000_0000
            &&& at_chrome.generation == at_apps.generation
            &&& at_apps.level is Apps && at_apps.root_is_apps && at_apps.apps == apps
            &&& at_apps.raw_windows == raw && at_chrome.raw_windows == raw
            &&& at_apps.all_windows == all && at_apps.max_cols == max_cols && at_chrome.max_cols
                == max_cols
            &&& at_apps.ax_cache == h.ax_cache
            &&& !at_chrome.root_is_apps && at_chrome.level == (LevelModel::Windows {
                pids: hub::chromes(apps),
                name: "Chrome"@,
            })
            &&& mode is Browse ==> at_apps.selected == 0 && at_chrome.selected == 0
        }),
{
    let ready = h.loaded(mode, apps, all, raw, max_cols);
    law_the_previous_window_is_selected(
        HubModel { root_is_apps: false, ..ready },
        hub::chromes(apps),
        "Chrome"@,
        ax,
        front,
        mru,
    );
}

/// In a Chrome switcher, where Chrome is frontmost with two windows or more, the
/// previous window is selected.
pub proof fn law_the_chrome_switcher_selects_the_previous_window(
    h: HubModel,
    ax: Map<i32, Map<u32, focus::AxModel>>,
    p: i32,
    mru: Seq<i32>,
)
    requires
        h.mode is Switch,
        hub::chromes(h.apps).contains(p),
    ensures
        ({
            let open = h.opened_at_chrome(ax, Some(p), mru);
            &&& open.scope.len() >= 2 ==> open.selected == 1 && open.filtered[1] == 1
            &&& open.scope.len() == 1 ==> open.selected == 0 && open.filtered[0] == 0
        }),
{
    law_the_previous_window_is_selected(
        HubModel { root_is_apps: false, ..h },
        hub::chromes(h.apps),
        "Chrome"@,
        ax,
        Some(p),
        mru,
    );
}

/// In an app switcher the second card is selected where the first one is the
/// frontmost app's, else the first card.
pub proof fn law_the_previous_app_is_selected(h: HubModel, front: Option<i32>)
    requires
        h.mode is Switch,
        h.query.len() == 0,
    ensures
        ({
            let open = h.opened_at_apps(front);
            let first = open.apps[open.filtered[0]];
            &&& open.filtered.len() >= 2 && front == Some(first.pid) ==> open.selected == 1
            &&& open.filtered.len() >= 2 && front != Some(first.pid) ==> open.selected == 0
            &&& open.filtered.len() < 2 ==> open.selected == 0
        }),
{
    hub_laws::law_first_card_is_the_first_open_app(h, front);
}

/// Closing takes the hub off the screen and begins a new generation; nothing
/// else changes.
pub proof fn law_closing(h: HubModel)
    ensures
        h.closed_up() == (HubModel {
            visible: false,
            generation: h.closed_up().generation,
            ..h
        }),
        h.closed_up().generation == (h.generation + 1) % 0x1_0000_0000_0000_0000,
{
}

/// A commit in a closed hub does nothing. In an open one it closes the hub and
/// activates the app of the selected card, or focuses its window; without a card
/// it only closes.
pub proof fn law_committing(h: HubModel)
    requires
        h.wf(),
    ensures
        ({
            let (next, effect) = events::committed(h);
            &&& !h.visible ==> next == h && effect is Nothing
            &&& h.visible ==> {
                &&& !next.visible
                &&& next.generation == (h.generation + 1) % 0x1_0000_0000_0000_0000
                &&& next == HubModel { visible: false, generation: next.generation, ..h }
                &&& h.filtered.len() == 0 ==> effect is Hide
                &&& h.filtered.len() > 0 && h.level is Apps ==> effect == (EffectModel::Activate {
                    pid: h.apps[h.filtered[h.selected]].pid,
                })
                &&& h.filtered.len() > 0 && h.level is Windows ==> effect == (EffectModel::Focus {
                    window: h.scope[h.filtered[h.selected]],
                })
            }
        }),
{
}

/// Return and Enter commit.
pub proof fn law_return_commits(h: HubModel, flags: u64, chars: Option<Seq<char>>)
    ensures
        events::key_pressed(h, 36, flags, chars) == events::committed(h),
        events::key_pressed(h, 76, flags, chars) == events::committed(h),
{
}

// ---- Going back -------------------------------------------------------------

/// Back goes up from the windows of an app to the apps, where the hub was opened
/// at them: without a search, every open app a card again, and the app whose
/// windows were shown selected where it has a card, else the first card.
/// Elsewhere there is no way back, and nothing happens.
pub proof fn law_going_back(h: HubModel, k: int)
    ensures
        ({
            let (next, effect) = events::backed(h);
            let pids = h.level->pids;
            &&& h.level is Apps || !h.root_is_apps ==> next == h && effect is Nothing
            &&& h.level is Windows && h.root_is_apps ==> {
                &&& effect == EffectModel::DrawAndCapture
                &&& next.level is Apps && next.query.len() == 0
                &&& next == HubModel {
                    level: LevelModel::Apps,
                    query: next.query,
                    filtered: next.filtered,
                    selected: next.selected,
                    cols: next.cols,
                    ..h
                }
                &&& next.filtered.contains(k) <==> 0 <= k < h.apps.len() && h.apps[k].active > 0
                &&& pids.len() > 0 && next.filtered.contains(k) && h.apps[k].pid == pids[0]
                    ==> next.selected < next.filtered.len()
                    && h.apps[next.filtered[next.selected]].pid == pids[0] && (forall|c: int|
                    0 <= c < next.selected ==> h.apps[#[trigger] next.filtered[c]].pid != pids[0])
                &&& pids.len() == 0 || (forall|c: int|
                    0 <= c < next.filtered.len() ==> h.apps[#[trigger] next.filtered[c]].pid
                        != pids[0]) ==> next.selected == 0
            }
        }),
{
    if h.level is Windows && h.root_is_apps {
        let pids = h.level->pids;
        let up = HubModel { level: LevelModel::Apps, ..h }.searching(Seq::empty());
        let base = HubModel { level: LevelModel::Apps, query: Seq::empty(), selected: 0, ..h };
        assert(up == base.rebuilt());
        hub_laws::law_cards_are_what_is_shown(base, k);
        if pids.len() > 0 {
            hub_laws::lemma_card_of(up.apps, up.filtered, pids[0], 0);
            if up.filtered.contains(k) && h.apps[k].pid == pids[0] {
                let c = choose|c: int| 0 <= c < up.filtered.len() && up.filtered[c] == k;
                assert(up.apps[up.filtered[c]].pid == pids[0]);
            }
        }
    }
}

/// Esc clears a search first: all cards are back, and the selection stays.
/// Without a search it goes back where it can, and else closes.
pub proof fn law_escape(h: HubModel, flags: u64, chars: Option<Seq<char>>)
    ensures
        ({
            let (next, effect) = events::key_pressed(h, 53, flags, chars);
            &&& h.query.len() > 0 ==> effect is Draw && next == (HubModel {
                query: Seq::empty(),
                ..h
            }).rebuilt()
            &&& h.query.len() == 0 && h.level is Windows && h.root_is_apps ==> (next, effect)
                == events::backed(h)
            &&& h.query.len() == 0 && (h.level is Apps || !h.root_is_apps) ==> effect is Hide
                && next == h.closed_up()
        }),
{
}

/// ⌫ takes the last character off a search; without one it goes back where it
/// can.
pub proof fn law_delete(h: HubModel, flags: u64, chars: Option<Seq<char>>)
    ensures
        ({
            let (next, effect) = events::key_pressed(h, 51, flags, chars);
            &&& h.query.len() > 0 ==> effect is Draw && next == (HubModel {
                query: h.query.take(h.query.len() - 1),
                ..h
            }).rebuilt()
            &&& h.query.len() == 0 ==> (next, effect) == events::backed(h)
        }),
{
    if h.query.len() > 0 {
        assert(h.query.drop_last() =~= h.query.take(h.query.len() - 1));
    }
}

// ---- Typing -----------------------------------------------------------------

/// The hub with a character added to its search: the first card is selected.
pub open spec fn with_typed(h: HubModel, c: char) -> HubModel {
    HubModel { query: h.query.push(c), selected: 0, ..h }.rebuilt()
}

/// Space adds to a search that has begun.
pub proof fn law_space_in_a_search(h: HubModel, flags: u64, chars: Option<Seq<char>>)
    requires
        h.query.len() > 0,
    ensures
        events::key_pressed(h, 49, flags, chars) == (with_typed(h, ' '), EffectModel::Draw),
{
}

/// A key that is none of the named ones.
pub open spec fn plain_key(code: u16) -> bool {
    code != 48 && code != 49 && code != 50 && code != 51 && code != 53 && code != 36 && code != 76
        && code != 123 && code != 124 && code != 125 && code != 126
}

/// A plain key does nothing while ⌘ or ⌃ is held, while the switcher's own
/// modifier is held, or where it types nothing.
pub proof fn law_keys_that_do_nothing(
    h: HubModel,
    code: u16,
    flags: u64,
    chars: Option<Seq<char>>,
)
    requires
        plain_key(code),
        flags & (0x10_0000u64 | 0x4_0000u64) != 0 || (h.mode matches Mode::Switch(bits) && held(
            flags,
            bits,
        )) || chars is None,
    ensures
        events::key_pressed(h, code, flags, chars) == (h, EffectModel::Nothing),
{
}

/// A plain key types its characters one after the other: control characters and
/// those of special keys are skipped; where no search has begun, a digit from 1
/// on that numbers a card selects and commits that card, and ends the typing;
/// every other character is added to the search.
pub proof fn law_typing(
    h: HubModel,
    code: u16,
    flags: u64,
    c: char,
    rest: Seq<char>,
)
    requires
        plain_key(code),
        flags & (0x10_0000u64 | 0x4_0000u64) == 0,
        h.mode matches Mode::Switch(bits) ==> !held(flags, bits),
    ensures
        ({
            let none = events::key_pressed(h, code, flags, Some(Seq::empty()));
            let all = events::key_pressed(h, code, flags, Some(seq![c] + rest));
            let skipped = c <= '\u{1f}' || '\u{7f}' <= c <= '\u{9f}' || '\u{F700}' <= c
                <= '\u{F8FF}';
            let number = c as int - '1' as int;
            let jumps = !skipped && h.query.len() == 0 && 0 <= number < 9 && number
                < h.filtered.len();
            &&& none == (h, EffectModel::Nothing)
            &&& skipped ==> all == events::key_pressed(h, code, flags, Some(rest))
            &&& jumps ==> all == events::committed(HubModel { selected: number, ..h })
            &&& !skipped && !jumps ==> ({
                let behind = events::key_pressed(with_typed(h, c), code, flags, Some(rest));
                all == (
                    behind.0,
                    if behind.1 is Nothing && behind.0 == with_typed(h, c) {
                        EffectModel::Draw
                    } else {
                        behind.1
                    },
                )
            })
        }),
{
    let all = seq![c] + rest;
    assert(all[0] == c);
    lemma_typed_rest(h, c, rest, 0, EffectModel::Nothing);
    lemma_typed_rest(with_typed(h, c), c, rest, 0, EffectModel::Draw);
    assert(with_typed(h, c) == h.searching(h.query.push(c)));
    lemma_typed_effect(with_typed(h, c), rest, 0);
}

proof fn lemma_typed_rest(h: HubModel, c: char, rest: Seq<char>, i: int, so_far: EffectModel)
    requires
        0 <= i <= rest.len(),
    ensures
        events::typed(h, seq![c] + rest, i + 1, so_far) == events::typed(h, rest, i, so_far),
    decreases rest.len() - i,
{
    let all = seq![c] + rest;
    if i < rest.len() {
        assert(all[i + 1] == rest[i]);
        if events::untyped(rest[i]) {
            lemma_typed_rest(h, c, rest, i + 1, so_far);
        } else if events::jump_to(h, rest[i]) is None {
            lemma_typed_rest(
                h.searching(h.query.push(rest[i])),
                c,
                rest,
                i + 1,
                EffectModel::Draw,
            );
        }
    }
}

/// What was left to do before counts only where nothing more was typed.
proof fn lemma_typed_effect(h: HubModel, chars: Seq<char>, i: int)
    requires
        0 <= i <= chars.len(),
        h.query.len() > 0,
    ensures
        events::typed(h, chars, i, EffectModel::Draw).0 == events::typed(
            h,
            chars,
            i,
            EffectModel::Nothing,
        ).0,
        events::typed(h, chars, i, EffectModel::Draw).1 == EffectModel::Draw,
        events::typed(h, chars, i, EffectModel::Nothing).1 is Nothing || events::typed(
            h,
            chars,
            i,
            EffectModel::Nothing,
        ).1 == EffectModel::Draw,
        events::typed(h, chars, i, EffectModel::Nothing).1 is Nothing ==> events::typed(
            h,
            chars,
            i,
            EffectModel::Nothing,
        ).0 == h,
    decreases chars.len() - i,
{
    if i < chars.len() {
        if events::untyped(chars[i]) {
            lemma_typed_effect(h, chars, i + 1);
        } else {
            let next = h.searching(h.query.push(chars[i]));
            assert(next.query.len() > 0);
            lemma_typed_effect(next, chars, i + 1);
        }
    }
}

// ---- Modifiers and shortcuts ------------------------------------------------

/// When the modifiers change, an open switcher whose own modifier is no longer
/// held commits; nothing else happens.
pub proof fn law_modifiers_change(h: HubModel, flags: u64)
    ensures
        (h.visible && (h.mode matches Mode::Switch(bits) && !held(flags, bits)))
            ==> events::flags_changed(h, flags) == events::committed(h),
        !h.visible || h.mode is Browse || (h.mode matches Mode::Switch(bits) && held(flags, bits))
            ==> events::flags_changed(h, flags) == (h, EffectModel::Nothing),
{
}

/// A hub that has just appeared commits at once where it is a switcher whose
/// modifier is up, and else looks for thumbnails and answers.
pub proof fn law_appearing(h: HubModel, mode: Mode, flags: u64)
    ensures
        (mode matches Mode::Switch(bits) && !held(flags, bits)) ==> events::appeared(
            h,
            mode,
            flags,
        ) == events::committed(h),
        mode is Browse || (mode matches Mode::Switch(bits) && held(flags, bits))
            ==> events::appeared(h, mode, flags) == (h, EffectModel::Refresh),
{
}

/// ⌥Tab opens the Chrome switcher, or goes one card on (with ⇧ back) in an open
/// hub; ⌥` opens Chrome's windows to browse, or closes an open hub. There is no
/// other hotkey.
pub proof fn law_hotkeys(h: HubModel, id: u32, shift: bool)
    requires
        h.wf(),
    ensures
        h.visible ==> goes(
            h,
            if shift {
                -1
            } else {
                1
            },
            events::hotkey_pressed(h, 1, shift).0,
            events::hotkey_pressed(h, 1, shift).1,
        ),
        !h.visible ==> events::hotkey_pressed(h, 1, shift) == (
            h,
            EffectModel::Show { mode: Mode::Switch(0x8_0000), start: Start::Chrome },
        ),
        h.visible ==> events::hotkey_pressed(h, 2, shift) == (h.closed_up(), EffectModel::Hide),
        !h.visible ==> events::hotkey_pressed(h, 2, shift) == (
            h,
            EffectModel::Show { mode: Mode::Browse, start: Start::Chrome },
        ),
        id != 1 && id != 2 ==> events::hotkey_pressed(h, id, shift) == (h, EffectModel::Nothing),
{
    law_moving(h, 1);
    law_moving(h, -1);
}

/// ⌘Tab opens the app switcher; in an open hub it goes one card on (with ⇧ back)
/// and makes it a ⌘ switcher.
pub proof fn law_command_tab(h: HubModel, shift: bool)
    requires
        h.wf(),
    ensures
        !h.visible ==> events::tapped(h, tap::Key::Tab, shift) == (
            h,
            EffectModel::Show { mode: Mode::Switch(0x10_0000), start: Start::Apps },
        ),
        h.visible ==> goes(
            HubModel { mode: Mode::Switch(0x10_0000), ..h },
            if shift {
                -1
            } else {
                1
            },
            events::tapped(h, tap::Key::Tab, shift).0,
            events::tapped(h, tap::Key::Tab, shift).1,
        ),
{
    let m = HubModel { mode: Mode::Switch(0x10_0000), ..h };
    assert(m.wf());
    law_moving(m, 1);
    law_moving(m, -1);
}

/// Letting ⌘ go commits an open ⌘ switcher, and does nothing else.
pub proof fn law_command_up(h: HubModel)
    ensures
        h.visible && h.mode == Mode::Switch(0x10_0000) ==> events::command_released(h)
            == events::committed(h),
        !h.visible || h.mode != Mode::Switch(0x10_0000) ==> events::command_released(h) == (
            h,
            EffectModel::Nothing,
        ),
{
}

/// Toggling closes an open hub, and asks for a closed one to be shown as given.
pub proof fn law_toggling(h: HubModel, mode: Mode, start: Start)
    ensures
        h.visible ==> events::toggled(h, mode, start) == (h.closed_up(), EffectModel::Hide),
        !h.visible ==> events::toggled(h, mode, start) == (h, EffectModel::Show { mode, start }),
{
}

} // verus!
