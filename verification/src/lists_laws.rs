//! What holds of each window and each app in the lists, told from what the
//! system reports of it.
use vstd::prelude::*;

use crate::chrome;
use crate::focus;
use crate::sequences;
use crate::text;
use crate::windows::{AppModel, AxReply, CgWindow, Ranking, RunningApp, WindowModel};
use crate::windows;
use crate::windows_laws;

verus! {

// ---- Accessibility's answers ------------------------------------------------

/// Of the answers for an app the last one counts; an app that was never
/// answered for has none.
pub proof fn law_the_last_answer_counts(replies: Seq<AxReply>, r: AxReply, pid: i32)
    ensures
        windows::answers(Seq::empty()) == Map::<i32, Map<u32, focus::AxModel>>::empty(),
        ({
            let before = windows::answers(replies);
            let all = windows::answers(replies.push(r));
            &&& r.windows is None || r.pid != pid ==> (all.contains_key(pid)
                <==> before.contains_key(pid)) && (before.contains_key(pid) ==> all[pid]
                == before[pid])
            &&& r.windows is Some ==> all.contains_key(r.pid) && forall|id: u32| #[trigger]
                all[r.pid].contains_key(id) <==> exists|i: int|
                    0 <= i < r.windows->0.len() && (#[trigger] r.windows->0@[i]).id == id
        }),
{
    assert(replies.push(r).drop_last() =~= replies);
    if let Some(ws) = r.windows {
        let models = focus::ax_models(ws@);
        let all = windows::answers(replies.push(r));
        assert forall|id: u32| #[trigger] all[r.pid].contains_key(id) <==> exists|i: int|
            0 <= i < ws.len() && (#[trigger] ws@[i]).id == id by {
            lemma_by_id(models, id);
            if exists|i: int| 0 <= i < models.len() && (#[trigger] models[i]).id == id {
                let i = choose|i: int| 0 <= i < models.len() && (#[trigger] models[i]).id == id;
                assert(ws@[i].id == id);
            }
            if exists|i: int| 0 <= i < ws.len() && (#[trigger] ws@[i]).id == id {
                let i = choose|i: int| 0 <= i < ws.len() && (#[trigger] ws@[i]).id == id;
                assert(models[i].id == id);
            }
        }
    }
}

proof fn lemma_by_id(ws: Seq<focus::AxModel>, id: u32)
    ensures
        windows::by_id(ws).contains_key(id) <==> exists|i: int|
            0 <= i < ws.len() && (#[trigger] ws[i]).id == id,
        windows::by_id(ws).contains_key(id) ==> exists|i: int|
            0 <= i < ws.len() && (#[trigger] ws[i]).id == id && windows::by_id(ws)[id] == ws[i]
                && forall|j: int| i < j < ws.len() ==> (#[trigger] ws[j]).id != id,
    decreases ws.len(),
{
    if ws.len() > 0 {
        let init = ws.drop_last();
        let n = ws.len() - 1;
        lemma_by_id(init, id);
        if ws.last().id == id {
            assert(ws[n].id == id);
        } else {
            if exists|i: int| 0 <= i < ws.len() && (#[trigger] ws[i]).id == id {
                let i = choose|i: int| 0 <= i < ws.len() && (#[trigger] ws[i]).id == id;
                assert(init[i].id == id);
            }
            if windows::by_id(init).contains_key(id) {
                let i = choose|i: int|
                    0 <= i < init.len() && (#[trigger] init[i]).id == id && windows::by_id(
                        init,
                    )[id] == init[i] && forall|j: int|
                        i < j < init.len() ==> (#[trigger] init[j]).id != id;
                assert(ws[i].id == id);
                assert forall|j: int| i < j < ws.len() implies (#[trigger] ws[j]).id != id by {
                    if j < n {
                        assert(init[j].id != id);
                    }
                }
            }
        }
    }
}

/// What is kept of a window that an answer lists is what the answer says of it
/// last.
pub proof fn law_an_answer_says_it_last(replies: Seq<AxReply>, r: AxReply, id: u32)
    requires
        r.windows matches Some(ws) && exists|i: int|
            0 <= i < ws.len() && (#[trigger] ws@[i]).id == id,
    ensures
        exists|i: int|
            0 <= i < r.windows->0.len() && (#[trigger] r.windows->0@[i]).id == id
                && windows::answers(replies.push(r))[r.pid][id] == r.windows->0@[i]@ && forall|
                j: int,
            |
                i < j < r.windows->0.len() ==> (#[trigger] r.windows->0@[j]).id != id,
{
    assert(replies.push(r).drop_last() =~= replies);
    let ws = r.windows->0@;
    let models = focus::ax_models(ws);
    lemma_by_id(models, id);
    let k = choose|k: int| 0 <= k < ws.len() && (#[trigger] ws[k]).id == id;
    assert(models[k].id == id);
    let i = choose|i: int|
        0 <= i < models.len() && (#[trigger] models[i]).id == id && windows::by_id(models)[id]
            == models[i] && forall|j: int| i < j < models.len() ==> (#[trigger] models[j]).id != id;
    assert(ws[i].id == id);
    assert forall|j: int| i < j < ws.len() implies (#[trigger] ws[j]).id != id by {
        assert(models[j].id != id);
    }
}

/// Accessibility's records are taken one by one: a record without an id stands
/// for no window; another one for a window with its id, minimized only where it
/// says so, standard only where its subrole says so, and with its title.
pub proof fn law_records(records: Seq<focus::AxRecord>, r: focus::AxRecord)
    ensures
        focus::windows_of(Seq::empty()).len() == 0,
        r.id is None ==> focus::windows_of(records.push(r)) == focus::windows_of(records),
        r.id matches Some(id) ==> focus::windows_of(records.push(r)) == focus::windows_of(
            records,
        ).push(
            focus::AxModel {
                id,
                minimized: match r.minimized {
                    Some(m) => m,
                    None => false,
                },
                standard: match r.subrole {
                    Some(s) => s@ == "AXStandardWindow"@,
                    None => false,
                },
                title: match r.title {
                    Some(t) => t@,
                    None => Seq::empty(),
                },
            },
        ),
{
    let f = |r: focus::AxRecord| focus::window_of(r);
    let all = records.push(r);
    all.lemma_filter_map_take_succ(f, records.len() as int);
    assert(all.take(records.len() as int) =~= records);
    assert(all.take(all.len() as int) =~= all);
    assert(focus::windows_of(Seq::empty()) =~= Seq::empty()) by {
        reveal(Seq::filter_map);
    }
    assert(focus::windows_of(all) =~= focus::windows_of(records) + match focus::window_of(r) {
        Some(w) => seq![w],
        None => Seq::empty(),
    });
}

// ---- Which windows stay -----------------------------------------------------

/// Accessibility's view is applied to each window apart from the others, in
/// their order.
pub proof fn law_windows_are_judged_one_by_one(
    a: Seq<WindowModel>,
    b: Seq<WindowModel>,
    ax: Map<i32, Map<u32, focus::AxModel>>,
    apps: Seq<AppModel>,
)
    ensures
        windows::applied(a + b, ax, apps) == windows::applied(a, ax, apps) + windows::applied(
            b,
            ax,
            apps,
        ),
{
    let keep = |w: WindowModel| windows::kept(ax, w);
    Seq::filter_distributes_over_add(a, b, keep);
    assert(windows::applied(a + b, ax, apps) =~= windows::applied(a, ax, apps) + windows::applied(
        b,
        ax,
        apps,
    ));
}

proof fn lemma_one(
    w: WindowModel,
    ax: Map<i32, Map<u32, focus::AxModel>>,
    apps: Seq<AppModel>,
)
    ensures
        windows::applied(seq![w], ax, apps) == if windows::kept(ax, w) {
            seq![windows::refined(ax, apps, w)]
        } else {
            Seq::empty()
        },
{
    let keep = |w: WindowModel| windows::kept(ax, w);
    reveal_with_fuel(Seq::filter, 2);
    assert(seq![w].drop_last() =~= Seq::empty());
    assert(windows::applied(seq![w], ax, apps) =~= if windows::kept(ax, w) {
        seq![windows::refined(ax, apps, w)]
    } else {
        Seq::empty()
    });
}

/// A window of an app that Accessibility did not answer for stays unless it is
/// off screen and on no desktop.
pub proof fn law_unanswered_window(
    w: WindowModel,
    ax: Map<i32, Map<u32, focus::AxModel>>,
    apps: Seq<AppModel>,
)
    requires
        !ax.contains_key(w.pid),
    ensures
        windows::applied(seq![w], ax, apps).len() == 0 <==> !w.on_screen && !w.on_space,
{
    lemma_one(w, ax, apps);
}

/// A window that Accessibility has never heard of, in an app that it answered
/// for, stays just where it is off screen, titled and on some desktop.
pub proof fn law_unheard_of_window(
    w: WindowModel,
    ax: Map<i32, Map<u32, focus::AxModel>>,
    apps: Seq<AppModel>,
)
    requires
        ax.contains_key(w.pid),
        !ax[w.pid].contains_key(w.id),
    ensures
        windows::applied(seq![w], ax, apps).len() > 0 <==> !w.on_screen && w.title.len() > 0
            && w.on_space,
{
    lemma_one(w, ax, apps);
}

/// A window that Accessibility lists stays just where it is standard or none of
/// the app's is.
pub proof fn law_listed_window(
    w: WindowModel,
    ax: Map<i32, Map<u32, focus::AxModel>>,
    apps: Seq<AppModel>,
)
    requires
        ax.contains_key(w.pid),
        ax[w.pid].contains_key(w.id),
    ensures
        windows::applied(seq![w], ax, apps).len() > 0 <==> ax[w.pid][w.id].standard || forall|
            k: u32,
        | #[trigger]
            ax[w.pid].contains_key(k) ==> !ax[w.pid][k].standard,
{
    lemma_one(w, ax, apps);
}

/// Applying Accessibility's view to a window changes neither what it is nor
/// where it is, and never makes two of one.
pub proof fn law_a_window_stays_itself(
    w: WindowModel,
    ax: Map<i32, Map<u32, focus::AxModel>>,
    apps: Seq<AppModel>,
)
    ensures
        windows::applied(seq![w], ax, apps).len() <= 1,
        windows::applied(seq![w], ax, apps).len() == 1 ==> ({
            let r = windows::applied(seq![w], ax, apps)[0];
            &&& r.id == w.id && r.pid == w.pid && r.app == w.app && r.bounds == w.bounds
            &&& r.on_screen == w.on_screen && r.on_space == w.on_space && r.on_current_space
                == w.on_current_space
        }),
{
    lemma_one(w, ax, apps);
}

/// Accessibility's word on whether a window is minimized stands, wherever the
/// window is and whether or not its app is hidden. Of windows that it does not
/// list, those off screen on the current desktop are minimized, unless the app
/// is hidden.
pub proof fn law_minimized(
    ws: Seq<WindowModel>,
    ax: Map<i32, Map<u32, focus::AxModel>>,
    apps: Seq<AppModel>,
    i: int,
)
    requires
        0 <= i < windows::applied(ws, ax, apps).len(),
    ensures
        ({
            let w = windows::applied(ws, ax, apps)[i];
            if ax.contains_key(w.pid) && ax[w.pid].contains_key(w.id) {
                w.minimized == ax[w.pid][w.id].minimized
            } else {
                w.minimized <==> !w.on_screen && w.on_current_space && forall|k: int|
                    0 <= k < apps.len() && (#[trigger] apps[k]).pid == w.pid ==> !apps[k].hidden
            }
        }),
{
    windows_laws::law_no_window_is_invented(ws, ax, apps, i);
    let k = choose|k: int|
        0 <= k < ws.len() && windows::kept(ax, #[trigger] ws[k]) && windows::applied(
            ws,
            ax,
            apps,
        )[i] == windows::refined(ax, apps, ws[k]);
    let w = windows::refined(ax, apps, ws[k]);
    assert(w.pid == ws[k].pid && w.id == ws[k].id);
}

/// A hidden app whose window Accessibility lists as standard and not minimized
/// is open: it counts that window, so it has a card.
pub proof fn law_hidden_apps_stay_open(
    ws: Seq<WindowModel>,
    ax: Map<i32, Map<u32, focus::AxModel>>,
    apps: Seq<AppModel>,
    a: AppModel,
    k: int,
)
    requires
        0 <= k < ws.len(),
        ws[k].pid == a.pid,
        ax.contains_key(a.pid),
        ax[a.pid].contains_key(ws[k].id),
        ax[a.pid][ws[k].id].standard,
        !ax[a.pid][ws[k].id].minimized,
    ensures
        windows::assigned(a, windows::applied(ws, ax, apps)).active > 0,
        windows::assigned(a, windows::applied(ws, ax, apps)).windows.contains(ws[k].id),
{
    let (before, w, behind) = (ws.take(k), ws[k], ws.skip(k + 1));
    assert(ws =~= before + seq![w] + behind);
    law_windows_are_judged_one_by_one(before + seq![w], behind, ax, apps);
    law_windows_are_judged_one_by_one(before, seq![w], ax, apps);
    lemma_one(w, ax, apps);
    let all = windows::applied(ws, ax, apps);
    let n = windows::applied(before, ax, apps).len() as int;
    let r = windows::refined(ax, apps, w);
    assert(all[n] == r);
    let own = |x: WindowModel| x.pid == a.pid;
    let open = |x: WindowModel| !x.minimized;
    let mine = windows::owned(all, a.pid);
    all.lemma_filter_contains(own, n);
    let m = choose|m: int| 0 <= m < mine.len() && mine[m] == r;
    assert(windows::ids_of(mine)[m] == w.id);
    mine.lemma_filter_contains(open, m);
}

/// The window server's title and profile stand where it gave them; else they
/// are Accessibility's, taken apart for Chrome. Windows that Accessibility does
/// not list keep theirs.
pub proof fn law_titles(
    w: WindowModel,
    ax: Map<i32, Map<u32, focus::AxModel>>,
    apps: Seq<AppModel>,
)
    requires
        windows::applied(seq![w], ax, apps).len() == 1,
    ensures
        ({
            let r = windows::applied(seq![w], ax, apps)[0];
            let listed = ax.contains_key(w.pid) && ax[w.pid].contains_key(w.id);
            let told = ax[w.pid][w.id].title;
            &&& w.title.len() > 0 || !listed ==> r.title == w.title
            &&& w.profile is Some || !listed ==> r.profile == w.profile
            &&& listed && w.title.len() == 0 ==> r.title == if chrome::chrome_app(w.app) {
                chrome::title_parts(told, w.app).0
            } else {
                told
            }
            &&& listed && w.profile is None ==> r.profile == if chrome::chrome_app(w.app) {
                chrome::title_parts(told, w.app).1
            } else {
                None
            }
        }),
{
    lemma_one(w, ax, apps);
}

// ---- The windows of each app ------------------------------------------------

/// One more window at the back is added to the list of its app, and to no
/// other; it counts as open unless it is minimized, and as on the current
/// desktop where it is there un-minimized. Nothing else of an app changes.
pub proof fn law_one_more_window(a: AppModel, ws: Seq<WindowModel>, w: WindowModel)
    ensures
        ({
            let none = windows::assigned(a, Seq::empty());
            &&& none.windows.len() == 0 && none.active == 0 && !none.on_current && none.front
                is None
        }),
        ({
            let before = windows::assigned(a, ws);
            let after = windows::assigned(a, ws.push(w));
            &&& after.pid == a.pid && after.name == a.name && after.hidden == a.hidden
            &&& w.pid != a.pid ==> after == before
            &&& w.pid == a.pid ==> {
                &&& after.windows == before.windows.push(w.id)
                &&& after.active == before.active + if w.minimized {
                    0int
                } else {
                    1int
                }
                &&& after.on_current == (before.on_current || (!w.minimized
                    && w.on_current_space))
            }
        }),
{
    reveal(Seq::filter);
    let own = |x: WindowModel| x.pid == a.pid;
    let open = |x: WindowModel| !x.minimized;
    let here = |x: WindowModel| !x.minimized && x.on_current_space;
    let all = ws.push(w);
    assert(all.drop_last() =~= ws);
    let mine = ws.filter(own);
    assert(Seq::<WindowModel>::empty().filter(own) =~= Seq::empty());
    assert(Seq::<WindowModel>::empty().filter(open) =~= Seq::empty());
    if w.pid == a.pid {
        let more = mine.push(w);
        assert(all.filter(own) == more);
        assert(more.drop_last() =~= mine);
        assert(windows::ids_of(more) =~= windows::ids_of(mine).push(w.id));
        if mine.any(here) {
            let k = choose|k: int| 0 <= k < mine.len() && here(mine[k]);
            assert(here(more[k]));
        }
        if here(w) {
            assert(here(more[more.len() - 1]));
        }
        if more.any(here) && !here(w) {
            let k = choose|k: int| 0 <= k < more.len() && here(more[k]);
            assert(here(mine[k]));
        }
    }
}

/// `w` is the first of `ws` of this app with what `p` asks for.
pub open spec fn foremost_with(
    ws: Seq<WindowModel>,
    pid: i32,
    p: spec_fn(WindowModel) -> bool,
    id: u32,
) -> bool {
    exists|k: int|
        0 <= k < ws.len() && (#[trigger] ws[k]).pid == pid && p(ws[k]) && ws[k].id == id && forall|
            j: int,
        |
            0 <= j < k && (#[trigger] ws[j]).pid == pid ==> !p(ws[j])
}

/// No window of this app has what `p` asks for.
pub open spec fn none_with(
    ws: Seq<WindowModel>,
    pid: i32,
    p: spec_fn(WindowModel) -> bool,
) -> bool {
    forall|j: int| 0 <= j < ws.len() && (#[trigger] ws[j]).pid == pid ==> !p(ws[j])
}

proof fn lemma_first_of_app(ws: Seq<WindowModel>, pid: i32, p: spec_fn(WindowModel) -> bool)
    ensures
        windows::first_with(windows::owned(ws, pid), p) matches Some(w) ==> foremost_with(
            ws,
            pid,
            p,
            w.id,
        ),
        windows::first_with(windows::owned(ws, pid), p) is None ==> none_with(ws, pid, p),
    decreases ws.len(),
{
    reveal(Seq::filter);
    let own = |x: WindowModel| x.pid == pid;
    if ws.len() > 0 {
        let init = ws.drop_last();
        let n = ws.len() - 1;
        lemma_first_of_app(init, pid, p);
        let mine = init.filter(own);
        if own(ws.last()) {
            assert(ws.filter(own) == mine.push(ws.last()));
            assert(mine.push(ws.last()).drop_last() =~= mine);
        }
        if let Some(w) = windows::first_with(mine, p) {
            assert(windows::first_with(ws.filter(own), p) == Some(w));
            let k = choose|k: int|
                0 <= k < init.len() && (#[trigger] init[k]).pid == pid && p(init[k]) && init[k].id
                    == w.id && forall|j: int|
                    0 <= j < k && (#[trigger] init[j]).pid == pid ==> !p(init[j]);
            assert(ws[k] == init[k]);
            assert forall|j: int| 0 <= j < k && (#[trigger] ws[j]).pid == pid implies !p(
                ws[j],
            ) by {
                assert(init[j] == ws[j]);
            }
        } else {
            assert forall|j: int| 0 <= j < n && (#[trigger] ws[j]).pid == pid implies !p(
                ws[j],
            ) by {
                assert(init[j] == ws[j]);
            }
            if own(ws.last()) && p(ws.last()) {
                assert(ws[n].pid == pid && p(ws[n]));
            }
        }
    }
}

/// An app is represented by its foremost window that is on screen, un-minimized
/// and titled; where it has none, by the foremost un-minimized titled one; else
/// by the foremost titled one; else by the foremost of all.
pub proof fn law_who_represents_an_app(a: AppModel, ws: Seq<WindowModel>)
    ensures
        ({
            let seen = |w: WindowModel| w.on_screen && !w.minimized && w.title.len() > 0;
            let awake = |w: WindowModel| !w.minimized && w.title.len() > 0;
            let named = |w: WindowModel| w.title.len() > 0;
            let any = |w: WindowModel| true;
            match windows::assigned(a, ws).front {
                Some(id) => {
                    ||| foremost_with(ws, a.pid, seen, id)
                    ||| none_with(ws, a.pid, seen) && foremost_with(ws, a.pid, awake, id)
                    ||| none_with(ws, a.pid, awake) && foremost_with(ws, a.pid, named, id)
                    ||| none_with(ws, a.pid, named) && foremost_with(ws, a.pid, any, id)
                },
                None => none_with(ws, a.pid, any),
            }
        }),
{
    let seen = |w: WindowModel| w.on_screen && !w.minimized && w.title.len() > 0;
    let awake = |w: WindowModel| !w.minimized && w.title.len() > 0;
    let named = |w: WindowModel| w.title.len() > 0;
    let any = |w: WindowModel| true;
    lemma_first_of_app(ws, a.pid, |w: WindowModel| windows::in_view(w));
    lemma_first_of_app(ws, a.pid, |w: WindowModel| windows::open_titled(w));
    lemma_first_of_app(ws, a.pid, |w: WindowModel| windows::titled(w));
    lemma_first_of_app(ws, a.pid, any);
    assert((|w: WindowModel| windows::in_view(w)) =~= seen);
    assert((|w: WindowModel| windows::open_titled(w)) =~= awake);
    assert((|w: WindowModel| windows::titled(w)) =~= named);
    let mine = windows::owned(ws, a.pid);
    if mine.len() > 0 {
        lemma_first_is_first(mine, any);
    }
}

proof fn lemma_first_is_first(ws: Seq<WindowModel>, any: spec_fn(WindowModel) -> bool)
    requires
        ws.len() > 0,
        forall|w: WindowModel| #[trigger] any(w),
    ensures
        windows::first_with(ws, any) == Some(ws[0]),
    decreases ws.len(),
{
    assert(any(ws.last()));
    if ws.len() > 1 {
        lemma_first_is_first(ws.drop_last(), any);
    } else {
        reveal_with_fuel(windows::first_with, 2);
        assert(ws.drop_last().len() == 0);
    }
}

// ---- The order of apps ------------------------------------------------------

/// The app has a window on screen at `z`, and none further in front.
pub open spec fn on_screen_at(ws: Seq<WindowModel>, pid: i32, z: int) -> bool {
    0 <= z < ws.len() && ws[z].on_screen && ws[z].pid == pid && forall|j: int|
        0 <= j < z && (#[trigger] ws[j]).pid == pid ==> !ws[j].on_screen
}

/// The app has no window on screen.
pub open spec fn off_screen(ws: Seq<WindowModel>, pid: i32) -> bool {
    forall|j: int| 0 <= j < ws.len() && (#[trigger] ws[j]).pid == pid ==> !ws[j].on_screen
}

proof fn lemma_foremost(ws: Seq<WindowModel>, pid: i32)
    ensures
        match windows::foremost(ws, pid) {
            Some(z) => on_screen_at(ws, pid, z),
            None => off_screen(ws, pid),
        },
    decreases ws.len(),
{
    if ws.len() > 0 {
        let init = ws.drop_last();
        lemma_foremost(init, pid);
        assert forall|j: int| 0 <= j < init.len() implies init[j] == #[trigger] ws[j] by {
        }
    }
}

/// Two apps that were not used: neither is frontmost, nor in the history.
pub open spec fn both_unused(rank: Ranking, a: AppModel, b: AppModel) -> bool {
    &&& rank.front != Some(a.pid) && rank.front != Some(b.pid)
    &&& !rank.mru.contains(a.pid) && !rank.mru.contains(b.pid)
}

/// Of two apps on the same side that were not used, the one with a window
/// further in front stands first; one with a window on screen stands before one
/// without.
pub proof fn law_front_to_back(rank: Ranking, apps: Seq<AppModel>, i: int, j: int, zi: int, zj: int)
    requires
        0 <= i < apps.len(),
        0 <= j < apps.len(),
        rank.windows.len() < usize::MAX,
        ({
            let (a, b) = (rank.ordered(apps)[i], rank.ordered(apps)[j]);
            &&& a.on_current == b.on_current
            &&& both_unused(rank, a, b)
            &&& on_screen_at(rank.windows, a.pid, zi)
            &&& off_screen(rank.windows, b.pid) || (on_screen_at(rank.windows, b.pid, zj) && zi
                < zj)
        }),
    ensures
        i < j,
{
    windows_laws::law_order_keeps_apps(rank, apps);
    windows_laws::law_order_is_sorted(rank, apps);
    let r = rank.ordered(apps);
    windows_laws::lemma_position(rank.mru, r[i].pid);
    windows_laws::lemma_position(rank.mru, r[j].pid);
    lemma_foremost(rank.windows, r[i].pid);
    lemma_foremost(rank.windows, r[j].pid);
    lemma_same_place(rank.windows, r[i].pid, zi);
    if !off_screen(rank.windows, r[j].pid) {
        lemma_same_place(rank.windows, r[j].pid, zj);
    }
    if i >= j {
        if i == j {
            assert(rank.windows[zi].pid == r[j].pid);
        } else {
            assert(rank.key(r[j]).le(rank.key(r[i])));
        }
    }
}

proof fn lemma_same_place(ws: Seq<WindowModel>, pid: i32, z: int)
    requires
        on_screen_at(ws, pid, z),
    ensures
        windows::foremost(ws, pid) == Some(z),
{
    lemma_foremost(ws, pid);
    assert(ws[z].pid == pid);
    if let Some(y) = windows::foremost(ws, pid) {
        assert(ws[y].pid == pid);
    }
}

/// Of two apps on the same side that were not used and have no window on
/// screen, the one whose name comes first, whatever its case, stands first.
pub proof fn law_by_name(rank: Ranking, apps: Seq<AppModel>, i: int, j: int)
    requires
        0 <= i < j < apps.len(),
        ({
            let (a, b) = (rank.ordered(apps)[i], rank.ordered(apps)[j]);
            &&& a.on_current == b.on_current
            &&& both_unused(rank, a, b)
            &&& off_screen(rank.windows, a.pid) && off_screen(rank.windows, b.pid)
        }),
    ensures
        text::text_le(
            text::lowercase(rank.ordered(apps)[i].name),
            text::lowercase(rank.ordered(apps)[j].name),
        ),
{
    windows_laws::law_order_keeps_apps(rank, apps);
    windows_laws::law_order_is_sorted(rank, apps);
    let r = rank.ordered(apps);
    windows_laws::lemma_position(rank.mru, r[i].pid);
    windows_laws::lemma_position(rank.mru, r[j].pid);
    lemma_foremost(rank.windows, r[i].pid);
    lemma_foremost(rank.windows, r[j].pid);
    if let Some(z) = windows::foremost(rank.windows, r[i].pid) {
        assert(rank.windows[z].pid == r[i].pid);
    }
    if let Some(z) = windows::foremost(rank.windows, r[j].pid) {
        assert(rank.windows[z].pid == r[j].pid);
    }
    assert(rank.key(r[i]).le(rank.key(r[j])));
}

/// An app in the history stands before one on the same side that is not, and
/// the frontmost one before both.
pub proof fn law_used_before_unused(rank: Ranking, apps: Seq<AppModel>, i: int, j: int)
    requires
        0 <= i < apps.len(),
        0 <= j < apps.len(),
        rank.mru.len() < usize::MAX - 1,
        rank.ordered(apps)[i].on_current == rank.ordered(apps)[j].on_current,
        rank.ordered(apps)[i].pid != rank.ordered(apps)[j].pid,
        rank.front == Some(rank.ordered(apps)[i].pid) || (rank.front != Some(
            rank.ordered(apps)[j].pid,
        ) && rank.mru.contains(rank.ordered(apps)[i].pid) && !rank.mru.contains(
            rank.ordered(apps)[j].pid,
        )),
    ensures
        i < j,
{
    windows_laws::law_order_keeps_apps(rank, apps);
    windows_laws::law_order_is_sorted(rank, apps);
    let r = rank.ordered(apps);
    windows_laws::lemma_position(rank.mru, r[i].pid);
    windows_laws::lemma_position(rank.mru, r[j].pid);
    if rank.mru.contains(r[i].pid) {
        let k = choose|k: int| 0 <= k < rank.mru.len() && rank.mru[k] == r[i].pid;
        assert(rank.mru[k] == r[i].pid);
    }
    if let Some(p) = windows::position(rank.mru, r[j].pid) {
        assert(rank.mru[p] == r[j].pid);
    }
    if i > j {
        assert(rank.key(r[j]).le(rank.key(r[i])));
    }
}

// ---- The window server's list -----------------------------------------------

proof fn lemma_one_record(r: CgWindow, pids: Seq<i32>)
    ensures
        windows::listed_windows(seq![r], pids) == if windows::admitted(r, pids) {
            seq![windows::window_at(r)]
        } else {
            Seq::empty()
        },
{
    let keep = |r: CgWindow| windows::admitted(r, pids);
    let on = |w: WindowModel| w.on_screen;
    let off = |w: WindowModel| !w.on_screen;
    reveal_with_fuel(Seq::filter, 2);
    assert(seq![r].drop_last() =~= Seq::empty());
    let one = seq![r].filter(keep).map_values(|r: CgWindow| windows::window_at(r));
    if windows::admitted(r, pids) {
        assert(one =~= seq![windows::window_at(r)]);
        assert(one.drop_last() =~= Seq::empty());
    } else {
        assert(one =~= Seq::empty());
    }
    assert(windows::listed_windows(seq![r], pids) =~= if windows::admitted(r, pids) {
        seq![windows::window_at(r)]
    } else {
        Seq::empty()
    });
}

/// An entry of the window server's list is a window of the hub just where it
/// has an id and an owner among `pids`, is on the ordinary level, is not
/// transparent, and is at least 200 points wide and 120 high.
pub proof fn law_which_entries_count(r: CgWindow, pids: Seq<i32>)
    ensures
        windows::listed_windows(seq![r], pids).len() == if (match r.pid {
            Some(p) => pids.contains(p),
            None => false,
        }) && r.layer == Some(0i64) && (match r.alpha {
            Some(a) => a >= 1,
            None => true,
        }) && (match r.bounds {
            Some(b) => (match b.width {
                Some(w) => w >= 200 * 1000,
                None => false,
            }) && (match b.height {
                Some(h) => h >= 120 * 1000,
                None => false,
            }),
            None => false,
        }) && r.id is Some {
            1nat
        } else {
            0nat
        },
{
    lemma_one_record(r, pids);
}

/// What such a window is: the entry's id, owner and bounds; on screen only where
/// the entry says so; on the current desktop where it is on screen or on a
/// Space that is shown; and on some desktop unless it is known to be on none.
/// It is not minimized as far as the window server knows.
pub proof fn law_what_an_entry_is(r: CgWindow, pids: Seq<i32>)
    requires
        windows::listed_windows(seq![r], pids).len() == 1,
    ensures
        ({
            let w = windows::listed_windows(seq![r], pids)[0];
            let here = r.on_screen == Some(true) || (match r.current_spaces {
                Some(n) => n >= 1,
                None => false,
            });
            &&& Some(w.id) == r.id && Some(w.pid) == r.pid && !w.minimized
            &&& w.app == match r.owner {
                Some(s) => s@,
                None => Seq::empty(),
            }
            &&& w.on_screen <==> r.on_screen == Some(true)
            &&& w.on_current_space <==> here
            &&& !w.on_space <==> !here && r.all_spaces == Some(0usize)
            &&& (r.bounds->0.x matches Some(x) ==> w.bounds.0 == x)
            &&& (r.bounds->0.x is None ==> w.bounds.0 == 0)
            &&& (r.bounds->0.y matches Some(y) ==> w.bounds.1 == y)
            &&& (r.bounds->0.y is None ==> w.bounds.1 == 0)
            &&& Some(w.bounds.2) == r.bounds->0.width && Some(w.bounds.3) == r.bounds->0.height
        }),
{
    lemma_one_record(r, pids);
}

/// The title of an entry is its name; for Chrome the tab's title and the
/// profile are taken out of it.
pub proof fn law_an_entrys_title(r: CgWindow, pids: Seq<i32>)
    requires
        windows::listed_windows(seq![r], pids).len() == 1,
    ensures
        ({
            let w = windows::listed_windows(seq![r], pids)[0];
            let name = match r.name {
                Some(s) => s@,
                None => Seq::empty(),
            };
            (w.title, w.profile) == if chrome::chrome_app(w.app) {
                chrome::title_parts(name, w.app)
            } else {
                (name, None)
            }
        }),
{
    lemma_one_record(r, pids);
}

/// The windows on screen stand before the others.
pub proof fn law_on_screen_first(records: Seq<CgWindow>, pids: Seq<i32>, i: int, j: int)
    requires
        0 <= i < j < windows::listed_windows(records, pids).len(),
        windows::listed_windows(records, pids)[j].on_screen,
    ensures
        windows::listed_windows(records, pids)[i].on_screen,
{
    let on = |w: WindowModel| w.on_screen;
    let off = |w: WindowModel| !w.on_screen;
    let ws = records.filter(|r: CgWindow| windows::admitted(r, pids)).map_values(
        |r: CgWindow| windows::window_at(r),
    );
    let n = ws.filter(on).len() as int;
    if j >= n {
        ws.lemma_filter_pred(off, j - n);
    } else {
        ws.lemma_filter_pred(on, i);
    }
}

/// Of the windows on screen, and of the others, those of earlier entries stand
/// first, and each entry is judged apart.
pub proof fn law_entries_keep_their_order(a: Seq<CgWindow>, b: Seq<CgWindow>, pids: Seq<i32>)
    ensures
        windows::listed_windows(a + b, pids).filter(|w: WindowModel| w.on_screen)
            == windows::listed_windows(a, pids).filter(|w: WindowModel| w.on_screen)
            + windows::listed_windows(b, pids).filter(|w: WindowModel| w.on_screen),
        windows::listed_windows(a + b, pids).filter(|w: WindowModel| !w.on_screen)
            == windows::listed_windows(a, pids).filter(|w: WindowModel| !w.on_screen)
            + windows::listed_windows(b, pids).filter(|w: WindowModel| !w.on_screen),
{
    let keep = |r: CgWindow| windows::admitted(r, pids);
    let make = |r: CgWindow| windows::window_at(r);
    let (ra, rb) = (a.filter(keep).map_values(make), b.filter(keep).map_values(make));
    lemma_admitted_add(a, b, pids);
    lemma_screen_first(ra);
    lemma_screen_first(rb);
    lemma_screen_first(ra + rb);
    lemma_filters_add(ra, rb);
}

proof fn lemma_admitted_add(a: Seq<CgWindow>, b: Seq<CgWindow>, pids: Seq<i32>)
    ensures
        ({
            let keep = |r: CgWindow| windows::admitted(r, pids);
            let make = |r: CgWindow| windows::window_at(r);
            (a + b).filter(keep).map_values(make) == a.filter(keep).map_values(make) + b.filter(
                keep,
            ).map_values(make)
        }),
{
    let keep = |r: CgWindow| windows::admitted(r, pids);
    let make = |r: CgWindow| windows::window_at(r);
    Seq::filter_distributes_over_add(a, b, keep);
    let (x, y) = (a.filter(keep), b.filter(keep));
    assert((x + y).map_values(make) =~= x.map_values(make) + y.map_values(make));
}

proof fn lemma_filters_add(a: Seq<WindowModel>, b: Seq<WindowModel>)
    ensures
        (a + b).filter(|w: WindowModel| w.on_screen) == a.filter(|w: WindowModel| w.on_screen)
            + b.filter(|w: WindowModel| w.on_screen),
        (a + b).filter(|w: WindowModel| !w.on_screen) == a.filter(|w: WindowModel| !w.on_screen)
            + b.filter(|w: WindowModel| !w.on_screen),
{
    Seq::filter_distributes_over_add(a, b, |w: WindowModel| w.on_screen);
    Seq::filter_distributes_over_add(a, b, |w: WindowModel| !w.on_screen);
}

proof fn lemma_screen_first(ws: Seq<WindowModel>)
    ensures
        windows::screen_first(ws).filter(|w: WindowModel| w.on_screen) == ws.filter(
            |w: WindowModel| w.on_screen,
        ),
        windows::screen_first(ws).filter(|w: WindowModel| !w.on_screen) == ws.filter(
            |w: WindowModel| !w.on_screen,
        ),
{
    let on = |w: WindowModel| w.on_screen;
    let off = |w: WindowModel| !w.on_screen;
    let (x, y) = (ws.filter(on), ws.filter(off));
    Seq::filter_distributes_over_add(x, y, on);
    Seq::filter_distributes_over_add(x, y, off);
    assert forall|k: int| 0 <= k < x.len() implies on(#[trigger] x[k]) by {
        ws.lemma_filter_pred(on, k);
    }
    assert forall|k: int| 0 <= k < y.len() implies off(#[trigger] y[k]) by {
        ws.lemma_filter_pred(off, k);
    }
    sequences::lemma_filter_all(x, on);
    sequences::lemma_filter_all(y, off);
    lemma_filter_none(x, off);
    lemma_filter_none(y, on);
    assert(x + Seq::empty() =~= x);
    assert(Seq::<WindowModel>::empty() + y =~= y);
}

proof fn lemma_filter_none(ws: Seq<WindowModel>, p: spec_fn(WindowModel) -> bool)
    requires
        forall|k: int| 0 <= k < ws.len() ==> !p(#[trigger] ws[k]),
    ensures
        ws.filter(p) == Seq::<WindowModel>::empty(),
{
    if ws.filter(p).len() > 0 {
        ws.lemma_filter_pred(p, 0);
        let w = ws.filter(p)[0];
        assert(ws.filter(p).contains(w));
        ws.lemma_filter_contains_rev(p, w);
    }
    assert(ws.filter(p) =~= Seq::empty());
}

// ---- The apps that are running ----------------------------------------------

/// An app is in the switcher just where it is a regular one that still runs and
/// is not this one; its entry has its pid and name, says whether it is hidden,
/// and has no windows yet. The entries stand in the system's order.
pub proof fn law_running_apps(running: Seq<RunningApp>, a: RunningApp, me: i32)
    ensures
        windows::entries(Seq::empty(), me).len() == 0,
        ({
            let before = windows::entries(running, me);
            let all = windows::entries(running.push(a), me);
            if a.regular && !a.terminated && a.pid != me {
                &&& all.len() == before.len() + 1 && all.drop_last() == before
                &&& all.last().pid == a.pid && all.last().hidden == a.hidden
                &&& all.last().name == match a.name {
                    Some(s) => s@,
                    None => Seq::empty(),
                }
                &&& all.last().windows.len() == 0 && all.last().active == 0
                    && !all.last().on_current && all.last().front is None
            } else {
                all == before
            }
        }),
{
    reveal(Seq::filter);
    let keep = |a: RunningApp| windows::in_switcher(a, me);
    let make = |a: RunningApp| windows::entry_of(a);
    let all = running.push(a);
    assert(all.drop_last() =~= running);
    assert(Seq::<RunningApp>::empty().filter(keep) =~= Seq::empty());
    let before = windows::entries(running, me);
    if windows::in_switcher(a, me) {
        assert(windows::entries(all, me) =~= before.push(windows::entry_of(a)));
        assert(windows::entries(all, me).drop_last() =~= before);
    }
}

} // verus!
