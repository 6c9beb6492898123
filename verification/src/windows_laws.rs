//! What holds of the lists of apps and windows, whatever the system reports.
use vstd::prelude::*;

use crate::focus;
use crate::sequences;
use crate::text;
use crate::windows::{AppModel, OrderKey, Ranking, WindowModel};
use crate::windows;

verus! {

// ---- The order of apps ------------------------------------------------------

/// Of two keys one comes first, or both are the same key.
pub proof fn lemma_key_total(a: OrderKey, b: OrderKey)
    ensures
        a.le(b) || b.le(a),
        a.le(b) && b.le(a) ==> a == b,
{
    text::lemma_text_le_total(a.name, b.name);
}

/// The order of keys is transitive.
pub proof fn lemma_key_transitive(a: OrderKey, b: OrderKey, c: OrderKey)
    requires
        a.le(b),
        b.le(c),
    ensures
        a.le(c),
{
    if text::text_le(a.name, b.name) && text::text_le(b.name, c.name) {
        text::lemma_text_le_transitive(a.name, b.name, c.name);
    }
}

/// `apps` are in order.
pub open spec fn sorted(rank: Ranking, apps: Seq<AppModel>) -> bool {
    forall|i: int, j: int|
        0 <= i < j < apps.len() ==> rank.key(#[trigger] apps[i]).le(rank.key(#[trigger] apps[j]))
}

proof fn lemma_inserted(rank: Ranking, a: AppModel, apps: Seq<AppModel>)
    ensures
        rank.inserted(a, apps).to_multiset() == apps.to_multiset().insert(a),
        sorted(rank, apps) ==> sorted(rank, rank.inserted(a, apps)),
        forall|x: AppModel| #[trigger]
            rank.inserted(a, apps).contains(x) <==> x == a || apps.contains(x),
    decreases apps.len(),
{
    broadcast use vstd::seq_lib::group_to_multiset_ensures;

    let r = rank.inserted(a, apps);
    if apps.len() == 0 {
        assert(r =~= Seq::empty().push(a));
        assert(apps =~= Seq::empty());
        assert(r.to_multiset() =~= apps.to_multiset().insert(a));
        assert(r[0] == a);
    } else if rank.key(a).le(rank.key(apps[0])) {
        assert(r =~= apps.insert(0, a));
        assert(r.to_multiset() =~= apps.to_multiset().insert(a));
        if sorted(rank, apps) {
            assert forall|i: int, j: int| 0 <= i < j < r.len() implies rank.key(
                #[trigger] r[i],
            ).le(rank.key(#[trigger] r[j])) by {
                assert(r[j] == apps[j - 1]);
                if i == 0 {
                    if j > 1 {
                        assert(rank.key(apps[0]).le(rank.key(apps[j - 1])));
                        lemma_key_transitive(
                            rank.key(a),
                            rank.key(apps[0]),
                            rank.key(apps[j - 1]),
                        );
                    }
                } else {
                    assert(r[i] == apps[i - 1]);
                }
            }
        }
        assert forall|x: AppModel| #[trigger] r.contains(x) <==> x == a || apps.contains(x) by {
            if apps.contains(x) {
                let k = choose|k: int| 0 <= k < apps.len() && apps[k] == x;
                assert(r[k + 1] == x);
            }
            if x == a {
                assert(r[0] == x);
            }
            if r.contains(x) && x != a {
                let k = choose|k: int| 0 <= k < r.len() && r[k] == x;
                assert(apps[k - 1] == x);
            }
        }
    } else {
        let rest = apps.drop_first();
        let s = rank.inserted(a, rest);
        lemma_inserted(rank, a, rest);
        assert(r =~= s.insert(0, apps[0]));
        assert(apps =~= rest.insert(0, apps[0]));
        assert(r.to_multiset() =~= apps.to_multiset().insert(a));
        assert forall|x: AppModel| #[trigger] r.contains(x) <==> x == a || apps.contains(x) by {
            if s.contains(x) {
                let k = choose|k: int| 0 <= k < s.len() && s[k] == x;
                assert(r[k + 1] == x);
            }
            if rest.contains(x) {
                let k = choose|k: int| 0 <= k < rest.len() && rest[k] == x;
                assert(apps[k + 1] == x);
            }
            if x == apps[0] {
                assert(r[0] == x);
            }
            if r.contains(x) && x != apps[0] {
                let k = choose|k: int| 0 <= k < r.len() && r[k] == x;
                assert(s[k - 1] == x);
            }
            if apps.contains(x) && x != apps[0] {
                let k = choose|k: int| 0 <= k < apps.len() && apps[k] == x;
                assert(rest[k - 1] == x);
            }
        }
        if sorted(rank, apps) {
            assert forall|i: int, j: int| 0 <= i < j < rest.len() implies rank.key(
                #[trigger] rest[i],
            ).le(rank.key(#[trigger] rest[j])) by {
                assert(rest[i] == apps[i + 1] && rest[j] == apps[j + 1]);
            }
            assert forall|i: int, j: int| 0 <= i < j < r.len() implies rank.key(
                #[trigger] r[i],
            ).le(rank.key(#[trigger] r[j])) by {
                assert(r[j] == s[j - 1]);
                if i == 0 {
                    assert(s.contains(s[j - 1]));
                    if s[j - 1] == a {
                        lemma_key_total(rank.key(a), rank.key(apps[0]));
                    } else {
                        let k = choose|k: int| 0 <= k < rest.len() && rest[k] == s[j - 1];
                        assert(apps[k + 1] == s[j - 1]);
                        assert(rank.key(apps[0]).le(rank.key(apps[k + 1])));
                    }
                } else {
                    assert(r[i] == s[i - 1]);
                }
            }
        }
    }
}

/// Ordering the apps keeps every one of them, and adds none.
pub proof fn law_order_keeps_apps(rank: Ranking, apps: Seq<AppModel>)
    ensures
        rank.ordered(apps).to_multiset() == apps.to_multiset(),
        rank.ordered(apps).len() == apps.len(),
        forall|x: AppModel| #[trigger] rank.ordered(apps).contains(x) <==> apps.contains(x),
    decreases apps.len(),
{
    broadcast use vstd::seq_lib::group_to_multiset_ensures;

    if apps.len() == 0 {
        assert(rank.ordered(apps) =~= apps);
    } else {
        let rest = apps.drop_first();
        law_order_keeps_apps(rank, rest);
        lemma_inserted(rank, apps[0], rank.ordered(rest));
        assert(apps =~= rest.insert(0, apps[0]));
        assert(rank.ordered(apps).to_multiset() =~= apps.to_multiset());
        assert(rank.ordered(apps).to_multiset().len() == apps.to_multiset().len());
        assert forall|x: AppModel| #[trigger]
            rank.ordered(apps).contains(x) <==> apps.contains(x) by {
            if rest.contains(x) {
                let k = choose|k: int| 0 <= k < rest.len() && rest[k] == x;
                assert(apps[k + 1] == x);
            }
            if apps.contains(x) && x != apps[0] {
                let k = choose|k: int| 0 <= k < apps.len() && apps[k] == x;
                assert(rest[k - 1] == x);
            }
            assert(apps.contains(apps[0]));
        }
    }
}

/// The apps come out in order: no app stands before one whose key is smaller.
pub proof fn law_order_is_sorted(rank: Ranking, apps: Seq<AppModel>)
    ensures
        sorted(rank, rank.ordered(apps)),
    decreases apps.len(),
{
    if apps.len() > 0 {
        law_order_is_sorted(rank, apps.drop_first());
        lemma_inserted(rank, apps[0], rank.ordered(apps.drop_first()));
    }
}

proof fn lemma_filter_front(apps: Seq<AppModel>, p: spec_fn(AppModel) -> bool)
    requires
        apps.len() > 0,
    ensures
        apps.filter(p) == (if p(apps[0]) {
            seq![apps[0]]
        } else {
            Seq::empty()
        }) + apps.drop_first().filter(p),
{
    let head = seq![apps[0]];
    assert(apps =~= head + apps.drop_first());
    Seq::filter_distributes_over_add(head, apps.drop_first(), p);
    assert(head.drop_last() =~= Seq::empty());
    reveal_with_fuel(Seq::filter, 2);
    assert(head.filter(p) =~= if p(apps[0]) {
        head
    } else {
        Seq::empty()
    });
}

proof fn lemma_inserted_stable(rank: Ranking, a: AppModel, apps: Seq<AppModel>, k: OrderKey)
    ensures
        rank.inserted(a, apps).filter(|x: AppModel| rank.key(x) == k) == (if rank.key(a) == k {
            seq![a]
        } else {
            Seq::empty()
        }) + apps.filter(|x: AppModel| rank.key(x) == k),
    decreases apps.len(),
{
    let p = |x: AppModel| rank.key(x) == k;
    let r = rank.inserted(a, apps);
    lemma_filter_front(r, p);
    if apps.len() == 0 {
        assert(r.drop_first() =~= apps);
    } else if rank.key(a).le(rank.key(apps[0])) {
        assert(r.drop_first() =~= apps);
    } else {
        assert(r.drop_first() =~= rank.inserted(a, apps.drop_first()));
        lemma_inserted_stable(rank, a, apps.drop_first(), k);
        lemma_filter_front(apps, p);
        lemma_key_total(rank.key(a), rank.key(apps[0]));
        assert(r.filter(p) =~= (if p(a) {
            seq![a]
        } else {
            Seq::empty()
        }) + apps.filter(p));
    }
}

/// Apps with the same key keep their order among themselves.
pub proof fn law_order_is_stable(rank: Ranking, apps: Seq<AppModel>, k: OrderKey)
    ensures
        rank.ordered(apps).filter(|x: AppModel| rank.key(x) == k) == apps.filter(
            |x: AppModel| rank.key(x) == k,
        ),
    decreases apps.len(),
{
    let p = |x: AppModel| rank.key(x) == k;
    if apps.len() == 0 {
        assert(rank.ordered(apps) =~= apps);
    } else {
        law_order_is_stable(rank, apps.drop_first(), k);
        lemma_inserted_stable(rank, apps[0], rank.ordered(apps.drop_first()), k);
        lemma_filter_front(apps, p);
    }
}

/// Apps with a window on the current desktop come before all others.
pub proof fn law_current_desktop_first(rank: Ranking, apps: Seq<AppModel>, i: int, j: int)
    requires
        0 <= i < j < apps.len(),
        rank.ordered(apps)[j].on_current,
    ensures
        rank.ordered(apps)[i].on_current,
{
    law_order_keeps_apps(rank, apps);
    law_order_is_sorted(rank, apps);
    let r = rank.ordered(apps);
    assert(rank.key(r[i]).le(rank.key(r[j])));
}

/// A first position holds the pid, and no earlier one does; without one no
/// position does.
pub(crate) proof fn lemma_position(pids: Seq<i32>, pid: i32)
    ensures
        position_ok(pids, pid),
    decreases pids.len(),
{
    if pids.len() > 0 {
        lemma_position(pids.drop_last(), pid);
        let init = pids.drop_last();
        if let Some(p) = windows::position(init, pid) {
            assert(init[p] == pids[p]);
            assert forall|j: int| 0 <= j < p implies pids[j] != pid by {
                assert(init[j] != pid);
            }
        } else {
            assert forall|j: int| 0 <= j < pids.len() - 1 implies pids[j] != pid by {
                assert(init[j] != pid);
            }
        }
    }
}

/// `position` gives the first place of the pid, and none where it is absent.
pub open spec fn position_ok(pids: Seq<i32>, pid: i32) -> bool {
    match windows::position(pids, pid) {
        Some(p) => 0 <= p < pids.len() && pids[p] == pid && forall|j: int|
            0 <= j < p ==> pids[j] != pid,
        None => forall|j: int| 0 <= j < pids.len() ==> pids[j] != pid,
    }
}

/// Within its group (on the current desktop or not) nothing but the frontmost
/// app stands before the frontmost app.
pub proof fn law_frontmost_heads_its_group(rank: Ranking, apps: Seq<AppModel>, i: int, j: int)
    requires
        0 <= i < j < apps.len(),
        rank.front == Some(rank.ordered(apps)[j].pid),
        rank.ordered(apps)[i].on_current == rank.ordered(apps)[j].on_current,
    ensures
        rank.front == Some(rank.ordered(apps)[i].pid),
{
    law_order_keeps_apps(rank, apps);
    law_order_is_sorted(rank, apps);
    let r = rank.ordered(apps);
    lemma_position(rank.mru, r[i].pid);
    assert(rank.key(r[i]).le(rank.key(r[j])));
}

/// Within a group, of two apps that are not frontmost the one used more
/// recently stands first.
pub proof fn law_recent_first(rank: Ranking, apps: Seq<AppModel>, i: int, j: int)
    requires
        0 <= i < j < apps.len(),
        rank.mru.len() < usize::MAX,
        rank.ordered(apps)[i].on_current == rank.ordered(apps)[j].on_current,
        rank.front != Some(rank.ordered(apps)[i].pid),
        rank.front != Some(rank.ordered(apps)[j].pid),
        windows::position(rank.mru, rank.ordered(apps)[j].pid) is Some,
    ensures
        windows::position(rank.mru, rank.ordered(apps)[i].pid) matches Some(p) && p
            <= windows::position(rank.mru, rank.ordered(apps)[j].pid)->0,
{
    law_order_keeps_apps(rank, apps);
    law_order_is_sorted(rank, apps);
    let r = rank.ordered(apps);
    lemma_position(rank.mru, r[i].pid);
    lemma_position(rank.mru, r[j].pid);
    assert(rank.key(r[i]).le(rank.key(r[j])));
}

/// Ordering a list that is in order changes nothing.
pub proof fn law_order_is_idempotent(rank: Ranking, apps: Seq<AppModel>)
    ensures
        rank.ordered(rank.ordered(apps)) == rank.ordered(apps),
{
    law_order_is_sorted(rank, apps);
    lemma_sorted_is_fixed(rank, rank.ordered(apps));
}

proof fn lemma_sorted_is_fixed(rank: Ranking, apps: Seq<AppModel>)
    requires
        sorted(rank, apps),
    ensures
        rank.ordered(apps) == apps,
    decreases apps.len(),
{
    if apps.len() == 0 {
        assert(rank.ordered(apps) =~= apps);
    } else {
        let rest = apps.drop_first();
        assert forall|i: int, j: int| 0 <= i < j < rest.len() implies rank.key(
            #[trigger] rest[i],
        ).le(rank.key(#[trigger] rest[j])) by {
            assert(rest[i] == apps[i + 1] && rest[j] == apps[j + 1]);
        }
        lemma_sorted_is_fixed(rank, rest);
        if rest.len() > 0 {
            assert(rank.key(apps[0]).le(rank.key(apps[1])));
        }
        assert(rank.ordered(apps) =~= apps);
    }
}

// ---- The windows of each app ------------------------------------------------

/// Accessibility's view is applied to each app apart from the others: the
/// windows that an app keeps, and what is filled in of them, go by that app's
/// windows and by the answer for that app alone.
pub proof fn law_apps_are_independent(
    ws: Seq<WindowModel>,
    ax: Map<i32, Map<u32, focus::AxModel>>,
    other: Map<i32, Map<u32, focus::AxModel>>,
    apps: Seq<AppModel>,
    pid: i32,
)
    requires
        ax.contains_key(pid) == other.contains_key(pid),
        ax.contains_key(pid) ==> ax[pid] == other[pid],
    ensures
        windows::owned(windows::applied(ws, ax, apps), pid) == windows::applied(
            windows::owned(ws, pid),
            other,
            apps,
        ),
{
    let own = |w: WindowModel| w.pid == pid;
    let keep = |w: WindowModel| windows::kept(ax, w);
    let fill = |w: WindowModel| windows::refined(ax, apps, w);
    let keep2 = |w: WindowModel| windows::kept(other, w);
    let fill2 = |w: WindowModel| windows::refined(other, apps, w);
    sequences::lemma_filter_map(ws.filter(keep), fill, own);
    sequences::lemma_filter_commutes(ws, keep, own);
    let mine = ws.filter(own);
    assert forall|i: int| 0 <= i < mine.len() implies keep(#[trigger] mine[i]) == keep2(
        mine[i],
    ) by {
        ws.lemma_filter_pred(own, i);
    }
    sequences::lemma_filter_agrees(mine, keep, keep2);
    let both = mine.filter(keep2);
    assert forall|i: int| 0 <= i < both.len() implies fill(#[trigger] both[i]) == fill2(
        both[i],
    ) by {
        mine.lemma_filter_pred(keep2, i);
        assert(both.contains(both[i]));
        mine.lemma_filter_contains_rev(keep2, both[i]);
        let k = choose|k: int| 0 <= k < mine.len() && mine[k] == both[i];
        ws.lemma_filter_pred(own, k);
    }
    assert(both.map_values(fill) =~= both.map_values(fill2));
}

/// Applying Accessibility's view a second time changes nothing.
pub proof fn law_apply_is_idempotent(
    ws: Seq<WindowModel>,
    ax: Map<i32, Map<u32, focus::AxModel>>,
    apps: Seq<AppModel>,
)
    ensures
        windows::applied(windows::applied(ws, ax, apps), ax, apps) == windows::applied(
            ws,
            ax,
            apps,
        ),
{
    let keep = |w: WindowModel| windows::kept(ax, w);
    let fill = |w: WindowModel| windows::refined(ax, apps, w);
    let once = ws.filter(keep);
    let r = once.map_values(fill);
    assert forall|i: int| 0 <= i < r.len() implies keep(#[trigger] r[i]) && fill(r[i]) == r[i] by {
        ws.lemma_filter_pred(keep, i);
        assert(r[i] == fill(once[i]));
        assert(fill(fill(once[i])) =~= fill(once[i]));
    }
    sequences::lemma_filter_all(r, keep);
    assert(r.map_values(fill) =~= r);
}

/// Applying Accessibility's view invents no window: each that stays is one of
/// those given, with its id, its app and its place unchanged.
pub proof fn law_no_window_is_invented(
    ws: Seq<WindowModel>,
    ax: Map<i32, Map<u32, focus::AxModel>>,
    apps: Seq<AppModel>,
    i: int,
)
    requires
        0 <= i < windows::applied(ws, ax, apps).len(),
    ensures
        exists|k: int|
            0 <= k < ws.len() && windows::kept(ax, #[trigger] ws[k]) && windows::applied(
                ws,
                ax,
                apps,
            )[i] == windows::refined(ax, apps, ws[k]),
{
    let keep = |w: WindowModel| windows::kept(ax, w);
    let once = ws.filter(keep);
    ws.lemma_filter_pred(keep, i);
    assert(once.contains(once[i]));
    ws.lemma_filter_contains_rev(keep, once[i]);
    let k = choose|k: int| 0 <= k < ws.len() && ws[k] == once[i];
    assert(windows::kept(ax, ws[k]));
}

/// Of an app that Accessibility answered for, a window that it has never heard
/// of stays just where it is off screen, titled and on some desktop: on-screen
/// unknowns are helpers, untitled ones hidden helpers, and titled ones on no
/// desktop are closed windows that the app keeps alive.
pub proof fn law_unknown_windows(ax: Map<i32, Map<u32, focus::AxModel>>, w: WindowModel)
    requires
        ax.contains_key(w.pid),
        !ax[w.pid].contains_key(w.id),
    ensures
        windows::kept(ax, w) <==> !w.on_screen && w.title.len() > 0 && w.on_space,
{
}

/// Of an app that Accessibility has not answered for, only closed windows that
/// the app keeps alive are dropped: those off screen and on no desktop.
pub proof fn law_unanswered_apps_keep_their_windows(
    ax: Map<i32, Map<u32, focus::AxModel>>,
    w: WindowModel,
)
    requires
        !ax.contains_key(w.pid),
    ensures
        !windows::kept(ax, w) <==> !w.on_screen && !w.on_space,
{
}

/// Of an app with a standard window, only the standard ones of the windows
/// that Accessibility lists stay; of an app with none, all that it lists.
pub proof fn law_known_windows(ax: Map<i32, Map<u32, focus::AxModel>>, w: WindowModel)
    requires
        ax.contains_key(w.pid),
        ax[w.pid].contains_key(w.id),
    ensures
        windows::any_standard(ax[w.pid]) ==> (windows::kept(ax, w) <==> ax[w.pid][w.id].standard),
        !windows::any_standard(ax[w.pid]) ==> windows::kept(ax, w),
{
}

proof fn lemma_first_with(ws: Seq<WindowModel>, p: spec_fn(WindowModel) -> bool)
    ensures
        windows::first_with(ws, p) matches Some(w) ==> ws.contains(w) && p(w),
        windows::first_with(ws, p) is None ==> forall|i: int|
            0 <= i < ws.len() ==> !p(#[trigger] ws[i]),
    decreases ws.len(),
{
    if ws.len() > 0 {
        let init = ws.drop_last();
        lemma_first_with(init, p);
        if let Some(w) = windows::first_with(init, p) {
            let k = choose|k: int| 0 <= k < init.len() && init[k] == w;
            assert(ws[k] == w);
        } else {
            assert(ws.contains(ws[ws.len() - 1]));
            assert forall|i: int| 0 <= i < ws.len() && windows::first_with(
                ws,
                p,
            ) is None implies !p(#[trigger] ws[i]) by {
                if i < ws.len() - 1 {
                    assert(!p(init[i]));
                }
            }
        }
    }
}

/// The window that represents an app is one of the app's own, and an app with
/// windows has one.
pub proof fn law_representative_is_own(a: AppModel, ws: Seq<WindowModel>)
    ensures
        windows::assigned(a, ws).front matches Some(id) ==> windows::assigned(
            a,
            ws,
        ).windows.contains(id),
        windows::assigned(a, ws).front is None <==> windows::assigned(a, ws).windows.len() == 0,
{
    let mine = windows::owned(ws, a.pid);
    let ids = windows::ids_of(mine);
    lemma_first_with(mine, |w: WindowModel| windows::in_view(w));
    lemma_first_with(mine, |w: WindowModel| windows::open_titled(w));
    lemma_first_with(mine, |w: WindowModel| windows::titled(w));
    assert forall|w: WindowModel| mine.contains(w) implies ids.contains(w.id) by {
        let k = choose|k: int| 0 <= k < mine.len() && mine[k] == w;
        assert(ids[k] == w.id);
    }
    if mine.len() > 0 {
        assert(ids[0] == mine[0].id);
    }
}

/// The window that represents an app is on screen, un-minimized and titled
/// where the app has such a window.
pub proof fn law_representative_is_in_view(a: AppModel, ws: Seq<WindowModel>)
    requires
        windows::owned(ws, a.pid).any(|w: WindowModel| windows::in_view(w)),
    ensures
        exists|k: int|
            0 <= k < windows::owned(ws, a.pid).len() && windows::in_view(
                #[trigger] windows::owned(ws, a.pid)[k],
            ) && windows::assigned(a, ws).front == Some(windows::owned(ws, a.pid)[k].id),
{
    let mine = windows::owned(ws, a.pid);
    let p = |w: WindowModel| windows::in_view(w);
    lemma_first_with(mine, p);
    let w = windows::first_with(mine, p)->0;
    let k = choose|k: int| 0 <= k < mine.len() && mine[k] == w;
    assert(windows::in_view(mine[k]));
}

/// No more windows are un-minimized than there are, and an app with one on the
/// current desktop has at least one.
pub proof fn law_counts_agree(a: AppModel, ws: Seq<WindowModel>)
    ensures
        0 <= windows::assigned(a, ws).active <= windows::assigned(a, ws).windows.len(),
        windows::assigned(a, ws).active > 0 <==> windows::owned(ws, a.pid).any(
            |w: WindowModel| !w.minimized,
        ),
        windows::assigned(a, ws).on_current ==> windows::assigned(a, ws).active > 0,
{
    let mine = windows::owned(ws, a.pid);
    let open = |w: WindowModel| !w.minimized;
    let here = |w: WindowModel| !w.minimized && w.on_current_space;
    mine.lemma_filter_len(open);
    if mine.any(open) {
        let k = choose|k: int| 0 <= k < mine.len() && open(mine[k]);
        mine.lemma_filter_contains(open, k);
        assert(mine.filter(open).len() > 0);
    }
    if mine.filter(open).len() > 0 {
        mine.lemma_filter_pred(open, 0);
        let w = mine.filter(open)[0];
        assert(mine.filter(open).contains(w));
        mine.lemma_filter_contains_rev(open, w);
        let k = choose|k: int| 0 <= k < mine.len() && mine[k] == w;
        assert(open(mine[k]));
    }
    if mine.any(here) {
        let k = choose|k: int| 0 <= k < mine.len() && here(mine[k]);
        assert(open(mine[k]));
    }
}

/// Counting the windows and ordering the apps does not change which apps are
/// hidden.
pub proof fn law_hidden_is_kept(
    rank: Ranking,
    apps: Seq<AppModel>,
    ws: Seq<WindowModel>,
    pid: i32,
)
    ensures
        windows::app_hidden(rank.ordered(windows::all_assigned(apps, ws)), pid)
            == windows::app_hidden(apps, pid),
{
    let all = windows::all_assigned(apps, ws);
    let r = rank.ordered(all);
    law_order_keeps_apps(rank, all);
    if windows::app_hidden(r, pid) {
        let i = choose|i: int| 0 <= i < r.len() && (#[trigger] r[i]).pid == pid && r[i].hidden;
        assert(r.contains(r[i]));
        let k = choose|k: int| 0 <= k < all.len() && all[k] == r[i];
        assert(apps[k].pid == pid && apps[k].hidden);
    }
    if windows::app_hidden(apps, pid) {
        let k = choose|k: int|
            0 <= k < apps.len() && (#[trigger] apps[k]).pid == pid && apps[k].hidden;
        assert(all.contains(all[k]));
        assert(r.contains(all[k]));
        let i = choose|i: int| 0 <= i < r.len() && r[i] == all[k];
        assert(r[i].pid == pid && r[i].hidden);
    }
}

/// Which apps are hidden is all that applying Accessibility's view takes from
/// the list of apps.
pub proof fn law_apply_needs_only_hidden(
    ws: Seq<WindowModel>,
    ax: Map<i32, Map<u32, focus::AxModel>>,
    apps: Seq<AppModel>,
    other: Seq<AppModel>,
)
    requires
        forall|pid: i32| #[trigger]
            windows::app_hidden(apps, pid) == windows::app_hidden(other, pid),
    ensures
        windows::applied(ws, ax, apps) == windows::applied(ws, ax, other),
{
    let once = ws.filter(|w: WindowModel| windows::kept(ax, w));
    assert forall|i: int| 0 <= i < once.len() implies windows::refined(
        ax,
        apps,
        #[trigger] once[i],
    ) == windows::refined(ax, other, once[i]) by {
        assert(windows::app_hidden(apps, once[i].pid) == windows::app_hidden(
            other,
            once[i].pid,
        ));
    }
    assert(windows::applied(ws, ax, apps) =~= windows::applied(ws, ax, other));
}

/// Applying Accessibility's view to the window server's list, counting each
/// app's windows and ordering the apps leaves apps and windows that agree.
pub proof fn law_refresh_is_coherent(
    rank: Ranking,
    apps: Seq<AppModel>,
    raw: Seq<WindowModel>,
    ax: Map<i32, Map<u32, focus::AxModel>>,
)
    ensures
        ({
            let ws = windows::applied(raw, ax, apps);
            windows::coherent(
                rank.ordered(windows::all_assigned(apps, ws)),
                ws,
                raw,
                ax,
            )
        }),
{
    let ws = windows::applied(raw, ax, apps);
    let all = windows::all_assigned(apps, ws);
    let r = rank.ordered(all);
    assert forall|pid: i32| #[trigger]
        windows::app_hidden(r, pid) == windows::app_hidden(apps, pid) by {
        law_hidden_is_kept(rank, apps, ws, pid);
    }
    law_apply_needs_only_hidden(raw, ax, apps, r);
    law_order_keeps_apps(rank, all);
    assert forall|i: int| 0 <= i < r.len() implies #[trigger] r[i] == windows::assigned(
        r[i],
        ws,
    ) by {
        assert(r.contains(r[i]));
        let k = choose|k: int| 0 <= k < all.len() && all[k] == r[i];
        assert(all[k] == windows::assigned(apps[k], ws));
    }
}

/// Where it is unknown on which desktops a window is, it is taken to be on
/// one.
pub proof fn law_unknown_desktop_is_some_desktop(r: windows::CgWindow)
    requires
        r.all_spaces is None,
    ensures
        windows::window_at(r).on_space,
{
}

} // verus!
