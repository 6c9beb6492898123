//! What the lines about the apps say.
use vstd::prelude::*;

use crate::focus;
use crate::summary::Reason;
use crate::summary;
use crate::text;
use crate::windows::{AppModel, WindowModel};
use crate::windows;

verus! {

/// A coordinate is written in the nearest number of whole points (thousands of
/// thousandths), of two the even one, and with its sign.
pub proof fn law_points_are_the_nearest(thousandths: int, points: nat)
    requires
        ({
            let size = if thousandths < 0 {
                -thousandths
            } else {
                thousandths
            };
            ||| -500 < size - 1000 * points < 500
            ||| points % 2 == 0 && (size - 1000 * points == 500 || size - 1000 * points == -500)
        }),
    ensures
        thousandths >= 0 ==> summary::points_text(thousandths) == text::decimal_of(points),
        thousandths < 0 ==> summary::points_text(thousandths) == seq!['-'] + text::decimal_of(
            points,
        ),
{
    reveal_strlit("-");
    assert("-"@ =~= seq!['-']);
}

/// A window's bounds are written as its left and top edge, its width and its
/// height: `x,y widthxheight`.
pub proof fn law_bounds(x: i64, y: i64, w: i64, h: i64)
    ensures
        summary::bounds_text((x, y, w, h)) == summary::points_text(x as int) + seq![',']
            + summary::points_text(y as int) + seq![' '] + summary::points_text(w as int) + seq!['x']
            + summary::points_text(h as int),
{
    reveal_strlit(",");
    reveal_strlit(" ");
    reveal_strlit("x");
    assert(","@ =~= seq![',']);
    assert(" "@ =~= seq![' ']);
    assert("x"@ =~= seq!['x']);
}

/// Of a window that was dropped the line says in square brackets where it is,
/// and that it is on no desktop where it is on none.
pub proof fn law_dropped_window(w: WindowModel)
    ensures
        w.on_space ==> summary::dropped_text(w) == " ["@ + summary::bounds_text(w.bounds) + "]"@,
        !w.on_space ==> summary::dropped_text(w) == " ["@ + summary::bounds_text(w.bounds)
            + " no-space]"@,
{
    reveal_strlit("]");
    reveal_strlit(" no-space");
    reveal_strlit(" no-space]");
    assert(" no-space"@ + "]"@ =~= " no-space]"@);
    let head = " ["@ + summary::bounds_text(w.bounds);
    assert(head + Seq::<char>::empty() + "]"@ =~= head + "]"@);
    assert(head + " no-space"@ + "]"@ =~= head + " no-space]"@);
}

/// Of a window that stayed the line says in round brackets where it is, whether
/// it is on the screen, and whether it is on the current desktop and minimized.
pub proof fn law_kept_window(w: WindowModel)
    ensures
        ({
            let head = " ("@ + summary::bounds_text(w.bounds);
            let said = summary::kept_text(w);
            &&& w.on_screen && !w.on_current_space && !w.minimized ==> said == head + " on)"@
            &&& !w.on_screen && !w.on_current_space && !w.minimized ==> said == head + " off)"@
            &&& w.on_screen && w.on_current_space && !w.minimized ==> said == head + " on cur)"@
            &&& !w.on_screen && w.on_current_space && !w.minimized ==> said == head + " off cur)"@
            &&& w.on_screen && !w.on_current_space && w.minimized ==> said == head + " on min)"@
            &&& !w.on_screen && !w.on_current_space && w.minimized ==> said == head + " off min)"@
            &&& w.on_screen && w.on_current_space && w.minimized ==> said == head + " on cur min)"@
            &&& !w.on_screen && w.on_current_space && w.minimized ==> said == head
                + " off cur min)"@
        }),
{
    reveal_strlit(" on");
    reveal_strlit(" off");
    reveal_strlit(" cur");
    reveal_strlit(" min");
    reveal_strlit(")");
    reveal_strlit(" on)");
    reveal_strlit(" off)");
    reveal_strlit(" on cur)");
    reveal_strlit(" off cur)");
    reveal_strlit(" on min)");
    reveal_strlit(" off min)");
    reveal_strlit(" on cur min)");
    reveal_strlit(" off cur min)");
    let head = " ("@ + summary::bounds_text(w.bounds);
    let said = summary::kept_text(w);
    if w.on_screen {
        if w.on_current_space {
            if w.minimized {
                assert(said =~= head + " on cur min)"@);
            } else {
                assert(said =~= head + " on cur)"@);
            }
        } else if w.minimized {
            assert(said =~= head + " on min)"@);
        } else {
            assert(said =~= head + " on)"@);
        }
    } else if w.on_current_space {
        if w.minimized {
            assert(said =~= head + " off cur min)"@);
        } else {
            assert(said =~= head + " off cur)"@);
        }
    } else if w.minimized {
        assert(said =~= head + " off min)"@);
    } else {
        assert(said =~= head + " off)"@);
    }
}

/// One window more is told of behind the others.
pub proof fn law_one_after_the_other(ws: Seq<WindowModel>, w: WindowModel)
    ensures
        summary::kept_texts(Seq::empty()).len() == 0,
        summary::dropped_texts(Seq::empty()).len() == 0,
        summary::kept_texts(ws.push(w)) == summary::kept_texts(ws) + summary::kept_text(w),
        summary::dropped_texts(ws.push(w)) == summary::dropped_texts(ws) + summary::dropped_text(w),
{
    assert(ws.push(w).drop_last() =~= ws);
}

/// A window was dropped where it is one of the app's and none of those that
/// stayed has its id.
pub proof fn law_which_windows_were_dropped(
    raw: Seq<WindowModel>,
    kept: Seq<WindowModel>,
    pid: i32,
    w: WindowModel,
)
    ensures
        ({
            let before = summary::dropped(raw, kept, pid);
            let after = summary::dropped(raw.push(w), kept, pid);
            let stayed = exists|k: int| 0 <= k < kept.len() && (#[trigger] kept[k]).id == w.id;
            &&& w.pid == pid && !stayed ==> after == before.push(w)
            &&& w.pid != pid || stayed ==> after == before
        }),
{
    reveal(Seq::filter);
    assert(raw.push(w).drop_last() =~= raw);
    let ids = windows::ids_of(kept);
    if exists|k: int| 0 <= k < kept.len() && (#[trigger] kept[k]).id == w.id {
        let k = choose|k: int| 0 <= k < kept.len() && (#[trigger] kept[k]).id == w.id;
        assert(ids[k] == w.id);
    }
    if ids.contains(w.id) {
        let k = choose|k: int| 0 <= k < ids.len() && ids[k] == w.id;
        assert(kept[k].id == w.id);
    }
}

/// Why a window was dropped: Accessibility lists it, then only because it is not
/// a standard one; else by where it is and whether it has a title, an
/// off-screen one with a title being closed.
pub proof fn law_reasons(ax: Map<i32, Map<u32, focus::AxModel>>, pid: i32, w: WindowModel)
    ensures
        ({
            let listed = ax.contains_key(pid) && ax[pid].contains_key(w.id);
            let why = summary::reason(ax, pid, w);
            &&& listed <==> why is Nonstandard
            &&& !listed && w.on_screen && w.title.len() > 0 <==> why is OnScreenTitled
            &&& !listed && w.on_screen && w.title.len() == 0 <==> why is OnScreenUntitled
            &&& !listed && !w.on_screen && w.title.len() == 0 <==> why is OffScreenUntitled
            &&& !listed && !w.on_screen && w.title.len() > 0 <==> why is Closed
        }),
{
}

/// One dropped window more counts for its own reason and for no other.
pub proof fn law_drops_are_counted(
    ws: Seq<WindowModel>,
    ax: Map<i32, Map<u32, focus::AxModel>>,
    pid: i32,
    w: WindowModel,
    why: Reason,
)
    ensures
        summary::dropped_for(Seq::empty(), ax, pid, why) == 0,
        summary::reason(ax, pid, w) == why ==> summary::dropped_for(ws.push(w), ax, pid, why)
            == summary::dropped_for(ws, ax, pid, why) + 1,
        summary::reason(ax, pid, w) != why ==> summary::dropped_for(ws.push(w), ax, pid, why)
            == summary::dropped_for(ws, ax, pid, why),
{
    reveal(Seq::filter);
    assert(ws.push(w).drop_last() =~= ws);
}

/// A window that stayed counts as being elsewhere where Accessibility answered
/// for its app and does not list it.
pub proof fn law_windows_elsewhere(
    kept: Seq<WindowModel>,
    ax: Map<i32, Map<u32, focus::AxModel>>,
    pid: i32,
    w: WindowModel,
)
    ensures
        ({
            let before = summary::elsewhere(kept, ax, pid);
            let after = summary::elsewhere(kept.push(w), ax, pid);
            let unlisted = ax.contains_key(pid) && !ax[pid].contains_key(w.id);
            &&& summary::elsewhere(Seq::empty(), ax, pid) == 0
            &&& w.pid == pid && unlisted ==> after == before + 1
            &&& w.pid != pid || !unlisted ==> after == before
        }),
{
    reveal(Seq::filter);
    assert(kept.push(w).drop_last() =~= kept);
}

/// A line that begins with `start` and goes on with the counts: how many windows the window server lists and how many
/// Accessibility does (a dash where it did not answer), those that stayed with
/// where they are, how many of these are elsewhere, and those that were dropped,
/// by reason and with where they are.
pub open spec fn with_counts(
    start: Seq<char>,
    raw: Seq<WindowModel>,
    kept: Seq<WindowModel>,
    pid: i32,
    ax: Map<i32, Map<u32, focus::AxModel>>,
) -> Seq<char> {
    let mine = kept.filter(|w: WindowModel| w.pid == pid);
    let gone = summary::dropped(raw, kept, pid);
    start + ": cg="@ + text::decimal_of(raw.filter(|w: WindowModel| w.pid == pid).len()) + " ax="@ + (
    if ax.contains_key(pid) {
        text::decimal_of(ax[pid].dom().len())
    } else {
        "-"@
    }) + " shown="@ + text::decimal_of(mine.len()) + summary::kept_texts(mine) + " other-desktop="@
        + text::decimal_of(summary::elsewhere(kept, ax, pid)) + " dropped[ax-nonstandard="@
        + text::decimal_of(summary::dropped_for(gone, ax, pid, Reason::Nonstandard))
        + " onscreen-titled="@ + text::decimal_of(
        summary::dropped_for(gone, ax, pid, Reason::OnScreenTitled),
    ) + " onscreen-untitled="@ + text::decimal_of(
        summary::dropped_for(gone, ax, pid, Reason::OnScreenUntitled),
    ) + " offscreen-untitled="@ + text::decimal_of(
        summary::dropped_for(gone, ax, pid, Reason::OffScreenUntitled),
    ) + " closed="@ + text::decimal_of(summary::dropped_for(gone, ax, pid, Reason::Closed)) + "]"@
        + summary::dropped_texts(gone)
}

/// The line about an app: two blanks, the app's name, whether it is hidden and
/// whether it is on another desktop, and then the counts.
pub proof fn law_line(
    raw: Seq<WindowModel>,
    kept: Seq<WindowModel>,
    a: AppModel,
    ax: Map<i32, Map<u32, focus::AxModel>>,
)
    ensures
        ({
            let line = summary::app_line(raw, kept, a, ax);
            let name = seq![' ', ' '] + a.name;
            let start = if !a.hidden && a.on_current {
                name
            } else if a.hidden && a.on_current {
                name + " (hidden)"@
            } else if !a.hidden {
                name + " (elsewhere)"@
            } else {
                name + " (hidden) (elsewhere)"@
            };
            line == with_counts(start, raw, kept, a.pid, ax)
        }),
{
    reveal_strlit("  ");
    reveal_strlit(" (hidden)");
    reveal_strlit(" (elsewhere)");
    reveal_strlit(" (hidden) (elsewhere)");
    assert("  "@ =~= seq![' ', ' ']);
    let name = seq![' ', ' '] + a.name;
    let start = name + text::given(a.hidden, " (hidden)"@) + text::given(
        !a.on_current,
        " (elsewhere)"@,
    );
    if a.hidden && a.on_current {
        assert(start =~= name + " (hidden)"@);
    } else if !a.hidden && a.on_current {
        assert(start =~= name);
    } else if !a.hidden {
        assert(start =~= name + " (elsewhere)"@);
    } else {
        assert(start =~= name + " (hidden) (elsewhere)"@);
    }
}

/// There is a line for each app, in their order.
pub proof fn law_a_line_for_each_app(
    raw: Seq<WindowModel>,
    kept: Seq<WindowModel>,
    apps: Seq<AppModel>,
    ax: Map<i32, Map<u32, focus::AxModel>>,
    i: int,
)
    requires
        0 <= i < apps.len(),
    ensures
        summary::app_lines(raw, kept, apps, ax).len() == apps.len(),
        summary::app_lines(raw, kept, apps, ax)[i] == summary::app_line(raw, kept, apps[i], ax),
{
}

} // verus!
