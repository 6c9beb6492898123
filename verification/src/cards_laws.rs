//! What the cards and the header say, case by case.
use vstd::prelude::*;

use crate::cards::Color;
use crate::cards;
use crate::hub::HubModel;
use crate::hub;
use crate::text;
use crate::windows::{AppModel, WindowModel};
use crate::windows;

verus! {

/// The eight colours take turns, in this order.
pub proof fn law_colours_take_turns(hash: u64)
    ensures
        cards::palette(hash) == seq![
            Color::Blue,
            Color::Green,
            Color::Orange,
            Color::Pink,
            Color::Purple,
            Color::Teal,
            Color::Indigo,
            Color::Yellow,
        ][hash as int % 8],
{
}

/// A card at the Apps level stands for the app at its place, one at the Windows
/// level for the window at its place.
pub proof fn law_whose_card(h: HubModel, i: int)
    ensures
        h.level is Apps ==> cards::card_at(h, i) == cards::app_card(h.apps[i]),
        h.level is Windows ==> cards::card_at(h, i) == cards::window_card(h.scope[i]),
{
}

/// An app's card has the app's name and icon and the thumbnail of the window
/// that represents it, no dot, and the button where there are windows to show.
pub proof fn law_app_card(a: AppModel)
    ensures
        cards::app_card(a).title == a.name,
        cards::app_card(a).window_id == a.front,
        cards::app_card(a).icon == Some(a.pid),
        cards::app_card(a).dot is None,
        cards::app_card(a).expandable <==> a.windows.len() > 0,
{
}

/// An app whose windows are all open, on this desktop and not hidden, says how
/// many windows it has.
pub proof fn law_app_card_counts_windows(a: AppModel)
    requires
        a.active == a.windows.len(),
        a.on_current,
        !a.hidden,
    ensures
        a.windows.len() == 0 ==> cards::app_card(a).subtitle == "no windows"@,
        a.windows.len() == 1 ==> cards::app_card(a).subtitle == "1 window"@,
        a.windows.len() >= 2 ==> cards::app_card(a).subtitle == text::decimal_of(a.windows.len())
            + " windows"@,
{
}

/// Each thing more that is to be said of an app is added to the end: first how
/// many windows are minimized, then that it is on another desktop, then that it
/// is hidden.
pub proof fn law_app_card_adds_notes(a: AppModel)
    requires
        a.active <= a.windows.len(),
    ensures
        a.hidden ==> cards::app_card(a).subtitle == cards::app_card(
            AppModel { hidden: false, ..a },
        ).subtitle + "  ·  hidden"@,
        !a.hidden && !a.on_current ==> cards::app_card(a).subtitle == cards::app_card(
            AppModel { on_current: true, ..a },
        ).subtitle + "  ·  other desktop"@,
        !a.hidden && a.on_current && a.active < a.windows.len() ==> cards::app_card(a).subtitle
            == cards::app_card(AppModel { active: a.windows.len() as int, ..a }).subtitle + (
        "  ·  "@ + text::decimal_of((a.windows.len() - a.active) as nat) + " minimized"@),
{
}

/// A window's card has the window's thumbnail and title, or the app's name where
/// it has no title; no icon and no button.
pub proof fn law_window_card(w: WindowModel)
    ensures
        cards::window_card(w).window_id == Some(w.id),
        w.title.len() > 0 ==> cards::window_card(w).title == w.title,
        w.title.len() == 0 ==> cards::window_card(w).title == w.app,
        cards::window_card(w).icon is None,
        !cards::window_card(w).expandable,
{
}

/// A window's card names its profile, or its app where it has none, says where
/// the window is minimized, or else on another desktop, and has the dot of what
/// it names.
pub proof fn law_window_card_names_the_profile(w: WindowModel, name: Seq<char>)
    requires
        w.profile == Some(name) || (w.profile is None && w.app == name),
    ensures
        w.minimized ==> cards::window_card(w).subtitle == name + "  ·  minimized"@,
        !w.minimized && !w.on_screen ==> cards::window_card(w).subtitle == name
            + "  ·  other desktop"@,
        !w.minimized && w.on_screen ==> cards::window_card(w).subtitle == name,
        cards::window_card(w).dot == Some(cards::palette(cards::text_hash(name))),
{
}

/// Windows of one profile have the same dot, whatever else they are.
pub proof fn law_one_profile_one_dot(a: WindowModel, b: WindowModel)
    requires
        a.profile is Some,
        a.profile == b.profile,
    ensures
        cards::window_card(a).dot == cards::window_card(b).dot,
        cards::window_card(a).dot is Some,
{
}

/// At the Apps level the thumbnails are those of the windows that represent the
/// apps with a window that is not minimized, in the order of the apps.
pub proof fn law_thumbnails_of_apps(h: HubModel, a: AppModel)
    requires
        h.level is Apps,
    ensures
        cards::thumbnails(HubModel { apps: Seq::empty(), ..h }).len() == 0,
        cards::thumbnails(HubModel { apps: h.apps.push(a), ..h }) == match a.front {
            Some(id) if a.active > 0 => cards::thumbnails(h).push(id),
            _ => cards::thumbnails(h),
        },
{
    let open = |a: AppModel| hub::app_listed(a);
    let f = |a: AppModel| a.front;
    reveal(Seq::filter);
    assert(h.apps.push(a).drop_last() =~= h.apps);
    let before = h.apps.filter(open);
    assert(Seq::<AppModel>::empty().filter(open).filter_map(f) =~= Seq::empty());
    if a.active > 0 {
        let next = before.push(a);
        assert(next.take(before.len() as int) =~= before);
        assert(next.take(next.len() as int) =~= next);
        next.lemma_filter_map_take_succ(f, before.len() as int);
    }
}

/// At the Windows level every window has its thumbnail, in the order of the
/// windows.
pub proof fn law_thumbnails_of_windows(h: HubModel, k: int)
    requires
        h.level is Windows,
        0 <= k < h.scope.len(),
    ensures
        cards::thumbnails(h).len() == h.scope.len(),
        cards::thumbnails(h)[k] == h.scope[k].id,
{
}

/// Thumbnails of windows that are gone are dropped one by one, in whatever order
/// they are: the others keep theirs.
pub proof fn law_thumbnails_that_stay(ids: Seq<u32>, ws: Seq<WindowModel>, id: u32)
    ensures
        cards::surviving(Seq::empty(), ws).len() == 0,
        (exists|k: int| 0 <= k < ws.len() && (#[trigger] ws[k]).id == id) ==> cards::surviving(
            ids.push(id),
            ws,
        ) == cards::surviving(ids, ws).push(id),
        (forall|k: int| 0 <= k < ws.len() ==> (#[trigger] ws[k]).id != id) ==> cards::surviving(
            ids.push(id),
            ws,
        ) == cards::surviving(ids, ws),
{
    reveal(Seq::filter);
    assert(ids.push(id).drop_last() =~= ids);
    assert(Seq::<u32>::empty().filter(cards::id_among(ws)) =~= Seq::empty());
    let listed = windows::ids_of(ws);
    if exists|k: int| 0 <= k < ws.len() && (#[trigger] ws[k]).id == id {
        let k = choose|k: int| 0 <= k < ws.len() && (#[trigger] ws[k]).id == id;
        assert(listed[k] == id);
        assert(listed.contains(id));
    }
    if listed.contains(id) {
        let k = choose|k: int| 0 <= k < listed.len() && listed[k] == id;
        assert(ws[k].id == id);
    }
}

/// The nine first cards are numbered from 1 on; the others have no number.
pub proof fn law_badges(pos: nat)
    ensures
        cards::badge_of(pos) is Some <==> pos <= 8,
        pos <= 8 ==> cards::badge_of(pos) == Some(seq![(pos + '1' as int) as char]),
{
    if pos <= 8 {
        reveal_with_fuel(text::decimal_of, 2);
        assert(text::decimal_of(pos + 1) =~= seq![(pos + '1' as int) as char]);
    }
}

// ---- The header -------------------------------------------------------------

/// The header shows the search, or, dimmed, what can be searched.
pub proof fn law_header_label(h: HubModel)
    ensures
        ({
            let shown = cards::header_of(h);
            &&& h.query.len() > 0 ==> shown.label == h.query && !shown.dim
            &&& h.query.len() == 0 ==> shown.dim
            &&& h.query.len() == 0 && h.level is Apps ==> shown.label == "Search apps"@
            &&& h.query.len() == 0 && h.level is Windows ==> shown.label == "Search "@ + h.level->name
                + " windows"@
        }),
{
}

/// One more app counts where it has a window that is not minimized; every window
/// of the sub-dock counts.
pub proof fn law_what_is_counted(h: HubModel, a: AppModel)
    ensures
        ({
            let none = HubModel { apps: Seq::empty(), ..h };
            let more = HubModel { apps: h.apps.push(a), ..h };
            &&& h.level is Apps ==> none.total() == 0
            &&& h.level is Apps && a.active > 0 ==> more.total() == h.total() + 1
            &&& h.level is Apps && a.active <= 0 ==> more.total() == h.total()
            &&& h.level is Windows ==> h.total() == h.scope.len()
        }),
{
    reveal(Seq::filter);
    let open = |a: AppModel| hub::app_listed(a);
    assert(h.apps.push(a).drop_last() =~= h.apps);
    assert(Seq::<AppModel>::empty().filter(open) =~= Seq::empty());
}

/// The header counts the cards: all of them by name, in the plural but for one;
/// or how many there are of how many.
pub proof fn law_header_count(h: HubModel)
    ensures
        ({
            let (n, total, said) = (h.filtered.len(), h.total(), cards::header_of(h).count);
            &&& n != total ==> said == text::decimal_of(n) + " of "@ + text::decimal_of(total)
            &&& n == total && h.level is Apps && n == 1 ==> said == "1 app"@
            &&& n == total && h.level is Windows && n == 1 ==> said == "1 window"@
            &&& n == total && h.level is Apps && n != 1 ==> said == text::decimal_of(n) + " apps"@
            &&& n == total && h.level is Windows && n != 1 ==> said == text::decimal_of(n)
                + " windows"@
        }),
{
    reveal_strlit(" ");
    reveal_strlit("s");
    reveal_strlit("app");
    reveal_strlit("window");
    reveal_strlit(" apps");
    reveal_strlit(" windows");
    reveal_strlit("1 app");
    reveal_strlit("1 window");
    let (n, total, said) = (h.filtered.len(), h.total(), cards::header_of(h).count);
    if n == total {
        if n == 1 {
            reveal_with_fuel(text::decimal_of, 2);
            assert(text::decimal_of(1) =~= seq!['1']);
            if h.level is Apps {
                assert(said =~= "1 app"@);
            } else {
                assert(said =~= "1 window"@);
            }
        } else if h.level is Apps {
            assert(said =~= text::decimal_of(n) + " apps"@);
        } else {
            assert(said =~= text::decimal_of(n) + " windows"@);
        }
    }
}

/// Where there is no card the header says why: nothing is there at all, or
/// nothing is found.
pub proof fn law_header_empty(h: HubModel)
    ensures
        ({
            let said = cards::header_of(h).empty;
            &&& said is None <==> h.filtered.len() > 0
            &&& h.filtered.len() == 0 && h.total() == 0 && h.level is Apps ==> said == Some(
                "No apps are running"@,
            )
            &&& h.filtered.len() == 0 && h.total() == 0 && h.level is Windows ==> said == Some(
                "No "@ + h.level->name + " windows are open"@,
            )
            &&& h.filtered.len() == 0 && h.total() > 0 && h.level is Apps ==> said == Some(
                "No apps match"@,
            )
            &&& h.filtered.len() == 0 && h.total() > 0 && h.level is Windows ==> said == Some(
                "No windows match"@,
            )
        }),
{
    reveal_strlit("No ");
    reveal_strlit("app");
    reveal_strlit("window");
    reveal_strlit("s match");
    reveal_strlit("No apps match");
    reveal_strlit("No windows match");
    assert("No "@ + "app"@ + "s match"@ =~= "No apps match"@);
    assert("No "@ + "window"@ + "s match"@ =~= "No windows match"@);
}

/// The keys that the header explains: Esc closes at the top, ⌫ goes back where
/// there is a way back.
pub proof fn law_header_hint(h: HubModel)
    ensures
        ({
            let said = cards::header_of(h).hint;
            &&& h.level is Apps ==> said
                == "↑ ↓ ← →  navigate     ⏎  switch     `  windows     1–9  jump     type to filter     esc  close"@
            &&& h.level is Windows && h.root_is_apps ==> said
                == "↑ ↓ ← →  navigate     ⏎  open     `  next     1–9  jump     type to filter     ⌫  back"@
            &&& h.level is Windows && !h.root_is_apps ==> said
                == "↑ ↓ ← →  navigate     ⏎  open     1–9  jump     type to filter     esc  close"@
        }),
{
}

/// The header has the icon of the first app of the sub-dock where that app runs;
/// else, and at the Apps level, the magnifying glass.
pub proof fn law_header_icon(h: HubModel)
    ensures
        ({
            let (icon, pids) = (cards::header_of(h).icon, h.level->pids);
            let runs = exists|k: int| 0 <= k < h.apps.len() && (#[trigger] h.apps[k]).pid == pids[0];
            &&& h.level is Windows && pids.len() > 0 && runs ==> icon == Some(pids[0])
            &&& h.level is Apps || pids.len() == 0 || !runs ==> icon is None
        }),
{
    let pids = h.level->pids;
    let listed = windows::pids_of(h.apps);
    if exists|k: int| 0 <= k < h.apps.len() && (#[trigger] h.apps[k]).pid == pids[0] {
        let k = choose|k: int| 0 <= k < h.apps.len() && (#[trigger] h.apps[k]).pid == pids[0];
        assert(listed[k] == pids[0]);
    }
    if listed.contains(pids[0]) {
        let k = choose|k: int| 0 <= k < listed.len() && listed[k] == pids[0];
        assert(h.apps[k].pid == pids[0]);
    }
}

} // verus!
