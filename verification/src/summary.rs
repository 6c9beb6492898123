//! One line per app about which windows stayed and which were dropped. App
//! names and geometry only, never titles.
use vstd::prelude::*;

use crate::focus;
use crate::sequences;
use crate::text;
use crate::windows::{AppEntry, AppModel, AxCache, AxMap, WindowInfo, WindowModel};
use crate::windows;

verus! {

/// Thousandths of a point in whole points: the nearest, of two the even one.
pub open spec fn whole_points(thousandths: nat) -> nat {
    let q = thousandths / 1000;
    let r = thousandths % 1000;
    if r > 500 || (r == 500 && q % 2 == 1) {
        q + 1
    } else {
        q
    }
}

/// A coordinate in whole points, with the sign of what was rounded.
pub open spec fn points_text(thousandths: int) -> Seq<char> {
    if thousandths < 0 {
        "-"@ + text::decimal_of(whole_points((-thousandths) as nat))
    } else {
        text::decimal_of(whole_points(thousandths as nat))
    }
}

/// A window's bounds: `x,y widthxheight`.
pub open spec fn bounds_text(b: (i64, i64, i64, i64)) -> Seq<char> {
    points_text(b.0 as int) + ","@ + points_text(b.1 as int) + " "@ + points_text(b.2 as int) + "x"@
        + points_text(b.3 as int)
}

/// What the line says of a window that was dropped.
pub open spec fn dropped_text(w: WindowModel) -> Seq<char> {
    " ["@ + bounds_text(w.bounds) + text::given(!w.on_space, " no-space"@) + "]"@
}

/// What the line says of a window that stayed.
pub open spec fn kept_text(w: WindowModel) -> Seq<char> {
    " ("@ + bounds_text(w.bounds) + (if w.on_screen {
        " on"@
    } else {
        " off"@
    }) + text::given(w.on_current_space, " cur"@) + text::given(w.minimized, " min"@) + ")"@
}

/// What the line says of each of the windows that were dropped.
pub open spec fn dropped_texts(ws: Seq<WindowModel>) -> Seq<char>
    decreases ws.len(),
{
    if ws.len() == 0 {
        Seq::empty()
    } else {
        dropped_texts(ws.drop_last()) + dropped_text(ws.last())
    }
}

/// What the line says of each of the windows that stayed.
pub open spec fn kept_texts(ws: Seq<WindowModel>) -> Seq<char>
    decreases ws.len(),
{
    if ws.len() == 0 {
        Seq::empty()
    } else {
        kept_texts(ws.drop_last()) + kept_text(ws.last())
    }
}

/// Why a window was dropped.
#[derive(Clone, Copy, Debug, PartialEq, Eq, Structural)]
pub enum Reason {
    /// Accessibility lists it, but not as a standard window.
    Nonstandard,
    OnScreenTitled,
    OnScreenUntitled,
    OffScreenUntitled,
    Closed,
}

/// Accessibility answered for the window's app and lists the window.
pub open spec fn known(ax: Map<i32, Map<u32, focus::AxModel>>, pid: i32, id: u32) -> bool {
    ax.contains_key(pid) && ax[pid].contains_key(id)
}

/// Why a window of `pid` was dropped.
pub open spec fn reason(
    ax: Map<i32, Map<u32, focus::AxModel>>,
    pid: i32,
    w: WindowModel,
) -> Reason {
    if known(ax, pid, w.id) {
        Reason::Nonstandard
    } else if w.on_screen {
        if w.title.len() > 0 {
            Reason::OnScreenTitled
        } else {
            Reason::OnScreenUntitled
        }
    } else if w.title.len() == 0 {
        Reason::OffScreenUntitled
    } else {
        Reason::Closed
    }
}

/// A window of `pid` that did not stay.
pub open spec fn is_dropped(kept: Seq<WindowModel>, pid: i32, w: WindowModel) -> bool {
    w.pid == pid && !windows::ids_of(kept).contains(w.id)
}

/// The windows of `pid` that did not stay.
pub open spec fn dropped(
    raw: Seq<WindowModel>,
    kept: Seq<WindowModel>,
    pid: i32,
) -> Seq<WindowModel> {
    raw.filter(|w: WindowModel| is_dropped(kept, pid, w))
}

/// How many of `ws` were dropped for this reason.
pub open spec fn dropped_for(
    ws: Seq<WindowModel>,
    ax: Map<i32, Map<u32, focus::AxModel>>,
    pid: i32,
    r: Reason,
) -> nat {
    ws.filter(|w: WindowModel| reason(ax, pid, w) == r).len()
}

/// How many windows of `pid` stayed that Accessibility does not list.
pub open spec fn elsewhere(
    kept: Seq<WindowModel>,
    ax: Map<i32, Map<u32, focus::AxModel>>,
    pid: i32,
) -> nat {
    kept.filter(
        |w: WindowModel| w.pid == pid && ax.contains_key(pid) && !ax[pid].contains_key(w.id),
    ).len()
}

/// How many windows Accessibility lists for `pid`; a dash where it did not
/// answer.
pub open spec fn listed_text(ax: Map<i32, Map<u32, focus::AxModel>>, pid: i32) -> Seq<char> {
    if ax.contains_key(pid) {
        text::decimal_of(ax[pid].dom().len())
    } else {
        "-"@
    }
}

/// The line about one app.
pub open spec fn app_line(
    raw: Seq<WindowModel>,
    kept: Seq<WindowModel>,
    a: AppModel,
    ax: Map<i32, Map<u32, focus::AxModel>>,
) -> Seq<char> {
    let mine = windows::owned(kept, a.pid);
    let gone = dropped(raw, kept, a.pid);
    "  "@ + a.name + text::given(a.hidden, " (hidden)"@) + text::given(!a.on_current, " (elsewhere)"@) + ": cg="@
        + text::decimal_of(windows::owned(raw, a.pid).len()) + " ax="@ + listed_text(ax, a.pid)
        + " shown="@ + text::decimal_of(mine.len()) + kept_texts(mine) + " other-desktop="@
        + text::decimal_of(elsewhere(kept, ax, a.pid)) + " dropped[ax-nonstandard="@
        + text::decimal_of(dropped_for(gone, ax, a.pid, Reason::Nonstandard))
        + " onscreen-titled="@ + text::decimal_of(
        dropped_for(gone, ax, a.pid, Reason::OnScreenTitled),
    ) + " onscreen-untitled="@ + text::decimal_of(
        dropped_for(gone, ax, a.pid, Reason::OnScreenUntitled),
    ) + " offscreen-untitled="@ + text::decimal_of(
        dropped_for(gone, ax, a.pid, Reason::OffScreenUntitled),
    ) + " closed="@ + text::decimal_of(dropped_for(gone, ax, a.pid, Reason::Closed)) + "]"@
        + dropped_texts(gone)
}

/// The lines about all apps.
pub open spec fn app_lines(
    raw: Seq<WindowModel>,
    kept: Seq<WindowModel>,
    apps: Seq<AppModel>,
    ax: Map<i32, Map<u32, focus::AxModel>>,
) -> Seq<Seq<char>> {
    apps.map_values(|a: AppModel| app_line(raw, kept, a, ax))
}

/// Writes a coordinate in whole points.
pub fn points(thousandths: i64) -> (r: String)
    ensures
        r@ == points_text(thousandths as int),
{
    let wide: i128 = thousandths as i128;
    let size: u64 = if wide < 0 {
        (-wide) as u64
    } else {
        wide as u64
    };
    let q: u64 = size / 1000;
    let rest: u64 = size % 1000;
    let rounded: u64 = if rest > 500 || (rest == 500 && q % 2 == 1) {
        q + 1
    } else {
        q
    };
    let digits: String = text::decimal(rounded);
    if wide < 0 {
        let mut out: String = "-".to_owned();
        out.append(digits.as_str());
        out
    } else {
        digits
    }
}

fn bounds_string(b: (i64, i64, i64, i64)) -> (r: String)
    ensures
        r@ == bounds_text(b),
{
    let mut out: String = points(b.0);
    out.append(",");
    out.append(points(b.1).as_str());
    out.append(" ");
    out.append(points(b.2).as_str());
    out.append("x");
    out.append(points(b.3).as_str());
    out
}

/// Adds `s` to `out` where `shown`.
fn append_if(out: &mut String, shown: bool, s: &str)
    ensures
        final(out)@ == old(out)@ + text::given(shown, s@),
{
    if shown {
        out.append(s);
    } else {
        assert(out@ + Seq::<char>::empty() =~= out@);
    }
}

fn dropped_string(w: &WindowInfo) -> (r: String)
    ensures
        r@ == dropped_text(w@),
{
    let mut out: String = " [".to_owned();
    out.append(bounds_string(w.bounds).as_str());
    append_if(&mut out, !w.on_space, " no-space");
    out.append("]");
    out
}

fn kept_string(w: &WindowInfo) -> (r: String)
    ensures
        r@ == kept_text(w@),
{
    let mut out: String = " (".to_owned();
    out.append(bounds_string(w.bounds).as_str());
    if w.on_screen {
        out.append(" on");
    } else {
        out.append(" off");
    }
    append_if(&mut out, w.on_current_space, " cur");
    append_if(&mut out, w.minimized, " min");
    out.append(")");
    out
}

/// How many of `ws` are windows of `pid`.
fn count_owned(ws: &Vec<WindowInfo>, pid: i32) -> (r: usize)
    ensures
        r == windows::owned(windows::window_models(ws@), pid).len(),
{
    let ghost all = windows::window_models(ws@);
    let ghost own = |w: WindowModel| w.pid == pid;
    let mut n: usize = 0;
    let mut i: usize = 0;
    assert(all.take(0).filter(own) =~= Seq::empty());
    while i < ws.len()
        invariant
            i <= ws.len(),
            n <= i,
            all == windows::window_models(ws@),
            own == (|w: WindowModel| w.pid == pid),
            n == all.take(i as int).filter(own).len(),
        decreases ws.len() - i,
    {
        proof {
            assert(all.take(i + 1).drop_last() =~= all.take(i as int));
            reveal(Seq::filter);
        }
        if ws[i].pid == pid {
            n = n + 1;
        }
        i = i + 1;
    }
    assert(all.take(i as int) =~= all);
    n
}

/// What the line says of the windows of `pid` that stayed.
fn kept_strings(ws: &Vec<WindowInfo>, pid: i32) -> (r: String)
    ensures
        r@ == kept_texts(windows::owned(windows::window_models(ws@), pid)),
{
    let ghost all = windows::window_models(ws@);
    let ghost own = |w: WindowModel| w.pid == pid;
    let mut out: String = String::new();
    let mut i: usize = 0;
    assert(all.take(0).filter(own) =~= Seq::empty());
    while i < ws.len()
        invariant
            i <= ws.len(),
            all == windows::window_models(ws@),
            own == (|w: WindowModel| w.pid == pid),
            out@ == kept_texts(all.take(i as int).filter(own)),
        decreases ws.len() - i,
    {
        proof {
            assert(all.take(i + 1).drop_last() =~= all.take(i as int));
            reveal(Seq::filter);
        }
        if ws[i].pid == pid {
            out.append(kept_string(&ws[i]).as_str());
            proof {
                let before = all.take(i as int).filter(own);
                assert(before.push(ws@[i as int]@).drop_last() =~= before);
            }
        }
        i = i + 1;
    }
    assert(all.take(i as int) =~= all);
    out
}

/// How many windows of `pid` stayed that Accessibility does not list.
fn count_elsewhere(ws: &Vec<WindowInfo>, answer: Option<&AxMap>, pid: i32, ax: &AxCache) -> (r:
    usize)
    requires
        ax@.contains_key(pid) <==> answer is Some,
        answer matches Some(m) ==> *m == ax@[pid],
    ensures
        r == elsewhere(windows::window_models(ws@), windows::ax_view(*ax), pid),
{
    let ghost all = windows::window_models(ws@);
    let ghost view = windows::ax_view(*ax);
    let ghost p = |w: WindowModel|
        w.pid == pid && view.contains_key(pid) && !view[pid].contains_key(w.id);
    let mut n: usize = 0;
    let mut i: usize = 0;
    assert(all.take(0).filter(p) =~= Seq::empty());
    while i < ws.len()
        invariant
            i <= ws.len(),
            n <= i,
            all == windows::window_models(ws@),
            view == windows::ax_view(*ax),
            ax@.contains_key(pid) <==> answer is Some,
            answer matches Some(m) ==> *m == ax@[pid],
            p == (|w: WindowModel|
                w.pid == pid && view.contains_key(pid) && !view[pid].contains_key(w.id)),
            n == all.take(i as int).filter(p).len(),
        decreases ws.len() - i,
    {
        proof {
            assert(all.take(i + 1).drop_last() =~= all.take(i as int));
            reveal(Seq::filter);
        }
        if ws[i].pid == pid {
            if let Some(m) = answer {
                if !m.contains_key(&ws[i].id) {
                    n = n + 1;
                }
            }
        }
        i = i + 1;
    }
    assert(all.take(i as int) =~= all);
    assert(p == (|w: WindowModel|
        w.pid == pid && windows::ax_view(*ax).contains_key(pid) && !windows::ax_view(
            *ax,
        )[pid].contains_key(w.id)));
    n
}

/// How many windows were dropped for each reason, and what the line says of
/// them.
struct Gone {
    nonstandard: usize,
    on_titled: usize,
    on_untitled: usize,
    off_untitled: usize,
    closed: usize,
    text: String,
}

/// Goes through the windows of `pid` that did not stay.
fn count_dropped(
    raw: &Vec<WindowInfo>,
    kept: &Vec<WindowInfo>,
    answer: Option<&AxMap>,
    pid: i32,
    ax: &AxCache,
) -> (r: Gone)
    requires
        ax@.contains_key(pid) <==> answer is Some,
        answer matches Some(m) ==> *m == ax@[pid],
    ensures
        ({
            let gone = dropped(
                windows::window_models(raw@),
                windows::window_models(kept@),
                pid,
            );
            let view = windows::ax_view(*ax);
            &&& r.nonstandard == dropped_for(gone, view, pid, Reason::Nonstandard)
            &&& r.on_titled == dropped_for(gone, view, pid, Reason::OnScreenTitled)
            &&& r.on_untitled == dropped_for(gone, view, pid, Reason::OnScreenUntitled)
            &&& r.off_untitled == dropped_for(gone, view, pid, Reason::OffScreenUntitled)
            &&& r.closed == dropped_for(gone, view, pid, Reason::Closed)
            &&& r.text@ == dropped_texts(gone)
        }),
{
    let ghost all = windows::window_models(raw@);
    let ghost stay = windows::window_models(kept@);
    let ghost view = windows::ax_view(*ax);
    let ghost p = |w: WindowModel| is_dropped(stay, pid, w);
    let ghost mut gone: Seq<WindowModel> = Seq::empty();
    let mut nonstandard: usize = 0;
    let mut on_titled: usize = 0;
    let mut on_untitled: usize = 0;
    let mut off_untitled: usize = 0;
    let mut closed: usize = 0;
    let mut out: String = String::new();
    let mut i: usize = 0;
    assert(all.take(0).filter(p) =~= gone);
    while i < raw.len()
        invariant
            i <= raw.len(),
            all == windows::window_models(raw@),
            stay == windows::window_models(kept@),
            view == windows::ax_view(*ax),
            ax@.contains_key(pid) <==> answer is Some,
            answer matches Some(m) ==> *m == ax@[pid],
            p == (|w: WindowModel| is_dropped(stay, pid, w)),
            gone == all.take(i as int).filter(p),
            nonstandard <= i,
            on_titled <= i,
            on_untitled <= i,
            off_untitled <= i,
            closed <= i,
            nonstandard == dropped_for(gone, view, pid, Reason::Nonstandard),
            on_titled == dropped_for(gone, view, pid, Reason::OnScreenTitled),
            on_untitled == dropped_for(gone, view, pid, Reason::OnScreenUntitled),
            off_untitled == dropped_for(gone, view, pid, Reason::OffScreenUntitled),
            closed == dropped_for(gone, view, pid, Reason::Closed),
            out@ == dropped_texts(gone),
        decreases raw.len() - i,
    {
        let w: &WindowInfo = &raw[i];
        proof {
            assert(all.take(i + 1).drop_last() =~= all.take(i as int));
            assert(all.take(i + 1).filter(p) == if p(w@) {
                all.take(i as int).filter(p).push(w@)
            } else {
                all.take(i as int).filter(p)
            }) by {
                reveal(Seq::filter);
            }
        }
        if w.pid == pid && !windows::holds_id(kept, w.id) {
            let is_known: bool = match answer {
                Some(m) => m.contains_key(&w.id),
                None => false,
            };
            assert(is_known == known(view, pid, w.id));
            let untitled: bool = w.title.as_str().is_empty();
            out.append(dropped_string(w).as_str());
            let ghost before = gone;
            proof {
                gone = gone.push(w@);
                assert(gone.drop_last() =~= before);
                lemma_dropped_for_push(before, w@, view, pid);
            }
            if is_known {
                nonstandard = nonstandard + 1;
            } else if w.on_screen && !untitled {
                on_titled = on_titled + 1;
            } else if w.on_screen {
                on_untitled = on_untitled + 1;
            } else if untitled {
                off_untitled = off_untitled + 1;
            } else {
                closed = closed + 1;
            }
        }
        i = i + 1;
    }
    assert(all.take(i as int) =~= all);
    Gone { nonstandard, on_titled, on_untitled, off_untitled, closed, text: out }
}

proof fn lemma_dropped_for_push(
    ws: Seq<WindowModel>,
    w: WindowModel,
    ax: Map<i32, Map<u32, focus::AxModel>>,
    pid: i32,
)
    ensures
        forall|r: Reason| #[trigger]
            dropped_for(ws.push(w), ax, pid, r) == dropped_for(ws, ax, pid, r) + if reason(
                ax,
                pid,
                w,
            ) == r {
                1nat
            } else {
                0nat
            },
{
    assert forall|r: Reason| #[trigger]
        dropped_for(ws.push(w), ax, pid, r) == dropped_for(ws, ax, pid, r) + if reason(ax, pid, w)
            == r {
            1nat
        } else {
            0nat
        } by {
        assert(ws.push(w).drop_last() =~= ws);
        reveal(Seq::filter);
    }
}

/// The line about one app.
fn line(raw: &Vec<WindowInfo>, kept: &Vec<WindowInfo>, a: &AppEntry, ax: &AxCache) -> (r: String)
    ensures
        r@ == app_line(
            windows::window_models(raw@),
            windows::window_models(kept@),
            a@,
            windows::ax_view(*ax),
        ),
{
    let pid: i32 = a.pid;
    let answer: Option<&AxMap> = ax.get(&pid);
    let listed: String = match answer {
        Some(m) => {
            assert(windows::ax_view(*ax)[pid].dom() =~= m@.dom());
            text::decimal(m.len() as u64)
        },
        None => "-".to_owned(),
    };
    let gone: Gone = count_dropped(raw, kept, answer, pid, ax);
    let mut out: String = "  ".to_owned();
    out.append(a.name.as_str());
    append_if(&mut out, a.hidden, " (hidden)");
    append_if(&mut out, !a.on_current, " (elsewhere)");
    out.append(": cg=");
    out.append(text::decimal(count_owned(raw, pid) as u64).as_str());
    out.append(" ax=");
    out.append(listed.as_str());
    out.append(" shown=");
    out.append(text::decimal(count_owned(kept, pid) as u64).as_str());
    out.append(kept_strings(kept, pid).as_str());
    out.append(" other-desktop=");
    out.append(text::decimal(count_elsewhere(kept, answer, pid, ax) as u64).as_str());
    out.append(" dropped[ax-nonstandard=");
    out.append(text::decimal(gone.nonstandard as u64).as_str());
    out.append(" onscreen-titled=");
    out.append(text::decimal(gone.on_titled as u64).as_str());
    out.append(" onscreen-untitled=");
    out.append(text::decimal(gone.on_untitled as u64).as_str());
    out.append(" offscreen-untitled=");
    out.append(text::decimal(gone.off_untitled as u64).as_str());
    out.append(" closed=");
    out.append(text::decimal(gone.closed as u64).as_str());
    out.append("]");
    out.append(gone.text.as_str());
    out
}

/// One line per app: how many windows the window server lists, how many
/// survive, and how many of those are on other desktops. App names only, never
/// titles.
pub fn ax_summary(
    raw: &Vec<WindowInfo>,
    kept: &Vec<WindowInfo>,
    apps: &Vec<AppEntry>,
    ax: &AxCache,
) -> (r: String)
    ensures
        r@ == text::joined(
            app_lines(
                windows::window_models(raw@),
                windows::window_models(kept@),
                windows::app_models(apps@),
                windows::ax_view(*ax),
            ),
            "\n"@,
        ),
{
    let ghost all = windows::app_models(apps@);
    let ghost lines = app_lines(
        windows::window_models(raw@),
        windows::window_models(kept@),
        all,
        windows::ax_view(*ax),
    );
    let mut out: Vec<String> = Vec::new();
    let mut i: usize = 0;
    assert(text::texts(out@) =~= lines.take(0));
    while i < apps.len()
        invariant
            i <= apps.len(),
            all == windows::app_models(apps@),
            lines == app_lines(
                windows::window_models(raw@),
                windows::window_models(kept@),
                all,
                windows::ax_view(*ax),
            ),
            text::texts(out@) == lines.take(i as int),
        decreases apps.len() - i,
    {
        let ghost before = out@;
        out.push(line(raw, kept, &apps[i], ax));
        assert(text::texts(out@) =~= text::texts(before).push(lines[i as int]));
        assert(lines.take(i + 1) =~= lines.take(i as int).push(lines[i as int]));
        i = i + 1;
    }
    assert(lines.take(i as int) =~= lines);
    text::join(&out, "\n")
}

/// Every window that was dropped is counted for one reason.
pub proof fn law_every_drop_has_a_reason(
    ws: Seq<WindowModel>,
    ax: Map<i32, Map<u32, focus::AxModel>>,
    pid: i32,
)
    ensures
        dropped_for(ws, ax, pid, Reason::Nonstandard) + dropped_for(
            ws,
            ax,
            pid,
            Reason::OnScreenTitled,
        ) + dropped_for(ws, ax, pid, Reason::OnScreenUntitled) + dropped_for(
            ws,
            ax,
            pid,
            Reason::OffScreenUntitled,
        ) + dropped_for(ws, ax, pid, Reason::Closed) == ws.len(),
    decreases ws.len(),
{
    if ws.len() == 0 {
        reveal(Seq::filter);
    } else {
        law_every_drop_has_a_reason(ws.drop_last(), ax, pid);
        lemma_dropped_for_push(ws.drop_last(), ws.last(), ax, pid);
        assert(ws.drop_last().push(ws.last()) =~= ws);
    }
}

/// A window without its texts: of its title only whether there is one.
pub open spec fn blanked(w: WindowModel) -> WindowModel {
    WindowModel {
        app: Seq::empty(),
        title: if w.title.len() > 0 {
            seq!['x']
        } else {
            Seq::empty()
        },
        profile: None,
        ..w
    }
}

/// Windows without their texts.
pub open spec fn all_blanked(ws: Seq<WindowModel>) -> Seq<WindowModel> {
    ws.map_values(|w: WindowModel| blanked(w))
}

/// The lines never show a window's title, profile or app: they are the same
/// for windows without their texts.
pub proof fn law_summary_shows_no_titles(
    raw: Seq<WindowModel>,
    kept: Seq<WindowModel>,
    apps: Seq<AppModel>,
    ax: Map<i32, Map<u32, focus::AxModel>>,
)
    ensures
        app_lines(all_blanked(raw), all_blanked(kept), apps, ax) == app_lines(raw, kept, apps, ax),
{
    let (r, k) = (all_blanked(raw), all_blanked(kept));
    assert forall|i: int| 0 <= i < apps.len() implies app_line(r, k, #[trigger] apps[i], ax)
        == app_line(raw, kept, apps[i], ax) by {
        lemma_line_blanked(raw, kept, apps[i], ax);
    }
    assert(app_lines(r, k, apps, ax) =~= app_lines(raw, kept, apps, ax));
}

proof fn lemma_line_blanked(
    raw: Seq<WindowModel>,
    kept: Seq<WindowModel>,
    a: AppModel,
    ax: Map<i32, Map<u32, focus::AxModel>>,
)
    ensures
        app_line(all_blanked(raw), all_blanked(kept), a, ax) == app_line(raw, kept, a, ax),
{
    let f = |w: WindowModel| blanked(w);
    let (r, k) = (all_blanked(raw), all_blanked(kept));
    let pid = a.pid;
    sequences::lemma_filter_map(raw, f, |w: WindowModel| w.pid == pid);
    sequences::lemma_filter_map(kept, f, |w: WindowModel| w.pid == pid);
    lemma_texts_blanked(windows::owned(kept, pid));
    sequences::lemma_filter_map(
        kept,
        f,
        |w: WindowModel| w.pid == pid && ax.contains_key(pid) && !ax[pid].contains_key(w.id),
    );
    assert(windows::ids_of(k) =~= windows::ids_of(kept));
    let p = |w: WindowModel| is_dropped(kept, pid, w);
    assert(p =~= (|w: WindowModel| is_dropped(k, pid, w)));
    sequences::lemma_filter_map(raw, f, p);
    let gone = dropped(raw, kept, pid);
    assert(dropped(r, k, pid) == all_blanked(gone));
    lemma_texts_blanked(gone);
    assert forall|why: Reason| #[trigger]
        dropped_for(all_blanked(gone), ax, pid, why) == dropped_for(gone, ax, pid, why) by {
        sequences::lemma_filter_map(gone, f, |w: WindowModel| reason(ax, pid, w) == why);
    }
}

proof fn lemma_texts_blanked(ws: Seq<WindowModel>)
    ensures
        kept_texts(all_blanked(ws)) == kept_texts(ws),
        dropped_texts(all_blanked(ws)) == dropped_texts(ws),
    decreases ws.len(),
{
    if ws.len() > 0 {
        lemma_texts_blanked(ws.drop_last());
        assert(all_blanked(ws).drop_last() =~= all_blanked(ws.drop_last()));
        assert(all_blanked(ws).last() == blanked(ws.last()));
    }
}

/// An Accessibility answer without its titles.
pub open spec fn ax_blanked(
    ax: Map<i32, Map<u32, focus::AxModel>>,
) -> Map<i32, Map<u32, focus::AxModel>> {
    ax.map_values(
        |m: Map<u32, focus::AxModel>|
            m.map_values(|w: focus::AxModel| focus::AxModel { title: Seq::empty(), ..w }),
    )
}

/// The lines never show a title that Accessibility gives either: they are the
/// same for answers without their titles.
pub proof fn law_summary_shows_no_accessibility_titles(
    raw: Seq<WindowModel>,
    kept: Seq<WindowModel>,
    apps: Seq<AppModel>,
    ax: Map<i32, Map<u32, focus::AxModel>>,
)
    ensures
        app_lines(raw, kept, apps, ax_blanked(ax)) == app_lines(raw, kept, apps, ax),
{
    let bare = ax_blanked(ax);
    assert forall|i: int| 0 <= i < apps.len() implies app_line(raw, kept, #[trigger] apps[i], bare)
        == app_line(raw, kept, apps[i], ax) by {
        let pid = apps[i].pid;
        assert(bare.contains_key(pid) == ax.contains_key(pid));
        assert(ax.contains_key(pid) ==> bare[pid].dom() =~= ax[pid].dom());
        sequences::lemma_filter_agrees(
            kept,
            |w: WindowModel|
                w.pid == pid && bare.contains_key(pid) && !bare[pid].contains_key(w.id),
            |w: WindowModel| w.pid == pid && ax.contains_key(pid) && !ax[pid].contains_key(w.id),
        );
        let gone = dropped(raw, kept, pid);
        assert forall|why: Reason| #[trigger]
            dropped_for(gone, bare, pid, why) == dropped_for(gone, ax, pid, why) by {
            sequences::lemma_filter_agrees(
                gone,
                |w: WindowModel| reason(bare, pid, w) == why,
                |w: WindowModel| reason(ax, pid, w) == why,
            );
        }
    }
    assert(app_lines(raw, kept, apps, bare) =~= app_lines(raw, kept, apps, ax));
}

} // verus!
