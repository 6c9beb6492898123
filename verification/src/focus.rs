//! Accessibility's view of an app's windows: which of them are real, which
//! one to raise, and which one to restore when all are minimized.
use vstd::prelude::*;

use crate::text;
use crate::text_laws;

verus! {

/// One window as Accessibility knows it.
pub struct AxWindow {
    pub id: u32,
    pub minimized: bool,
    /// AXStandardWindow: a real browser window (not a popup, dropdown or dialog).
    pub standard: bool,
    /// Full title, e.g. `Inbox - Google Chrome - Work (me@example.com)`.
    pub title: String,
}

/// What an [`AxWindow`] holds.
pub struct AxModel {
    pub id: u32,
    pub minimized: bool,
    pub standard: bool,
    pub title: Seq<char>,
}

impl View for AxWindow {
    type V = AxModel;

    open spec fn view(&self) -> AxModel {
        AxModel {
            id: self.id,
            minimized: self.minimized,
            standard: self.standard,
            title: self.title@,
        }
    }
}

impl Clone for AxWindow {
    fn clone(&self) -> (r: AxWindow)
        ensures
            r == *self,
    {
        AxWindow {
            id: self.id,
            minimized: self.minimized,
            standard: self.standard,
            title: self.title.clone(),
        }
    }
}

/// The attributes that Accessibility reports of one window; `None` for one
/// that it does not answer.
pub struct AxRecord {
    pub id: Option<u32>,
    /// AXMinimized
    pub minimized: Option<bool>,
    /// AXSubrole
    pub subrole: Option<String>,
    /// AXTitle
    pub title: Option<String>,
}

/// The text of an optional string, empty where there is none.
pub open spec fn text_or_empty(s: Option<String>) -> Seq<char> {
    match s {
        Some(t) => t@,
        None => Seq::empty(),
    }
}

/// The window that a record describes; a record without an id describes none.
pub open spec fn window_of(r: AxRecord) -> Option<AxModel> {
    match r.id {
        Some(id) => Some(
            AxModel {
                id,
                minimized: r.minimized == Some(true),
                standard: r.subrole is Some && text_or_empty(r.subrole) == "AXStandardWindow"@,
                title: text_or_empty(r.title),
            },
        ),
        None => None,
    }
}

/// What a list of windows holds.
pub open spec fn ax_models(ws: Seq<AxWindow>) -> Seq<AxModel> {
    ws.map_values(|w: AxWindow| w@)
}

/// The windows that a list of records describes, in their order.
pub open spec fn windows_of(records: Seq<AxRecord>) -> Seq<AxModel> {
    records.filter_map(|r: AxRecord| window_of(r))
}

/// One of the records has a window id.
pub open spec fn any_id(records: Seq<AxRecord>) -> bool {
    exists|i: int| 0 <= i < records.len() && (#[trigger] records[i]).id is Some
}

/// All windows that Accessibility lists for an app, or `None` when it is not
/// granted (`trusted`) or did not answer (`listed`). A window without an id is
/// left out. Where no window has one, the id lookup is unavailable: the answer
/// cannot be matched to windows, and is none.
pub fn ax_windows(trusted: bool, listed: Option<&Vec<AxRecord>>) -> (r: Option<Vec<AxWindow>>)
    ensures
        r is Some <==> trusted && (listed matches Some(records) && (records.len() == 0 || any_id(
            records@,
        ))),
        r matches Some(ws) ==> ax_models(ws@) == windows_of(listed->0@),
{
    if !trusted {
        return None;
    }
    let records: &Vec<AxRecord> = match listed {
        Some(records) => records,
        None => {
            return None;
        },
    };
    let ghost f = |r: AxRecord| window_of(r);
    let mut out: Vec<AxWindow> = Vec::new();
    let mut found: bool = false;
    let mut i: usize = 0;
    assert(records@.take(0).filter_map(f) =~= Seq::empty());
    assert(ax_models(out@) =~= Seq::empty());
    while i < records.len()
        invariant
            i <= records.len(),
            f == (|r: AxRecord| window_of(r)),
            ax_models(out@) == records@.take(i as int).filter_map(f),
            found ==> any_id(records@),
            !found ==> forall|j: int| 0 <= j < i ==> (#[trigger] records@[j]).id is None,
        decreases records.len() - i,
    {
        proof {
            records@.lemma_filter_map_take_succ(f, i as int);
        }
        let ghost before = out@;
        if let Some(id) = records[i].id {
            let minimized: bool = match records[i].minimized {
                Some(m) => m,
                None => false,
            };
            let standard: bool = match &records[i].subrole {
                Some(s) => text::same(s.as_str(), "AXStandardWindow"),
                None => false,
            };
            let title: String = match &records[i].title {
                Some(t) => t.clone(),
                None => String::new(),
            };
            out.push(AxWindow { id, minimized, standard, title });
            found = true;
            assert(ax_models(out@) =~= ax_models(before).push(out@.last()@));
            assert(window_of(records@[i as int]) == Some(out@.last()@));
            assert(ax_models(out@) =~= records@.take(i + 1).filter_map(f));
        } else {
            assert(ax_models(out@) =~= records@.take(i + 1).filter_map(f));
        }
        i = i + 1;
    }
    assert(records@.take(i as int) =~= records@);
    if records.len() > 0 && !found {
        return None;
    }
    Some(out)
}

/// The record has this window id.
pub open spec fn has_id(r: AxRecord, id: u32) -> bool {
    r.id == Some(id)
}

/// The record's title begins with `title`, which is not empty.
pub open spec fn has_title(r: AxRecord, title: Seq<char>) -> bool {
    title.len() > 0 && r.title is Some && text::begins(text_or_empty(r.title), title)
}

/// `i` is the first position in `records` of which `p` holds.
pub open spec fn first_where(records: Seq<AxRecord>, p: spec_fn(AxRecord) -> bool, i: int) -> bool {
    0 <= i < records.len() && p(records[i]) && forall|j: int|
        0 <= j < i ==> !p(#[trigger] records[j])
}

/// Which of an app's windows to un-minimize, raise and focus: the first with
/// this id; where none has it (the id lookup is unavailable) the first whose
/// title begins with `title`; `None` where there is neither.
pub fn focus_window(records: &Vec<AxRecord>, id: u32, title: &str) -> (r: Option<usize>)
    ensures
        match r {
            Some(i) => {
                ||| first_where(records@, |w: AxRecord| has_id(w, id), i as int)
                ||| (forall|j: int| 0 <= j < records.len() ==> !has_id(#[trigger] records@[j], id))
                    && first_where(records@, |w: AxRecord| has_title(w, title@), i as int)
            },
            None => forall|j: int|
                0 <= j < records.len() ==> !has_id(#[trigger] records@[j], id) && !has_title(
                    records@[j],
                    title@,
                ),
        },
{
    let mut by_title: Option<usize> = None;
    let mut i: usize = 0;
    while i < records.len()
        invariant
            i <= records.len(),
            forall|j: int| 0 <= j < i ==> !has_id(#[trigger] records@[j], id),
            match by_title {
                Some(k) => k < i && first_where(
                    records@,
                    |w: AxRecord| has_title(w, title@),
                    k as int,
                ),
                None => forall|j: int| 0 <= j < i ==> !has_title(#[trigger] records@[j], title@),
            },
        decreases records.len() - i,
    {
        if let Some(w) = records[i].id {
            if w == id {
                return Some(i);
            }
        }
        if by_title.is_none() && !title.is_empty() {
            if let Some(t) = &records[i].title {
                if text::starts_with(t.as_str(), title) {
                    by_title = Some(i);
                }
            }
        }
        i = i + 1;
    }
    by_title
}

/// A window is standard.
pub open spec fn has_standard(ws: Seq<AxModel>) -> bool {
    exists|i: int| 0 <= i < ws.len() && (#[trigger] ws[i]).standard
}

/// The window at `i` is one that an app can show: a standard one, or any where
/// none is standard.
pub open spec fn counts(ws: Seq<AxModel>, i: int) -> bool {
    0 <= i < ws.len() && (ws[i].standard || !has_standard(ws))
}

/// Which window an activated app restores: the first that counts, where every
/// one that counts is minimized. `None` where Accessibility did not answer,
/// where the app has no window, or where one that counts is not minimized.
pub fn activate_app(windows: Option<&Vec<AxWindow>>) -> (r: Option<usize>)
    ensures
        match r {
            Some(i) => {
                &&& windows is Some
                &&& counts(ax_models(windows->0@), i as int)
                &&& forall|j: int| 0 <= j < i ==> !#[trigger] counts(ax_models(windows->0@), j)
                &&& forall|j: int| #[trigger]
                    counts(ax_models(windows->0@), j) ==> ax_models(windows->0@)[j].minimized
            },
            None => {
                ||| windows is None
                ||| windows->0.len() == 0
                ||| exists|j: int| #[trigger]
                    counts(ax_models(windows->0@), j) && !ax_models(windows->0@)[j].minimized
            },
        },
{
    let ws: &Vec<AxWindow> = match windows {
        Some(ws) => ws,
        None => {
            return None;
        },
    };
    let ghost all = ax_models(ws@);
    let mut first: Option<usize> = None;
    let mut awake: Option<usize> = None;
    let mut i: usize = 0;
    while i < ws.len()
        invariant
            i <= ws.len(),
            windows == Some(ws),
            all == ax_models(ws@),
            forall|j: int| 0 <= j < i && (#[trigger] all[j]).standard ==> all[j].minimized,
            match first {
                Some(k) => k < i && all[k as int].standard && forall|j: int|
                    0 <= j < k ==> !(#[trigger] all[j]).standard,
                None => forall|j: int| 0 <= j < i ==> !(#[trigger] all[j]).standard,
            },
            match awake {
                Some(k) => k < i && !all[k as int].minimized,
                None => forall|j: int| 0 <= j < i ==> (#[trigger] all[j]).minimized,
            },
        decreases ws.len() - i,
    {
        assert(all[i as int] == ws@[i as int]@);
        if ws[i].standard {
            if !ws[i].minimized {
                assert(counts(all, i as int));
                return None;
            }
            if first.is_none() {
                first = Some(i);
            }
        }
        if !ws[i].minimized {
            awake = Some(i);
        }
        i = i + 1;
    }
    if first.is_some() {
        return first;
    }
    assert(!has_standard(all));
    match awake {
        Some(k) => {
            assert(counts(all, k as int));
            None
        },
        None => if ws.len() > 0 {
            Some(0)
        } else {
            None
        },
    }
}

/// A window is restored where every window that Accessibility lists is
/// minimized and there is one.
pub proof fn law_all_minimized_restores_one(ws: Seq<AxModel>)
    requires
        ws.len() > 0,
        forall|j: int| 0 <= j < ws.len() ==> (#[trigger] ws[j]).minimized,
    ensures
        !exists|j: int| #[trigger] counts(ws, j) && !ws[j].minimized,
        exists|j: int| #[trigger] counts(ws, j),
{
    if has_standard(ws) {
        let i = choose|i: int| 0 <= i < ws.len() && (#[trigger] ws[i]).standard;
        assert(counts(ws, i));
    } else {
        assert(counts(ws, 0));
    }
}

/// A record has a title that goes on from `title` just where the one is the
/// other with something more, or nothing, behind it.
pub proof fn law_titles_go_on(r: AxRecord, title: Seq<char>, rest: Seq<char>)
    ensures
        title.len() > 0 && (r.title matches Some(t) && t@ == title + rest) ==> has_title(r, title),
        title.len() == 0 || r.title is None ==> !has_title(r, title),
        has_title(r, title) ==> exists|more: Seq<char>| #[trigger]
            (title + more) == text_or_empty(r.title),
{
    text_laws::law_begins_and_ends(text_or_empty(r.title), title, rest);
    if has_title(r, title) {
        let all = text_or_empty(r.title);
        assert(title + all.skip(title.len() as int) == all);
    }
}

/// No position before the first one will do, and there is one first position.
pub proof fn law_the_first_is_the_only_one(
    records: Seq<AxRecord>,
    p: spec_fn(AxRecord) -> bool,
    i: int,
    j: int,
)
    requires
        first_where(records, p, i),
        0 <= j < records.len(),
        p(records[j]),
    ensures
        p(records[i]),
        i <= j,
        first_where(records, p, j) ==> i == j,
{
}

/// A window counts where it is standard, or where no window is.
pub proof fn law_which_windows_count(ws: Seq<AxModel>, i: int)
    requires
        0 <= i < ws.len(),
    ensures
        ws[i].standard ==> counts(ws, i),
        !ws[i].standard && (forall|j: int| 0 <= j < ws.len() ==> !(#[trigger] ws[j]).standard)
            ==> counts(ws, i),
        !ws[i].standard && (exists|j: int| 0 <= j < ws.len() && (#[trigger] ws[j]).standard)
            ==> !counts(ws, i),
{
}

} // verus!
