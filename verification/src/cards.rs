//! What the hub's cards and its header say, and which windows' thumbnails the
//! cards show.
use std::collections::hash_map::DefaultHasher;
use std::hash::{Hash, Hasher};

use vstd::prelude::*;
use vstd::std_specs::hash::DefaultHasherAdditionalSpecFns;

use crate::chrome;
use crate::hub::{Hub, HubModel, Level, LevelModel};
use crate::hub;
use crate::text;
use crate::windows::{AppEntry, AppModel, WindowInfo, WindowModel};
use crate::windows;
use crate::windows_laws;

verus! {

// ---- Colours ----------------------------------------------------------------

/// The colour of a profile's dot.
#[derive(Clone, Copy, Debug, PartialEq, Eq, Structural)]
pub enum Color {
    Blue,
    Green,
    Orange,
    Pink,
    Purple,
    Teal,
    Indigo,
    Yellow,
}

/// What hashing a text writes to a hasher that has been written `before`: the
/// state after `<str as Hash>::hash`.
pub uninterp spec fn fed(before: Seq<Seq<u8>>, text: Seq<char>) -> Seq<Seq<u8>>;

/// `<str as Hash>::hash` feeds the text to the hasher: what it writes depends
/// on the text alone. The bytes themselves are not stated.
#[verifier::external_body]
fn feed(name: &str, state: &mut DefaultHasher)
    ensures
        final(state)@ == fed(old(state)@, name@),
{
    name.hash(state);
}

/// The hash of a text.
pub open spec fn text_hash(name: Seq<char>) -> u64 {
    DefaultHasher::spec_finish(fed(Seq::empty(), name))
}

/// The colour for a hash.
pub open spec fn palette(hash: u64) -> Color {
    if hash % 8 == 0 {
        Color::Blue
    } else if hash % 8 == 1 {
        Color::Green
    } else if hash % 8 == 2 {
        Color::Orange
    } else if hash % 8 == 3 {
        Color::Pink
    } else if hash % 8 == 4 {
        Color::Purple
    } else if hash % 8 == 5 {
        Color::Teal
    } else if hash % 8 == 6 {
        Color::Indigo
    } else {
        Color::Yellow
    }
}

/// The colour for a hash.
pub fn color_of(hash: u64) -> (r: Color)
    ensures
        r == palette(hash),
{
    match hash % 8 {
        0 => Color::Blue,
        1 => Color::Green,
        2 => Color::Orange,
        3 => Color::Pink,
        4 => Color::Purple,
        5 => Color::Teal,
        6 => Color::Indigo,
        _ => Color::Yellow,
    }
}

/// The colour of the dot for a profile (or app) of this name.
pub fn profile_color(name: &str) -> (r: Color)
    ensures
        r == palette(text_hash(name@)),
{
    let mut h: DefaultHasher = DefaultHasher::new();
    feed(name, &mut h);
    color_of(h.finish())
}

// ---- Cards ------------------------------------------------------------------

/// What a card shows, independent of whether it stands for an app or a window.
pub struct CardModel {
    /// The window whose thumbnail the card shows.
    pub window_id: Option<u32>,
    pub title: String,
    pub subtitle: String,
    /// The app whose icon the card shows, by pid.
    pub icon: Option<i32>,
    pub dot: Option<Color>,
    /// The card has the "show windows" button.
    pub expandable: bool,
}

/// What a [`CardModel`] holds.
#[verifier::ext_equal]
pub struct CardContent {
    pub window_id: Option<u32>,
    pub title: Seq<char>,
    pub subtitle: Seq<char>,
    pub icon: Option<i32>,
    pub dot: Option<Color>,
    pub expandable: bool,
}

impl View for CardModel {
    type V = CardContent;

    open spec fn view(&self) -> CardContent {
        CardContent {
            window_id: self.window_id,
            title: self.title@,
            subtitle: self.subtitle@,
            icon: self.icon,
            dot: self.dot,
            expandable: self.expandable,
        }
    }
}

/// How many windows there are, in words.
pub open spec fn window_count(n: nat) -> Seq<char> {
    if n == 0 {
        "no windows"@
    } else if n == 1 {
        "1 window"@
    } else {
        text::decimal_of(n) + " windows"@
    }
}

/// The card of an app: how many windows it has and how many are minimized,
/// whether it is on another desktop and whether it is hidden.
pub open spec fn app_card(a: AppModel) -> CardContent {
    let minimized = a.windows.len() - a.active;
    CardContent {
        window_id: a.front,
        title: a.name,
        subtitle: window_count(a.windows.len()) + text::given(
            minimized > 0,
            "  ·  "@ + text::decimal_of(minimized as nat) + " minimized"@,
        ) + text::given(!a.on_current, "  ·  other desktop"@) + text::given(a.hidden, "  ·  hidden"@),
        icon: Some(a.pid),
        dot: None,
        expandable: a.windows.len() > 0,
    }
}

/// What a window is grouped by: its profile, or its app where it has none.
pub open spec fn group_of(w: WindowModel) -> Seq<char> {
    match w.profile {
        Some(p) => p,
        None => w.app,
    }
}

/// The card of a window: its title (its app's name where it has none), its
/// profile or app, and whether it is minimized or on another desktop.
pub open spec fn window_card(w: WindowModel) -> CardContent {
    CardContent {
        window_id: Some(w.id),
        title: if w.title.len() == 0 {
            w.app
        } else {
            w.title
        },
        subtitle: group_of(w) + if w.minimized {
            "  ·  minimized"@
        } else if !w.on_screen {
            "  ·  other desktop"@
        } else {
            Seq::empty()
        },
        icon: None,
        dot: Some(palette(text_hash(group_of(w)))),
        expandable: false,
    }
}

/// The card of the item at `i`.
pub open spec fn card_at(h: HubModel, i: int) -> CardContent {
    match h.level {
        LevelModel::Apps => app_card(h.apps[i]),
        LevelModel::Windows { .. } => window_card(h.scope[i]),
    }
}

/// The windows whose thumbnails the level shows: the one that represents each
/// open app, or every window.
pub open spec fn thumbnails(h: HubModel) -> Seq<u32> {
    match h.level {
        LevelModel::Apps => h.apps.filter(|a: AppModel| hub::app_listed(a)).filter_map(
            |a: AppModel| a.front,
        ),
        LevelModel::Windows { .. } => windows::ids_of(h.scope),
    }
}

/// The number on the card at `pos`, for the key that jumps to it: the first
/// nine cards have one.
pub open spec fn badge_of(pos: nat) -> Option<Seq<char>> {
    if pos < 9 {
        Some(text::decimal_of(pos + 1))
    } else {
        None
    }
}

/// The test for an id of one of `ws`.
pub open spec fn id_among(ws: Seq<WindowModel>) -> spec_fn(u32) -> bool {
    |id: u32| windows::ids_of(ws).contains(id)
}

/// The thumbnails that are kept of those for the windows `ids`, when the
/// windows are `ws`: those whose window still exists.
pub open spec fn surviving(ids: Seq<u32>, ws: Seq<WindowModel>) -> Seq<u32> {
    ids.filter(id_among(ws))
}

/// The number on the card at `pos`, where it has one.
pub fn badge(pos: usize) -> (r: Option<String>)
    ensures
        chrome::optional(r) == badge_of(pos as nat),
{
    if pos < 9 {
        Some(text::decimal(pos as u64 + 1))
    } else {
        None
    }
}

/// Which of the thumbnails for the windows `ids` are kept, when the windows are
/// `ws`. Thumbnails live for as long as their window exists.
pub fn thumbnails_kept(ids: &Vec<u32>, ws: &Vec<WindowInfo>) -> (r: Vec<u32>)
    ensures
        r@ == surviving(ids@, windows::window_models(ws@)),
{
    let ghost all = ids@;
    let ghost p = id_among(windows::window_models(ws@));
    let mut out: Vec<u32> = Vec::new();
    let mut i: usize = 0;
    assert(all.take(0).filter(p) =~= Seq::empty());
    while i < ids.len()
        invariant
            i <= ids.len(),
            all == ids@,
            p == id_among(windows::window_models(ws@)),
            out@ == all.take(i as int).filter(p),
        decreases ids.len() - i,
    {
        proof {
            assert(all.take(i + 1).drop_last() =~= all.take(i as int));
            reveal(Seq::filter);
        }
        if windows::holds_id(ws, ids[i]) {
            out.push(ids[i]);
        }
        i = i + 1;
    }
    assert(all.take(i as int) =~= all);
    out
}

/// No thumbnail of a window that is gone is kept, and none of one that exists
/// is lost.
pub proof fn law_thumbnails_live_with_their_window(ids: Seq<u32>, ws: Seq<WindowModel>, id: u32)
    ensures
        surviving(ids, ws).contains(id) <==> ids.contains(id) && windows::ids_of(ws).contains(id),
{
    let p = id_among(ws);
    if surviving(ids, ws).contains(id) {
        let k = choose|k: int| 0 <= k < surviving(ids, ws).len() && surviving(ids, ws)[k] == id;
        ids.lemma_filter_pred(p, k);
        ids.lemma_filter_contains_rev(p, id);
    }
    if ids.contains(id) && p(id) {
        let k = choose|k: int| 0 <= k < ids.len() && ids[k] == id;
        ids.lemma_filter_contains(p, k);
    }
}

/// The card of an app.
fn card_of_app(a: &AppEntry) -> (r: CardModel)
    requires
        a.active <= a.windows.len(),
    ensures
        r@ == app_card(a@),
{
    let n: usize = a.windows.len();
    let mut subtitle: String = if n == 0 {
        "no windows".to_owned()
    } else if n == 1 {
        "1 window".to_owned()
    } else {
        let mut s: String = text::decimal(n as u64);
        s.append(" windows");
        s
    };
    let minimized: usize = n - a.active;
    if minimized > 0 {
        let mut s: String = "  ·  ".to_owned();
        s.append(text::decimal(minimized as u64).as_str());
        s.append(" minimized");
        subtitle.append(s.as_str());
    } else {
        assert(subtitle@ + Seq::<char>::empty() =~= subtitle@);
    }
    if !a.on_current {
        subtitle.append("  ·  other desktop");
    } else {
        assert(subtitle@ + Seq::<char>::empty() =~= subtitle@);
    }
    if a.hidden {
        subtitle.append("  ·  hidden");
    } else {
        assert(subtitle@ + Seq::<char>::empty() =~= subtitle@);
    }
    CardModel {
        window_id: a.front,
        title: a.name.clone(),
        subtitle,
        icon: Some(a.pid),
        dot: None,
        expandable: n > 0,
    }
}

/// The card of a window.
fn card_of_window(w: &WindowInfo) -> (r: CardModel)
    ensures
        r@ == window_card(w@),
{
    let title: String = if w.title.as_str().is_empty() {
        w.app.clone()
    } else {
        w.title.clone()
    };
    let group: String = match &w.profile {
        Some(p) => p.clone(),
        None => w.app.clone(),
    };
    let mut subtitle: String = group.clone();
    if w.minimized {
        subtitle.append("  ·  minimized");
    } else if !w.on_screen {
        subtitle.append("  ·  other desktop");
    } else {
        assert(subtitle@ + Seq::<char>::empty() =~= subtitle@);
    }
    let dot: Color = profile_color(group.as_str());
    CardModel {
        window_id: Some(w.id),
        title,
        subtitle,
        icon: None,
        dot: Some(dot),
        expandable: false,
    }
}

// ---- The header -------------------------------------------------------------

/// What stands above and below the cards.
pub struct Header {
    /// The search, or what can be searched where there is none.
    pub label: String,
    /// The label is no search of the user's.
    pub dim: bool,
    /// How many cards there are.
    pub count: String,
    /// What is said where there is no card.
    pub empty: Option<String>,
    /// What the keys do.
    pub hint: String,
    /// The app whose icon stands before the label, by pid; the magnifying
    /// glass where there is none.
    pub icon: Option<i32>,
}

/// What a [`Header`] holds.
#[verifier::ext_equal]
pub struct HeaderContent {
    pub label: Seq<char>,
    pub dim: bool,
    pub count: Seq<char>,
    pub empty: Option<Seq<char>>,
    pub hint: Seq<char>,
    pub icon: Option<i32>,
}

impl View for Header {
    type V = HeaderContent;

    open spec fn view(&self) -> HeaderContent {
        HeaderContent {
            label: self.label@,
            dim: self.dim,
            count: self.count@,
            empty: chrome::optional(self.empty),
            hint: self.hint@,
            icon: self.icon,
        }
    }
}

/// What the items of the level are called.
pub open spec fn noun(h: HubModel) -> Seq<char> {
    match h.level {
        LevelModel::Apps => "app"@,
        LevelModel::Windows { .. } => "window"@,
    }
}

/// What can be searched.
pub open spec fn placeholder(h: HubModel) -> Seq<char> {
    match h.level {
        LevelModel::Apps => "Search apps"@,
        LevelModel::Windows { name, .. } => "Search "@ + name + " windows"@,
    }
}

/// What is said where the level has no item at all.
pub open spec fn nothing_here(h: HubModel) -> Seq<char> {
    match h.level {
        LevelModel::Apps => "No apps are running"@,
        LevelModel::Windows { name, .. } => "No "@ + name + " windows are open"@,
    }
}

/// What the keys do.
pub open spec fn hint_text(h: HubModel) -> Seq<char> {
    match h.level {
        LevelModel::Apps =>
            "↑ ↓ ← →  navigate     ⏎  switch     `  windows     1–9  jump     type to filter     esc  close"@,
        LevelModel::Windows { .. } => if h.root_is_apps {
            "↑ ↓ ← →  navigate     ⏎  open     `  next     1–9  jump     type to filter     ⌫  back"@
        } else {
            "↑ ↓ ← →  navigate     ⏎  open     1–9  jump     type to filter     esc  close"@
        },
    }
}

/// How many of the level's items have a card.
pub open spec fn count_text(n: nat, total: nat, noun: Seq<char>) -> Seq<char> {
    if n == total {
        text::decimal_of(total) + " "@ + noun + if total == 1 {
            Seq::empty()
        } else {
            "s"@
        }
    } else {
        text::decimal_of(n) + " of "@ + text::decimal_of(total)
    }
}

/// The app whose icon stands before the search: the first of the level's.
pub open spec fn icon_app(h: HubModel) -> Option<i32> {
    match h.level {
        LevelModel::Apps => None,
        LevelModel::Windows { pids, .. } => if pids.len() > 0 && windows::pids_of(h.apps).contains(
            pids[0],
        ) {
            Some(pids[0])
        } else {
            None
        },
    }
}

/// What stands above and below the cards.
pub open spec fn header_of(h: HubModel) -> HeaderContent {
    HeaderContent {
        label: if h.query.len() == 0 {
            placeholder(h)
        } else {
            h.query
        },
        dim: h.query.len() == 0,
        count: count_text(h.filtered.len(), h.total(), noun(h)),
        empty: if h.filtered.len() > 0 {
            None
        } else if h.total() == 0 {
            Some(nothing_here(h))
        } else {
            Some("No "@ + noun(h) + "s match"@)
        },
        hint: hint_text(h),
        icon: icon_app(h),
    }
}

/// Writes how many of the level's items have a card.
fn count_string(n: usize, total: usize, noun: &str) -> (r: String)
    ensures
        r@ == count_text(n as nat, total as nat, noun@),
{
    if n == total {
        let mut out: String = text::decimal(total as u64);
        out.append(" ");
        out.append(noun);
        if total != 1 {
            out.append("s");
        } else {
            assert(out@ + Seq::<char>::empty() =~= out@);
        }
        out
    } else {
        let mut out: String = text::decimal(n as u64);
        out.append(" of ");
        out.append(text::decimal(total as u64).as_str());
        out
    }
}

/// `before`, `name` and `after` in one text.
fn phrase(before: &str, name: &str, after: &str) -> (r: String)
    ensures
        r@ == before@ + name@ + after@,
{
    let mut out: String = before.to_owned();
    out.append(name);
    out.append(after);
    out
}

/// Whether one of `apps` has this pid.
fn is_app(apps: &Vec<AppEntry>, pid: i32) -> (r: bool)
    ensures
        r == windows::pids_of(windows::app_models(apps@)).contains(pid),
{
    let pids: Vec<i32> = windows::app_pids(apps);
    windows::holds_pid(&pids, pid)
}

/// Which of the cards that show these windows show the window `id`.
pub fn cards_showing(cards: &Vec<Option<u32>>, id: u32) -> (r: Vec<usize>)
    ensures
        hub::positions(r@) == Seq::new(cards@.len(), |i: int| i).filter(
            |i: int| cards@[i] == Some(id),
        ),
{
    let ghost all = Seq::new(cards@.len(), |i: int| i);
    let ghost p = |i: int| cards@[i] == Some(id);
    let mut out: Vec<usize> = Vec::new();
    let mut i: usize = 0;
    assert(hub::positions(out@) =~= all.take(0).filter(p));
    while i < cards.len()
        invariant
            i <= cards.len(),
            all == Seq::new(cards@.len(), |i: int| i),
            p == (|i: int| cards@[i] == Some(id)),
            hub::positions(out@) == all.take(i as int).filter(p),
        decreases cards.len() - i,
    {
        proof {
            assert(all.take(i + 1).drop_last() =~= all.take(i as int));
            reveal(Seq::filter);
        }
        let ghost before = out@;
        let hit: bool = match cards[i] {
            Some(w) => w == id,
            None => false,
        };
        if hit {
            out.push(i);
            assert(hub::positions(out@) =~= hub::positions(before).push(i as int));
        }
        i = i + 1;
    }
    assert(all.take(i as int) =~= all);
    out
}

impl Hub {
    /// What the card of the item at `i` shows.
    pub fn card_model(&self, i: usize) -> (r: CardModel)
        requires
            self@.wf(),
            i < self@.items(),
        ensures
            r@ == card_at(self@, i as int),
    {
        match self.level {
            Level::Apps => {
                proof {
                    let h = self@;
                    windows_laws::law_counts_agree(h.apps[i as int], h.all_windows);
                    assert(h.apps[i as int] == windows::assigned(h.apps[i as int], h.all_windows));
                }
                card_of_app(&self.apps[i])
            },
            Level::Windows { .. } => card_of_window(&self.scope[i]),
        }
    }

    /// Windows whose thumbnails the current level shows.
    pub fn capture_ids(&self) -> (r: Vec<u32>)
        ensures
            r@ == thumbnails(self@),
    {
        let mut out: Vec<u32> = Vec::new();
        let mut i: usize = 0;
        match self.level {
            Level::Apps => {
                let ghost all = self@.apps;
                let ghost open = |a: AppModel| hub::app_listed(a);
                let ghost f = |a: AppModel| a.front;
                assert(all.take(0).filter(open).filter_map(f) =~= Seq::empty());
                while i < self.apps.len()
                    invariant
                        i <= self.apps.len(),
                        all == windows::app_models(self.apps@),
                        open == (|a: AppModel| hub::app_listed(a)),
                        f == (|a: AppModel| a.front),
                        out@ == all.take(i as int).filter(open).filter_map(f),
                    decreases self.apps.len() - i,
                {
                    let ghost before = all.take(i as int).filter(open);
                    proof {
                        assert(all.take(i + 1).drop_last() =~= all.take(i as int));
                        reveal(Seq::filter);
                    }
                    if Hub::listed(&self.apps[i]) {
                        proof {
                            let next = before.push(all[i as int]);
                            assert(next.take(before.len() as int) =~= before);
                            assert(next.take(next.len() as int) =~= next);
                            next.lemma_filter_map_take_succ(f, before.len() as int);
                        }
                        if let Some(id) = self.apps[i].front {
                            out.push(id);
                        }
                    }
                    assert(out@ =~= all.take(i + 1).filter(open).filter_map(f));
                    i = i + 1;
                }
                assert(all.take(i as int) =~= all);
            },
            Level::Windows { .. } => {
                let ghost ids = windows::ids_of(self@.scope);
                while i < self.scope.len()
                    invariant
                        i <= self.scope.len(),
                        ids == windows::ids_of(windows::window_models(self.scope@)),
                        out@ == ids.take(i as int),
                    decreases self.scope.len() - i,
                {
                    out.push(self.scope[i].id);
                    assert(out@ =~= ids.take(i + 1));
                    i = i + 1;
                }
                assert(ids.take(i as int) =~= ids);
            },
        }
        out
    }

    /// What stands above and below the cards.
    pub fn header(&self) -> (r: Header)
        ensures
            r@ == header_of(self@),
    {
        let n: usize = self.filtered.len();
        let total: usize = self.item_count();
        let searching: bool = !self.query.as_str().is_empty();
        match &self.level {
            Level::Apps => {
                let label: String = if searching {
                    self.query.clone()
                } else {
                    "Search apps".to_owned()
                };
                let empty: Option<String> = if n > 0 {
                    None
                } else if total == 0 {
                    Some("No apps are running".to_owned())
                } else {
                    Some(phrase("No ", "app", "s match"))
                };
                Header {
                    label,
                    dim: !searching,
                    count: count_string(n, total, "app"),
                    empty,
                    hint: "↑ ↓ ← →  navigate     ⏎  switch     `  windows     1–9  jump     type to filter     esc  close".to_owned(),
                    icon: None,
                }
            },
            Level::Windows { pids, name } => {
                let label: String = if searching {
                    self.query.clone()
                } else {
                    phrase("Search ", name.as_str(), " windows")
                };
                let empty: Option<String> = if n > 0 {
                    None
                } else if total == 0 {
                    Some(phrase("No ", name.as_str(), " windows are open"))
                } else {
                    Some(phrase("No ", "window", "s match"))
                };
                let hint: String = if self.root_is_apps {
                    "↑ ↓ ← →  navigate     ⏎  open     `  next     1–9  jump     type to filter     ⌫  back".to_owned()
                } else {
                    "↑ ↓ ← →  navigate     ⏎  open     1–9  jump     type to filter     esc  close".to_owned()
                };
                let icon: Option<i32> = if pids.len() > 0 && is_app(&self.apps, pids[0]) {
                    Some(pids[0])
                } else {
                    None
                };
                Header {
                    label,
                    dim: !searching,
                    count: count_string(n, total, "window"),
                    empty,
                    hint,
                    icon,
                }
            },
        }
    }
}

} // verus!
