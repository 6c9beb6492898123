//! What every key, click and system event does to the hub, and what has to
//! happen outside of it in turn.
use vstd::prelude::*;

use crate::chrome;
use crate::focus;
use crate::hub::{Hub, HubModel, Level, LevelModel, Mode, Start};
use crate::hub;
use crate::modifiers;
use crate::tap;
use crate::text;
use crate::windows::{AxCache, Ranking, WindowInfo, WindowModel};
use crate::windows;
use crate::windows_laws;

verus! {

/// What has to happen outside the hub after an event.
pub enum Effect {
    Nothing,
    /// Mark the selected card.
    Mark,
    /// Draw the cards and the header anew.
    Draw,
    /// Draw anew, and capture the thumbnails.
    DrawAndCapture,
    /// Ask Accessibility about these apps, then open their windows (see
    /// [`Hub::open_windows`]), draw and capture.
    Lookup { pids: Vec<i32>, name: String },
    /// List the apps and windows, and open the hub (see [`Hub::prepare_show`]).
    Show { mode: Mode, start: Start },
    /// Take the panel off the screen.
    Hide,
    /// Take the panel off the screen and activate the app.
    Activate { pid: i32 },
    /// Take the panel off the screen and focus the window; then see
    /// [`after_focus`].
    Focus { window: WindowInfo },
    /// Bring the app forward with all its windows.
    BringForward { pid: i32 },
    /// Capture the thumbnails, and ask Accessibility about every app in the
    /// background (see [`Hub::ax_refreshed`]).
    Refresh,
}

/// What an [`Effect`] holds.
pub enum EffectModel {
    Nothing,
    Mark,
    Draw,
    DrawAndCapture,
    Lookup { pids: Seq<i32>, name: Seq<char> },
    Show { mode: Mode, start: Start },
    Hide,
    Activate { pid: i32 },
    Focus { window: WindowModel },
    BringForward { pid: i32 },
    Refresh,
}

impl View for Effect {
    type V = EffectModel;

    open spec fn view(&self) -> EffectModel {
        match self {
            Effect::Nothing => EffectModel::Nothing,
            Effect::Mark => EffectModel::Mark,
            Effect::Draw => EffectModel::Draw,
            Effect::DrawAndCapture => EffectModel::DrawAndCapture,
            Effect::Lookup { pids, name } => EffectModel::Lookup { pids: pids@, name: name@ },
            Effect::Show { mode, start } => EffectModel::Show { mode: *mode, start: *start },
            Effect::Hide => EffectModel::Hide,
            Effect::Activate { pid } => EffectModel::Activate { pid: *pid },
            Effect::Focus { window } => EffectModel::Focus { window: window@ },
            Effect::BringForward { pid } => EffectModel::BringForward { pid: *pid },
            Effect::Refresh => EffectModel::Refresh,
        }
    }
}

/// A key press in the panel.
pub struct KeyPress {
    pub code: u16,
    /// The modifiers that are held.
    pub flags: u64,
    /// The characters that the key types.
    pub chars: Option<String>,
}

pub const KEY_TAB: u16 = 48;

pub const KEY_SPACE: u16 = 49;

pub const KEY_GRAVE: u16 = 50;

pub const KEY_DELETE: u16 = 51;

pub const KEY_ESC: u16 = 53;

pub const KEY_RETURN: u16 = 36;

pub const KEY_ENTER: u16 = 76;

pub const KEY_LEFT: u16 = 123;

pub const KEY_RIGHT: u16 = 124;

pub const KEY_DOWN: u16 = 125;

pub const KEY_UP: u16 = 126;

/// ⌥Tab: Chrome windows; hold to browse, release to switch.
pub const HOTKEY_SWITCH: u32 = 1;

/// ⌥`: Chrome windows; stays open.
pub const HOTKEY_BROWSE: u32 = 2;

// ---- What each event does ---------------------------------------------------

/// Mark the selected card where the selection changed.
pub open spec fn mark_if(changed: bool) -> EffectModel {
    if changed {
        EffectModel::Mark
    } else {
        EffectModel::Nothing
    }
}

/// One card on, or one back.
pub open spec fn direction(back: bool) -> int {
    if back {
        -1
    } else {
        1
    }
}

/// A character that a key does not type: a control character, or one that
/// stands for an arrow, F-key or other special key.
pub open spec fn untyped(c: char) -> bool {
    text::control(c) || '\u{F700}' <= c <= '\u{F8FF}'
}

/// The hub moved by `delta` cards.
pub open spec fn moved(h: HubModel, delta: int) -> (HubModel, EffectModel) {
    let next = h.stepped(delta);
    (next, mark_if(next.selected != h.selected))
}

/// The selection committed: the hub closes, and the selected app or window
/// comes to the front. A closed hub stays as it is.
pub open spec fn committed(h: HubModel) -> (HubModel, EffectModel) {
    if !h.visible {
        (h, EffectModel::Nothing)
    } else if h.selected >= h.filtered.len() {
        (h.closed_up(), EffectModel::Hide)
    } else {
        let i = h.filtered[h.selected];
        (
            h.closed_up(),
            match h.level {
                LevelModel::Apps => EffectModel::Activate { pid: h.apps[i].pid },
                LevelModel::Windows { .. } => EffectModel::Focus { window: h.scope[i] },
            },
        )
    }
}

/// What follows an attempt to focus a window: where it failed (Accessibility is
/// not granted yet), its app at least comes forward.
pub open spec fn focus_followed(window: WindowModel, focused: bool) -> EffectModel {
    if focused {
        EffectModel::Nothing
    } else {
        EffectModel::BringForward { pid: window.pid }
    }
}

/// The selected app's windows asked for.
pub open spec fn entered(h: HubModel) -> EffectModel {
    match h.entrance() {
        Some((pid, name)) => EffectModel::Lookup { pids: seq![pid], name },
        None => EffectModel::Nothing,
    }
}

/// Back up to the apps, where that is possible.
pub open spec fn backed(h: HubModel) -> (HubModel, EffectModel) {
    if h.can_go_back() {
        (h.gone_back(), EffectModel::DrawAndCapture)
    } else {
        (h, EffectModel::Nothing)
    }
}

/// ⌘`, ` or Space: at the Apps level the selected app's windows, at the Windows level
/// the next (or previous) window.
pub open spec fn cycled(h: HubModel, back: bool) -> (HubModel, EffectModel) {
    if h.at_apps() {
        (h, entered(h))
    } else {
        moved(h, direction(back))
    }
}

/// Esc: clears the search; without one, goes back up; from the top, closes.
pub open spec fn escaped(h: HubModel) -> (HubModel, EffectModel) {
    if h.query.len() > 0 {
        ((HubModel { query: Seq::empty(), ..h }).rebuilt(), EffectModel::Draw)
    } else if h.can_go_back() {
        backed(h)
    } else {
        (h.closed_up(), EffectModel::Hide)
    }
}

/// ⌫: deletes a character of the search; without one, goes back up.
pub open spec fn deleted(h: HubModel) -> (HubModel, EffectModel) {
    if h.query.len() > 0 {
        ((HubModel { query: h.query.drop_last(), ..h }).rebuilt(), EffectModel::Draw)
    } else {
        backed(h)
    }
}

/// Space: a character of a search that has begun; else like `.
pub open spec fn spaced(h: HubModel, back: bool) -> (HubModel, EffectModel) {
    if h.query.len() > 0 {
        (h.searching(h.query.push(' ')), EffectModel::Draw)
    } else {
        cycled(h, back)
    }
}

/// The card that a typed digit jumps to: from 1 on, where there is such a card
/// and no search has begun.
pub open spec fn jump_to(h: HubModel, c: char) -> Option<int> {
    if h.query.len() == 0 && '1' <= c <= '9' && (c as int - '1' as int) < h.filtered.len() {
        Some(c as int - '1' as int)
    } else {
        None
    }
}

/// The characters from `from` on typed, one after the other, until one jumps;
/// `so_far` is what the earlier ones left to do.
pub open spec fn typed(
    h: HubModel,
    chars: Seq<char>,
    from: int,
    so_far: EffectModel,
) -> (HubModel, EffectModel)
    decreases chars.len() - from,
{
    if from < 0 || from >= chars.len() {
        (h, so_far)
    } else if untyped(chars[from]) {
        typed(h, chars, from + 1, so_far)
    } else {
        match jump_to(h, chars[from]) {
            Some(i) => committed(h.selecting(i)),
            None => typed(
                h.searching(h.query.push(chars[from])),
                chars,
                from + 1,
                EffectModel::Draw,
            ),
        }
    }
}

/// The modifier that keeps the switcher open is held.
pub open spec fn holding(h: HubModel, flags: u64) -> bool {
    h.mode matches Mode::Switch(m) && modifiers::all_held(flags, m)
}

/// Any other key: types its characters, unless ⌘ or ⌃ is held or the modifier
/// that keeps the switcher open.
pub open spec fn other_key(
    h: HubModel,
    flags: u64,
    chars: Option<Seq<char>>,
) -> (HubModel, EffectModel) {
    if modifiers::any_held(flags, modifiers::COMMAND | modifiers::CONTROL) || holding(h, flags) {
        (h, EffectModel::Nothing)
    } else {
        match chars {
            Some(cs) => typed(h, cs, 0, EffectModel::Nothing),
            None => (h, EffectModel::Nothing),
        }
    }
}

/// What a key does.
pub open spec fn key_pressed(
    h: HubModel,
    code: u16,
    flags: u64,
    chars: Option<Seq<char>>,
) -> (HubModel, EffectModel) {
    let shift = modifiers::all_held(flags, modifiers::SHIFT);
    if code == KEY_ESC {
        escaped(h)
    } else if code == KEY_RETURN || code == KEY_ENTER {
        committed(h)
    } else if code == KEY_SPACE {
        spaced(h, shift)
    } else if code == KEY_GRAVE {
        cycled(h, shift)
    } else if code == KEY_TAB {
        moved(h, direction(shift))
    } else if code == KEY_LEFT {
        moved(h, -1)
    } else if code == KEY_RIGHT {
        moved(h, 1)
    } else if code == KEY_UP {
        moved(h, -(h.cols as int))
    } else if code == KEY_DOWN {
        moved(h, h.cols as int)
    } else if code == KEY_DELETE {
        deleted(h)
    } else {
        other_key(h, flags, chars)
    }
}

/// The modifiers changed to `flags`: a switcher whose modifier is up commits.
pub open spec fn flags_changed(h: HubModel, flags: u64) -> (HubModel, EffectModel) {
    if h.visible && h.mode is Switch && !holding(h, flags) {
        committed(h)
    } else {
        (h, EffectModel::Nothing)
    }
}

/// What a hotkey does: ⌥Tab opens Chrome's windows, or moves on in an open
/// hub; ⌥` opens them to browse, or closes the hub.
pub open spec fn hotkey_pressed(h: HubModel, id: u32, shift: bool) -> (HubModel, EffectModel) {
    if id == HOTKEY_SWITCH {
        if h.visible {
            moved(h, direction(shift))
        } else {
            (
                h,
                EffectModel::Show { mode: Mode::Switch(modifiers::OPTION), start: Start::Chrome },
            )
        }
    } else if id == HOTKEY_BROWSE {
        if h.visible {
            (h.closed_up(), EffectModel::Hide)
        } else {
            (h, EffectModel::Show { mode: Mode::Browse, start: Start::Chrome })
        }
    } else {
        (h, EffectModel::Nothing)
    }
}

/// What a key that the tap swallowed does: ⌘Tab opens the apps, or makes an
/// open hub a switcher and moves on in it; ⌘` cycles.
pub open spec fn tapped(h: HubModel, key: tap::Key, shift: bool) -> (HubModel, EffectModel) {
    match key {
        tap::Key::Tab => if h.visible {
            moved(
                HubModel { mode: Mode::Switch(modifiers::COMMAND), ..h },
                direction(shift),
            )
        } else {
            (
                h,
                EffectModel::Show { mode: Mode::Switch(modifiers::COMMAND), start: Start::Apps },
            )
        },
        tap::Key::Grave => cycled(h, shift),
    }
}

/// ⌘ went up: a ⌘Tab switcher commits.
pub open spec fn command_released(h: HubModel) -> (HubModel, EffectModel) {
    if h.visible && h.mode == Mode::Switch(modifiers::COMMAND) {
        committed(h)
    } else {
        (h, EffectModel::Nothing)
    }
}

/// Opens a closed hub, closes an open one.
pub open spec fn toggled(h: HubModel, mode: Mode, start: Start) -> (HubModel, EffectModel) {
    if h.visible {
        (h.closed_up(), EffectModel::Hide)
    } else {
        (h, EffectModel::Show { mode, start })
    }
}

/// The hub has just appeared, and `flags` are held now: a switcher whose
/// modifier is already up commits at once, like a tap of ⌘Tab.
pub open spec fn appeared(h: HubModel, mode: Mode, flags: u64) -> (HubModel, EffectModel) {
    match mode {
        Mode::Switch(held) if !modifiers::all_held(flags, held) => committed(h),
        _ => (h, EffectModel::Refresh),
    }
}

/// A click on the card at `i`, or on its "show windows" button.
pub open spec fn clicked(h: HubModel, i: int, expand: bool) -> (HubModel, EffectModel) {
    let next = h.selecting(i);
    if !expand {
        committed(next)
    } else if next.entrance() is Some {
        (next, entered(next))
    } else {
        (next, mark_if(next.selected != h.selected))
    }
}

/// Where the app that stands at `i` among the pids `before` stands in `after`.
pub open spec fn place_after(before: Seq<i32>, after: Seq<i32>, i: int) -> int {
    match windows::position(after, before[i]) {
        Some(p) => p,
        None => i,
    }
}

/// The app cards of `h` carried over to `next`, where the apps may stand in
/// another order: every card stands for the app that it stood for.
pub open spec fn carried(h: HubModel, next: HubModel) -> HubModel {
    if h.at_apps() {
        HubModel {
            filtered: h.filtered.map_values(
                |i: int| place_after(windows::pids_of(h.apps), windows::pids_of(next.apps), i),
            ),
            ..next
        }
    } else {
        next
    }
}

/// Accessibility's answers for `pids` that were asked for in `generation`: the
/// answers for other apps are forgotten. Where some app's windows changed and
/// the app cards of that opening are still shown, they are made anew; else
/// every card stands for what it stood for.
pub open spec fn answered(
    h: HubModel,
    pids: Seq<i32>,
    ax: Map<i32, Map<u32, focus::AxModel>>,
    generation: u64,
    mru: Seq<i32>,
    front: Option<i32>,
) -> (HubModel, EffectModel) {
    let known = HubModel { ax_cache: h.ax_cache.restrict(pids.to_set()), ..h }.knowing(ax);
    let next = known.refreshed(mru, front);
    if known.windows_changed() && h.visible && h.generation == generation && h.at_apps() {
        (next.rebuilt(), EffectModel::DrawAndCapture)
    } else {
        (carried(h, next), EffectModel::Nothing)
    }
}

// ---- The events -------------------------------------------------------------

/// Whether the tap swallows a key: ⌘Tab always, ⌘` while the hub is open. While
/// it is closed ⌘` keeps its normal meaning.
pub fn swallows(key: tap::Key, visible: bool) -> (r: bool)
    ensures
        r == (key == tap::Key::Tab || visible),
{
    match key {
        tap::Key::Tab => true,
        tap::Key::Grave => visible,
    }
}

/// Decides what follows an attempt to focus a window.
pub fn after_focus(window: &WindowInfo, focused: bool) -> (r: Effect)
    ensures
        r@ == focus_followed(window@, focused),
{
    if focused {
        Effect::Nothing
    } else {
        Effect::BringForward { pid: window.pid }
    }
}

fn mark(changed: bool) -> (r: Effect)
    ensures
        r@ == mark_if(changed),
{
    if changed {
        Effect::Mark
    } else {
        Effect::Nothing
    }
}

/// Where the cards `filtered`, made when the apps had the pids `before`, stand
/// among the pids `after`.
fn carry(before: &Vec<i32>, after: &Vec<i32>, filtered: &Vec<usize>) -> (r: Vec<usize>)
    requires
        forall|k: int| 0 <= k < filtered.len() ==> (#[trigger] filtered@[k]) < before.len(),
    ensures
        hub::positions(r@) == hub::positions(filtered@).map_values(
            |i: int| place_after(before@, after@, i),
        ),
{
    let mut out: Vec<usize> = Vec::new();
    let mut k: usize = 0;
    while k < filtered.len()
        invariant
            k <= filtered.len(),
            forall|k: int| 0 <= k < filtered.len() ==> (#[trigger] filtered@[k]) < before.len(),
            out.len() == k,
            forall|j: int|
                0 <= j < k ==> #[trigger] out@[j] as int == place_after(
                    before@,
                    after@,
                    filtered@[j] as int,
                ),
        decreases filtered.len() - k,
    {
        let i: usize = filtered[k];
        let place: usize = match windows::position_of(after, before[i]) {
            Some(p) => p,
            None => i,
        };
        out.push(place);
        k = k + 1;
    }
    assert(hub::positions(out@) =~= hub::positions(filtered@).map_values(
        |i: int| place_after(before@, after@, i),
    ));
    out
}

impl Hub {
    /// Moves one card on, or one back.
    fn step_once(&mut self, back: bool) -> (r: Effect)
        requires
            old(self)@.wf(),
        ensures
            (final(self)@, r@) == moved(old(self)@, direction(back)),
            final(self)@.wf(),
    {
        proof {
            lemma_moved(self@, direction(back));
        }
        let changed: bool = self.step(
            if back {
                -1
            } else {
                1
            },
        );
        mark(changed)
    }

    /// Moves one row up or down.
    fn step_line(&mut self, up: bool) -> (r: Effect)
        requires
            old(self)@.wf(),
        ensures
            (final(self)@, r@) == moved(
                old(self)@,
                if up {
                    -(old(self)@.cols as int)
                } else {
                    old(self)@.cols as int
                },
            ),
            final(self)@.wf(),
    {
        proof {
            lemma_moved(
                self@,
                if up {
                    -(self@.cols as int)
                } else {
                    self@.cols as int
                },
            );
        }
        let changed: bool = self.step_row(up);
        mark(changed)
    }

    /// Closes the hub.
    pub fn hide_panel(&mut self) -> (r: Effect)
        requires
            old(self)@.wf(),
        ensures
            final(self)@ == old(self)@.closed_up(),
            r@ == EffectModel::Hide,
            final(self)@.wf(),
    {
        let ghost h = self@;
        self.visible = false;
        self.generation = self.generation.wrapping_add(1);
        assert(self@ =~= h.closed_up());
        Effect::Hide
    }

    /// Opens a closed hub, closes an open one.
    pub fn toggle_panel(&mut self, mode: Mode, start: Start) -> (r: Effect)
        requires
            old(self)@.wf(),
        ensures
            (final(self)@, r@) == toggled(old(self)@, mode, start),
            final(self)@.wf(),
    {
        if self.visible {
            self.hide_panel()
        } else {
            Effect::Show { mode, start }
        }
    }

    /// Commits the selection.
    pub fn commit_selection(&mut self) -> (r: Effect)
        requires
            old(self)@.wf(),
        ensures
            (final(self)@, r@) == committed(old(self)@),
            final(self)@.wf(),
    {
        if !self.visible {
            return Effect::Nothing;
        }
        if self.selected >= self.filtered.len() {
            return self.hide_panel();
        }
        let i: usize = self.filtered[self.selected];
        assert(self@.filtered[self.selected as int] == i as int);
        let target: Effect = match self.level {
            Level::Apps => Effect::Activate { pid: self.apps[i].pid },
            Level::Windows { .. } => Effect::Focus { window: self.scope[i].clone() },
        };
        let _ = self.hide_panel();
        target
    }

    /// Asks for the selected app's windows. Nothing where there is nothing to
    /// open.
    pub fn enter_selected(&self) -> (r: Effect)
        requires
            self@.wf(),
        ensures
            r@ == entered(self@),
    {
        if !self.at_apps() || self.selected >= self.filtered.len() {
            return Effect::Nothing;
        }
        let i: usize = self.filtered[self.selected];
        assert(self@.filtered[self.selected as int] == i as int);
        if self.apps[i].windows.len() == 0 {
            return Effect::Nothing;
        }
        let mut pids: Vec<i32> = Vec::new();
        pids.push(self.apps[i].pid);
        assert(pids@ =~= seq![self@.apps[i as int].pid]);
        Effect::Lookup { pids, name: self.apps[i].name.clone() }
    }

    /// Goes back up to the apps, where that is possible.
    pub fn go_back(&mut self) -> (r: Effect)
        requires
            old(self)@.wf(),
        ensures
            (final(self)@, r@) == backed(old(self)@),
            final(self)@.wf(),
    {
        if self.back() {
            Effect::DrawAndCapture
        } else {
            Effect::Nothing
        }
    }

    /// ⌘` / Space: at the Apps level opens the selected app's windows, at the
    /// Windows level moves to the next (or previous) window.
    pub fn cycle_windows(&mut self, backwards: bool) -> (r: Effect)
        requires
            old(self)@.wf(),
        ensures
            (final(self)@, r@) == cycled(old(self)@, backwards),
            final(self)@.wf(),
    {
        if self.at_apps() {
            self.enter_selected()
        } else {
            self.step_once(backwards)
        }
    }

    /// Esc.
    fn escape(&mut self) -> (r: Effect)
        requires
            old(self)@.wf(),
        ensures
            (final(self)@, r@) == escaped(old(self)@),
            final(self)@.wf(),
    {
        if !self.query.as_str().is_empty() {
            self.query = String::new();
            proof {
                hub::lemma_rebuilt(self@);
            }
            self.rebuild();
            return Effect::Draw;
        }
        if self.back() {
            Effect::DrawAndCapture
        } else {
            self.hide_panel()
        }
    }

    /// ⌫.
    fn delete(&mut self) -> (r: Effect)
        requires
            old(self)@.wf(),
        ensures
            (final(self)@, r@) == deleted(old(self)@),
            final(self)@.wf(),
    {
        let n: usize = self.query.as_str().unicode_len();
        if n > 0 {
            let ghost q = self.query@;
            let rest: String = self.query.as_str().substring_char(0, n - 1).to_owned();
            assert(rest@ =~= q.drop_last());
            self.query = rest;
            proof {
                hub::lemma_rebuilt(self@);
            }
            self.rebuild();
            return Effect::Draw;
        }
        self.go_back()
    }

    /// Space.
    fn space(&mut self, back: bool) -> (r: Effect)
        requires
            old(self)@.wf(),
        ensures
            (final(self)@, r@) == spaced(old(self)@, back),
            final(self)@.wf(),
    {
        if !self.query.as_str().is_empty() {
            proof {
                lemma_searching(self@, self@.query.push(' '));
            }
            self.type_char(' ');
            Effect::Draw
        } else {
            self.cycle_windows(back)
        }
    }

    /// Any key that only types.
    fn type_chars(&mut self, flags: u64, chars: &Option<String>) -> (r: Effect)
        requires
            old(self)@.wf(),
        ensures
            (final(self)@, r@) == other_key(old(self)@, flags, chrome::optional(*chars)),
            final(self)@.wf(),
    {
        if modifiers::intersects(flags, modifiers::COMMAND | modifiers::CONTROL) {
            return Effect::Nothing;
        }
        if let Mode::Switch(m) = self.mode {
            if modifiers::contains(flags, m) {
                return Effect::Nothing;
            }
        }
        let cs: Vec<char> = match chars {
            Some(s) => text::chars_of(s.as_str()),
            None => {
                return Effect::Nothing;
            },
        };
        let ghost h = self@;
        let mut drawn: bool = false;
        let mut i: usize = 0;
        while i < cs.len()
            invariant
                i <= cs.len(),
                h == old(self)@,
                self@.wf(),
                cs@ == chrome::optional(*chars)->0,
                other_key(h, flags, chrome::optional(*chars)) == typed(
                    h,
                    cs@,
                    0,
                    EffectModel::Nothing,
                ),
                typed(h, cs@, 0, EffectModel::Nothing) == typed(
                    self@,
                    cs@,
                    i as int,
                    if drawn {
                        EffectModel::Draw
                    } else {
                        EffectModel::Nothing
                    },
                ),
            decreases cs.len() - i,
        {
            let c: char = cs[i];
            if !(text::is_control(c) || ('\u{F700}' <= c && c <= '\u{F8FF}')) {
                if self.query.as_str().is_empty() && '1' <= c && c <= '9' {
                    let k: usize = (c as u32 - 49) as usize;
                    if k < self.filtered.len() {
                        let _ = self.select(k);
                        return self.commit_selection();
                    }
                }
                proof {
                    lemma_searching(self@, self@.query.push(c));
                }
                self.type_char(c);
                drawn = true;
            }
            i = i + 1;
        }
        if drawn {
            Effect::Draw
        } else {
            Effect::Nothing
        }
    }

    /// A key press in the panel.
    pub fn handle_key(&mut self, key: &KeyPress) -> (r: Effect)
        requires
            old(self)@.wf(),
        ensures
            (final(self)@, r@) == key_pressed(
                old(self)@,
                key.code,
                key.flags,
                chrome::optional(key.chars),
            ),
            final(self)@.wf(),
    {
        let shift: bool = modifiers::contains(key.flags, modifiers::SHIFT);
        if key.code == KEY_ESC {
            self.escape()
        } else if key.code == KEY_RETURN || key.code == KEY_ENTER {
            self.commit_selection()
        } else if key.code == KEY_SPACE {
            self.space(shift)
        } else if key.code == KEY_GRAVE {
            self.cycle_windows(shift)
        } else if key.code == KEY_TAB {
            self.step_once(shift)
        } else if key.code == KEY_LEFT {
            self.step_once(true)
        } else if key.code == KEY_RIGHT {
            self.step_once(false)
        } else if key.code == KEY_UP {
            self.step_line(true)
        } else if key.code == KEY_DOWN {
            self.step_line(false)
        } else if key.code == KEY_DELETE {
            self.delete()
        } else {
            self.type_chars(key.flags, &key.chars)
        }
    }

    /// The modifiers changed while the panel has the keyboard.
    pub fn handle_flags(&mut self, flags: u64) -> (r: Effect)
        requires
            old(self)@.wf(),
        ensures
            (final(self)@, r@) == flags_changed(old(self)@, flags),
            final(self)@.wf(),
    {
        let released: bool = match self.mode {
            Mode::Switch(m) => !modifiers::contains(flags, m),
            Mode::Browse => false,
        };
        if self.visible && released {
            self.commit_selection()
        } else {
            Effect::Nothing
        }
    }

    /// ⌥Tab / ⌥`: straight into the Chrome windows.
    pub fn on_hotkey(&mut self, id: u32, shift: bool) -> (r: Effect)
        requires
            old(self)@.wf(),
        ensures
            (final(self)@, r@) == hotkey_pressed(old(self)@, id, shift),
            final(self)@.wf(),
    {
        if id == HOTKEY_SWITCH {
            if self.visible {
                self.step_once(shift)
            } else {
                Effect::Show { mode: Mode::Switch(modifiers::OPTION), start: Start::Chrome }
            }
        } else if id == HOTKEY_BROWSE {
            self.toggle_panel(Mode::Browse, Start::Chrome)
        } else {
            Effect::Nothing
        }
    }

    /// ⌘Tab / ⌘` from the event tap, once the tap has swallowed it (see
    /// [`swallows`]).
    pub fn on_tap_key(&mut self, key: tap::Key, shift: bool) -> (r: Effect)
        requires
            old(self)@.wf(),
        ensures
            (final(self)@, r@) == tapped(old(self)@, key, shift),
            final(self)@.wf(),
    {
        match key {
            tap::Key::Tab => if self.visible {
                self.mode = Mode::Switch(modifiers::COMMAND);
                self.step_once(shift)
            } else {
                Effect::Show { mode: Mode::Switch(modifiers::COMMAND), start: Start::Apps }
            },
            tap::Key::Grave => self.cycle_windows(shift),
        }
    }

    /// ⌘ went up.
    pub fn on_cmd_up(&mut self) -> (r: Effect)
        requires
            old(self)@.wf(),
        ensures
            (final(self)@, r@) == command_released(old(self)@),
            final(self)@.wf(),
    {
        let switching: bool = match self.mode {
            Mode::Switch(m) => m == modifiers::COMMAND,
            Mode::Browse => false,
        };
        if self.visible && switching {
            self.commit_selection()
        } else {
            Effect::Nothing
        }
    }

    /// The hub was opened in `mode` and is on the screen; `flags` are held now.
    pub fn show_panel(&mut self, mode: Mode, flags: u64) -> (r: Effect)
        requires
            old(self)@.wf(),
        ensures
            (final(self)@, r@) == appeared(old(self)@, mode, flags),
            final(self)@.wf(),
    {
        if let Mode::Switch(held) = mode {
            if !modifiers::contains(flags, held) {
                return self.commit_selection();
            }
        }
        Effect::Refresh
    }

    /// The panel lost the keyboard: someone clicked elsewhere.
    pub fn resign_key(&mut self) -> (r: Effect)
        requires
            old(self)@.wf(),
        ensures
            old(self)@.visible ==> final(self)@ == old(self)@.closed_up() && r@
                == EffectModel::Hide,
            !old(self)@.visible ==> final(self)@ == old(self)@ && r@ == EffectModel::Nothing,
            final(self)@.wf(),
    {
        if self.visible {
            self.hide_panel()
        } else {
            Effect::Nothing
        }
    }

    /// A click on the card at `i`, or on its "show windows" button.
    pub fn click(&mut self, i: usize, expand: bool) -> (r: Effect)
        requires
            old(self)@.wf(),
        ensures
            (final(self)@, r@) == clicked(old(self)@, i as int, expand),
            final(self)@.wf(),
    {
        let changed: bool = self.select(i);
        if !expand {
            return self.commit_selection();
        }
        match self.enter_selected() {
            Effect::Lookup { pids, name } => Effect::Lookup { pids, name },
            _ => mark(changed),
        }
    }

    /// Accessibility answered in the background for `pids`, asked for in
    /// `generation`.
    pub fn ax_refreshed(
        &mut self,
        pids: &Vec<i32>,
        ax: &AxCache,
        generation: u64,
        mru: &Vec<i32>,
        front: Option<i32>,
    ) -> (r: Effect)
        requires
            old(self)@.wf(),
        ensures
            (final(self)@, r@) == answered(
                old(self)@,
                pids@,
                windows::ax_view(*ax),
                generation,
                mru@,
                front,
            ),
            final(self)@.wf(),
    {
        let ghost h = self@;
        let places: Vec<i32> = windows::app_pids(&self.apps);
        windows::retain_pids(&mut self.ax_cache, pids);
        windows::extend_cache(&mut self.ax_cache, ax);
        let ghost known = self@;
        assert(known =~= (HubModel { ax_cache: h.ax_cache.restrict(pids@.to_set()), ..h }).knowing(
            windows::ax_view(*ax),
        ));
        let changed: bool = self.refresh_from_ax(mru, front);
        proof {
            lemma_refreshed(h, known, mru@, front);
        }
        if changed && self.visible && self.generation == generation && self.at_apps() {
            proof {
                hub::lemma_rebuilt(self@);
            }
            self.rebuild();
            return Effect::DrawAndCapture;
        }
        if self.at_apps() {
            let ghost next = self@;
            proof {
                lemma_carried(h, next);
                assert forall|k: int| 0 <= k < self.filtered.len() implies (
                #[trigger] self.filtered@[k]) < places.len() by {
                    assert(h.filtered[k] == self.filtered@[k] as int);
                }
            }
            let now: Vec<i32> = windows::app_pids(&self.apps);
            self.filtered = carry(&places, &now, &self.filtered);
            assert(self@ =~= carried(h, next));
        }
        Effect::Nothing
    }

    /// Whether a thumbnail that was asked for in `generation` is still wanted.
    pub fn accepts_capture(&self, generation: u64) -> (r: bool)
        ensures
            r == (self@.generation == generation),
    {
        self.generation == generation
    }
}

/// Moving the selection keeps the hub well-formed.
pub proof fn lemma_moved(h: HubModel, delta: int)
    requires
        h.wf(),
    ensures
        h.stepped(delta).wf(),
{
    if h.filtered.len() > 0 {
        vstd::arithmetic::div_mod::lemma_mod_bound(
            h.selected + delta,
            h.filtered.len() as int,
        );
    }
}

/// Another search keeps the hub well-formed.
pub proof fn lemma_searching(h: HubModel, query: Seq<char>)
    requires
        h.wf(),
    ensures
        h.searching(query).wf(),
{
    hub::lemma_rebuilt(HubModel { query, selected: 0, ..h });
}

/// Cards that are carried over to as many apps stand for apps.
pub proof fn lemma_carried(h: HubModel, next: HubModel)
    requires
        h.wf(),
        next.wf(),
        next.level == h.level,
        next.filtered == h.filtered,
        next.apps.len() == h.apps.len(),
        h.at_apps(),
    ensures
        carried(h, next).wf(),
{
    let c = carried(h, next);
    assert forall|k: int| 0 <= k < c.filtered.len() implies 0 <= #[trigger] c.filtered[k]
        < c.items() by {
        let i = h.filtered[k];
        let (before, after) = (windows::pids_of(h.apps), windows::pids_of(next.apps));
        windows_laws::lemma_position(after, before[i]);
        assert(c.filtered[k] == place_after(before, after, i));
    }
}

/// Deriving the app lists anew keeps the hub well-formed: as many apps are
/// listed as before, and they agree with the windows.
pub proof fn lemma_refreshed(h: HubModel, known: HubModel, mru: Seq<i32>, front: Option<i32>)
    requires
        h.wf(),
        known == (HubModel { ax_cache: known.ax_cache, ..h }),
    ensures
        known.refreshed(mru, front).wf(),
        known.refreshed(mru, front).apps.len() == h.apps.len(),
{
    let ws = windows::applied(known.raw_windows, known.ax_cache, known.apps);
    let rank = Ranking { front, windows: ws, mru };
    windows_laws::law_refresh_is_coherent(
        rank,
        known.apps,
        known.raw_windows,
        known.ax_cache,
    );
    windows_laws::law_order_keeps_apps(rank, windows::all_assigned(known.apps, ws));
    let r = known.refreshed(mru, front);
    assert(r.items() == h.items());
}

} // verus!
