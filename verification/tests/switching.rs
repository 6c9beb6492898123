use chromehub::cards::{badge, cards_showing, color_of, profile_color, thumbnails_kept, Color};
use chromehub::events::{
    after_focus, swallows, Effect, KeyPress, HOTKEY_BROWSE, HOTKEY_SWITCH, KEY_DELETE, KEY_DOWN, KEY_ENTER, KEY_ESC, KEY_GRAVE,
    KEY_LEFT, KEY_RETURN, KEY_RIGHT, KEY_SPACE, KEY_TAB, KEY_UP,
};
use chromehub::focus::AxWindow;
use chromehub::hub::{chrome_pids, matches_words, Hub, Level, Mode, Start};
use chromehub::modifiers::{COMMAND, CONTROL, OPTION, SHIFT};
use chromehub::tap::Key;
use chromehub::windows::{ax_lookup, snapshot, AxCache, AxReply, CgBounds, CgWindow, RunningApp, Snapshot};
use std::collections::hash_map::DefaultHasher;
use std::hash::{Hash, Hasher};

// Apps 1 (Mail, two windows), 2 (Google Chrome, three windows), 3 (Notes, one
// window on another desktop) and 4 (Idle, none). Mail is in front.

fn running(pid: i32, name: &str) -> RunningApp {
    RunningApp { pid, regular: true, terminated: false, name: Some(name.to_string()), hidden: false }
}

fn listed(id: u32, pid: i32, owner: &str, name: &str, on_screen: bool) -> CgWindow {
    CgWindow {
        pid: Some(pid),
        layer: Some(0),
        alpha: Some(1000),
        bounds: Some(CgBounds { x: Some(0), y: Some(0), width: Some(900_000), height: Some(700_000) }),
        id: Some(id),
        owner: Some(owner.to_string()),
        name: Some(name.to_string()),
        on_screen: Some(on_screen),
        current_spaces: Some(if on_screen { 1 } else { 0 }),
        all_spaces: Some(1),
    }
}

fn list_system(ax: &AxCache) -> Snapshot {
    let apps = vec![running(1, "Mail"), running(2, "Google Chrome"), running(3, "Notes"), running(4, "Idle")];
    let records = vec![
        listed(10, 1, "Mail", "Inbox", true),
        listed(20, 2, "Google Chrome", "Docs - Google Chrome - Work", true),
        listed(11, 1, "Mail", "", true),
        listed(21, 2, "Google Chrome", "News - Google Chrome - Home (a@b.c)", true),
        listed(22, 2, "Google Chrome", "Music - Google Chrome - Home", true),
        listed(30, 3, "Notes", "List", false),
    ];
    snapshot(&apps, 99, &records, &vec![1, 2, 3], ax, Some(1))
}

fn answer(pid: i32, ids: &[(u32, bool)]) -> AxReply {
    let windows = ids
        .iter()
        .map(|&(id, minimized)| AxWindow { id, minimized, standard: true, title: "T".to_string() })
        .collect();
    AxReply { pid, windows: Some(windows) }
}

fn mru() -> Vec<i32> {
    vec![1, 2, 3]
}

fn open(mode: Mode, start: Start) -> Hub {
    let mut h = Hub::new();
    let snap = list_system(&h.ax_cache);
    h.prepare_show(mode, start, snap, &AxCache::new(), Some(1), &mru(), Some(4));
    h
}

fn press(code: u16) -> KeyPress {
    KeyPress { code, flags: 0, chars: None }
}

fn typed(s: &str) -> KeyPress {
    KeyPress { code: 0, flags: 0, chars: Some(s.to_string()) }
}

fn card_pids(h: &Hub) -> Vec<i32> {
    h.filtered.iter().map(|&i| h.apps[i].pid).collect()
}

fn scope_ids(h: &Hub) -> Vec<u32> {
    h.scope.iter().map(|w| w.id).collect()
}

fn enter(h: &mut Hub, replies: &Vec<AxReply>) {
    match h.enter_selected() {
        Effect::Lookup { pids, name } => h.open_windows(pids, name, &ax_lookup(replies), Some(1), &mru()),
        _ => panic!("nothing to enter"),
    }
}

// ---- Opening ----------------------------------------------------------------

#[test]
fn a_new_hub_is_closed_and_empty() {
    let h = Hub::new();
    assert!(!h.visible && h.at_apps());
    assert_eq!((h.filtered.len(), h.selected, h.cols, h.generation), (0, 0, 1, 0));
    assert_eq!(h.header().empty.as_deref(), Some("No apps are running"));
    assert_eq!(h.header().count, "0 apps");
}

#[test]
fn only_open_apps_have_cards() {
    let h = open(Mode::Browse, Start::Apps);
    assert!(h.visible);
    assert_eq!(card_pids(&h), vec![1, 2, 3]);
    assert_eq!(h.item_count(), 3);
    assert_eq!(h.selected, 0);
    assert_eq!(h.generation, 1);
    assert_eq!(h.cols, 3);
    assert_eq!(h.capture_ids(), vec![10, 20, 30]);
}

#[test]
fn a_switcher_preselects_the_previous_app() {
    let h = open(Mode::Switch(COMMAND), Start::Apps);
    assert_eq!(h.selected, 1);
    let mut other = Hub::new();
    let snap = list_system(&other.ax_cache);
    other.prepare_show(Mode::Switch(COMMAND), Start::Apps, snap, &AxCache::new(), Some(4), &mru(), None);
    assert_eq!(other.selected, 0);
    assert_eq!(other.max_cols, 1);
}

#[test]
fn a_quick_tap_goes_to_the_previous_app() {
    let mut h = open(Mode::Switch(COMMAND), Start::Apps);
    assert!(matches!(h.show_panel(Mode::Switch(COMMAND), 0), Effect::Activate { pid: 2 }));
    assert!(!h.visible);
    let mut held = open(Mode::Switch(COMMAND), Start::Apps);
    assert!(matches!(held.show_panel(Mode::Switch(COMMAND), COMMAND | SHIFT), Effect::Refresh));
    assert!(held.visible);
    let mut browse = open(Mode::Browse, Start::Apps);
    assert!(matches!(browse.show_panel(Mode::Browse, 0), Effect::Refresh));
}

#[test]
fn the_chrome_sub_dock_without_accessibility_shows_titled_windows() {
    let h = open(Mode::Browse, Start::Chrome);
    assert!(!h.at_apps() && !h.root_is_apps);
    assert_eq!(scope_ids(&h), vec![20, 21, 22]);
    assert_eq!(h.header().label, "Search Chrome windows");
    assert_eq!(h.header().icon, Some(2));
    assert_eq!(chrome_pids(&h.apps), vec![2]);
}

#[test]
fn opening_again_begins_a_new_generation() {
    let mut h = open(Mode::Browse, Start::Apps);
    assert!(h.accepts_capture(1));
    let snap = list_system(&h.ax_cache);
    h.prepare_show(Mode::Browse, Start::Apps, snap, &AxCache::new(), None, &mru(), Some(2));
    assert!(!h.accepts_capture(1) && h.accepts_capture(2));
    assert!(matches!(h.hide_panel(), Effect::Hide));
    assert!(h.accepts_capture(3) && !h.visible);
}

// ---- Moving -----------------------------------------------------------------

#[test]
fn the_selection_goes_round() {
    let mut h = open(Mode::Browse, Start::Apps);
    assert!(h.step(-1));
    assert_eq!(h.selected, 2);
    assert!(h.step(1));
    assert_eq!(h.selected, 0);
    assert!(!h.step(3));
    assert!(h.step(-7));
    assert_eq!(h.selected, 2);
    assert!(h.step(isize::MAX));
    assert_eq!(h.selected, (2 + isize::MAX as usize) % 3);
    assert!(!h.select(3) && !h.select(h.selected));
    assert!(!Hub::new().step(1));
}

#[test]
fn arrows_and_tab_move() {
    let mut h = open(Mode::Browse, Start::Chrome);
    assert_eq!(h.cols, 3);
    assert!(matches!(h.handle_key(&press(KEY_RIGHT)), Effect::Mark));
    assert_eq!(h.selected, 1);
    assert!(matches!(h.handle_key(&press(KEY_LEFT)), Effect::Mark));
    assert_eq!(h.selected, 0);
    assert!(matches!(h.handle_key(&press(KEY_TAB)), Effect::Mark));
    assert_eq!(h.selected, 1);
    assert!(matches!(h.handle_key(&KeyPress { code: KEY_TAB, flags: SHIFT, chars: None }), Effect::Mark));
    assert_eq!(h.selected, 0);
    assert!(matches!(h.handle_key(&press(KEY_DOWN)), Effect::Nothing));
    h.cols = 2;
    assert!(matches!(h.handle_key(&press(KEY_DOWN)), Effect::Mark));
    assert_eq!(h.selected, 2);
    assert!(matches!(h.handle_key(&press(KEY_UP)), Effect::Mark));
    assert_eq!(h.selected, 0);
}

// ---- Searching --------------------------------------------------------------

#[test]
fn a_search_wants_every_word_whatever_the_case() {
    assert!(matches_words("docs work", "work do"));
    assert!(!matches_words("docs work", "work play"));
    assert!(matches_words("docs", "  "));
    let mut h = open(Mode::Browse, Start::Chrome);
    assert!(matches!(h.handle_key(&typed("HOME")), Effect::Draw));
    assert_eq!(h.query, "HOME");
    assert_eq!(h.filtered, vec![1, 2]);
    assert_eq!(h.header().count, "2 of 3");
    assert!(matches!(h.handle_key(&press(KEY_SPACE)), Effect::Draw));
    h.handle_key(&typed("mus"));
    assert_eq!(h.query, "HOME mus");
    assert_eq!(h.filtered, vec![2]);
    h.handle_key(&typed("x"));
    assert_eq!(h.filtered.len(), 0);
    assert_eq!(h.header().empty.as_deref(), Some("No windows match"));
    assert_eq!(h.header().label, "HOME musx");
    assert!(!h.header().dim);
    assert!(matches!(h.handle_key(&press(KEY_DELETE)), Effect::Draw));
    assert_eq!((h.query.as_str(), h.filtered.as_slice()), ("HOME mus", [2].as_slice()));
}

#[test]
fn letters_of_other_alphabets_are_found_whatever_the_case() {
    let mut h = open(Mode::Browse, Start::Chrome);
    h.scope[0].title = "ΓΕΙΑ ÉTÉ".to_string();
    h.handle_key(&typed("γεια été"));
    assert_eq!(h.filtered, vec![0]);
}

#[test]
fn escape_clears_goes_back_and_closes() {
    let mut h = open(Mode::Browse, Start::Apps);
    enter(&mut h, &vec![answer(1, &[(10, false), (11, false)])]);
    h.handle_key(&typed("in"));
    assert_eq!(h.filtered, vec![0]);
    assert!(matches!(h.handle_key(&press(KEY_ESC)), Effect::Draw));
    assert_eq!((h.query.as_str(), h.filtered.len()), ("", 2));
    assert!(matches!(h.handle_key(&press(KEY_ESC)), Effect::DrawAndCapture));
    assert!(h.at_apps() && h.visible);
    assert!(matches!(h.handle_key(&press(KEY_ESC)), Effect::Hide));
    assert!(!h.visible);
}

#[test]
fn delete_goes_back_without_a_search() {
    let mut h = open(Mode::Browse, Start::Apps);
    assert!(matches!(h.handle_key(&press(KEY_DELETE)), Effect::Nothing));
    enter(&mut h, &vec![]);
    assert!(matches!(h.handle_key(&press(KEY_DELETE)), Effect::DrawAndCapture));
    assert!(h.at_apps());
    let mut direct = open(Mode::Browse, Start::Chrome);
    assert!(matches!(direct.handle_key(&press(KEY_DELETE)), Effect::Nothing));
    assert!(matches!(direct.handle_key(&press(KEY_ESC)), Effect::Hide));
}

#[test]
fn digits_jump_and_other_keys_type() {
    let mut h = open(Mode::Browse, Start::Apps);
    assert!(matches!(h.handle_key(&typed("3")), Effect::Activate { pid: 3 }));
    let mut h = open(Mode::Browse, Start::Apps);
    assert!(matches!(h.handle_key(&typed("4")), Effect::Draw));
    assert_eq!(h.query, "4");
    let mut h = open(Mode::Browse, Start::Apps);
    assert!(matches!(h.handle_key(&typed("0")), Effect::Draw));
    let mut h = open(Mode::Browse, Start::Apps);
    h.handle_key(&typed("m2"));
    assert_eq!(h.query, "m2");
    let mut h = open(Mode::Browse, Start::Apps);
    assert!(matches!(h.handle_key(&typed("\u{7f}\u{F700}\u{F8FF}")), Effect::Nothing));
    assert!(matches!(h.handle_key(&press(200)), Effect::Nothing));
    assert_eq!(h.query, "");
    assert!(matches!(h.handle_key(&typed("\u{1b}2")), Effect::Activate { pid: 2 }));
}

#[test]
fn held_modifiers_type_nothing() {
    let mut h = open(Mode::Switch(OPTION), Start::Apps);
    for flags in [COMMAND, CONTROL, COMMAND | SHIFT, OPTION] {
        let key = KeyPress { code: 0, flags, chars: Some("m".to_string()) };
        assert!(matches!(h.handle_key(&key), Effect::Nothing));
    }
    assert_eq!(h.query, "");
    let mut browse = open(Mode::Browse, Start::Apps);
    let key = KeyPress { code: 0, flags: OPTION, chars: Some("m".to_string()) };
    assert!(matches!(browse.handle_key(&key), Effect::Draw));
}

// ---- The two levels ---------------------------------------------------------

#[test]
fn the_sub_dock_and_the_app_card_agree() {
    let mut h = open(Mode::Browse, Start::Apps);
    h.select(1);
    enter(&mut h, &vec![answer(2, &[(20, false), (22, true)])]);
    assert_eq!(scope_ids(&h), vec![20, 22]);
    assert!(matches!(&h.level, Level::Windows { pids, name } if *pids == vec![2] && name == "Google Chrome"));
    let app = h.apps.iter().find(|a| a.pid == 2).unwrap();
    assert_eq!(app.windows, vec![20, 22]);
    assert_eq!(app.active, 1);
    assert_eq!(h.capture_ids(), vec![20, 22]);
    assert!(h.back());
    assert_eq!(h.apps[h.filtered[h.selected]].pid, 2);
    assert!(!h.back());
}

#[test]
fn space_and_grave_step_into_an_app() {
    let mut h = open(Mode::Browse, Start::Apps);
    assert!(matches!(h.handle_key(&press(KEY_SPACE)), Effect::Lookup { pids, name } if pids == vec![1] && name == "Mail"));
    assert!(matches!(h.handle_key(&press(KEY_GRAVE)), Effect::Lookup { pids, .. } if pids == vec![1]));
    enter(&mut h, &vec![answer(1, &[(10, false), (11, false)])]);
    assert!(matches!(h.handle_key(&press(KEY_GRAVE)), Effect::Mark));
    assert_eq!(h.selected, 1);
    assert!(matches!(h.enter_selected(), Effect::Nothing));
    assert!(matches!(h.handle_key(&press(KEY_SPACE)), Effect::Mark));
    assert_eq!(h.selected, 0);
    assert!(matches!(h.handle_key(&KeyPress { code: KEY_SPACE, flags: SHIFT, chars: None }), Effect::Mark));
    assert_eq!(h.selected, 1);
    assert!(h.visible && !h.at_apps());
    assert!(matches!(h.handle_key(&press(KEY_RETURN)), Effect::Focus { window } if window.id == 11));
}

#[test]
fn a_switcher_preselects_the_previous_window_of_the_front_app() {
    let mut h = open(Mode::Switch(COMMAND), Start::Apps);
    h.select(0);
    enter(&mut h, &vec![answer(1, &[(10, false), (11, false)])]);
    assert_eq!(h.selected, 1);
    let mut one = open(Mode::Switch(COMMAND), Start::Apps);
    one.select(0);
    enter(&mut one, &vec![answer(1, &[(10, false)])]);
    assert_eq!(one.selected, 0);
    let mut other = open(Mode::Switch(COMMAND), Start::Apps);
    enter(&mut other, &vec![answer(2, &[(20, false), (21, false)])]);
    assert_eq!(other.selected, 0);
}

#[test]
fn clicks() {
    let mut h = open(Mode::Browse, Start::Apps);
    assert!(matches!(h.click(1, true), Effect::Lookup { pids, .. } if pids == vec![2]));
    assert!(matches!(h.click(2, false), Effect::Activate { pid: 3 }));
    assert!(!h.visible);
    let mut sub = open(Mode::Browse, Start::Chrome);
    assert!(matches!(sub.click(1, true), Effect::Mark));
    assert!(matches!(sub.click(1, true), Effect::Nothing));
    assert!(matches!(sub.click(2, false), Effect::Focus { window } if window.id == 22));
}

// ---- Committing -------------------------------------------------------------

#[test]
fn return_commits_and_closes() {
    for code in [KEY_RETURN, KEY_ENTER] {
        let mut h = open(Mode::Browse, Start::Apps);
        h.select(1);
        assert!(matches!(h.handle_key(&press(code)), Effect::Activate { pid: 2 }));
        assert!(!h.visible);
        assert_eq!(h.generation, 2);
        assert!(matches!(h.commit_selection(), Effect::Nothing));
        assert_eq!(h.generation, 2);
    }
    let mut none = open(Mode::Browse, Start::Apps);
    none.handle_key(&typed("zzz"));
    assert!(matches!(none.commit_selection(), Effect::Hide));
}

#[test]
fn letting_the_modifier_go_commits_a_switcher() {
    let mut h = open(Mode::Switch(OPTION), Start::Chrome);
    assert!(matches!(h.handle_flags(OPTION | SHIFT), Effect::Nothing));
    assert!(matches!(h.on_cmd_up(), Effect::Nothing));
    assert!(matches!(h.handle_flags(SHIFT), Effect::Focus { window } if window.id == 20));
    assert!(matches!(h.handle_flags(0), Effect::Nothing));
    let mut browse = open(Mode::Browse, Start::Chrome);
    assert!(matches!(browse.handle_flags(0), Effect::Nothing));
    let mut cmd = open(Mode::Switch(COMMAND), Start::Apps);
    assert!(matches!(cmd.on_cmd_up(), Effect::Activate { pid: 2 }));
}

// ---- Shortcuts --------------------------------------------------------------

#[test]
fn option_tab_and_option_grave() {
    let mut h = Hub::new();
    assert!(matches!(h.on_hotkey(HOTKEY_SWITCH, false), Effect::Show { mode: Mode::Switch(OPTION), start: Start::Chrome }));
    assert!(matches!(h.on_hotkey(HOTKEY_BROWSE, false), Effect::Show { mode: Mode::Browse, start: Start::Chrome }));
    assert!(matches!(h.on_hotkey(3, false), Effect::Nothing));
    let mut open = open(Mode::Browse, Start::Apps);
    assert!(matches!(open.on_hotkey(HOTKEY_SWITCH, false), Effect::Mark));
    assert_eq!(open.selected, 1);
    assert!(matches!(open.on_hotkey(HOTKEY_SWITCH, true), Effect::Mark));
    assert_eq!(open.selected, 0);
    assert!(matches!(open.on_hotkey(HOTKEY_BROWSE, false), Effect::Hide));
    assert!(!open.visible);
}

#[test]
fn command_tab_and_command_grave() {
    assert!(swallows(Key::Tab, false) && swallows(Key::Tab, true));
    assert!(!swallows(Key::Grave, false) && swallows(Key::Grave, true));
    let mut h = Hub::new();
    assert!(matches!(h.on_tap_key(Key::Tab, false), Effect::Show { mode: Mode::Switch(COMMAND), start: Start::Apps }));
    let mut open = open(Mode::Browse, Start::Apps);
    assert!(matches!(open.on_tap_key(Key::Tab, true), Effect::Mark));
    assert_eq!((open.selected, open.mode), (2, Mode::Switch(COMMAND)));
    assert!(matches!(open.on_tap_key(Key::Grave, false), Effect::Lookup { pids, .. } if pids == vec![3]));
    assert!(matches!(open.on_cmd_up(), Effect::Activate { pid: 3 }));
}

#[test]
fn the_menu_bar_toggles() {
    let mut h = Hub::new();
    assert!(matches!(h.toggle_panel(Mode::Browse, Start::Apps), Effect::Show { mode: Mode::Browse, start: Start::Apps }));
    let mut open = open(Mode::Browse, Start::Apps);
    assert!(matches!(open.toggle_panel(Mode::Browse, Start::Apps), Effect::Hide));
    assert!(!open.visible);
    assert!(matches!(open.resign_key(), Effect::Nothing));
}

#[test]
fn a_click_elsewhere_closes() {
    let mut h = open(Mode::Browse, Start::Apps);
    assert!(matches!(h.resign_key(), Effect::Hide));
    assert!(!h.visible);
}

// ---- Accessibility in the background ----------------------------------------

#[test]
fn answers_correct_the_app_cards() {
    let mut h = open(Mode::Browse, Start::Apps);
    let pids = vec![1, 2, 3, 4];
    let ax = ax_lookup(&vec![answer(1, &[(10, false)]), answer(3, &[])]);
    assert!(matches!(h.ax_refreshed(&pids, &ax, 1, &mru(), Some(1)), Effect::DrawAndCapture));
    assert_eq!(h.apps[h.filtered[0]].windows, vec![10]);
    assert!(matches!(h.ax_refreshed(&pids, &ax, 1, &mru(), Some(1)), Effect::Nothing));
    let gone = ax_lookup(&vec![answer(1, &[(10, true)])]);
    h.ax_refreshed(&vec![1, 2], &gone, 1, &mru(), Some(1));
    assert!(!h.ax_cache.contains_key(&3));
}

#[test]
fn late_answers_draw_nothing() {
    let ax = ax_lookup(&vec![answer(1, &[(10, false)])]);
    let pids = vec![1, 2, 3, 4];
    let mut h = open(Mode::Browse, Start::Apps);
    assert!(matches!(h.ax_refreshed(&pids, &ax, 0, &mru(), Some(1)), Effect::Nothing));
    assert_eq!(h.apps[0].windows, vec![10]);
    let mut sub = open(Mode::Browse, Start::Chrome);
    assert!(matches!(sub.ax_refreshed(&pids, &ax, 1, &mru(), Some(1)), Effect::Nothing));
    assert_eq!(scope_ids(&sub), vec![20, 21, 22]);
    let mut closed = open(Mode::Browse, Start::Apps);
    closed.hide_panel();
    assert!(matches!(closed.ax_refreshed(&pids, &ax, 2, &mru(), Some(1)), Effect::Nothing));
}

#[test]
fn a_new_order_of_the_apps_is_no_change_of_their_windows() {
    let mut h = open(Mode::Browse, Start::Apps);
    assert!(!h.refresh_from_ax(&vec![2, 1, 3], Some(2)));
    assert_eq!(h.apps[0].pid, 2);
    let mut h = open(Mode::Browse, Start::Apps);
    h.select(1);
    let answer = h.ax_refreshed(&vec![1, 2, 3, 4], &AxCache::new(), 1, &vec![2, 1, 3], Some(2));
    assert!(matches!(answer, Effect::Nothing));
    assert_eq!(h.apps[0].pid, 2);
    assert_eq!(card_pids(&h), vec![1, 2, 3]);
    assert!(matches!(h.commit_selection(), Effect::Activate { pid: 2 }));
}

#[test]
fn cards_stand_for_their_apps_after_a_late_answer() {
    let ax = ax_lookup(&vec![answer(1, &[(10, false)])]);
    let mut h = open(Mode::Browse, Start::Apps);
    assert!(matches!(h.ax_refreshed(&vec![1, 2, 3, 4], &ax, 0, &vec![3, 2, 1], Some(2)), Effect::Nothing));
    assert_eq!(card_pids(&h), vec![1, 2, 3]);
    assert!(matches!(h.handle_key(&typed("1")), Effect::Activate { pid: 1 }));
}

#[test]
fn an_app_whose_windows_are_all_minimized_loses_its_card() {
    let mut h = open(Mode::Browse, Start::Apps);
    let ax = ax_lookup(&vec![answer(1, &[(10, true)])]);
    h.ax_refreshed(&vec![1, 2, 3, 4], &ax, 1, &mru(), Some(1));
    assert_eq!(card_pids(&h), vec![2, 3]);
    assert_eq!(h.capture_ids(), vec![20, 30]);
}

// ---- Cards ------------------------------------------------------------------

#[test]
fn app_cards() {
    let mut h = open(Mode::Browse, Start::Apps);
    let ax = ax_lookup(&vec![answer(1, &[(10, true), (11, false)])]);
    h.ax_refreshed(&vec![1, 2, 3, 4], &ax, 1, &mru(), Some(1));
    let at = |pid: i32| h.card_model(h.apps.iter().position(|a| a.pid == pid).unwrap());
    let mail = at(1);
    assert_eq!((mail.title.as_str(), mail.subtitle.as_str()), ("Mail", "2 windows  ·  1 minimized"));
    assert_eq!((mail.window_id, mail.icon, mail.dot, mail.expandable), (Some(11), Some(1), None, true));
    assert_eq!(at(2).subtitle, "3 windows");
    assert_eq!(at(3).subtitle, "1 window  ·  other desktop");
    assert_eq!(at(4).subtitle, "no windows  ·  other desktop");
    assert!(!at(4).expandable);
    assert_eq!(h.header().count, "3 apps");
    assert_eq!(h.header().label, "Search apps");
    assert!(h.header().dim);
}

#[test]
fn hidden_apps_say_so() {
    let mut h = Hub::new();
    let apps = vec![RunningApp { hidden: true, ..running(1, "Mail") }];
    let records = vec![listed(10, 1, "Mail", "Inbox", true)];
    let snap = snapshot(&apps, 99, &records, &vec![], &AxCache::new(), None);
    h.prepare_show(Mode::Browse, Start::Apps, snap, &AxCache::new(), None, &vec![], Some(4));
    assert_eq!(h.card_model(0).subtitle, "1 window  ·  hidden");
    assert_eq!(h.header().count, "1 app");
}

#[test]
fn window_cards() {
    let mut h = open(Mode::Browse, Start::Apps);
    h.select(1);
    enter(&mut h, &vec![answer(2, &[(20, false), (21, true), (22, false)])]);
    let c = h.card_model(0);
    assert_eq!((c.title.as_str(), c.subtitle.as_str(), c.window_id), ("Docs", "Work", Some(20)));
    assert_eq!((c.icon, c.dot, c.expandable), (None, Some(profile_color("Work")), false));
    assert_eq!(h.card_model(1).subtitle, "Home  ·  minimized");
    h.back();
    h.select(2);
    enter(&mut h, &vec![]);
    let c = h.card_model(0);
    assert_eq!((c.title.as_str(), c.subtitle.as_str()), ("List", "Notes  ·  other desktop"));
    assert_eq!(h.header().hint.contains("back"), true);
    assert_eq!(h.header().label, "Search Notes windows");
    let mut mail = open(Mode::Browse, Start::Apps);
    enter(&mut mail, &vec![answer(1, &[(10, false), (11, false)])]);
    mail.scope[1].title = String::new();
    assert_eq!(mail.card_model(1).title, "Mail");
}

#[test]
fn an_empty_sub_dock_says_so() {
    let mut h = Hub::new();
    let snap = snapshot(&vec![], 99, &vec![], &vec![], &AxCache::new(), None);
    h.prepare_show(Mode::Browse, Start::Chrome, snap, &AxCache::new(), None, &vec![], None);
    assert_eq!(h.header().empty.as_deref(), Some("No Chrome windows are open"));
    assert_eq!(h.header().count, "0 windows");
    assert_eq!(h.header().icon, None);
    assert!(matches!(h.commit_selection(), Effect::Hide));
}

#[test]
fn profile_colours_follow_the_hash() {
    let palette = [
        Color::Blue,
        Color::Green,
        Color::Orange,
        Color::Pink,
        Color::Purple,
        Color::Teal,
        Color::Indigo,
        Color::Yellow,
    ];
    for n in 0..16u64 {
        assert_eq!(color_of(n), palette[(n % 8) as usize]);
    }
    let mut seen = vec![];
    for name in ["", "Work", "Home", "Agency Collective", "Größe", "Konstantin", "Google Chrome", "a", "b", "c"] {
        let mut h = DefaultHasher::new();
        name.hash(&mut h);
        assert_eq!(profile_color(name), palette[(h.finish() % 8) as usize], "{name}");
        if !seen.contains(&profile_color(name)) {
            seen.push(profile_color(name));
        }
    }
    assert!(seen.len() > 1);
}

#[test]
fn a_thumbnail_goes_to_the_cards_of_its_window() {
    assert_eq!(cards_showing(&vec![Some(1), None, Some(2), Some(1)], 1), vec![0, 3]);
    assert_eq!(cards_showing(&vec![Some(1), None], 3), Vec::<usize>::new());
}

#[test]
fn thumbnails_live_as_long_as_their_window() {
    let h = open(Mode::Browse, Start::Apps);
    assert_eq!(thumbnails_kept(&vec![99, 20, 10, 98, 30], &h.all_windows), vec![20, 10, 30]);
    assert_eq!(thumbnails_kept(&vec![20], &vec![]), Vec::<u32>::new());
}

#[test]
fn the_first_nine_cards_have_a_number() {
    assert_eq!(badge(0).as_deref(), Some("1"));
    assert_eq!(badge(8).as_deref(), Some("9"));
    assert_eq!(badge(9), None);
}

#[test]
fn a_failed_focus_brings_the_app_forward() {
    let h = open(Mode::Browse, Start::Chrome);
    assert!(matches!(after_focus(&h.scope[0], true), Effect::Nothing));
    assert!(matches!(after_focus(&h.scope[0], false), Effect::BringForward { pid: 2 }));
}
