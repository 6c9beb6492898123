use chromehub::capture::{capture_windows, Shareable};
use chromehub::focus::{activate_app, ax_windows, focus_window, AxRecord, AxWindow};
use chromehub::hotkey;
use chromehub::layout::{cell, columns, rows};
use chromehub::modifiers;
use chromehub::mru::{note_activation, HISTORY};
use chromehub::tap::{callback, EventKind, Key, Next, TapAction, TapEvent, Waiting};

// ---- Modifiers --------------------------------------------------------------

#[test]
fn held_modifiers() {
    let both = modifiers::COMMAND | modifiers::CONTROL;
    assert!(modifiers::contains(both, modifiers::COMMAND));
    assert!(!modifiers::contains(modifiers::COMMAND, both));
    assert!(modifiers::contains(0, 0));
    assert!(modifiers::intersects(modifiers::CONTROL, both));
    assert!(!modifiers::intersects(modifiers::SHIFT | modifiers::OPTION, both));
    assert!(!modifiers::intersects(u64::MAX, 0));
    assert_eq!(modifiers::SHIFT, 1 << 17);
    assert_eq!(modifiers::CONTROL, 1 << 18);
    assert_eq!(modifiers::OPTION, 1 << 19);
    assert_eq!(modifiers::COMMAND, 1 << 20);
}

// ---- Hotkeys ----------------------------------------------------------------

#[test]
fn four_character_codes() {
    assert_eq!(hotkey::fourcc(b"keyb"), hotkey::K_EVENT_CLASS_KEYBOARD);
    assert_eq!(hotkey::fourcc(b"----"), hotkey::K_EVENT_PARAM_DIRECT_OBJECT);
    assert_eq!(hotkey::fourcc(b"hkid"), hotkey::TYPE_EVENT_HOT_KEY_ID);
    assert_eq!(hotkey::fourcc(b"CHUB"), hotkey::SIGNATURE);
    assert_eq!(hotkey::fourcc(&[1, 2, 3, 4]), u32::from_be_bytes([1, 2, 3, 4]));
    assert_eq!(hotkey::fourcc(&[255, 255, 255, 255]), u32::MAX);
    assert_eq!(hotkey::MOD_OPTION, 1 << 11);
}

#[test]
fn only_our_hotkeys_are_handled() {
    assert_eq!(hotkey::on_hotkey(0, hotkey::SIGNATURE, 7), Some(7));
    assert_eq!(hotkey::on_hotkey(-1, hotkey::SIGNATURE, 7), None);
    assert_eq!(hotkey::on_hotkey(0, hotkey::SIGNATURE + 1, 7), None);
}

// ---- The tap ----------------------------------------------------------------

#[test]
fn the_tap_claims_command_tab_and_command_grave() {
    let cmd = modifiers::COMMAND;
    let shift = modifiers::SHIFT;
    assert_eq!(callback(EventKind::KeyDown, cmd, 48), TapAction::Press { key: Key::Tab, shift: false });
    assert_eq!(callback(EventKind::KeyDown, cmd | shift, 48), TapAction::Press { key: Key::Tab, shift: true });
    assert_eq!(callback(EventKind::KeyDown, cmd, 50), TapAction::Press { key: Key::Grave, shift: false });
    assert_eq!(callback(EventKind::KeyDown, cmd, 49), TapAction::Pass);
    assert_eq!(callback(EventKind::KeyDown, 0, 48), TapAction::Pass);
    assert_eq!(callback(EventKind::KeyDown, cmd | modifiers::CONTROL, 48), TapAction::Pass);
    assert_eq!(callback(EventKind::KeyDown, cmd | modifiers::OPTION, 48), TapAction::Pass);
    assert_eq!(callback(EventKind::Other, cmd, 48), TapAction::Pass);
}

#[test]
fn the_tap_sees_command_go_up_and_switches_itself_on_again() {
    assert_eq!(callback(EventKind::FlagsChanged, 0, 0), TapAction::CommandUp);
    assert_eq!(callback(EventKind::FlagsChanged, modifiers::SHIFT, 0), TapAction::CommandUp);
    assert_eq!(callback(EventKind::FlagsChanged, modifiers::COMMAND, 0), TapAction::Pass);
    assert_eq!(callback(EventKind::DisabledByTimeout, 0, 0), TapAction::Reenable);
    assert_eq!(callback(EventKind::DisabledByUserInput, modifiers::COMMAND, 48), TapAction::Reenable);
}

#[test]
fn the_tap_complains_once() {
    let mut w = Waiting::new();
    let untrusted = TapEvent::Checked { trusted: false };
    assert_eq!(w.install(untrusted), Next::Retry { seconds: 2, say: true });
    assert_eq!(w.install(untrusted), Next::Retry { seconds: 2, say: false });
    assert_eq!(w.install(TapEvent::Refused), Next::Retry { seconds: 60, say: true });
    assert_eq!(w.install(TapEvent::Refused), Next::Retry { seconds: 60, say: false });
    assert_eq!(w.install(untrusted), Next::Retry { seconds: 2, say: false });
    assert_eq!(w.install(TapEvent::Created), Next::Attach);
}

#[test]
fn the_tap_is_tried_only_once_trusted() {
    let mut w = Waiting::new();
    assert!(!matches!(w.install(TapEvent::Checked { trusted: false }), Next::Try));
    assert_eq!(w.install(TapEvent::Checked { trusted: true }), Next::Try);
    assert_eq!(w.install(TapEvent::Refused), Next::Retry { seconds: 60, say: true });
    assert_eq!(w.install(TapEvent::Checked { trusted: true }), Next::Try);
    assert_eq!(w.install(TapEvent::Created), Next::Attach);
}

// ---- Accessibility ----------------------------------------------------------

fn record(id: Option<u32>, minimized: Option<bool>, subrole: Option<&str>, title: Option<&str>) -> AxRecord {
    AxRecord { id, minimized, subrole: subrole.map(|s| s.to_string()), title: title.map(|s| s.to_string()) }
}

#[test]
fn accessibility_windows() {
    let listed = vec![
        record(Some(4), Some(true), Some("AXStandardWindow"), Some("One")),
        record(None, Some(true), Some("AXStandardWindow"), Some("Lost")),
        record(Some(5), None, Some("AXDialog"), None),
        record(Some(6), Some(false), None, Some("")),
    ];
    assert!(ax_windows(false, Some(&listed)).is_none());
    assert!(ax_windows(true, None).is_none());
    let ws = ax_windows(true, Some(&listed)).unwrap();
    assert_eq!(ws.len(), 3);
    assert_eq!((ws[0].id, ws[0].minimized, ws[0].standard, ws[0].title.as_str()), (4, true, true, "One"));
    assert_eq!((ws[1].id, ws[1].minimized, ws[1].standard, ws[1].title.as_str()), (5, false, false, ""));
    assert_eq!((ws[2].id, ws[2].minimized, ws[2].standard, ws[2].title.as_str()), (6, false, false, ""));
    assert_eq!(ax_windows(true, Some(&vec![])).unwrap().len(), 0);
    // The id lookup is unavailable.
    let lost = vec![record(None, Some(true), Some("AXStandardWindow"), Some("Lost")), record(None, None, None, None)];
    assert!(ax_windows(true, Some(&lost)).is_none());
}

#[test]
fn a_window_is_found_by_id_or_by_title() {
    let listed = vec![
        record(Some(1), None, None, Some("Inbox - Google Chrome - Work")),
        record(Some(2), None, None, Some("Docs - Google Chrome")),
        record(Some(3), None, None, Some("Docs - Google Chrome - Work")),
    ];
    assert_eq!(focus_window(&listed, 3, "Inbox"), Some(2));
    assert_eq!(focus_window(&listed, 9, "Docs"), Some(1));
    assert_eq!(focus_window(&listed, 9, ""), None);
    assert_eq!(focus_window(&listed, 9, "Other"), None);
    assert_eq!(focus_window(&vec![], 1, "Inbox"), None);
    let unknown = vec![record(None, None, None, None), record(None, None, None, Some("Inbox"))];
    assert_eq!(focus_window(&unknown, 1, "Inbox"), Some(1));
}

fn ax(id: u32, minimized: bool, standard: bool) -> AxWindow {
    AxWindow { id, minimized, standard, title: String::new() }
}

#[test]
fn a_window_is_restored_where_all_are_minimized() {
    assert_eq!(activate_app(None), None);
    assert_eq!(activate_app(Some(&vec![])), None);
    assert_eq!(activate_app(Some(&vec![ax(1, true, false)])), Some(0));
    assert_eq!(activate_app(Some(&vec![ax(1, true, false), ax(2, true, false)])), Some(0));
    assert_eq!(activate_app(Some(&vec![ax(1, true, false), ax(2, false, false)])), None);
    assert_eq!(activate_app(Some(&vec![ax(1, true, false), ax(2, true, true)])), Some(1));
    assert_eq!(activate_app(Some(&vec![ax(1, false, false), ax(2, true, true), ax(3, true, true)])), Some(1));
    assert_eq!(activate_app(Some(&vec![ax(2, true, true), ax(3, false, true)])), None);
}

// ---- Captures ---------------------------------------------------------------

#[test]
fn only_asked_for_windows_of_some_size_are_captured() {
    let listed = vec![
        Shareable { id: 1, width: 1000, height: 1000 },
        Shareable { id: 2, width: 999, height: 50_000 },
        Shareable { id: 3, width: 800_000, height: 999 },
        Shareable { id: 4, width: 800_000, height: 600_000 },
        Shareable { id: 5, width: 800_000, height: 600_000 },
    ];
    let got = capture_windows(&vec![4, 3, 2, 1], &listed);
    assert_eq!(got, vec![listed[0], listed[3]]);
    assert_eq!(capture_windows(&vec![], &listed), vec![]);
}

// ---- The activation history -------------------------------------------------

#[test]
fn the_history_has_the_latest_app_first_and_each_app_once() {
    let mut mru: Vec<i32> = vec![];
    for p in [1, 2, 3, 2, 2, 1] {
        note_activation(&mut mru, p);
    }
    assert_eq!(mru, vec![1, 2, 3]);
    note_activation(&mut mru, 1);
    assert_eq!(mru, vec![1, 2, 3]);
}

#[test]
fn the_history_is_bounded() {
    let mut mru: Vec<i32> = vec![];
    for p in 0..100 {
        note_activation(&mut mru, p);
    }
    assert_eq!(HISTORY, 64);
    assert_eq!(mru.len(), 64);
    assert_eq!(mru[0], 99);
    assert_eq!(mru[63], 36);
    note_activation(&mut mru, 40);
    assert_eq!(mru.len(), 64);
    assert_eq!(mru[0], 40);
    assert_eq!(mru[1], 99);
    assert_eq!(mru[63], 36);
}

// ---- The grid ---------------------------------------------------------------

#[test]
fn columns_follow_the_root_of_the_count() {
    for n in 0..2000usize {
        for max_cols in [1usize, 2, 3, 5, 8, 100] {
            let want = ((n as f64 * 1.6).sqrt().ceil() as usize).max(1);
            let expected = want.clamp(1, max_cols).min(n.max(1)).max(2.min(n.max(1)));
            assert_eq!(columns(n, max_cols), expected, "{n} {max_cols}");
        }
    }
}

#[test]
fn rows_and_cells() {
    assert_eq!(rows(0, 3), 0);
    assert_eq!(rows(1, 3), 1);
    assert_eq!(rows(3, 3), 1);
    assert_eq!(rows(4, 3), 2);
    assert_eq!(rows(usize::MAX, 2), usize::MAX / 2 + 1);
    assert_eq!(cell(0, 3), (0, 0));
    assert_eq!(cell(2, 3), (2, 0));
    assert_eq!(cell(3, 3), (0, 1));
    assert_eq!(cell(7, 3), (1, 2));
}
