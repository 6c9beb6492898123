use chromehub::focus::AxWindow;
use chromehub::summary::{ax_summary, points};
use chromehub::windows::{
    admits, app_pids, apply_ax, assign_windows, ax_lookup, cg_windows, extend_cache, holds_id, holds_pid, is_real,
    order_apps, other_desktop, position_of, retain_pids, running_apps, snapshot, AppEntry, AxCache, AxMap, AxReply, CgBounds,
    CgWindow, RunningApp, WindowInfo,
};

fn app(pid: i32, name: &str) -> AppEntry {
    AppEntry { pid, name: name.to_string(), hidden: false, windows: vec![], active: 0, on_current: false, front: None }
}

fn window(id: u32, pid: i32, title: &str) -> WindowInfo {
    WindowInfo {
        id,
        pid,
        app: "App".to_string(),
        title: title.to_string(),
        profile: None,
        on_screen: true,
        minimized: false,
        on_space: true,
        on_current_space: true,
        bounds: (0, 0, 800_000, 600_000),
    }
}

fn off(id: u32, pid: i32, title: &str) -> WindowInfo {
    WindowInfo { on_screen: false, on_current_space: false, ..window(id, pid, title) }
}

fn ax(id: u32, minimized: bool, standard: bool, title: &str) -> AxWindow {
    AxWindow { id, minimized, standard, title: title.to_string() }
}

fn reply(pid: i32, windows: Vec<AxWindow>) -> AxReply {
    AxReply { pid, windows: Some(windows) }
}

fn ids(ws: &[WindowInfo]) -> Vec<u32> {
    ws.iter().map(|w| w.id).collect()
}

fn pids(apps: &[AppEntry]) -> Vec<i32> {
    apps.iter().map(|a| a.pid).collect()
}

// ---- Accessibility's answers ------------------------------------------------

#[test]
fn answers_are_kept_by_app_and_window() {
    let ax = ax_lookup(&vec![
        reply(1, vec![ax(10, false, true, "first"), ax(11, true, true, "b"), ax(10, true, false, "last")]),
        AxReply { pid: 2, windows: None },
        reply(3, vec![]),
    ]);
    assert_eq!(ax.len(), 2);
    assert_eq!(ax[&1].len(), 2);
    assert_eq!(ax[&1][&10].title, "last");
    assert!(!ax.contains_key(&2));
    assert_eq!(ax[&3].len(), 0);
}

#[test]
fn newer_answers_replace_older_ones() {
    let mut cache = ax_lookup(&vec![reply(1, vec![ax(10, false, true, "old")]), reply(2, vec![])]);
    let fresh = ax_lookup(&vec![reply(1, vec![ax(11, false, true, "new")]), reply(3, vec![])]);
    extend_cache(&mut cache, &fresh);
    assert_eq!(cache.len(), 3);
    assert!(!cache[&1].contains_key(&10));
    assert_eq!(cache[&1][&11].title, "new");
    retain_pids(&mut cache, &vec![3, 1, 9]);
    assert_eq!(cache.len(), 2);
    assert!(cache.contains_key(&1) && cache.contains_key(&3));
}

#[test]
fn lists_hold_ids_and_pids() {
    let ws = vec![window(1, 1, ""), window(2, 1, "")];
    assert!(holds_id(&ws, 2));
    assert!(!holds_id(&ws, 3));
    assert!(holds_pid(&vec![4, 5], 5));
    assert!(!holds_pid(&vec![], 5));
    assert_eq!(position_of(&vec![7, 5, 5], 5), Some(1));
    assert_eq!(position_of(&vec![7], 5), None);
}

// ---- Which windows are real -------------------------------------------------

#[test]
fn a_known_window_is_real_where_it_is_standard_or_none_is() {
    let mut m = AxMap::new();
    m.insert(1, ax(1, false, true, "a"));
    m.insert(2, ax(2, false, false, "b"));
    assert!(is_real(&m, &window(1, 1, "a")));
    assert!(!is_real(&m, &window(2, 1, "b")));
    let mut odd = AxMap::new();
    odd.insert(2, ax(2, false, false, "b"));
    assert!(is_real(&odd, &window(2, 1, "b")));
}

#[test]
fn an_unknown_window_is_real_on_another_desktop_only() {
    let m = AxMap::new();
    assert!(!is_real(&m, &window(1, 1, "on screen")));
    assert!(is_real(&m, &off(1, 1, "elsewhere")));
    assert!(!is_real(&m, &off(1, 1, "")));
    let closed = WindowInfo { on_space: false, ..off(1, 1, "closed") };
    assert!(!is_real(&m, &closed));
    assert!(!other_desktop(&closed));
    assert!(other_desktop(&off(1, 1, "elsewhere")));
    assert!(!other_desktop(&off(1, 1, "")));
}

#[test]
fn answers_are_applied_app_by_app() {
    let apps = vec![app(1, "A"), app(2, "B"), AppEntry { hidden: true, ..app(3, "C") }];
    let mut ws = vec![
        window(1, 1, ""),
        window(2, 1, "helper"),
        WindowInfo { on_screen: false, ..window(3, 1, "min") },
        off(4, 1, "elsewhere"),
        window(5, 2, ""),
        off(6, 2, ""),
        WindowInfo { on_screen: false, ..window(7, 2, "parked") },
        WindowInfo { on_screen: false, ..window(8, 3, "hidden") },
    ];
    let ax = ax_lookup(&vec![reply(1, vec![ax(1, false, true, "Full"), ax(2, false, false, "x"), ax(3, true, true, "Min")])]);
    apply_ax(&mut ws, &ax, &apps);
    assert_eq!(ids(&ws), vec![1, 3, 4, 5, 6, 7, 8]);
    assert_eq!(ws[0].title, "Full");
    assert_eq!(ws[1].title, "min");
    assert!(!ws[0].minimized);
    assert!(ws[1].minimized);
    assert!(!ws[2].minimized);
    assert!(!ws[3].minimized);
    assert!(!ws[4].minimized);
    assert!(ws[5].minimized);
    assert!(!ws[6].minimized);
    let once = ids(&ws);
    apply_ax(&mut ws, &ax, &apps);
    assert_eq!(ids(&ws), once);
}

#[test]
fn only_closed_windows_of_unanswered_apps_are_dropped() {
    let closed = |id, title| WindowInfo { on_space: false, ..off(id, 1, title) };
    let mut ws = vec![off(9, 1, ""), closed(10, "closed"), off(11, 1, "x"), closed(12, ""), window(13, 1, "")];
    apply_ax(&mut ws, &AxCache::new(), &vec![]);
    assert_eq!(ids(&ws), vec![9, 11, 13]);
}

#[test]
fn chrome_titles_give_the_profile() {
    let chrome = WindowInfo { app: "Google Chrome".to_string(), ..window(1, 1, "Inbox") };
    let named = WindowInfo { profile: Some("Old".to_string()), ..window(2, 1, "") };
    let mut ws = vec![chrome, WindowInfo { app: "Google Chrome".to_string(), ..named }, window(3, 1, "")];
    let title = "Inbox - Google Chrome - Work (a@b.c)";
    let ax = ax_lookup(&vec![reply(1, vec![ax(1, false, true, title), ax(2, false, true, title), ax(3, false, true, title)])]);
    apply_ax(&mut ws, &ax, &vec![]);
    assert_eq!((ws[0].title.as_str(), ws[0].profile.as_deref()), ("Inbox", Some("Work")));
    assert_eq!((ws[1].title.as_str(), ws[1].profile.as_deref()), ("Inbox", Some("Old")));
    assert_eq!((ws[2].title.as_str(), ws[2].profile.as_deref()), (title, None));
}

// ---- Apps -------------------------------------------------------------------

#[test]
fn windows_are_assigned_to_their_apps() {
    let ws = vec![
        window(1, 1, ""),
        WindowInfo { minimized: true, ..window(2, 1, "min") },
        off(3, 1, "elsewhere"),
        window(4, 2, ""),
        WindowInfo { minimized: true, ..off(6, 4, "") },
        WindowInfo { minimized: true, ..off(7, 4, "m") },
    ];
    let mut apps = vec![app(1, "A"), app(2, "B"), app(3, "C"), app(4, "D")];
    assign_windows(&mut apps, &ws);
    assert_eq!(apps[0].windows, vec![1, 2, 3]);
    assert_eq!((apps[0].active, apps[0].on_current, apps[0].front), (2, true, Some(3)));
    assert_eq!((apps[1].active, apps[1].on_current, apps[1].front), (1, true, Some(4)));
    assert_eq!((apps[2].active, apps[2].on_current, apps[2].front), (0, false, None));
    assert_eq!((apps[3].active, apps[3].on_current, apps[3].front), (0, false, Some(7)));
    let mut one = vec![app(1, "A")];
    assign_windows(&mut one, &vec![off(9, 1, "x"), window(8, 1, "seen")]);
    assert_eq!(one[0].front, Some(8));
    assert_eq!(one[0].windows, vec![9, 8]);
}

#[test]
fn apps_are_ordered_by_desktop_recency_depth_and_name() {
    let here = |pid, name| AppEntry { on_current: true, ..app(pid, name) };
    let ws = vec![window(1, 7, ""), off(2, 8, ""), window(3, 6, "")];
    let mut apps = vec![
        app(1, "elsewhere"),
        here(2, "zeta"),
        here(3, "Alpha"),
        here(4, "recent"),
        here(5, "front"),
        here(6, "deep"),
        here(7, "top"),
        here(8, "beta"),
        here(9, "older"),
    ];
    order_apps(&mut apps, &ws, &vec![4, 1, 9], Some(5));
    assert_eq!(pids(&apps), vec![5, 4, 9, 7, 6, 3, 8, 2, 1]);
    let again = pids(&apps);
    order_apps(&mut apps, &ws, &vec![4, 1, 9], Some(5));
    assert_eq!(pids(&apps), again);
}

#[test]
fn names_are_ordered_whatever_the_case_and_ties_keep_their_order() {
    let mut apps = vec![app(1, "b"), app(2, "A"), app(3, "B"), app(4, "É"), app(5, "é")];
    order_apps(&mut apps, &vec![], &vec![], None);
    assert_eq!(pids(&apps), vec![2, 1, 3, 4, 5]);
}

fn running(pid: i32, name: Option<&str>) -> RunningApp {
    RunningApp { pid, regular: true, terminated: false, name: name.map(|s| s.to_string()), hidden: false }
}

#[test]
fn running_apps_are_the_regular_ones() {
    let list = vec![
        running(1, Some("A")),
        RunningApp { regular: false, ..running(2, Some("menu bar")) },
        RunningApp { terminated: true, ..running(3, Some("gone")) },
        running(4, Some("me")),
        RunningApp { hidden: true, ..running(5, None) },
    ];
    let apps = running_apps(&list, 4);
    assert_eq!(app_pids(&apps), vec![1, 5]);
    assert_eq!(apps[0].name, "A");
    assert_eq!(apps[1].name, "");
    assert!(apps[1].hidden && !apps[0].hidden);
    assert_eq!((apps[0].windows.len(), apps[0].active, apps[0].on_current, apps[0].front), (0, 0, false, None));
}

// ---- The window server's list -----------------------------------------------

fn entry(id: u32, pid: i32, name: &str) -> CgWindow {
    CgWindow {
        pid: Some(pid),
        layer: Some(0),
        alpha: None,
        bounds: Some(CgBounds { x: Some(1000), y: None, width: Some(200_000), height: Some(120_000) }),
        id: Some(id),
        owner: Some("Chromium".to_string()),
        name: Some(name.to_string()),
        on_screen: Some(true),
        current_spaces: None,
        all_spaces: None,
    }
}

fn sized(width: Option<i64>, height: Option<i64>) -> CgWindow {
    CgWindow { bounds: Some(CgBounds { x: None, y: None, width, height }), ..entry(1, 1, "") }
}

#[test]
fn entries_are_admitted() {
    let mine = vec![1];
    assert!(admits(&entry(1, 1, ""), &mine));
    assert!(!admits(&entry(1, 2, ""), &mine));
    assert!(!admits(&CgWindow { pid: None, ..entry(1, 1, "") }, &mine));
    assert!(!admits(&CgWindow { layer: Some(25), ..entry(1, 1, "") }, &mine));
    assert!(!admits(&CgWindow { layer: None, ..entry(1, 1, "") }, &mine));
    assert!(!admits(&CgWindow { alpha: Some(0), ..entry(1, 1, "") }, &mine));
    assert!(admits(&CgWindow { alpha: Some(1), ..entry(1, 1, "") }, &mine));
    assert!(!admits(&CgWindow { bounds: None, ..entry(1, 1, "") }, &mine));
    assert!(!admits(&CgWindow { id: None, ..entry(1, 1, "") }, &mine));
    assert!(admits(&sized(Some(200_000), Some(120_000)), &mine));
    assert!(!admits(&sized(Some(199_999), Some(120_000)), &mine));
    assert!(!admits(&sized(Some(200_000), Some(119_999)), &mine));
    assert!(!admits(&sized(None, Some(120_000)), &mine));
    assert!(!admits(&sized(Some(200_000), None), &mine));
}

#[test]
fn windows_on_screen_come_first() {
    let records = vec![
        CgWindow { on_screen: None, ..entry(1, 1, "") },
        entry(2, 1, "Inbox - Chromium - Work"),
        CgWindow { on_screen: Some(false), current_spaces: Some(1), ..entry(3, 1, "") },
        CgWindow { owner: None, ..entry(4, 1, "Plain - Chromium - Work") },
        entry(5, 9, ""),
    ];
    let ws = cg_windows(&records, &vec![1]);
    assert_eq!(ids(&ws), vec![2, 4, 1, 3]);
    assert_eq!((ws[0].title.as_str(), ws[0].profile.as_deref()), ("Inbox", Some("Work")));
    assert_eq!((ws[1].title.as_str(), ws[1].profile.as_deref()), ("Plain - Chromium - Work", None));
    assert_eq!(ws[0].bounds, (1000, 0, 200_000, 120_000));
    assert!(ws[0].on_current_space && ws[0].on_space && !ws[0].minimized);
    assert!(!ws[2].on_current_space && ws[2].on_space);
    assert!(ws[3].on_current_space && ws[3].on_space);
}

#[test]
fn a_window_on_no_desktop_is_told_apart() {
    let gone = CgWindow { on_screen: Some(false), current_spaces: Some(0), all_spaces: Some(0), ..entry(1, 1, "") };
    let away = CgWindow { on_screen: Some(false), current_spaces: Some(0), all_spaces: Some(1), ..entry(2, 1, "") };
    let ws = cg_windows(&vec![gone, away], &vec![1]);
    assert!(!ws[0].on_space && !ws[0].on_current_space);
    assert!(ws[1].on_space && !ws[1].on_current_space);
}

#[test]
fn a_snapshot_lists_apps_and_windows() {
    let list = vec![running(1, Some("One")), running(2, Some("Two")), running(3, Some("Idle"))];
    let records = vec![
        entry(20, 2, "T"),
        CgWindow { on_screen: Some(false), all_spaces: Some(0), ..entry(21, 2, "closed") },
        entry(10, 1, "O"),
        entry(90, 9, "foreign"),
    ];
    let snap = snapshot(&list, 7, &records, &vec![2, 1], &AxCache::new(), Some(1));
    assert_eq!(pids(&snap.apps), vec![1, 2, 3]);
    assert_eq!(ids(&snap.raw), vec![20, 10, 21]);
    assert_eq!(ids(&snap.windows), vec![20, 10]);
    assert_eq!(snap.apps[1].windows, vec![20]);
    assert_eq!(snap.apps[2].active, 0);
}

// ---- The summary ------------------------------------------------------------

#[test]
fn points_are_written_as_floats_without_a_fraction() {
    for t in [0i64, 1, 499, 500, 501, 999, 1000, 1500, 2500, 3500, -1, -499, -500, -501, -1500, -2500, 123_456_789, -987_654_321] {
        assert_eq!(points(t), format!("{:.0}", t as f64 / 1000.0), "{t}");
    }
    assert_eq!(points(i64::MAX), "9223372036854776");
    assert_eq!(points(i64::MIN), "-9223372036854776");
}

#[test]
fn the_summary_says_what_was_dropped_and_why() {
    let apps = vec![
        AppEntry { on_current: true, ..app(1, "One") },
        AppEntry { hidden: true, ..app(2, "Two") },
    ];
    let raw = vec![
        window(1, 1, "secret"),
        window(2, 1, "secret dialog"),
        window(3, 1, "secret helper"),
        window(4, 1, ""),
        off(5, 1, ""),
        WindowInfo { on_space: false, ..off(6, 1, "secret closed") },
        off(7, 1, "secret elsewhere"),
        window(8, 2, ""),
    ];
    let ax = ax_lookup(&vec![reply(1, vec![ax(1, true, true, "secret"), ax(2, false, false, "secret dialog")])]);
    let mut kept = vec![window(1, 1, "secret"), off(7, 1, "secret elsewhere"), window(8, 2, "")];
    kept[0].minimized = true;
    let text = ax_summary(&raw, &kept, &apps, &ax);
    let g = "0,0 800x600";
    let expected = format!(
        "  One: cg=7 ax=2 shown=2 ({g} on cur min) ({g} off) other-desktop=1 dropped[ax-nonstandard=1 onscreen-titled=1 onscreen-untitled=1 offscreen-untitled=1 closed=1] [{g}] [{g}] [{g}] [{g}] [{g} no-space]\n  Two (hidden) (elsewhere): cg=1 ax=- shown=1 ({g} on cur) other-desktop=0 dropped[ax-nonstandard=0 onscreen-titled=0 onscreen-untitled=0 offscreen-untitled=0 closed=0]"
    );
    assert_eq!(text, expected);
    assert!(!text.contains("secret"));
    assert_eq!(ax_summary(&raw, &kept, &vec![], &ax), "");
    let other = ax_lookup(&vec![AxReply {
        pid: 1,
        windows: Some(vec![
            AxWindow { id: 1, minimized: true, standard: true, title: "another".to_string() },
            AxWindow { id: 2, minimized: false, standard: false, title: String::new() },
        ]),
    }]);
    assert_eq!(ax_summary(&raw, &kept, &apps, &other), expected);
}
