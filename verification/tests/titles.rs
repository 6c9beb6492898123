use chromehub::chrome::{is_annotation, is_chrome, split_title};

#[test]
fn profile_with_email() {
    assert_eq!(
        split_title("Inbox (3) - Gmail - Google Chrome - Work (me@example.com)", "Google Chrome"),
        ("Inbox (3) - Gmail".into(), Some("Work".into()))
    );
}

#[test]
fn profile_without_email_and_en_dash() {
    assert_eq!(split_title("Docs - Google Chrome – Konstantin", "Google Chrome"), ("Docs".into(), Some("Konstantin".into())));
}

#[test]
fn single_profile_has_no_suffix() {
    assert_eq!(split_title("Docs - Google Chrome", "Google Chrome"), ("Docs".into(), None));
}

#[test]
fn tab_title_equal_to_app_name() {
    assert_eq!(split_title("Google Chrome - Google Chrome - Work", "Google Chrome"), ("Google Chrome".into(), Some("Work".into())));
}

#[test]
fn strips_accessibility_annotations() {
    let t = "Inbox - Mail - Part of group Team - High memory usage - 1.1 GB - Google Chrome - Agency (a@b.c)";
    assert_eq!(split_title(t, "Google Chrome"), ("Inbox - Mail".into(), Some("Agency".into())));
}

#[test]
fn no_app_segment_means_no_profile() {
    assert_eq!(split_title("Konstantin - Google Search", "Google Chrome"), ("Konstantin - Google Search".into(), None));
    assert_eq!(split_title("", "Google Chrome"), (String::new(), None));
}

#[test]
fn helpers_are_not_chrome() {
    assert!(is_chrome("Google Chrome"));
    assert!(!is_chrome("Google Chrome Helper (Renderer)"));
}

#[test]
fn every_chrome_flavour_is_chrome() {
    for app in ["Google Chrome", "Google Chrome Beta", "Google Chrome Canary", "Google Chrome Dev", "Chromium"] {
        assert!(is_chrome(app));
    }
    for app in ["", "Chrome", "google chrome", "Google Chrome ", "Chromium Helper", "Safari"] {
        assert!(!is_chrome(app));
    }
}

#[test]
fn annotations() {
    for s in [
        "Part of group Team",
        "High memory usage",
        "High memory usage - now",
        "Playing audio",
        "Audio muted",
        "Camera or microphone recording",
        "Notification",
        "1.1 GB",
        "800 MB",
    ] {
        assert!(is_annotation(s), "{s}");
    }
    for s in ["", "Part of groups", "GB", "1.1GB", "high memory usage", "Inbox", "MB "] {
        assert!(!is_annotation(s), "{s}");
    }
}

#[test]
fn only_annotations_before_the_app_leave_its_name() {
    assert_eq!(split_title("Playing audio - Google Chrome - Work", "Google Chrome"), ("Google Chrome".into(), Some("Work".into())));
    assert_eq!(split_title("Google Chrome", "Google Chrome"), ("Google Chrome".into(), None));
}

#[test]
fn the_last_app_segment_counts() {
    assert_eq!(
        split_title("A - Google Chrome - B - Google Chrome - Work - Two", "Google Chrome"),
        ("A - Google Chrome - B".into(), Some("Work - Two".into()))
    );
}

#[test]
fn segments_are_trimmed_and_empty_ones_dropped() {
    assert_eq!(split_title("  Docs  -  -  – Google Chrome –  Work  ", "Google Chrome"), ("Docs".into(), Some("Work".into())));
    // A separator takes the spaces on both sides.
    assert_eq!(split_title("Docs - – Google Chrome", "Google Chrome"), ("Docs - – Google Chrome".into(), None));
    assert_eq!(split_title("  alone \u{2003}", "Google Chrome"), ("alone".into(), None));
}

#[test]
fn parentheses_count_only_at_the_end() {
    assert_eq!(split_title("T - Chromium - Work (a) b", "Chromium"), ("T".into(), Some("Work (a) b".into())));
    assert_eq!(split_title("T - Chromium - Work (a) (b)", "Chromium"), ("T".into(), Some("Work (a)".into())));
    assert_eq!(split_title("T - Chromium - Work(a)", "Chromium"), ("T".into(), Some("Work(a)".into())));
    assert_eq!(split_title("T - Chromium - (a)", "Chromium"), ("T".into(), Some("(a)".into())));
}

#[test]
fn titles_round_trip() {
    for title in ["Inbox", "A - B", "Größe"] {
        for profile in ["Work", "Two words"] {
            let full = format!("{title} - Google Chrome - {profile}");
            assert_eq!(split_title(&full, "Google Chrome"), (title.to_string(), Some(profile.to_string())));
            let mail = format!("{full} (x@y.z)");
            assert_eq!(split_title(&mail, "Google Chrome"), (title.to_string(), Some(profile.to_string())));
        }
    }
}

#[test]
fn either_dash_separates() {
    for sep in [" - ", " – "] {
        let full = ["Inbox", "Mail", "Google Chrome", "Work", "Two (x@y.z)"].join(sep);
        assert_eq!(split_title(&full, "Google Chrome"), ("Inbox - Mail".into(), Some("Work - Two".into())));
    }
    assert_eq!(
        split_title("A – B - Google Chrome – Work - Two", "Google Chrome"),
        ("A - B".into(), Some("Work - Two".into()))
    );
}
