use widgitron::antigravity::{AntigravitySetupStatus, OAuthTokens};
use widgitron::cloud_quota::{select_model_quotas, CloudModel};
use widgitron::theme_config::{
    migrate_legacy_text_color, sync_assignments, sync_theme_config, LegacyThemeFields, TextColor, ThemeEntry,
};
use widgitron::widget_layout::{
    find_monitor_by_key, is_tracked_widget, monitor_containing_window, monitor_key,
    monitor_signature, monitor_work_area, place_widget, signed_decimal_string, MonitorInfo,
    PixelRect,
};

fn model(key: &str, label: Option<&str>, rank: u64) -> CloudModel {
    CloudModel {
        key: key.to_string(),
        model: None,
        is_internal: None,
        display_name: label.map(|l| l.to_string()),
        has_quota_info: true,
        fraction_rank: rank,
    }
}

#[test]
fn one_model_per_label_with_the_least_quota_left() {
    let mut internal = model("m4", Some("Internal"), 1);
    internal.is_internal = Some(true);
    let mut hidden = model("x", Some("Hidden"), 1);
    hidden.model = Some("MODEL_CHAT_20706".to_string());
    let mut no_quota = model("m6", Some("NoQuota"), 1);
    no_quota.has_quota_info = false;
    let models = vec![
        model("m1", Some(" Gemini "), 5),
        model("m2", Some("Flash"), 3),
        model("m3", Some("Gemini"), 2),
        internal,
        hidden,
        no_quota,
        model("m7", Some("   "), 0),
        model("m8", Some("Gemini"), 2),
        model("m9", None, 0),
    ];
    assert_eq!(select_model_quotas(&models), vec![1, 2]);
}

#[test]
fn no_shown_models_gives_nothing() {
    assert!(select_model_quotas(&Vec::new()).is_empty());
    let mut m = model("MODEL_PLACEHOLDER_M9", Some("P"), 0);
    m.model = None;
    assert!(select_model_quotas(&vec![m]).is_empty());
}

#[test]
fn setup_status_reports_its_findings() {
    let tokens = vec![OAuthTokens { access_token: Some("a".to_string()), refresh_token: None, expiry_seconds: None }];
    let status = AntigravitySetupStatus::from_findings(
        &tokens,
        &Err("no secret".to_string()),
        false,
        "/cfg".to_string(),
        "/cfg/antigravity_oauth.json".to_string(),
        true,
    );
    assert!(status.has_oauth_tokens);
    assert!(!status.cloud_auth_ready);
    assert_eq!(status.oauth_config_path, "/cfg/antigravity_oauth.json");
    assert!(status.program_files_install);
}

#[test]
fn tracks_the_four_default_widgets() {
    assert!(is_tracked_widget("widget-gpu-default"));
    assert!(is_tracked_widget("widget-quota-default"));
    assert!(!is_tracked_widget("main"));
    assert!(!is_tracked_widget("widget-gpu-default "));
}

#[test]
fn names_monitors_by_name_or_work_area() {
    let area = monitor_work_area(-1920, 0, 1920, 0);
    assert_eq!(area.height, 1);
    assert_eq!(monitor_key(Some("  DELL U2720Q "), &area), "DELL U2720Q");
    assert_eq!(monitor_key(Some("   "), &area), "display@-1920,0:1920x1");
    assert_eq!(monitor_key(None, &monitor_work_area(0, 25, 2560, 1415)), "display@0,25:2560x1415");
    assert_eq!(signed_decimal_string(i32::MIN), "-2147483648");
}

#[test]
fn signatures_list_monitors_by_key() {
    let monitors = vec![
        MonitorInfo { key: "b".to_string(), area: monitor_work_area(0, 0, 10, 20) },
        MonitorInfo { key: "a".to_string(), area: monitor_work_area(-5, 3, 7, 8) },
    ];
    assert_eq!(monitor_signature(monitors), "a@-5,3:7x8|b@0,0:10x20");
    assert_eq!(monitor_signature(Vec::new()), "");
}

#[test]
fn theme_sync_drops_transparent_and_adds_missing_defaults() {
    let entry = |id: &str, body: &str| ThemeEntry { id: id.to_string(), body: body.to_string() };
    let themes = vec![entry("dark", "e0"), entry("glass-transparent", "e1"), entry("light", "e2")];
    let defaults = vec![entry("light", "d0"), entry("ocean", "d1"), entry("ocean", "d2"), entry("x-transparent", "d3")];
    let assignments = vec![("widget-gpu-default".to_string(), String::new())];
    let default_assignments = vec![("widget-gpu-default".to_string(), "dark".to_string())];
    let (synced, assigned) = sync_theme_config(themes, assignments, defaults, &default_assignments);
    let described: Vec<&str> = synced.iter().map(|t| t.body.as_str()).collect();
    assert_eq!(described, vec!["e0", "e2", "d1", "d3"]);
    let ids: Vec<&str> = synced.iter().map(|t| t.id.as_str()).collect();
    assert_eq!(ids, vec!["dark", "light", "ocean", "x-transparent"]);
    assert_eq!(assigned, vec![("widget-gpu-default".to_string(), "dark".to_string())]);
}

#[test]
fn a_legacy_text_color_becomes_main_and_sub_text() {
    let migrated = migrate_legacy_text_color(LegacyThemeFields {
        text_color: Some("#ffffff".to_string()),
        text_colors: None,
    });
    assert!(migrated.text_color.is_none());
    let colors: Vec<(String, String, u32)> = migrated
        .text_colors
        .unwrap()
        .into_iter()
        .map(|c: TextColor| (c.name, c.value, c.opacity_percent))
        .collect();
    assert_eq!(
        colors,
        vec![
            ("Main Text".to_string(), "#ffffff".to_string(), 100),
            ("Sub Text".to_string(), "#94a3b8".to_string(), 60),
        ]
    );
    let current = migrate_legacy_text_color(LegacyThemeFields { text_color: None, text_colors: None });
    assert!(current.text_color.is_none() && current.text_colors.is_none());
}

#[test]
fn assignment_sync_fills_missing_and_empty_themes() {
    let current = vec![
        ("widget-gpu-default".to_string(), "".to_string()),
        ("widget-arxiv-default".to_string(), "mine".to_string()),
    ];
    let defaults = vec![
        ("widget-gpu-default".to_string(), "dark".to_string()),
        ("widget-arxiv-default".to_string(), "light".to_string()),
        ("widget-quota-default".to_string(), "dark".to_string()),
    ];
    let synced = sync_assignments(current, &defaults);
    assert_eq!(
        synced,
        vec![
            ("widget-gpu-default".to_string(), "dark".to_string()),
            ("widget-arxiv-default".to_string(), "mine".to_string()),
            ("widget-quota-default".to_string(), "dark".to_string()),
        ]
    );
}

#[test]
fn finds_the_first_monitor_with_a_key() {
    let monitors = vec![
        MonitorInfo { key: "left".to_string(), area: monitor_work_area(-1920, 0, 1920, 1080) },
        MonitorInfo { key: "right".to_string(), area: monitor_work_area(0, 0, 2560, 1440) },
        MonitorInfo { key: "right".to_string(), area: monitor_work_area(2560, 0, 800, 600) },
    ];
    assert_eq!(find_monitor_by_key(&monitors, "right"), Some(1));
    assert_eq!(find_monitor_by_key(&monitors, "left"), Some(0));
    assert_eq!(find_monitor_by_key(&monitors, "centre"), None);
}

#[test]
fn places_a_window_by_its_centre() {
    let monitors = vec![
        PixelRect { x: -1920, y: 0, width: 1920, height: 1080 },
        PixelRect { x: 0, y: 0, width: 2560, height: 1440 },
    ];
    let straddling = PixelRect { x: -100, y: 100, width: 400, height: 300 };
    assert_eq!(monitor_containing_window(&straddling, &monitors), Some(1));
    let left = PixelRect { x: -500, y: 100, width: 400, height: 300 };
    assert_eq!(monitor_containing_window(&left, &monitors), Some(0));
    let edge = PixelRect { x: -1, y: 0, width: 2, height: 2 };
    assert_eq!(monitor_containing_window(&edge, &monitors), Some(1));
    let below = PixelRect { x: 10, y: 1500, width: 100, height: 100 };
    assert_eq!(monitor_containing_window(&below, &monitors), None);
}

#[test]
fn keeps_a_placed_widget_on_its_area() {
    let area = monitor_work_area(0, 0, 1920, 1080);
    let r = place_widget(&area, 1800, 50, 300, 400);
    assert_eq!((r.x, r.y, r.width, r.height), (1620, 50, 300, 400));
    let small = place_widget(&area, -40, 10, 100, 90);
    assert_eq!((small.x, small.y, small.width, small.height), (0, 10, 220, 180));
    let tiny_area = monitor_work_area(-100, 20, 150, 100);
    let t = place_widget(&tiny_area, 30, 30, 500, 500);
    assert_eq!((t.x, t.y, t.width, t.height), (-100, 20, 150, 100));
}
