use widgitron::deadline_time::UtcDateTime;
use widgitron::deadlines::{
    build_deadlines, deadline_instance_key, is_pinned_deadline, is_subscribed_title,
    normalize_paper_config, normalize_sub_filter, sort_and_limit_deadlines, PaperConfig,
    PaperDeadlineInfo, YamlConf, YamlConfItem, YamlRank, YamlTimeline,
};

fn now_utc() -> UtcDateTime {
    let elapsed = std::time::SystemTime::now()
        .duration_since(std::time::UNIX_EPOCH)
        .unwrap();
    UtcDateTime::from_timestamp(elapsed.as_secs() as i64, elapsed.subsec_nanos()).unwrap()
}

fn new_year_2026() -> UtcDateTime {
    UtcDateTime::from_timestamp(1_767_225_600, 0).unwrap()
}

fn test_conf() -> YamlConfItem {
    YamlConfItem {
        title: "TestConf".to_string(),
        sub: Some("AI".to_string()),
        rank: Some(YamlRank { ccf: Some("A".to_string()), core: None }),
        confs: Some(vec![YamlConf {
            year: "2099".to_string(),
            timezone: Some("AoE".to_string()),
            place: None,
            link: None,
            timeline: Some(vec![
                YamlTimeline { deadline: Some("2099-01-01 23:59:59".to_string()) },
                YamlTimeline { deadline: Some("2099-02-01 23:59:59".to_string()) },
            ]),
        }]),
    }
}

#[test]
fn honors_max_deadlines() {
    let items = vec![test_conf()];
    let config = PaperConfig {
        max_deadlines: Some(1),
        filter_by_rank: Some(vec!["A".to_string()]),
        filter_by_core: Some(Vec::new()),
        ..PaperConfig::default()
    };

    let deadlines = build_deadlines(&items, &config, &now_utc());
    assert_eq!(deadlines.len(), 1);
    assert_eq!(deadlines[0].deadline_utc, "2099-01-02T11:59:59+00:00");
}

fn deadline(title: &str, year: &str, deadline_utc: &str) -> PaperDeadlineInfo {
    PaperDeadlineInfo {
        title: title.to_string(),
        year: year.to_string(),
        deadline_utc: deadline_utc.to_string(),
        timezone: "UTC".to_string(),
        rank: "A".to_string(),
        sub: "AI".to_string(),
        place: String::new(),
        link: String::new(),
        ccf: Some("A".to_string()),
        core: None,
    }
}

#[test]
fn retains_pinned_and_subscribed_deadlines_beyond_regular_limit() {
    let mut deadlines = vec![
        deadline("RegularNear", "2090", "2090-01-01T00:00:00+00:00"),
        deadline("RegularFar", "2091", "2091-01-01T00:00:00+00:00"),
        deadline("Subscribed", "2098", "2098-01-01T00:00:00+00:00"),
        deadline("Pinned", "2099", "2099-01-01T00:00:00+00:00"),
    ];
    let config = PaperConfig {
        max_deadlines: Some(1),
        subscribed_titles: Some(vec!["Subscribed".to_string()]),
        pinned_deadline_ids: Some(vec!["pinned|2099|2099-01-01T00:00:00+00:00".to_string()]),
        ..PaperConfig::default()
    };

    sort_and_limit_deadlines(&mut deadlines, &config, &new_year_2026());

    let titles: Vec<_> = deadlines.iter().map(|item| item.title.as_str()).collect();
    assert_eq!(titles, vec!["RegularNear", "Subscribed", "Pinned"]);
}

#[test]
fn sorts_future_first_and_past_nearest_first() {
    let mut deadlines = vec![
        deadline("PastFar", "2020", "2020-01-01T00:00:00+00:00"),
        deadline("FutureFar", "2030", "2030-01-01T00:00:00+00:00"),
        deadline("PastNear", "2025", "2025-12-01T00:00:00+00:00"),
        deadline("FutureNear", "2027", "2027-01-01T00:00:00+00:00"),
    ];
    let config = PaperConfig {
        max_deadlines: None,
        show_past_deadlines: Some(true),
        ..PaperConfig::default()
    };

    sort_and_limit_deadlines(&mut deadlines, &config, &new_year_2026());

    let titles: Vec<_> = deadlines.iter().map(|item| item.title.as_str()).collect();
    assert_eq!(titles, vec!["FutureNear", "FutureFar", "PastNear", "PastFar"]);
}

#[test]
fn normalizing_settings_clamps_renames_and_dedups() {
    let mut config = PaperConfig {
        update_interval: Some(5),
        filter_by_sub: Some(vec!["DM".to_string(), "AI".to_string(), "DB".to_string(), "AI".to_string()]),
        ..PaperConfig::default()
    };
    normalize_paper_config(&mut config);
    assert_eq!(config.update_interval, Some(60));
    assert_eq!(config.filter_by_sub, Some(vec!["DB".to_string(), "AI".to_string()]));

    let mut unset = PaperConfig::default();
    normalize_paper_config(&mut unset);
    assert_eq!(unset.update_interval, Some(3600));
    assert_eq!(unset.filter_by_sub, None);

    let mut huge = PaperConfig { update_interval: Some(1_000_000), ..PaperConfig::default() };
    normalize_paper_config(&mut huge);
    assert_eq!(huge.update_interval, Some(86_400));
}

#[test]
fn normalizing_twice_changes_nothing_more() {
    let subs = vec!["DM".to_string(), "CV".to_string(), "DB".to_string(), "CV".to_string(), "DM".to_string()];
    let once = normalize_sub_filter(&subs);
    let twice = normalize_sub_filter(&once);
    assert_eq!(once, twice);
    assert!(!once.iter().any(|s| s == "DM"));
}

#[test]
fn instance_keys_and_pins_compare_normalized_text() {
    let d = deadline("  NeurIPS ", "2099", " 2099-05-01T00:00:00+00:00 ");
    assert_eq!(deadline_instance_key(&d), "neurips|2099|2099-05-01T00:00:00+00:00");
    let config = PaperConfig {
        pinned_deadline_ids: Some(vec![" NEURIPS|2099|2099-05-01T00:00:00+00:00 ".to_string()]),
        subscribed_titles: Some(vec!["Ä Conference".to_string()]),
        ..PaperConfig::default()
    };
    assert!(is_pinned_deadline(&d, &config));
    assert!(is_subscribed_title("  ä conference", &config));
    assert!(!is_subscribed_title("Other", &config));
}

#[test]
fn past_deadlines_are_hidden_unless_asked_for() {
    let mut item = test_conf();
    item.confs.as_mut().unwrap()[0].timeline = Some(vec![YamlTimeline {
        deadline: Some("2001-01-01 00:00:00".to_string()),
    }]);
    item.confs.as_mut().unwrap()[0].year = "2001".to_string();
    let items = vec![item];
    let hidden = build_deadlines(&items, &PaperConfig::default(), &new_year_2026());
    assert!(hidden.is_empty());
    let shown_config = PaperConfig { show_past_deadlines: Some(true), ..PaperConfig::default() };
    let shown = build_deadlines(&items, &shown_config, &new_year_2026());
    assert_eq!(shown.len(), 1);
    assert_eq!(shown[0].deadline_utc, "2001-01-01T12:00:00+00:00");
}

#[test]
fn a_past_leap_second_in_a_local_mean_time_zone_is_listed() {
    let mut item = test_conf();
    let conf = &mut item.confs.as_mut().unwrap()[0];
    conf.timezone = Some("Africa/Abidjan".to_string());
    conf.year = "1900".to_string();
    conf.timeline = Some(vec![YamlTimeline { deadline: Some("1900-01-01 23:59:60".to_string()) }]);
    let items = vec![item];
    let shown_config = PaperConfig { show_past_deadlines: Some(true), ..PaperConfig::default() };
    let shown = build_deadlines(&items, &shown_config, &new_year_2026());
    assert_eq!(shown.len(), 1);
    assert!(shown[0].deadline_utc.starts_with("1900-01-02T00:16:0"));
    assert!(build_deadlines(&items, &PaperConfig::default(), &new_year_2026()).is_empty());
}
