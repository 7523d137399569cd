use widgitron::arxiv::ArxivPaper;
use widgitron::deadline_time::UtcDateTime;
use widgitron::monitor::{
    arxiv_config_changed, arxiv_monitor_step, arxiv_queries, cache_is_fresh, monitor_enabled,
    paper_monitor_step, poll_wait_checks, ArxivConfig, ArxivMonitorAction, ArxivMonitorEvent, Backoff,
    MonitorState, PaperMonitorAction, PaperMonitorEvent, QueryScan, ARXIV_PAGE_SIZE,
};

fn paper(id: &str, updated: &str) -> ArxivPaper {
    ArxivPaper {
        id: id.to_string(),
        title: String::new(),
        summary: String::new(),
        matched_keywords: Vec::new(),
        authors: Vec::new(),
        link: String::new(),
        published: String::new(),
        updated: updated.to_string(),
    }
}

fn day() -> (UtcDateTime, UtcDateTime) {
    (
        UtcDateTime::from_timestamp(1_767_225_600, 0).unwrap(),
        UtcDateTime::from_timestamp(1_767_312_000, 0).unwrap(),
    )
}

#[test]
fn backoff_doubles_up_to_fifteen_minutes_and_resets() {
    let mut b = Backoff::new();
    assert_eq!(b.delay_secs(), 60);
    let waits: Vec<u64> = (0..6).map(|_| b.after_failure()).collect();
    assert_eq!(waits, vec![60, 120, 240, 480, 900, 900]);
    assert_eq!(b.delay_secs(), 900);
    b.after_success();
    assert_eq!(b.delay_secs(), 60);
}

#[test]
fn monitors_poll_unless_switched_off() {
    assert!(monitor_enabled(None));
    assert!(monitor_enabled(Some(true)));
    assert!(!monitor_enabled(Some(false)));
    assert!(cache_is_fresh(1799));
    assert!(!cache_is_fresh(1800));
    assert_eq!(poll_wait_checks(3600), 720);
    assert_eq!(poll_wait_checks(4), 0);
}

#[test]
fn config_changes_cut_waits_short() {
    let a = ArxivConfig { keywords: vec!["llm".to_string()], categories: vec!["cs".to_string()], update_interval: 60 };
    let b = ArxivConfig { keywords: vec!["llm".to_string()], categories: vec!["cs".to_string()], update_interval: 60 };
    assert!(!arxiv_config_changed(&a, &b));
    let c = ArxivConfig { keywords: vec!["rl".to_string()], categories: vec!["cs".to_string()], update_interval: 60 };
    assert!(arxiv_config_changed(&a, &c));
    let d = ArxivConfig { keywords: vec!["llm".to_string()], categories: vec!["cs".to_string()], update_interval: 61 };
    assert!(arxiv_config_changed(&a, &d));
}

#[test]
fn builds_one_query_per_distinct_keyword() {
    let (queries, merged) = arxiv_queries(&Vec::new(), &vec!["cs.AI".to_string()]);
    assert!(!merged);
    assert_eq!(queries.len(), 1);
    assert_eq!(queries[0].query, "(cat:cs.AI*)");
    assert_eq!(queries[0].minimum_count, None);

    let keywords = vec!["Large Language".to_string(), "large language".to_string(), "\"\"".to_string(), "RL".to_string()];
    let (queries, merged) = arxiv_queries(&keywords, &Vec::new());
    assert!(merged);
    let texts: Vec<&str> = queries.iter().map(|q| q.query.as_str()).collect();
    assert_eq!(texts, vec!["cat:cs* AND (all:large AND all:language)", "cat:cs* AND all:rl"]);
    assert!(queries.iter().all(|q| q.minimum_count == Some(10)));
}

#[test]
fn a_page_keeps_todays_papers_and_stops_before_yesterday() {
    let (lo, hi) = day();
    let mut scan = QueryScan::new(None, lo, hi);
    let page = vec![
        paper("future", "2026-01-02T01:00:00Z"),
        paper("today", "2026-01-01T10:00:00Z"),
        paper("yesterday", "2025-12-31T10:00:00Z"),
        paper("older", "2025-12-30T10:00:00Z"),
    ];
    assert!(!scan.take_page(page, Some(500)));
    let ids: Vec<&str> = scan.papers.iter().map(|p| p.id.as_str()).collect();
    assert_eq!(ids, vec!["today"]);
    assert_eq!(scan.total_results, Some(500));
}

#[test]
fn a_minimum_reaches_back_before_today() {
    let (lo, hi) = day();
    let mut scan = QueryScan::new(Some(2), lo, hi);
    let page = vec![
        paper("today", "2026-01-01T10:00:00Z"),
        paper("yesterday", "2025-12-31T10:00:00Z"),
        paper("older", "2025-12-30T10:00:00Z"),
    ];
    assert!(!scan.take_page(page, None));
    let ids: Vec<&str> = scan.papers.iter().map(|p| p.id.as_str()).collect();
    assert_eq!(ids, vec!["today", "yesterday"]);
}

#[test]
fn full_pages_continue_until_the_total() {
    let (lo, hi) = day();
    let mut scan = QueryScan::new(None, lo, hi);
    let page: Vec<ArxivPaper> = (0..ARXIV_PAGE_SIZE)
        .map(|i| paper(&format!("p{}", i), "2026-01-01T12:00:00Z"))
        .collect();
    assert!(scan.take_page(page, Some(150)));
    assert_eq!(scan.start, 100);
    let page: Vec<ArxivPaper> = (0..ARXIV_PAGE_SIZE)
        .map(|i| paper(&format!("q{}", i), "2026-01-01T12:00:00Z"))
        .collect();
    assert!(!scan.take_page(page, Some(7)));
    assert_eq!(scan.start, 200);
    assert_eq!(scan.total_results, Some(150));
    assert_eq!(scan.papers.len(), 200);
}

#[test]
fn the_paper_monitor_backs_off_and_resets() {
    let round = |enabled: Option<bool>, age: Option<u64>| PaperMonitorEvent::Round {
        enabled,
        interval_secs: 3600,
        cache_age_secs: age,
    };
    let (s, a) = paper_monitor_step(MonitorState::new(), round(Some(false), Some(10)));
    assert!(matches!(a, PaperMonitorAction::ClearAndPause { secs: 5 }));
    assert!(s.is_startup);
    let (s, a) = paper_monitor_step(s, round(None, Some(10)));
    assert!(matches!(a, PaperMonitorAction::LoadCache));
    let (s, a) = paper_monitor_step(s, PaperMonitorEvent::CacheLoaded { count: 0 });
    assert!(matches!(a, PaperMonitorAction::Fetch));
    let mut s = s;
    let mut sleeps = Vec::new();
    for _ in 0..6 {
        let (next, a) = paper_monitor_step(s, PaperMonitorEvent::FeedFailed);
        match a {
            PaperMonitorAction::RestoreAndSleep { secs } => sleeps.push(secs),
            _ => panic!("a failed fetch sleeps"),
        }
        s = next;
    }
    assert_eq!(sleeps, vec![60, 120, 240, 480, 900, 900]);
    let (s, a) = paper_monitor_step(s, PaperMonitorEvent::FeedRead);
    assert!(matches!(a, PaperMonitorAction::ProcessAndWait { checks: 720 }));
    assert_eq!(s.backoff.delay_secs(), 60);
    let (_, a) = paper_monitor_step(s, round(Some(true), Some(10)));
    assert!(matches!(a, PaperMonitorAction::Fetch));
}

#[test]
fn the_arxiv_monitor_skips_a_fresh_cache_once() {
    let round = |enabled: Option<bool>, age: Option<u64>| ArxivMonitorEvent::Round {
        enabled,
        interval_secs: 600,
        cache_age_secs: age,
    };
    let (s, a) = arxiv_monitor_step(MonitorState::new(), round(None, Some(60)));
    assert!(matches!(a, ArxivMonitorAction::WaitInterval { checks: 120 }));
    let (s, a) = arxiv_monitor_step(s, round(None, Some(60)));
    assert!(matches!(a, ArxivMonitorAction::Fetch));
    let (s, a) = arxiv_monitor_step(s, ArxivMonitorEvent::FetchFailed);
    assert!(matches!(a, ArxivMonitorAction::ShowCachedAndSleep { secs: 60 }));
    let (s, a) = arxiv_monitor_step(s, ArxivMonitorEvent::FetchFailed);
    assert!(matches!(a, ArxivMonitorAction::ShowCachedAndSleep { secs: 120 }));
    let (s, a) = arxiv_monitor_step(s, ArxivMonitorEvent::FetchSucceeded);
    assert!(matches!(a, ArxivMonitorAction::WaitInterval { checks: 120 }));
    assert_eq!(s.backoff.delay_secs(), 60);
    let (s, a) = arxiv_monitor_step(s, round(Some(false), None));
    assert!(matches!(a, ArxivMonitorAction::ClearAndIdle { secs: 600 }));
    assert!(!s.is_startup);

    let (s, _) = arxiv_monitor_step(MonitorState::new(), round(Some(false), Some(60)));
    let (_, a) = arxiv_monitor_step(s, round(None, Some(60)));
    assert!(matches!(a, ArxivMonitorAction::Fetch));
}
