use aw_notify::alert::default_alerts;
use aw_notify::alert::CategoryAlert;
use aw_notify::clock::cache_is_fresh;
use aw_notify::clock::cache_key;
use aw_notify::clock::new_day_message;
use aw_notify::clock::next_day_start;
use aw_notify::clock::query_period;
use aw_notify::clock::seconds_until_next_hour;
use aw_notify::clock::seconds_until_next_day_start;
use aw_notify::clock::service_day;
use aw_notify::service::active_status;
use aw_notify::service::afk_bucket;
use aw_notify::service::build_query;
use aw_notify::service::hourly_checkin_due;
use aw_notify::service::plan;
use aw_notify::service::resolve_port;
use aw_notify::service::window_bucket;
use aw_notify::service::AfkEvent;
use aw_notify::service::Command;
use aw_notify::service::Mode;
use aw_notify::service::NewDayPoll;
use aw_notify::service::NewDayWatch;
use aw_notify::service::ServerMonitor;
use aw_notify::text::format_duration;
use aw_notify::text::join_strings;
use aw_notify::times::CategoryEvent;
use aw_notify::times::CategoryTimes;

const NOW: i64 = 1_700_000_000; // 2023-11-14 22:13:20 UTC

fn times(entries: &[(&str, i64)]) -> CategoryTimes {
    let mut t = CategoryTimes::new();
    for (k, v) in entries {
        t.insert(k.to_string(), *v);
    }
    t
}

#[test]
fn format_duration_edges() {
    assert_eq!(format_duration(0), "0s");
    assert_eq!(format_duration(59), "59s");
    assert_eq!(format_duration(60), "1m");
    assert_eq!(format_duration(61), "1m");
    assert_eq!(format_duration(3600), "1h");
    assert_eq!(format_duration(86400), "1d");
    assert_eq!(format_duration(90061), "1d 1h 1m");
    assert_eq!(format_duration(86460), "1d 1m");
    assert_eq!(format_duration(-90), "-30s");
    assert_eq!(format_duration(-60), "0s");
    assert_eq!(format_duration(i64::MAX), "106751991167300d 15h 30m");
    assert_eq!(format_duration(i64::MIN), "-8s");
}

#[test]
fn join_strings_separates_neighbours() {
    let parts = vec!["a".to_string(), "bc".to_string(), "".to_string()];
    assert_eq!(join_strings(&parts, ", "), "a, bc, ");
    assert_eq!(join_strings(&Vec::new(), ", "), "");
}

#[test]
fn category_times_read_after_record() {
    let mut t = CategoryTimes::new();
    assert_eq!(t.get("Work"), None);
    t.insert("Work".to_string(), 10);
    t.insert("All".to_string(), 30);
    assert_eq!(t.get("Work"), Some(10));
    t.insert("Work".to_string(), 20);
    assert_eq!(t.get("Work"), Some(20));
    assert_eq!(t.get("All"), Some(30));
    assert_eq!(t.get("work"), None);
}

#[test]
fn from_query_records_total_and_complete_entries() {
    let events = vec![
        CategoryEvent { category: Some("Work".to_string()), seconds: Some(100) },
        CategoryEvent { category: None, seconds: Some(5) },
        CategoryEvent { category: Some("Chat".to_string()), seconds: None },
        CategoryEvent { category: Some("Work".to_string()), seconds: Some(150) },
    ];
    let t = CategoryTimes::from_query(Some(400), events);
    assert_eq!(t.get("All"), Some(400));
    assert_eq!(t.get("Work"), Some(150));
    assert_eq!(t.get("Chat"), None);
    let t = CategoryTimes::from_query(None, Vec::new());
    assert_eq!(t.get("All"), None);
}

#[test]
fn top_categories_largest_first_at_most_four() {
    let t = times(&[
        ("Twitter", 150),
        ("All", 10000),
        ("Chat", 201),
        ("Work", 5000),
        ("Youtube", 300),
        ("Mail", 250),
        ("Idle", 0),
    ]);
    let top = t.top_categories();
    let names: Vec<&str> = top.iter().map(|(n, _)| n.as_str()).collect();
    assert_eq!(names, vec!["All", "Work", "Youtube", "Mail"]);
    assert_eq!(top[3].1, 250);
}

#[test]
fn two_percent_is_not_enough() {
    // 200 of 10000 is exactly two percent: not more than it.
    let t = times(&[("All", 10000), ("Edge", 200), ("Over", 201)]);
    let top = t.top_categories();
    let names: Vec<&str> = top.iter().map(|(n, _)| n.as_str()).collect();
    assert_eq!(names, vec!["All", "Over"]);
}

#[test]
fn summary_text_lists_top_categories() {
    let t = times(&[("All", 10000), ("Work", 5000), ("Youtube", 300), ("Mail", 250), ("Chat", 201)]);
    assert_eq!(
        t.summary(),
        Some("- All: 2h 46m\n- Work: 1h 23m\n- Youtube: 5m\n- Mail: 4m".to_string())
    );
}

#[test]
fn summary_of_a_workday() {
    let t = times(&[("All", 7200), ("Work", 5400), ("Twitter", 60)]);
    assert_eq!(t.summary(), Some("- All: 2h\n- Work: 1h 30m".to_string()));
}

#[test]
fn summary_empty_without_time() {
    assert_eq!(CategoryTimes::new().summary(), None);
    assert_eq!(times(&[("All", 0), ("Work", 0)]).summary(), None);
    // With a total above zero the total itself is noticeable.
    assert_eq!(times(&[("All", 45)]).summary(), Some("- All: 45s".to_string()));
}

fn test_alert(positive: bool) -> CategoryAlert {
    CategoryAlert::new("Test", vec![900, 1800, 3600], None, positive)
}

#[test]
fn check_announces_largest_crossed_threshold_once() {
    let mut alert = test_alert(false);
    alert.time_spent = 2000;
    let notice = alert.check(false).expect("a threshold is crossed");
    assert_eq!(notice.title, "Time spent");
    assert_eq!(notice.message, "Test: 30m  (33m)");
    assert_eq!(alert.max_triggered, 1800);
    assert!(alert.check(false).is_none());
    assert_eq!(alert.max_triggered, 1800);
    assert_eq!(alert.thresholds_untriggered(), vec![3600]);
}

#[test]
fn check_goal_reached_with_same_text() {
    let mut alert = test_alert(true);
    alert.time_spent = 1800;
    let notice = alert.check(false).expect("a threshold is crossed");
    assert_eq!(notice.title, "Goal reached!");
    assert_eq!(notice.message, "Test: 30m");
}

#[test]
fn silent_check_records_without_notice() {
    let mut alert = test_alert(false);
    alert.time_spent = 4000;
    assert!(alert.check(true).is_none());
    assert_eq!(alert.max_triggered, 3600);
    assert!(alert.thresholds_untriggered().is_empty());
}

#[test]
fn check_below_every_threshold_does_nothing() {
    let mut alert = test_alert(false);
    alert.time_spent = 899;
    assert!(alert.check(false).is_none());
    assert_eq!(alert.max_triggered, 0);
}

#[test]
fn wait_until_next_threshold() {
    let mut alert = test_alert(false);
    alert.max_triggered = 900;
    alert.time_spent = 1000;
    assert_eq!(alert.time_to_next_threshold_at(NOW), 800);
    // Every threshold announced: wait for the next service day (04:00 UTC)
    // plus the smallest threshold.
    alert.max_triggered = 3600;
    assert_eq!(alert.time_to_next_threshold_at(NOW), 20800 + 900);
    let w = alert.time_to_next_threshold().expect("representable");
    assert!(w > 14400 + 900 && w <= 100800 + 900);
}

#[test]
fn update_takes_in_fetched_time() {
    let mut alert = test_alert(false);
    assert!(alert.needs_update(NOW));
    let fetched = times(&[("Test", 1234), ("All", 5000)]);
    alert.update(Some(&fetched), NOW);
    assert_eq!(alert.time_spent, 1234);
    assert_eq!(alert.last_check, NOW);
    // The next threshold is 900s - 1234s away: already due.
    assert!(alert.needs_update(NOW + 1));
    alert.update(None, NOW + 1);
    assert_eq!(alert.time_spent, 1234);
    assert_eq!(alert.last_check, NOW + 1);
    let other = times(&[("All", 5000)]);
    alert.update(Some(&other), NOW + 2);
    assert_eq!(alert.time_spent, 0);
    // 900s to go from the last fetch.
    assert!(!alert.needs_update(NOW + 2 + 900));
    assert!(alert.needs_update(NOW + 2 + 901));
}

#[test]
fn status_shows_label_and_time() {
    let mut alert = CategoryAlert::new("Work", vec![60], Some("W"), true);
    alert.time_spent = 3700;
    assert_eq!(alert.status(), "W: 1h 1m");
}

#[test]
fn default_alert_configuration() {
    let alerts = default_alerts();
    assert_eq!(alerts.len(), 4);
    assert_eq!(alerts[0].category, "All");
    assert_eq!(alerts[0].thresholds, vec![3600, 7200, 14400, 21600, 28800]);
    assert_eq!(alerts[1].label, "\u{1f426} Twitter");
    assert_eq!(alerts[2].category, "Youtube");
    assert_eq!(alerts[3].label, "\u{1f4bc} Work");
    assert!(alerts[3].positive);
    assert!(!alerts[0].positive);
}

#[test]
fn calendar_of_an_instant() {
    assert_eq!(service_day(NOW), 19675);
    // Before 04:00 UTC an instant still belongs to the previous service day.
    assert_eq!(service_day(1699934399), 19674);
    assert_eq!(query_period(NOW), (1699934400, 1700020800));
    assert_eq!(seconds_until_next_hour(NOW), 2800);
    assert_eq!(seconds_until_next_hour(1699999200), 3600);
    assert_eq!(seconds_until_next_day_start(NOW), 20800);
    // 00:01 UTC still belongs to the service day that began at 04:00 the day before.
    assert_eq!(seconds_until_next_day_start(1700006460), 14340);
    assert_eq!(seconds_until_next_day_start(1699934400), 86400);
    assert_eq!(next_day_start(NOW), 1700020800);
    assert_eq!(cache_key(NOW), "2023-11-14");
    assert_eq!(cache_key(-1), "1969-12-31");
    assert_eq!(new_day_message(19675), "It is Tuesday, 2023-11-14");
    assert_eq!(new_day_message(0), "It is Thursday, 1970-01-01");
}

#[test]
fn cache_freshness() {
    assert!(cache_is_fresh(100, 159));
    assert!(!cache_is_fresh(100, 160));
}

#[test]
fn server_changes_announced_once() {
    let mut monitor = ServerMonitor::new();
    assert!(monitor.observe(true).is_none());
    let down = monitor.observe(false).expect("went down");
    assert_eq!(down.title, "Server Unavailable");
    assert_eq!(down.message, "ActivityWatch server is down. Data may not be saved!");
    assert!(monitor.observe(false).is_none());
    let up = monitor.observe(true).expect("came back");
    assert_eq!(up.title, "Server Available");
    assert_eq!(up.message, "ActivityWatch server is back online.");
}

#[test]
fn new_day_announced_once_when_active() {
    let mut watch = NewDayWatch::new(NOW);
    assert_eq!(watch.last_day, 19675);
    assert!(matches!(watch.poll(NOW), NewDayPoll::Sleep(20800)));
    // Just after midnight UTC the service day has not changed yet; the watch
    // wakes at 04:00 UTC.
    assert!(matches!(watch.poll(1700006460), NewDayPoll::Sleep(14340)));
    assert!(matches!(watch.poll(1700006460 + 14340), NewDayPoll::NewDay(19676)));
    let next = NOW + 86400;
    let day = match watch.poll(next) {
        NewDayPoll::NewDay(d) => d,
        NewDayPoll::Sleep(_) => panic!("a new day began"),
    };
    assert_eq!(day, 19676);
    assert!(watch.on_activity(day, Some(false)).is_none());
    assert!(watch.on_activity(day, None).is_none());
    assert_eq!(watch.last_day, 19675);
    let notice = watch.on_activity(day, Some(true)).expect("announced");
    assert_eq!(notice.title, "New day");
    assert_eq!(notice.message, "It is Wednesday, 2023-11-15");
    assert!(matches!(watch.poll(next), NewDayPoll::Sleep(_)));
}

#[test]
fn activity_from_latest_record() {
    assert_eq!(active_status(None, NOW), None);
    let active = AfkEvent { start: NOW - 100, duration: 50, status: Some("not-afk".to_string()) };
    assert_eq!(active_status(Some(&active), NOW), Some(true));
    let away = AfkEvent { start: NOW - 100, duration: 50, status: Some("afk".to_string()) };
    assert_eq!(active_status(Some(&away), NOW), Some(false));
    let stale = AfkEvent { start: NOW - 1000, duration: 699, status: Some("not-afk".to_string()) };
    assert_eq!(active_status(Some(&stale), NOW), None);
    let just_fresh = AfkEvent { start: NOW - 1000, duration: 700, status: Some("not-afk".to_string()) };
    assert_eq!(active_status(Some(&just_fresh), NOW), Some(true));
    let unknown = AfkEvent { start: NOW, duration: 0, status: None };
    assert_eq!(active_status(Some(&unknown), NOW), None);
    assert!(hourly_checkin_due(Some(true)));
    assert!(!hourly_checkin_due(Some(false)));
    assert!(!hourly_checkin_due(None));
}

#[test]
fn server_port_and_mode() {
    assert_eq!(resolve_port(false, None), 5600);
    assert_eq!(resolve_port(true, None), 5666);
    assert_eq!(resolve_port(true, Some(1234)), 1234);
    assert!(plan(None, false, None) == (Mode::Service, 5600));
    assert!(plan(None, true, Some(7)) == (Mode::Service, 7));
    assert!(plan(Some(Command::Start { testing: true, port: None }), false, Some(9)) == (Mode::Service, 5666));
    assert!(plan(Some(Command::Checkin { testing: false }), true, Some(9)) == (Mode::Checkin, 5600));
}

#[test]
fn query_names_the_host_buckets() {
    assert_eq!(window_bucket("box"), "aw-watcher-window_box");
    assert_eq!(afk_bucket("box"), "aw-watcher-afk_box");
    let expected = format!(
        r#"
            window_events = flood(query_bucket("{}"));
            afk_events = flood(query_bucket("{}"));
            events = filter_period_intersect(window_events, filter_keyvals(afk_events, "status", ["not-afk"]));
            events = categorize(events, [[["Work"], {{"type": "regex", "regex": ".*"}}]]);
            events = merge_events_by_keys(events, ["$category"]);
            events = sort_by_duration(events);
            duration = sum_durations(events);
            cat_events = events;
            RETURN = {{"events": events, "duration": duration, "cat_events": cat_events}};
            "#,
        "aw-watcher-window_box", "aw-watcher-afk_box"
    );
    assert_eq!(build_query("box"), expected);
}

#[test]
fn cached_times_reused_while_fresh() {
    let t = times(&[("All", 300), ("Work", 120)]);
    let entry = (NOW, t.clone());
    let reused = aw_notify::clock::reuse_cached(Some(&entry), NOW + 59).expect("fresh");
    assert_eq!(reused.get("Work"), Some(120));
    assert_eq!(reused.get("All"), Some(300));
    assert!(aw_notify::clock::reuse_cached(Some(&entry), NOW + 60).is_none());
    assert!(aw_notify::clock::reuse_cached(None, NOW).is_none());
}

#[test]
fn wait_from_a_clock_reading() {
    let mut alert = CategoryAlert::new("Test", vec![900, 1800, 3600], None, false);
    alert.max_triggered = 900;
    alert.time_spent = 1000;
    // With a threshold left, the reading does not matter.
    assert_eq!(alert.time_to_next_threshold_from(None), Some(800));
    assert_eq!(alert.time_to_next_threshold(), Some(800));
    alert.max_triggered = 3600;
    assert_eq!(alert.time_to_next_threshold_from(Some(NOW)), Some(20800 + 900));
    assert_eq!(alert.time_to_next_threshold_from(None), None);
    assert_eq!(alert.time_to_next_threshold_from(Some(i64::MAX)), None);
}
