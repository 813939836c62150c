use aw_notify::alert::CategoryAlert;
use aw_notify::text::format_duration;
use chrono::Duration;

#[test]
fn test_format_duration() {
    assert_eq!(format_duration(Duration::seconds(30).num_seconds()), "30s");
    assert_eq!(format_duration(Duration::minutes(5).num_seconds()), "5m");
    assert_eq!(format_duration(Duration::hours(2).num_seconds()), "2h");
    assert_eq!(format_duration(Duration::hours(25).num_seconds()), "1d 1h");
    assert_eq!(format_duration(Duration::minutes(90).num_seconds()), "1h 30m");
}

#[test]
fn test_category_alert_creation() {
    let alert = CategoryAlert::new(
        "Work",
        vec![Duration::minutes(15).num_seconds(), Duration::hours(1).num_seconds()],
        Some("\u{1f4bc} Work"),
        true,
    );

    assert_eq!(alert.category, "Work");
    assert_eq!(alert.label, "\u{1f4bc} Work");
    assert_eq!(alert.thresholds.len(), 2);
    assert!(alert.positive);
    assert_eq!(alert.time_spent, Duration::zero().num_seconds());
}

#[test]
fn test_category_alert_thresholds_untriggered() {
    let mut alert = CategoryAlert::new(
        "Test",
        vec![
            Duration::minutes(15).num_seconds(),
            Duration::minutes(30).num_seconds(),
            Duration::hours(1).num_seconds(),
        ],
        None,
        false,
    );

    // Initially all thresholds are untriggered
    assert_eq!(alert.thresholds_untriggered().len(), 3);

    // Trigger first threshold
    alert.max_triggered = Duration::minutes(15).num_seconds();
    assert_eq!(alert.thresholds_untriggered().len(), 2);

    // Trigger second threshold
    alert.max_triggered = Duration::minutes(30).num_seconds();
    assert_eq!(alert.thresholds_untriggered().len(), 1);
}

#[test]
fn test_category_alert_status() {
    let mut alert = CategoryAlert::new("Test", vec![Duration::hours(1).num_seconds()], None, false);
    alert.time_spent = Duration::minutes(45).num_seconds();

    let status = alert.status();
    assert_eq!(status, "Test: 45m");
}
