use tik::log::LogEntry;
use tik::log::entries_on_day;
use tik::log::entries_since;
use tik::log::format_duration_human;
use tik::log::group_by_name;
use tik::log::sort_rows_by_secs;
use tik::log::total_secs;

fn entry(name: &str, secs: u64, day: u64) -> LogEntry {
    LogEntry {
        name: name.to_string(),
        duration_secs: secs,
        completed_day: day,
    }
}

#[test]
fn format_duration_human_minutes() {
    assert_eq!(format_duration_human(1500), "25m");
}

#[test]
fn format_duration_human_hours_and_minutes() {
    assert_eq!(format_duration_human(5400), "1h 30m");
}

#[test]
fn format_duration_human_hours_only() {
    assert_eq!(format_duration_human(3600), "1h 0m");
}

#[test]
fn format_duration_human_zero() {
    assert_eq!(format_duration_human(0), "0m");
}

#[test]
fn total_sums_durations() {
    let entries = vec![entry("a", 100, 1), entry("b", 200, 1), entry("a", 50, 2)];
    assert_eq!(total_secs(&entries), 350);
}

#[test]
fn total_of_nothing_is_zero() {
    assert_eq!(total_secs(&Vec::new()), 0);
}

#[test]
fn total_saturates() {
    let entries = vec![entry("a", u64::MAX, 1), entry("b", 10, 1)];
    assert_eq!(total_secs(&entries), u64::MAX);
}

#[test]
fn filter_by_day() {
    let entries = vec![entry("a", 100, 5), entry("b", 200, 6), entry("c", 50, 5)];
    let today = entries_on_day(&entries, 5);
    assert_eq!(today.len(), 2);
    assert_eq!(today[0].name, "a");
    assert_eq!(today[1].name, "c");
}

#[test]
fn filter_since_day() {
    let entries = vec![entry("a", 100, 4), entry("b", 200, 6), entry("c", 50, 5)];
    let week = entries_since(&entries, 5);
    assert_eq!(week.len(), 2);
    assert_eq!(week[0].name, "b");
    assert_eq!(week[1].name, "c");
}

#[test]
fn grouping_counts_and_sums() {
    let entries = vec![
        entry("pomodoro", 1500, 1),
        entry("break", 300, 1),
        entry("pomodoro", 1500, 1),
    ];
    let rows = group_by_name(&entries);
    assert_eq!(rows.len(), 2);
    assert_eq!(rows[0].name, "pomodoro");
    assert_eq!(rows[0].count, 2);
    assert_eq!(rows[0].secs, 3000);
    assert_eq!(rows[1].name, "break");
    assert_eq!(rows[1].count, 1);
    assert_eq!(rows[1].secs, 300);
}

#[test]
fn sorting_orders_by_time_spent() {
    let entries = vec![
        entry("break", 300, 1),
        entry("pomodoro", 1500, 1),
        entry("focus", 2000, 1),
        entry("pomodoro", 1500, 1),
    ];
    let rows = sort_rows_by_secs(&group_by_name(&entries));
    assert_eq!(rows.len(), 3);
    assert_eq!(rows[0].name, "pomodoro");
    assert_eq!(rows[0].secs, 3000);
    assert_eq!(rows[1].name, "focus");
    assert_eq!(rows[1].secs, 2000);
    assert_eq!(rows[2].name, "break");
    assert_eq!(rows[2].secs, 300);
}

#[test]
fn sorting_keeps_every_row() {
    let entries = vec![entry("a", 1, 1), entry("b", 3, 1), entry("c", 2, 1)];
    let rows = sort_rows_by_secs(&group_by_name(&entries));
    assert_eq!(rows.len(), 3);
    assert_eq!(rows[0].name, "b");
    assert_eq!(rows[1].name, "c");
    assert_eq!(rows[2].name, "a");
}
