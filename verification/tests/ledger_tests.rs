use uiobot::cycle::{build_run_log, should_notify};
use uiobot::ledger::{RunLedger, RunLog};
use uiobot::models::{Course, ScrapeDiff};
use uiobot::store::DatabaseType;
use uiobot::sync::SyncResult;
use uiobot::web::{format_timestamp, html_escape};

fn sample_run(total: usize, notified: bool) -> RunLog {
    RunLog {
        total_courses_fetched: total,
        raw_added_count: 1,
        raw_removed_count: 0,
        filtered_added_count: 1,
        filtered_removed_count: 0,
        filter_used: "all courses".to_string(),
        notification_sent: notified,
        is_first_run: false,
        added_courses: vec!["IN1000".to_string()],
        removed_courses: vec![],
        duration_ms: 42,
    }
}

#[test]
fn test_ledger_append_assigns_increasing_ids() {
    let mut ledger = RunLedger::new();
    let id1 = ledger.append(sample_run(10, true), "2024-01-01T00:00:00+00:00".to_string());
    let id2 = ledger.append(sample_run(11, false), "2024-01-02T00:00:00+00:00".to_string());
    assert_eq!(id1, 1);
    assert_eq!(id2, 2);
    assert_eq!(ledger.len(), 2);
}

#[test]
fn test_ledger_list_is_newest_first() {
    let mut ledger = RunLedger::new();
    ledger.append(sample_run(10, true), "2024-01-01T00:00:00+00:00".to_string());
    ledger.append(sample_run(11, false), "2024-01-02T00:00:00+00:00".to_string());
    ledger.append(sample_run(12, true), "2024-01-03T00:00:00+00:00".to_string());

    let listed = ledger.list(2);
    assert_eq!(listed.len(), 2);
    assert_eq!(listed[0].id, 3);
    assert_eq!(listed[0].total_courses_fetched, 12);
    assert_eq!(listed[1].id, 2);

    let all = ledger.list(100);
    assert_eq!(all.len(), 3);
    assert_eq!(all[2].id, 1);
}

#[test]
fn test_ledger_get_by_id() {
    let mut ledger = RunLedger::new();
    ledger.append(sample_run(10, true), "2024-01-01T00:00:00+00:00".to_string());
    ledger.append(sample_run(11, false), "2024-01-02T00:00:00+00:00".to_string());

    let entry = ledger.get(1).unwrap();
    assert_eq!(entry.id, 1);
    assert_eq!(entry.total_courses_fetched, 10);
    assert!(entry.notification_sent);
    assert_eq!(entry.timestamp, "2024-01-01T00:00:00+00:00");
    assert_eq!(entry.added_courses, vec!["IN1000".to_string()]);

    assert!(ledger.get(0).is_none());
    assert!(ledger.get(3).is_none());
    assert!(ledger.get(-1).is_none());
}

fn make_course(code: &str, points: i64) -> Course {
    Course::new(
        code.to_string(),
        format!("Course {}", code),
        points,
        String::new(),
        "Faculty".to_string(),
    )
}

#[test]
fn test_should_notify_gating() {
    let changed = SyncResult {
        added: vec![make_course("A", 250)],
        removed: vec![],
        is_first_run: false,
        total_courses: 5,
    };
    let kept = ScrapeDiff::new(vec![make_course("A", 250)], vec![]);
    let emptied = ScrapeDiff::new(vec![], vec![]);
    assert!(should_notify(&changed, &kept));
    assert!(!should_notify(&changed, &emptied));

    let bootstrap = SyncResult {
        added: vec![],
        removed: vec![],
        is_first_run: true,
        total_courses: 5,
    };
    assert!(!should_notify(&bootstrap, &kept));

    let quiet = SyncResult {
        added: vec![],
        removed: vec![],
        is_first_run: false,
        total_courses: 5,
    };
    assert!(!should_notify(&quiet, &kept));
}

#[test]
fn test_build_run_log_collects_cycle_outcome() {
    let result = SyncResult {
        added: vec![make_course("A", 250), make_course("B", 1000)],
        removed: vec![make_course("C", 250)],
        is_first_run: false,
        total_courses: 7,
    };
    let filtered = ScrapeDiff::new(vec![make_course("A", 250)], vec![make_course("C", 250)]);
    let run = build_run_log(&result, &filtered, "courses with exactly 2.5 points".to_string(),
        true, 1234);
    assert_eq!(run.total_courses_fetched, 7);
    assert_eq!(run.raw_added_count, 2);
    assert_eq!(run.raw_removed_count, 1);
    assert_eq!(run.filtered_added_count, 1);
    assert_eq!(run.filtered_removed_count, 1);
    assert_eq!(run.filter_used, "courses with exactly 2.5 points");
    assert!(run.notification_sent);
    assert!(!run.is_first_run);
    assert_eq!(run.added_courses, vec!["A".to_string()]);
    assert_eq!(run.removed_courses, vec!["C".to_string()]);
    assert_eq!(run.duration_ms, 1234);
}

#[test]
fn test_html_escape() {
    assert_eq!(html_escape("plain text"), "plain text");
    assert_eq!(
        html_escape("<a href=\"x\">R&D 'quote'</a>"),
        "&lt;a href=&quot;x&quot;&gt;R&amp;D &#x27;quote&#x27;&lt;/a&gt;"
    );
}

#[test]
fn test_format_timestamp() {
    assert_eq!(
        format_timestamp("2024-01-15T10:30:00+00:00"),
        "2024-01-15 10:30:00"
    );
    assert_eq!(format_timestamp("short"), "short");
}

#[test]
fn test_database_type_label() {
    assert_eq!(
        DatabaseType::LocalSqlite("uiobot.db".to_string()).label(),
        "SQLite(uiobot.db)"
    );
    assert_eq!(
        DatabaseType::Turso { url: "libsql://db.example.com".to_string() }.label(),
        "Turso(libsql://db.example.com)"
    );
}
