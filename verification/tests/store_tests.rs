use uiobot::models::Course;
use uiobot::store::CourseStore;
use uiobot::sync::{sync_courses, ChangeLog};

fn test_course() -> Course {
    Course::new(
        "IN1000".to_string(),
        "Intro to Programming".to_string(),
        1000,
        "https://example.com".to_string(),
        "MN Faculty".to_string(),
    )
}

fn make_course(code: &str, points: i64) -> Course {
    Course::new(
        code.to_string(),
        format!("Course {}", code),
        points,
        format!("https://example.com/{}", code),
        "Faculty".to_string(),
    )
}

const NOW: &str = "2024-01-15T10:30:00+00:00";
const LATER: &str = "2024-01-15T10:31:00+00:00";

#[test]
fn test_upsert_course() {
    let mut store = CourseStore::new();
    let course = test_course();

    // First insert should return true (new)
    let is_new = store.upsert_course(&course, NOW);
    assert!(is_new);

    // Second insert should return false (existing)
    let is_new = store.upsert_course(&course, LATER);
    assert!(!is_new);
}

#[test]
fn test_sync_courses() {
    let mut store = CourseStore::new();
    let mut log = ChangeLog::new();
    let course1 = test_course();
    let course2 = Course::new(
        "IN2000".to_string(),
        "Advanced Programming".to_string(),
        1000,
        "https://example.com/2".to_string(),
        "MN Faculty".to_string(),
    );

    // First sync - first run
    let result = sync_courses(
        &mut store,
        &mut log,
        &vec![course1.clone(), course2.clone()],
        NOW,
    );
    assert!(result.is_first_run);
    assert!(result.added.is_empty()); // First run doesn't report added
    assert_eq!(result.total_courses, 2);

    // Second sync - remove course2
    let result = sync_courses(&mut store, &mut log, &vec![course1.clone()], LATER);
    assert!(!result.is_first_run);
    assert!(result.added.is_empty());
    assert_eq!(result.removed.len(), 1);
    assert_eq!(result.removed[0].code, "IN2000");
}

#[test]
fn test_sync_detects_added_and_removed_by_code() {
    let mut store = CourseStore::new();
    let mut log = ChangeLog::new();

    // Initial courses: A (2.5 pts), B (10 pts), C (2.5 pts)
    let course_a = make_course("HFLESER1031", 250); // 2.5 point course
    let course_b = make_course("IN1000", 1000);
    let course_c = make_course("HIS2011M", 250); // Another 2.5 point course

    // First sync - populates the store
    let result = sync_courses(
        &mut store,
        &mut log,
        &vec![course_a.clone(), course_b.clone(), course_c.clone()],
        NOW,
    );
    assert!(result.is_first_run);
    assert_eq!(store.count(), 3);

    // Second sync - course_a (2.5pts) removed, new course_d (2.5pts) added
    let course_d = make_course("NEWCOURSE", 250); // New 2.5 point course
    let result = sync_courses(
        &mut store,
        &mut log,
        &vec![course_b.clone(), course_c.clone(), course_d.clone()],
        LATER,
    );

    assert!(!result.is_first_run);

    // Verify added: NEWCOURSE (2.5 pts) should be detected by code
    assert_eq!(result.added.len(), 1);
    assert_eq!(result.added[0].code, "NEWCOURSE");
    assert_eq!(result.added[0].points, 250);

    // Verify removed: HFLESER1031 (2.5 pts) should be detected by code
    assert_eq!(result.removed.len(), 1);
    assert_eq!(result.removed[0].code, "HFLESER1031");
    assert_eq!(result.removed[0].points, 250);

    // Verify store state: should have B, C, D
    assert_eq!(store.count(), 3);
    assert!(store.contains_code(&"IN1000".to_string()));
    assert!(store.contains_code(&"HIS2011M".to_string()));
    assert!(store.contains_code(&"NEWCOURSE".to_string()));
    assert!(!store.contains_code(&"HFLESER1031".to_string())); // Removed
}

#[test]
fn test_course_code_is_unique_identifier() {
    let mut store = CourseStore::new();

    // Two courses with same code but different names/points
    let course_v1 = Course::new(
        "TEST123".to_string(),
        "Original Name".to_string(),
        500,
        "https://example.com/test".to_string(),
        "Faculty".to_string(),
    );

    let course_v2 = Course::new(
        "TEST123".to_string(),        // Same code
        "Updated Name".to_string(),   // Different name
        1000,                         // Different points
        "https://example.com/test".to_string(),
        "Faculty".to_string(),
    );

    // Insert first version
    let is_new = store.upsert_course(&course_v1, NOW);
    assert!(is_new);

    // Insert second version with same code - should update, not create new
    let is_new = store.upsert_course(&course_v2, LATER);
    assert!(!is_new); // Not new because code already exists

    // Should still have only 1 course
    assert_eq!(store.count(), 1);

    // Course should have updated values
    let course = store.get_course(&"TEST123".to_string()).unwrap();
    assert_eq!(course.name, "Updated Name");
    assert_eq!(course.points, 1000);
}

#[test]
fn test_sync_records_changes_in_log() {
    let mut store = CourseStore::new();
    let mut log = ChangeLog::new();

    sync_courses(&mut store, &mut log, &vec![make_course("A1", 250)], NOW);
    assert_eq!(log.len(), 0); // bootstrap run records nothing

    sync_courses(&mut store, &mut log, &vec![make_course("B2", 500)], LATER);
    assert_eq!(log.len(), 2);
    assert_eq!(log.entries[0].course_code, "B2");
    assert_eq!(log.entries[0].change_type, "added");
    assert_eq!(log.entries[0].timestamp, LATER);
    assert_eq!(log.entries[1].course_code, "A1");
    assert_eq!(log.entries[1].change_type, "removed");
}

#[test]
fn test_sync_duplicate_codes_last_wins() {
    let mut store = CourseStore::new();
    let mut log = ChangeLog::new();

    let first = Course::new(
        "DUP100".to_string(),
        "First".to_string(),
        250,
        "".to_string(),
        "Fac".to_string(),
    );
    let second = Course::new(
        "DUP100".to_string(),
        "Second".to_string(),
        500,
        "".to_string(),
        "Fac".to_string(),
    );
    sync_courses(&mut store, &mut log, &vec![first, second], NOW);

    assert_eq!(store.count(), 1);
    let stored = store.get_course(&"DUP100".to_string()).unwrap();
    assert_eq!(stored.name, "Second");
    assert_eq!(stored.points, 500);
}

#[test]
fn test_store_timestamps_follow_upserts() {
    let mut store = CourseStore::new();
    let course = test_course();
    store.upsert_course(&course, NOW);
    store.upsert_course(&course, LATER);

    let all = store.get_all();
    assert_eq!(all.len(), 1);
    assert_eq!(all[0].code, "IN1000");
    let codes = store.codes();
    assert_eq!(codes, vec!["IN1000".to_string()]);
}
