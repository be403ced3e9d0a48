use uiobot::diff::filter_changes;
use uiobot::filter::PointsFilter;
use uiobot::models::Course;
use uiobot::store::CourseStore;
use uiobot::sync::{sync_courses, ChangeLog, SyncResult};

fn make_course(code: &str, points: i64) -> Course {
    Course::new(
        code.to_string(),
        format!("Course {}", code),
        points,
        format!("https://example.com/{}", code),
        "Faculty".to_string(),
    )
}

#[test]
fn test_filter_exact() {
    let result = SyncResult {
        added: vec![make_course("A", 250), make_course("B", 1000)],
        removed: vec![make_course("C", 250), make_course("D", 500)],
        is_first_run: false,
        total_courses: 10,
    };

    let filter = PointsFilter::Exact(250);
    let diff = filter_changes(&result, &filter);

    assert_eq!(diff.added.len(), 1);
    assert_eq!(diff.added[0].code, "A");
    assert_eq!(diff.removed.len(), 1);
    assert_eq!(diff.removed[0].code, "C");
}

#[test]
fn test_filter_range() {
    let result = SyncResult {
        added: vec![
            make_course("A", 250),
            make_course("B", 500),
            make_course("C", 1000),
        ],
        removed: vec![],
        is_first_run: false,
        total_courses: 10,
    };

    let filter = PointsFilter::Range { min: None, max: Some(500) };
    let diff = filter_changes(&result, &filter);

    assert_eq!(diff.added.len(), 2);
    assert!(diff.added.iter().any(|c| c.code == "A"));
    assert!(diff.added.iter().any(|c| c.code == "B"));
}

#[test]
fn test_filter_none() {
    let result = SyncResult {
        added: vec![make_course("A", 250), make_course("B", 1000)],
        removed: vec![make_course("C", 500)],
        is_first_run: false,
        total_courses: 10,
    };

    let filter = PointsFilter::All;
    let diff = filter_changes(&result, &filter);

    assert_eq!(diff.added.len(), 2);
    assert_eq!(diff.removed.len(), 1);
}

/// Test that 2.5 point filter catches both added AND removed courses
#[test]
fn test_2_5_point_filter_catches_both_added_and_removed() {
    // Simulate a scenario where:
    // - HFLESER1031 (2.5 pts) was removed from the website
    // - NEWCOURSE (2.5 pts) was added to the website
    // - IN1000 (10 pts) was also added but should NOT be in filtered results
    let result = SyncResult {
        added: vec![
            make_course("NEWCOURSE", 250), // Should be included
            make_course("IN1000", 1000),   // Should be filtered out
        ],
        removed: vec![
            make_course("HFLESER1031", 250), // Should be included
            make_course("JUR1120", 1000),    // Should be filtered out
        ],
        is_first_run: false,
        total_courses: 100,
    };

    let filter = PointsFilter::Exact(250);
    let diff = filter_changes(&result, &filter);

    // Should notify about the NEW 2.5 point course
    assert_eq!(diff.added.len(), 1, "Should have exactly 1 added 2.5pt course");
    assert_eq!(diff.added[0].code, "NEWCOURSE");
    assert_eq!(diff.added[0].points, 250);

    // Should notify about the REMOVED 2.5 point course
    assert_eq!(diff.removed.len(), 1, "Should have exactly 1 removed 2.5pt course");
    assert_eq!(diff.removed[0].code, "HFLESER1031");
    assert_eq!(diff.removed[0].points, 250);

    // Total changes should be 2 (1 added + 1 removed)
    assert_eq!(diff.total_changes(), 2);
    assert!(!diff.is_empty());
}

/// Test that course codes are used for identity (not names or other fields)
#[test]
fn test_filter_uses_course_code_for_identity() {
    // Two different courses that happen to have the same name
    let course1 = Course::new(
        "CODE1".to_string(),
        "Same Name".to_string(),
        250,
        "https://example.com/1".to_string(),
        "Faculty A".to_string(),
    );
    let course2 = Course::new(
        "CODE2".to_string(),
        "Same Name".to_string(), // Same name, different code
        250,
        "https://example.com/2".to_string(),
        "Faculty B".to_string(),
    );

    let result = SyncResult {
        added: vec![course1],
        removed: vec![course2],
        is_first_run: false,
        total_courses: 10,
    };

    let filter = PointsFilter::Exact(250);
    let diff = filter_changes(&result, &filter);

    // Both should be present because they have different codes
    assert_eq!(diff.added.len(), 1);
    assert_eq!(diff.added[0].code, "CODE1");
    assert_eq!(diff.removed.len(), 1);
    assert_eq!(diff.removed[0].code, "CODE2");
}

#[test]
fn test_matches_tolerance() {
    assert!(PointsFilter::Exact(250).matches(250));
    assert!(!PointsFilter::Exact(250).matches(251));
    assert!(PointsFilter::Range { min: Some(500), max: Some(1000) }.matches(700));
    assert!(!PointsFilter::Range { min: Some(500), max: Some(1000) }.matches(490));
    assert!(PointsFilter::Range { min: Some(500), max: Some(1000) }.matches(500));
    assert!(PointsFilter::Range { min: Some(500), max: Some(1000) }.matches(1000));
    assert!(PointsFilter::All.matches(-100));
}

/// A full cycle: persist {A, B, C}, then sync {B, C, D}; A is removed and
/// D added, and the exact filter reduces the delta as the points say.
#[test]
fn test_full_cycle_with_filters() {
    let mut store = CourseStore::new();
    let mut log = ChangeLog::new();

    let a = make_course("A", 250);
    let b = make_course("B", 1000);
    let c = make_course("C", 250);
    let d = make_course("D", 250);

    let first = sync_courses(
        &mut store,
        &mut log,
        &vec![a.clone(), b.clone(), c.clone()],
        "2024-01-01T00:00:00+00:00",
    );
    assert!(first.is_first_run);
    assert_eq!(store.count(), 3);

    let second = sync_courses(
        &mut store,
        &mut log,
        &vec![b.clone(), c.clone(), d.clone()],
        "2024-01-02T00:00:00+00:00",
    );
    assert_eq!(second.added.len(), 1);
    assert_eq!(second.added[0].code, "D");
    assert_eq!(second.removed.len(), 1);
    assert_eq!(second.removed[0].code, "A");
    assert_eq!(store.count(), 3);
    assert!(store.contains_code(&"B".to_string()));
    assert!(store.contains_code(&"C".to_string()));
    assert!(store.contains_code(&"D".to_string()));
    assert!(!store.contains_code(&"A".to_string()));

    let exact_25 = filter_changes(&second, &PointsFilter::Exact(250));
    assert_eq!(exact_25.added.len(), 1);
    assert_eq!(exact_25.added[0].code, "D");
    assert_eq!(exact_25.removed.len(), 1);
    assert_eq!(exact_25.removed[0].code, "A");

    let exact_10 = filter_changes(&second, &PointsFilter::Exact(1000));
    assert_eq!(exact_10.added.len(), 0);
    assert_eq!(exact_10.removed.len(), 0);
    assert!(exact_10.is_empty());
}
