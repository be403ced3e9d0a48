use vstd::prelude::*;
use crate::ledger::RunLog;
use crate::models::{CourseView, ScrapeDiff};
use crate::sync::SyncResult;

verus! {

/// The codes of the given courses, in order.
pub open spec fn course_codes(cs: Seq<CourseView>) -> Seq<Seq<char>> {
    Seq::new(cs.len(), |i: int| cs[i].code)
}

/// Whether a cycle's outcome warrants notifications: never on the
/// bootstrap run, never without raw changes, and never when the filter
/// leaves nothing.
pub fn should_notify(result: &SyncResult, filtered: &ScrapeDiff) -> (r: bool)
    ensures
        r == (!result.is_first_run && (result.added@.len() > 0 || result.removed@.len() > 0)
            && (filtered.added@.len() > 0 || filtered.removed@.len() > 0)),
{
    !result.is_first_run && result.has_changes() && !filtered.is_empty()
}

fn codes_of_courses(cs: &Vec<crate::models::Course>) -> (r: Vec<String>)
    ensures
        r.deep_view() == course_codes(cs.deep_view()),
{
    let n: usize = cs.len();
    let mut r: Vec<String> = Vec::new();
    let mut i: usize = 0;
    while i < n
        invariant
            i <= n,
            n == cs@.len(),
            r@.len() == i,
            forall|j: int| 0 <= j < i ==> #[trigger] r@[j]@ == cs.deep_view()[j].code,
        decreases n - i,
    {
        proof {
            assert(cs.deep_view()[i as int] == cs@[i as int]@);
        }
        r.push(cs[i].code.clone());
        i = i + 1;
    }
    proof {
        assert(r.deep_view() =~= course_codes(cs.deep_view()));
    }
    r
}

/// Assembles the audit record of one cycle from what the cycle produced:
/// the fetched and delta counts, the filter's description, whether any
/// notifier succeeded, and the filtered course codes.
pub fn build_run_log(
    result: &SyncResult,
    filtered: &ScrapeDiff,
    filter_description: String,
    notification_sent: bool,
    duration_ms: u64,
) -> (r: RunLog)
    ensures
        r.total_courses_fetched == result.total_courses,
        r.raw_added_count == result.added@.len(),
        r.raw_removed_count == result.removed@.len(),
        r.filtered_added_count == filtered.added@.len(),
        r.filtered_removed_count == filtered.removed@.len(),
        r.filter_used@ == filter_description@,
        r.notification_sent == notification_sent,
        r.is_first_run == result.is_first_run,
        r.added_courses.deep_view() == course_codes(filtered.added.deep_view()),
        r.removed_courses.deep_view() == course_codes(filtered.removed.deep_view()),
        r.duration_ms == duration_ms,
{
    RunLog {
        total_courses_fetched: result.total_courses,
        raw_added_count: result.added.len(),
        raw_removed_count: result.removed.len(),
        filtered_added_count: filtered.added.len(),
        filtered_removed_count: filtered.removed.len(),
        filter_used: filter_description,
        notification_sent,
        is_first_run: result.is_first_run,
        added_courses: codes_of_courses(&filtered.added),
        removed_courses: codes_of_courses(&filtered.removed),
        duration_ms,
    }
}

} // verus!
