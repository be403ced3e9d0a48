use vstd::prelude::*;
use crate::filter::PointsFilter;
use crate::models::{CourseView, ScrapeDiff, Course};
use crate::sync::SyncResult;

verus! {

/// The courses that pass the filter, in their original order.
pub open spec fn filtered_spec(s: Seq<CourseView>, f: PointsFilter) -> Seq<CourseView>
    decreases s.len(),
{
    if s.len() == 0 {
        Seq::empty()
    } else {
        filtered_spec(s.drop_last(), f) + if f.matches_spec(s.last().points) {
            seq![s.last()]
        } else {
            Seq::empty()
        }
    }
}

fn filter_courses(courses: &Vec<Course>, filter: &PointsFilter) -> (r: Vec<Course>)
    ensures
        r.deep_view() == filtered_spec(courses.deep_view(), *filter),
{
    let n: usize = courses.len();
    let mut r: Vec<Course> = Vec::new();
    proof {
        assert(courses.deep_view().take(0) =~= Seq::<CourseView>::empty());
        assert(r.deep_view() =~= filtered_spec(courses.deep_view().take(0), *filter));
    }
    let mut i: usize = 0;
    while i < n
        invariant
            i <= n,
            n == courses@.len(),
            r.deep_view() == filtered_spec(courses.deep_view().take(i as int), *filter),
        decreases n - i,
    {
        let ghost cs = courses.deep_view();
        proof {
            assert(cs.take(i as int + 1).drop_last() =~= cs.take(i as int));
            assert(cs.take(i as int + 1).last() == cs[i as int]);
            assert(cs[i as int] == courses@[i as int]@);
        }
        if filter.matches(courses[i].points) {
            r.push(courses[i].clone());
            proof {
                assert(r.deep_view() =~= filtered_spec(cs.take(i as int + 1), *filter));
            }
        } else {
            proof {
                assert(r.deep_view() + Seq::<CourseView>::empty() =~= r.deep_view());
                assert(r.deep_view() =~= filtered_spec(cs.take(i as int + 1), *filter));
            }
        }
        i = i + 1;
    }
    proof {
        assert(courses.deep_view().take(n as int) =~= courses.deep_view());
    }
    r
}

/// Reduces a raw sync delta to the courses the filter cares about: each
/// list keeps exactly its courses whose points pass the filter, in order.
pub fn filter_changes(result: &SyncResult, filter: &PointsFilter) -> (r: ScrapeDiff)
    ensures
        r.added.deep_view() == filtered_spec(result.added.deep_view(), *filter),
        r.removed.deep_view() == filtered_spec(result.removed.deep_view(), *filter),
{
    let added = filter_courses(&result.added, filter);
    let removed = filter_courses(&result.removed, filter);
    ScrapeDiff::new(added, removed)
}

/// A course passes the filtered delta exactly when it stood in the raw
/// delta and its points match the filter.
pub proof fn lemma_filtered_membership(s: Seq<CourseView>, f: PointsFilter, c: CourseView)
    ensures
        filtered_spec(s, f).contains(c) == (s.contains(c) && f.matches_spec(c.points)),
    decreases s.len(),
{
    let r = filtered_spec(s, f);
    if s.len() == 0 {
        assert(!r.contains(c));
        assert(!s.contains(c));
    } else {
        lemma_filtered_membership(s.drop_last(), f, c);
        let rest = filtered_spec(s.drop_last(), f);
        assert(s.contains(c) == (s.drop_last().contains(c) || s.last() == c)) by {
            if s.contains(c) {
                let i = choose|i: int| 0 <= i < s.len() && s[i] == c;
                if i < s.len() - 1 {
                    assert(s.drop_last()[i] == c);
                }
            }
            if s.drop_last().contains(c) {
                let i = choose|i: int| 0 <= i < s.drop_last().len() && s.drop_last()[i] == c;
                assert(s[i] == c);
            }
        }
        if f.matches_spec(s.last().points) {
            assert(r == rest + seq![s.last()]);
            assert(r.contains(c) == (rest.contains(c) || s.last() == c)) by {
                if r.contains(c) {
                    let i = choose|i: int| 0 <= i < r.len() && r[i] == c;
                    if i < rest.len() {
                        assert(rest[i] == c);
                    }
                }
                if rest.contains(c) {
                    let i = choose|i: int| 0 <= i < rest.len() && rest[i] == c;
                    assert(r[i] == c);
                }
                assert(r[r.len() - 1] == s.last());
            }
        } else {
            assert(r =~= rest);
        }
    }
}

} // verus!
