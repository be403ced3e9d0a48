use vstd::prelude::*;

verus! {

/// One course-availability record. `code` is the identity: two courses are
/// the same entity exactly when their codes are equal. `points` is the
/// credit value in hundredths of a point.
pub struct Course {
    pub code: String,
    pub name: String,
    pub points: i64,
    pub url: String,
    pub faculty: String,
}

/// The mathematical value of a `Course`.
pub ghost struct CourseView {
    pub code: Seq<char>,
    pub name: Seq<char>,
    pub points: int,
    pub url: Seq<char>,
    pub faculty: Seq<char>,
}

impl View for Course {
    type V = CourseView;

    open spec fn view(&self) -> CourseView {
        CourseView {
            code: self.code@,
            name: self.name@,
            points: self.points as int,
            url: self.url@,
            faculty: self.faculty@,
        }
    }
}

impl DeepView for Course {
    type V = CourseView;

    open spec fn deep_view(&self) -> CourseView {
        self.view()
    }
}

impl Clone for Course {
    fn clone(&self) -> (r: Self)
        ensures
            r@ == self@,
    {
        Course {
            code: self.code.clone(),
            name: self.name.clone(),
            points: self.points,
            url: self.url.clone(),
            faculty: self.faculty.clone(),
        }
    }
}

impl Course {
    pub fn new(code: String, name: String, points: i64, url: String, faculty: String) -> (r: Self)
        ensures
            r@ == (CourseView {
                code: code@,
                name: name@,
                points: points as int,
                url: url@,
                faculty: faculty@,
            }),
    {
        Course { code, name, points, url, faculty }
    }
}

/// One recorded change: a course that appeared, or one that went away.
pub enum CourseChange {
    Added(Course),
    Removed(Course),
}

impl CourseChange {
    /// The course the change is about.
    pub fn course(&self) -> (r: &Course)
        ensures
            r@ == match self {
                CourseChange::Added(c) => c@,
                CourseChange::Removed(c) => c@,
            },
    {
        match self {
            CourseChange::Added(c) => c,
            CourseChange::Removed(c) => c,
        }
    }

    /// The kind of change, as the label the change log stores.
    pub fn change_type(&self) -> (r: &'static str)
        ensures
            r@ == match self {
                CourseChange::Added(_) => "added"@,
                CourseChange::Removed(_) => "removed"@,
            },
    {
        match self {
            CourseChange::Added(_) => "added",
            CourseChange::Removed(_) => "removed",
        }
    }
}

/// The courses that appeared and the courses that went away between two
/// snapshots, after filtering.
pub struct ScrapeDiff {
    pub added: Vec<Course>,
    pub removed: Vec<Course>,
}

impl ScrapeDiff {
    pub fn new(added: Vec<Course>, removed: Vec<Course>) -> (r: Self)
        ensures
            r.added.deep_view() == added.deep_view(),
            r.removed.deep_view() == removed.deep_view(),
    {
        ScrapeDiff { added, removed }
    }

    /// Whether nothing changed: both lists are empty.
    pub fn is_empty(&self) -> (r: bool)
        ensures
            r == (self.added@.len() == 0 && self.removed@.len() == 0),
    {
        self.added.len() == 0 && self.removed.len() == 0
    }

    /// How many changes there are in all, added and removed together.
    pub fn total_changes(&self) -> (r: usize)
        requires
            self.added@.len() + self.removed@.len() <= usize::MAX,
        ensures
            r == self.added@.len() + self.removed@.len(),
    {
        self.added.len() + self.removed.len()
    }
}

} // verus!
