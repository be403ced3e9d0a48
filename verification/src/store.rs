use vstd::prelude::*;
use vstd::string::*;
use crate::models::{Course, CourseView};

verus! {

/// A persisted course: the record itself and when it was first and last
/// seen. Timestamps are kept as the opaque strings the caller hands in.
pub struct StoredCourse {
    pub course: Course,
    pub first_seen_at: String,
    pub last_seen_at: String,
}

/// The mathematical value of a `StoredCourse`.
pub ghost struct StoredCourseView {
    pub course: CourseView,
    pub first_seen_at: Seq<char>,
    pub last_seen_at: Seq<char>,
}

impl View for StoredCourse {
    type V = StoredCourseView;

    open spec fn view(&self) -> StoredCourseView {
        StoredCourseView {
            course: self.course@,
            first_seen_at: self.first_seen_at@,
            last_seen_at: self.last_seen_at@,
        }
    }
}

impl DeepView for StoredCourse {
    type V = StoredCourseView;

    open spec fn deep_view(&self) -> StoredCourseView {
        self.view()
    }
}

/// Whether some entry carries the given code.
pub open spec fn has_code(s: Seq<StoredCourseView>, code: Seq<char>) -> bool {
    exists|i: int| 0 <= i < s.len() && #[trigger] s[i].course.code == code
}

/// Whether no two entries share a code.
pub open spec fn unique_codes(s: Seq<StoredCourseView>) -> bool {
    forall|i: int, j: int|
        0 <= i < j < s.len() ==> #[trigger] s[i].course.code != #[trigger] s[j].course.code
}

/// The first index carrying the given code, if any.
pub open spec fn find_code_from(s: Seq<StoredCourseView>, code: Seq<char>, i: int) -> Option<
    int,
>
    decreases s.len() - i,
{
    if i < 0 || i >= s.len() {
        Option::<int>::None
    } else if s[i].course.code == code {
        Some(i)
    } else {
        find_code_from(s, code, i + 1)
    }
}

pub open spec fn find_code(s: Seq<StoredCourseView>, code: Seq<char>) -> Option<int> {
    find_code_from(s, code, 0)
}

pub proof fn lemma_find_code_from_props(s: Seq<StoredCourseView>, code: Seq<char>, i: int)
    requires
        0 <= i <= s.len(),
    ensures
        match find_code_from(s, code, i) {
            Some(k) => i <= k < s.len() && s[k].course.code == code && (forall|j: int|
                i <= j < k ==> #[trigger] s[j].course.code != code),
            None => forall|j: int| i <= j < s.len() ==> #[trigger] s[j].course.code != code,
        },
    decreases s.len() - i,
{
    if i < s.len() && s[i].course.code != code {
        lemma_find_code_from_props(s, code, i + 1);
    }
}

pub proof fn lemma_find_code_props(s: Seq<StoredCourseView>, code: Seq<char>)
    ensures
        match find_code(s, code) {
            Some(k) => 0 <= k < s.len() && s[k].course.code == code && (forall|j: int|
                0 <= j < k ==> #[trigger] s[j].course.code != code),
            None => forall|j: int| 0 <= j < s.len() ==> #[trigger] s[j].course.code != code,
        },
        find_code(s, code) is Some <==> has_code(s, code),
{
    lemma_find_code_from_props(s, code, 0);
}

/// What an upsert leaves in the store: if the code is present, that entry
/// gets the new attributes and last-seen time and keeps its first-seen
/// time; otherwise a fresh entry is appended with both times set to now.
pub open spec fn upsert_spec(
    s: Seq<StoredCourseView>,
    c: CourseView,
    now: Seq<char>,
) -> Seq<StoredCourseView> {
    if has_code(s, c.code) {
        Seq::new(
            s.len(),
            |i: int|
                if s[i].course.code == c.code {
                    StoredCourseView { course: c, first_seen_at: s[i].first_seen_at, last_seen_at: now }
                } else {
                    s[i]
                },
        )
    } else {
        s.push(StoredCourseView { course: c, first_seen_at: now, last_seen_at: now })
    }
}

/// The store without the first entry carrying the given code.
pub open spec fn remove_code_spec(
    s: Seq<StoredCourseView>,
    code: Seq<char>,
) -> Seq<StoredCourseView>
    decreases s.len(),
{
    if s.len() == 0 {
        s
    } else if s[0].course.code == code {
        s.drop_first()
    } else {
        seq![s[0]] + remove_code_spec(s.drop_first(), code)
    }
}

/// The courses of the entries, in store order.
pub open spec fn courses_of(s: Seq<StoredCourseView>) -> Seq<CourseView> {
    Seq::new(s.len(), |i: int| s[i].course)
}

/// The codes of the entries, in store order.
pub open spec fn codes_of(s: Seq<StoredCourseView>) -> Seq<Seq<char>> {
    Seq::new(s.len(), |i: int| s[i].course.code)
}

/// The kind of backing database a deployment uses. The library only ever
/// reads the label; opening and querying the database is the caller's
/// concern.
pub enum DatabaseType {
    LocalSqlite(String),
    Turso { url: String },
}

impl DatabaseType {
    /// The label shown in logs and on the dashboard.
    pub fn label(&self) -> (r: String)
        ensures
            r@ == match self {
                DatabaseType::LocalSqlite(path) => "SQLite("@ + path@ + ")"@,
                DatabaseType::Turso { url } => "Turso("@ + url@ + ")"@,
            },
    {
        match self {
            DatabaseType::LocalSqlite(path) => {
                let r = String::from_str("SQLite(").concat(path.as_str()).concat(")");
                r
            },
            DatabaseType::Turso { url } => {
                let r = String::from_str("Turso(").concat(url.as_str()).concat(")");
                r
            },
        }
    }
}

/// The set of persisted courses, keyed by course code. This is the
/// in-memory model of the durable store: one entry per code.
pub struct CourseStore {
    entries: Vec<StoredCourse>,
}

impl View for CourseStore {
    type V = Seq<StoredCourseView>;

    closed spec fn view(&self) -> Seq<StoredCourseView> {
        self.entries.deep_view()
    }
}

impl CourseStore {
    /// No two entries of a well-formed store share a code.
    pub open spec fn inv(&self) -> bool {
        unique_codes(self@)
    }

    pub fn new() -> (r: Self)
        ensures
            r@ == Seq::<StoredCourseView>::empty(),
            r.inv(),
    {
        let r = CourseStore { entries: Vec::new() };
        proof {
            assert(r@ =~= Seq::<StoredCourseView>::empty());
        }
        r
    }

    /// How many courses are persisted.
    pub fn count(&self) -> (r: usize)
        ensures
            r == self@.len(),
    {
        proof {
            assert(self@.len() == self.entries@.len());
        }
        self.entries.len()
    }

    /// Whether the store has never been populated: it holds no courses.
    pub fn is_first_run(&self) -> (r: bool)
        ensures
            r == (self@.len() == 0),
    {
        self.count() == 0
    }

    fn find_index(&self, code: &String) -> (r: Option<usize>)
        ensures
            match r {
                Some(i) => find_code(self@, code@) == Some(i as int) && i < self@.len()
                    && self@[i as int].course.code == code@,
                None => find_code(self@, code@) is None && !has_code(self@, code@),
            },
    {
        let n: usize = self.entries.len();
        proof {
            assert(self@.len() == n);
        }
        let mut i: usize = 0;
        while i < n
            invariant
                i <= n,
                n == self@.len(),
                self@ == self.entries.deep_view(),
                n == self.entries@.len(),
                find_code(self@, code@) == find_code_from(self@, code@, i as int),
            decreases n - i,
        {
            proof {
                assert(self@[i as int] == self.entries@[i as int]@);
            }
            if self.entries[i].course.code == *code {
                return Some(i);
            }
            i = i + 1;
        }
        proof {
            lemma_find_code_props(self@, code@);
        }
        None
    }

    /// Whether a course with this code is persisted.
    pub fn contains_code(&self, code: &String) -> (r: bool)
        ensures
            r == has_code(self@, code@),
    {
        proof {
            lemma_find_code_props(self@, code@);
        }
        match self.find_index(code) {
            Some(_) => true,
            None => false,
        }
    }

    /// The persisted course with this code, if any.
    pub fn get_course(&self, code: &String) -> (r: Option<Course>)
        ensures
            match find_code(self@, code@) {
                Some(i) => r is Some && r->0@ == self@[i].course,
                None => r is None,
            },
    {
        match self.find_index(code) {
            Some(i) => {
                proof {
                    assert(self@[i as int] == self.entries@[i as int]@);
                }
                Some(self.entries[i].course.clone())
            },
            None => None,
        }
    }

    /// All persisted courses, in store order.
    pub fn get_all(&self) -> (r: Vec<Course>)
        ensures
            r.deep_view() == courses_of(self@),
    {
        let n: usize = self.entries.len();
        let mut r: Vec<Course> = Vec::new();
        let mut i: usize = 0;
        while i < n
            invariant
                i <= n,
                n == self.entries@.len(),
                self@ == self.entries.deep_view(),
                r@.len() == i,
                forall|j: int| 0 <= j < i ==> #[trigger] r@[j]@ == self@[j].course,
            decreases n - i,
        {
            proof {
                assert(self@[i as int] == self.entries@[i as int]@);
            }
            r.push(self.entries[i].course.clone());
            i = i + 1;
        }
        proof {
            assert(r.deep_view() =~= courses_of(self@));
        }
        r
    }

    /// The codes of all persisted courses, in store order.
    pub fn codes(&self) -> (r: Vec<String>)
        ensures
            r.deep_view() == codes_of(self@),
    {
        let n: usize = self.entries.len();
        let mut r: Vec<String> = Vec::new();
        let mut i: usize = 0;
        while i < n
            invariant
                i <= n,
                n == self.entries@.len(),
                self@ == self.entries.deep_view(),
                r@.len() == i,
                forall|j: int| 0 <= j < i ==> #[trigger] r@[j]@ == self@[j].course.code,
            decreases n - i,
        {
            proof {
                assert(self@[i as int] == self.entries@[i as int]@);
            }
            r.push(self.entries[i].course.code.clone());
            i = i + 1;
        }
        proof {
            assert(r.deep_view() =~= codes_of(self@));
        }
        r
    }

    /// The stored entries themselves, timestamps included, in store order.
    pub fn entries(&self) -> (r: &Vec<StoredCourse>)
        ensures
            r.deep_view() == self@,
    {
        &self.entries
    }

    /// Takes one already-persisted entry back into the store, keeping its
    /// recorded timestamps. An entry whose code is already present is
    /// refused, so loading preserves one-entry-per-code.
    pub fn insert_loaded(&mut self, entry: StoredCourse) -> (r: bool)
        requires
            old(self).inv(),
        ensures
            final(self).inv(),
            r == !has_code(old(self)@, entry@.course.code),
            final(self)@ == if has_code(old(self)@, entry@.course.code) {
                old(self)@
            } else {
                old(self)@.push(entry@)
            },
    {
        match self.find_index(&entry.course.code) {
            Some(_) => false,
            None => {
                let ghost code = entry@.course.code;
                self.entries.push(entry);
                proof {
                    assert(self@ =~= old(self)@.push(self.entries@.last()@));
                    assert forall|p: int, q: int|
                        0 <= p < q < self@.len() implies #[trigger] self@[p].course.code
                        != #[trigger] self@[q].course.code by {
                        if q < self@.len() - 1 {
                            assert(old(self)@[p].course.code != old(self)@[q].course.code);
                        } else {
                            assert(!has_code(old(self)@, code));
                            assert(old(self)@[p].course.code != code);
                        }
                    }
                }
                true
            },
        }
    }

    /// Inserts the course, or updates the entry with its code. An update
    /// keeps the first-seen time and moves the last-seen time to `now`; an
    /// insert sets both to `now`. Returns whether the course was new.
    pub fn upsert_course(&mut self, course: &Course, now: &str) -> (is_new: bool)
        requires
            old(self).inv(),
        ensures
            final(self).inv(),
            is_new == !has_code(old(self)@, course@.code),
            final(self)@ == upsert_spec(old(self)@, course@, now@),
    {
        match self.find_index(&course.code) {
            Some(i) => {
                proof {
                    assert(self@[i as int] == self.entries@[i as int]@);
                }
                let first_seen = self.entries[i].first_seen_at.clone();
                let updated = StoredCourse {
                    course: course.clone(),
                    first_seen_at: first_seen,
                    last_seen_at: now.to_owned(),
                };
                self.entries[i] = updated;
                proof {
                    assert(self@ =~= upsert_spec(old(self)@, course@, now@));
                    assert forall|p: int, q: int|
                        0 <= p < q < self@.len() implies #[trigger] self@[p].course.code
                        != #[trigger] self@[q].course.code by {
                        assert(old(self)@[p].course.code != old(self)@[q].course.code);
                    }
                }
                false
            },
            None => {
                let entry = StoredCourse {
                    course: course.clone(),
                    first_seen_at: now.to_owned(),
                    last_seen_at: now.to_owned(),
                };
                self.entries.push(entry);
                proof {
                    assert(self@ =~= upsert_spec(old(self)@, course@, now@));
                    assert forall|p: int, q: int|
                        0 <= p < q < self@.len() implies #[trigger] self@[p].course.code
                        != #[trigger] self@[q].course.code by {
                        if q < self@.len() - 1 {
                            assert(old(self)@[p].course.code != old(self)@[q].course.code);
                        } else {
                            assert(!has_code(old(self)@, course@.code));
                            assert(old(self)@[p].course.code != course@.code);
                        }
                    }
                }
                true
            },
        }
    }

    /// Deletes the entry with this code and returns its course, or leaves
    /// the store unchanged when the code is absent.
    pub fn remove_course(&mut self, code: &String) -> (r: Option<Course>)
        requires
            old(self).inv(),
        ensures
            final(self).inv(),
            final(self)@ == remove_code_spec(old(self)@, code@),
            match find_code(old(self)@, code@) {
                Some(i) => r is Some && r->0@ == old(self)@[i].course,
                None => r is None && final(self)@ == old(self)@,
            },
    {
        match self.find_index(code) {
            Some(i) => {
                proof {
                    assert(self@[i as int] == self.entries@[i as int]@);
                }
                let removed = self.entries.remove(i);
                let course = removed.course;
                proof {
                    lemma_remove_code_at(old(self)@, code@, i as int);
                    assert(self@ =~= old(self)@.remove(i as int));
                    assert forall|p: int, q: int|
                        0 <= p < q < self@.len() implies #[trigger] self@[p].course.code
                        != #[trigger] self@[q].course.code by {
                        let p0 = if p < i { p } else { p + 1 };
                        let q0 = if q < i { q } else { q + 1 };
                        assert(self@[p] == old(self)@[p0]);
                        assert(self@[q] == old(self)@[q0]);
                        assert(old(self)@[p0].course.code != old(self)@[q0].course.code);
                    }
                }
                Some(course)
            },
            None => {
                proof {
                    lemma_find_code_props(self@, code@);
                    lemma_remove_code_absent(self@, code@);
                }
                None
            },
        }
    }
}

/// Removing a code that sits at its first index `i` drops exactly that
/// entry.
proof fn lemma_remove_code_at(s: Seq<StoredCourseView>, code: Seq<char>, i: int)
    requires
        0 <= i < s.len(),
        s[i].course.code == code,
        forall|j: int| 0 <= j < i ==> #[trigger] s[j].course.code != code,
    ensures
        remove_code_spec(s, code) == s.remove(i),
    decreases i,
{
    if i == 0 {
        assert(s.remove(0) =~= s.drop_first());
    } else {
        assert(s[0].course.code != code);
        lemma_remove_code_at(s.drop_first(), code, i - 1);
        assert((seq![s[0]] + s.drop_first().remove(i - 1)) =~= s.remove(i));
    }
}

/// Removing an absent code changes nothing.
proof fn lemma_remove_code_absent(s: Seq<StoredCourseView>, code: Seq<char>)
    requires
        !has_code(s, code),
    ensures
        remove_code_spec(s, code) == s,
    decreases s.len(),
{
    if s.len() > 0 {
        assert(s[0].course.code != code);
        assert(!has_code(s.drop_first(), code)) by {
            if has_code(s.drop_first(), code) {
                let k = choose|k: int|
                    0 <= k < s.drop_first().len() && #[trigger] s.drop_first()[k].course.code
                        == code;
                assert(s[k + 1].course.code == code);
            }
        }
        lemma_remove_code_absent(s.drop_first(), code);
        assert((seq![s[0]] + s.drop_first()) =~= s);
    }
}

} // verus!
