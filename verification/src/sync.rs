use vstd::prelude::*;
use vstd::string::*;
use crate::models::{Course, CourseChange, CourseView};
use crate::store::{
    codes_of, find_code, find_code_from, has_code, lemma_find_code_props, remove_code_spec,
    unique_codes, upsert_spec, CourseStore, StoredCourseView,
};

verus! {

/// What one synchronization cycle reports: the raw delta, whether this
/// was the bootstrap run, and how many courses the cycle saw.
pub struct SyncResult {
    pub added: Vec<Course>,
    pub removed: Vec<Course>,
    pub is_first_run: bool,
    pub total_courses: usize,
}

impl SyncResult {
    /// Whether the cycle saw any change at all.
    pub fn has_changes(&self) -> (r: bool)
        ensures
            r == (self.added@.len() > 0 || self.removed@.len() > 0),
    {
        self.added.len() > 0 || self.removed.len() > 0
    }
}

/// One audit entry: which course changed, how, and when.
pub struct ChangeRecord {
    pub course_code: String,
    pub change_type: String,
    pub course: Course,
    pub timestamp: String,
}

/// The mathematical value of a `ChangeRecord`.
pub ghost struct ChangeRecordView {
    pub course_code: Seq<char>,
    pub change_type: Seq<char>,
    pub course: CourseView,
    pub timestamp: Seq<char>,
}

impl View for ChangeRecord {
    type V = ChangeRecordView;

    open spec fn view(&self) -> ChangeRecordView {
        ChangeRecordView {
            course_code: self.course_code@,
            change_type: self.change_type@,
            course: self.course@,
            timestamp: self.timestamp@,
        }
    }
}

impl DeepView for ChangeRecord {
    type V = ChangeRecordView;

    open spec fn deep_view(&self) -> ChangeRecordView {
        self.view()
    }
}

/// The audit entry recorded for one change of a course.
pub open spec fn change_record_of(
    c: CourseView,
    typ: Seq<char>,
    ts: Seq<char>,
) -> ChangeRecordView {
    ChangeRecordView { course_code: c.code, change_type: typ, course: c, timestamp: ts }
}

/// The audit entries for a whole list of changes of one kind.
pub open spec fn change_records(
    cs: Seq<CourseView>,
    typ: Seq<char>,
    ts: Seq<char>,
) -> Seq<ChangeRecordView> {
    Seq::new(cs.len(), |i: int| change_record_of(cs[i], typ, ts))
}

/// The append-only log of individual course changes.
pub struct ChangeLog {
    pub entries: Vec<ChangeRecord>,
}

impl View for ChangeLog {
    type V = Seq<ChangeRecordView>;

    open spec fn view(&self) -> Seq<ChangeRecordView> {
        self.entries.deep_view()
    }
}

impl ChangeLog {
    pub fn new() -> (r: Self)
        ensures
            r@ == Seq::<ChangeRecordView>::empty(),
    {
        let r = ChangeLog { entries: Vec::new() };
        proof {
            assert(r@ =~= Seq::<ChangeRecordView>::empty());
        }
        r
    }

    pub fn len(&self) -> (r: usize)
        ensures
            r == self@.len(),
    {
        self.entries.len()
    }

    /// Appends one change to the log.
    pub fn record(&mut self, change: &CourseChange, timestamp: &str) -> (u: ())
        ensures
            final(self)@ == old(self)@.push(
                change_record_of(
                    match change {
                        CourseChange::Added(c) => c@,
                        CourseChange::Removed(c) => c@,
                    },
                    match change {
                        CourseChange::Added(_) => "added"@,
                        CourseChange::Removed(_) => "removed"@,
                    },
                    timestamp@,
                ),
            ),
    {
        let course = change.course();
        let entry = ChangeRecord {
            course_code: course.code.clone(),
            change_type: change.change_type().to_owned(),
            course: course.clone(),
            timestamp: timestamp.to_owned(),
        };
        self.entries.push(entry);
        proof {
            assert(self@ =~= old(self)@.push(
                change_record_of(
                    match change {
                        CourseChange::Added(c) => c@,
                        CourseChange::Removed(c) => c@,
                    },
                    match change {
                        CourseChange::Added(_) => "added"@,
                        CourseChange::Removed(_) => "removed"@,
                    },
                    timestamp@,
                ),
            ));
        }
    }
}

/// Whether some incoming course carries the given code.
pub open spec fn code_in(inc: Seq<CourseView>, code: Seq<char>) -> bool {
    exists|i: int| 0 <= i < inc.len() && #[trigger] inc[i].code == code
}

/// Whether one of the given codes is the given code.
pub open spec fn list_has(codes: Seq<Seq<char>>, code: Seq<char>) -> bool {
    exists|i: int| 0 <= i < codes.len() && #[trigger] codes[i] == code
}

/// The store after upserting every incoming course, in order.
pub open spec fn upsert_all(
    s: Seq<StoredCourseView>,
    inc: Seq<CourseView>,
    now: Seq<char>,
) -> Seq<StoredCourseView>
    decreases inc.len(),
{
    if inc.len() == 0 {
        s
    } else {
        upsert_all(upsert_spec(s, inc[0], now), inc.drop_first(), now)
    }
}

/// The incoming courses reported as added: each one whose code the store
/// did not hold when its turn came, so exactly the first occurrence of
/// every genuinely new code, in input order.
pub open spec fn added_list(
    s: Seq<StoredCourseView>,
    inc: Seq<CourseView>,
    now: Seq<char>,
) -> Seq<CourseView>
    decreases inc.len(),
{
    if inc.len() == 0 {
        Seq::empty()
    } else {
        let rest = added_list(upsert_spec(s, inc[0], now), inc.drop_first(), now);
        if has_code(s, inc[0].code) {
            rest
        } else {
            seq![inc[0]] + rest
        }
    }
}

/// The persisted courses reported as removed: each entry of the prior
/// store whose code no incoming course carries, in store order, with its
/// stored attributes.
pub open spec fn removed_list(
    orig: Seq<StoredCourseView>,
    inc: Seq<CourseView>,
) -> Seq<CourseView>
    decreases orig.len(),
{
    if orig.len() == 0 {
        Seq::empty()
    } else {
        let rest = removed_list(orig.drop_first(), inc);
        if code_in(inc, orig[0].course.code) {
            rest
        } else {
            seq![orig[0].course] + rest
        }
    }
}

/// The store after removing, in order, every listed code that no
/// incoming course carries.
pub open spec fn remove_missing(
    s: Seq<StoredCourseView>,
    codes: Seq<Seq<char>>,
    inc: Seq<CourseView>,
) -> Seq<StoredCourseView>
    decreases codes.len(),
{
    if codes.len() == 0 {
        s
    } else {
        let s2 = if code_in(inc, codes[0]) {
            s
        } else {
            remove_code_spec(s, codes[0])
        };
        remove_missing(s2, codes.drop_first(), inc)
    }
}

/// What a whole cycle leaves in the store: every incoming course
/// upserted, then every prior code that did not come back removed.
pub open spec fn sync_store_spec(
    orig: Seq<StoredCourseView>,
    inc: Seq<CourseView>,
    now: Seq<char>,
) -> Seq<StoredCourseView> {
    remove_missing(upsert_all(orig, inc, now), codes_of(orig), inc)
}

/// Whether the store holds exactly this entry, found under its code.
pub open spec fn stored_entry(s: Seq<StoredCourseView>, e: StoredCourseView) -> bool {
    match find_code(s, e.course.code) {
        Some(i) => 0 <= i < s.len() && s[i] == e,
        None => false,
    }
}

/// An upsert adds the upserted code and keeps every other code as it was.
pub proof fn lemma_upsert_has(
    s: Seq<StoredCourseView>,
    c: CourseView,
    now: Seq<char>,
    x: Seq<char>,
)
    ensures
        has_code(upsert_spec(s, c, now), x) == (has_code(s, x) || x == c.code),
{
    let up = upsert_spec(s, c, now);
    if has_code(s, c.code) {
        assert(forall|i: int| 0 <= i < s.len() ==> #[trigger] up[i].course.code
            == s[i].course.code);
        if has_code(s, x) {
            let i = choose|i: int| 0 <= i < s.len() && #[trigger] s[i].course.code == x;
            assert(up[i].course.code == x);
        }
        if x == c.code {
            let i = choose|i: int| 0 <= i < s.len() && #[trigger] s[i].course.code == c.code;
            assert(up[i].course.code == x);
        }
        if has_code(up, x) {
            let i = choose|i: int| 0 <= i < up.len() && #[trigger] up[i].course.code == x;
            assert(s[i].course.code == x);
        }
    } else {
        if has_code(s, x) {
            let i = choose|i: int| 0 <= i < s.len() && #[trigger] s[i].course.code == x;
            assert(up[i].course.code == x);
        }
        if x == c.code {
            assert(up[s.len() as int].course.code == x);
        }
        if has_code(up, x) {
            let i = choose|i: int| 0 <= i < up.len() && #[trigger] up[i].course.code == x;
            if i < s.len() {
                assert(s[i].course.code == x);
            }
        }
    }
}

/// Upserting everything adds exactly the incoming codes.
pub proof fn lemma_upsert_all_has(
    s: Seq<StoredCourseView>,
    inc: Seq<CourseView>,
    now: Seq<char>,
    x: Seq<char>,
)
    ensures
        has_code(upsert_all(s, inc, now), x) == (has_code(s, x) || code_in(inc, x)),
    decreases inc.len(),
{
    if inc.len() == 0 {
        assert(!code_in(inc, x));
    } else {
        lemma_upsert_has(s, inc[0], now, x);
        lemma_upsert_all_has(upsert_spec(s, inc[0], now), inc.drop_first(), now, x);
        assert(code_in(inc, x) == (inc[0].code == x || code_in(inc.drop_first(), x))) by {
            if code_in(inc, x) {
                let i = choose|i: int| 0 <= i < inc.len() && #[trigger] inc[i].code == x;
                if i > 0 {
                    assert(inc.drop_first()[i - 1].code == x);
                }
            }
            if code_in(inc.drop_first(), x) {
                let i = choose|i: int|
                    0 <= i < inc.drop_first().len() && #[trigger] inc.drop_first()[i].code == x;
                assert(inc[i + 1].code == x);
            }
        }
    }
}

proof fn lemma_find_code_from_upsert(
    s: Seq<StoredCourseView>,
    c: CourseView,
    now: Seq<char>,
    x: Seq<char>,
    i: int,
)
    requires
        x != c.code,
        0 <= i <= s.len(),
    ensures
        find_code_from_eq(s, upsert_spec(s, c, now), x, i),
    decreases s.len() - i,
{
    let up = upsert_spec(s, c, now);
    if i < s.len() {
        assert(up[i].course.code == s[i].course.code);
        if s[i].course.code == x {
            assert(up[i] == s[i]);
        } else {
            lemma_find_code_from_upsert(s, c, now, x, i + 1);
        }
    } else {
        if !has_code(s, c.code) {
            assert(up.len() == s.len() + 1);
            assert(up[i].course.code == c.code);
            assert(find_code_from(up, x, i + 1) == Option::<int>::None);
            assert(find_code_from(up, x, i) == Option::<int>::None);
            assert(find_code_from(s, x, i) == Option::<int>::None);
        }
    }
}

/// Whether searches for `x` from `i` agree on `s` and `t`, finding the
/// same entry.
spec fn find_code_from_eq(
    s: Seq<StoredCourseView>,
    t: Seq<StoredCourseView>,
    x: Seq<char>,
    i: int,
) -> bool {
    find_code_from(t, x, i) == find_code_from(s, x, i) && match find_code_from(s, x, i) {
        Some(k) => 0 <= k < s.len() && k < t.len() && t[k] == s[k],
        None => true,
    }
}

/// An upsert of another code leaves an entry untouched.
pub proof fn lemma_upsert_preserves_entry(
    s: Seq<StoredCourseView>,
    c: CourseView,
    now: Seq<char>,
    e: StoredCourseView,
)
    requires
        e.course.code != c.code,
        stored_entry(s, e),
    ensures
        stored_entry(upsert_spec(s, c, now), e),
{
    lemma_find_code_from_upsert(s, c, now, e.course.code, 0);
}

/// Upserts of codes the entry does not carry leave it untouched.
pub proof fn lemma_upsert_all_preserves_entry(
    s: Seq<StoredCourseView>,
    inc: Seq<CourseView>,
    now: Seq<char>,
    e: StoredCourseView,
)
    requires
        !code_in(inc, e.course.code),
        stored_entry(s, e),
    ensures
        stored_entry(upsert_all(s, inc, now), e),
    decreases inc.len(),
{
    if inc.len() > 0 {
        assert(inc[0].code != e.course.code);
        assert(!code_in(inc.drop_first(), e.course.code)) by {
            if code_in(inc.drop_first(), e.course.code) {
                let i = choose|i: int|
                    0 <= i < inc.drop_first().len() && #[trigger] inc.drop_first()[i].code
                        == e.course.code;
                assert(inc[i + 1].code == e.course.code);
            }
        }
        lemma_upsert_preserves_entry(s, inc[0], now, e);
        lemma_upsert_all_preserves_entry(upsert_spec(s, inc[0], now), inc.drop_first(), now, e);
    }
}

/// Removing one code leaves entries of every other code present, with
/// the same value.
#[verifier::rlimit(60)]
pub proof fn lemma_remove_preserves_entry(
    s: Seq<StoredCourseView>,
    c: Seq<char>,
    e: StoredCourseView,
)
    requires
        e.course.code != c,
        stored_entry(s, e),
    ensures
        stored_entry(remove_code_spec(s, c), e),
    decreases s.len(),
{
    let t = remove_code_spec(s, c);
    let x = e.course.code;
    lemma_find_code_props(s, x);
    if s.len() > 0 {
        if s[0].course.code == c {
            // t is s without its head; the found entry sits one earlier.
            let k = find_code(s, x)->Some_0;
            assert(k > 0);
            lemma_find_code_shift(s, x, k);
            assert(stored_entry(s.drop_first(), e));
        } else if s[0].course.code == x {
            // The entry is the head and survives in front.
            assert(find_code(s, x) == Some(0int));
            assert(t[0] == s[0]);
            assert(find_code(t, x) == Some(0int));
        } else {
            let k = find_code(s, x)->Some_0;
            assert(k > 0);
            lemma_find_code_shift(s, x, k);
            assert(stored_entry(s.drop_first(), e));
            lemma_remove_preserves_entry(s.drop_first(), c, e);
            let t2 = remove_code_spec(s.drop_first(), c);
            lemma_find_code_props(t2, x);
            let k2 = find_code(t2, x)->Some_0;
            assert(t == seq![s[0]] + t2);
            assert(t[0] == s[0]);
            assert(t[k2 + 1] == t2[k2]);
            assert forall|j: int| 0 <= j < k2 + 1 implies #[trigger] t[j].course.code != x by {
                if j == 0 {
                    assert(t[0] == s[0]);
                } else {
                    assert(t[j] == t2[j - 1]);
                }
            }
            lemma_find_code_unshift(t, x, k2 + 1);
        }
    }
}

/// In a sequence whose head does not carry `x`, the first index with `x`
/// is one more than in the tail.
proof fn lemma_find_code_shift(s: Seq<StoredCourseView>, x: Seq<char>, k: int)
    requires
        s.len() > 0,
        s[0].course.code != x,
        find_code(s, x) == Some(k),
    ensures
        0 < k < s.len(),
        find_code(s.drop_first(), x) == Some(k - 1),
        s.drop_first()[k - 1] == s[k],
{
    lemma_find_code_props(s, x);
    lemma_find_code_props(s.drop_first(), x);
    match find_code(s.drop_first(), x) {
        Some(k2) => {
            assert(s.drop_first()[k2] == s[k2 + 1]);
            assert(forall|j: int|
                0 <= j < k - 1 ==> #[trigger] s.drop_first()[j].course.code == s[j
                    + 1].course.code);
            if k2 < k - 1 {
                assert(s[k2 + 1].course.code == x);
            }
            if k2 > k - 1 {
                assert(s.drop_first()[k - 1].course.code == x);
            }
        },
        None => {
            assert(s.drop_first()[k - 1] == s[k]);
            assert(s.drop_first()[k - 1].course.code == x);
        },
    }
}

/// Where the first `k` entries do not carry `x` and entry `k` does, `k`
/// is the first index with `x`.
proof fn lemma_find_code_unshift(s: Seq<StoredCourseView>, x: Seq<char>, k: int)
    requires
        0 <= k < s.len(),
        s[k].course.code == x,
        forall|j: int| 0 <= j < k ==> #[trigger] s[j].course.code != x,
    ensures
        find_code(s, x) == Some(k),
{
    lemma_find_code_props(s, x);
    match find_code(s, x) {
        Some(k2) => {
            if k2 < k {
                assert(s[k2].course.code == x);
            }
            if k2 > k {
                assert(s[k].course.code != x);
            }
        },
        None => {
            assert(s[k].course.code != x);
        },
    }
}

/// Removing one code does not disturb whether other codes are present,
/// and under unique codes it clears the removed one.
pub proof fn lemma_remove_code_has(s: Seq<StoredCourseView>, c: Seq<char>, x: Seq<char>)
    ensures
        x != c ==> has_code(remove_code_spec(s, c), x) == has_code(s, x),
        unique_codes(s) ==> !has_code(remove_code_spec(s, c), c),
    decreases s.len(),
{
    let t = remove_code_spec(s, c);
    if s.len() == 0 {
    } else if s[0].course.code == c {
        // t == s.drop_first()
        if x != c {
            if has_code(s, x) {
                let i = choose|i: int| 0 <= i < s.len() && #[trigger] s[i].course.code == x;
                assert(i > 0);
                assert(t[i - 1].course.code == x);
            }
            if has_code(t, x) {
                let i = choose|i: int| 0 <= i < t.len() && #[trigger] t[i].course.code == x;
                assert(s[i + 1].course.code == x);
            }
        }
        if unique_codes(s) {
            if has_code(t, c) {
                let i = choose|i: int| 0 <= i < t.len() && #[trigger] t[i].course.code == c;
                assert(s[i + 1].course.code == c);
                assert(s[0].course.code == s[i + 1].course.code);
            }
        }
    } else {
        let t2 = remove_code_spec(s.drop_first(), c);
        if unique_codes(s) {
            assert forall|p: int, q: int|
                0 <= p < q < s.drop_first().len() implies #[trigger] s.drop_first()[p].course.code
                != #[trigger] s.drop_first()[q].course.code by {
                assert(s.drop_first()[p] == s[p + 1]);
                assert(s.drop_first()[q] == s[q + 1]);
                assert(s[p + 1].course.code != s[q + 1].course.code);
            }
        }
        lemma_remove_code_has(s.drop_first(), c, x);
        assert(t == seq![s[0]] + t2);
        if x != c {
            if has_code(s, x) {
                let i = choose|i: int| 0 <= i < s.len() && #[trigger] s[i].course.code == x;
                if i == 0 {
                    assert(t[0].course.code == x);
                } else {
                    assert(s.drop_first()[i - 1].course.code == x);
                    assert(has_code(s.drop_first(), x));
                    let i2 = choose|i2: int|
                        0 <= i2 < t2.len() && #[trigger] t2[i2].course.code == x;
                    assert(t[i2 + 1].course.code == x);
                }
            }
            if has_code(t, x) {
                let i = choose|i: int| 0 <= i < t.len() && #[trigger] t[i].course.code == x;
                if i == 0 {
                    assert(s[0].course.code == x);
                } else {
                    assert(t2[i - 1].course.code == x);
                    assert(has_code(t2, x));
                    let i2 = choose|i2: int|
                        0 <= i2 < s.drop_first().len()
                            && #[trigger] s.drop_first()[i2].course.code == x;
                    assert(s[i2 + 1].course.code == x);
                }
            }
        }
        if unique_codes(s) {
            if has_code(t, c) {
                let i = choose|i: int| 0 <= i < t.len() && #[trigger] t[i].course.code == c;
                if i == 0 {
                } else {
                    assert(t2[i - 1].course.code == c);
                }
            }
        }
    }
}

/// Removing one code keeps the remaining codes unique.
pub proof fn lemma_remove_code_unique(s: Seq<StoredCourseView>, c: Seq<char>)
    requires
        unique_codes(s),
    ensures
        unique_codes(remove_code_spec(s, c)),
    decreases s.len(),
{
    let t = remove_code_spec(s, c);
    if s.len() == 0 {
    } else if s[0].course.code == c {
        assert forall|p: int, q: int|
            0 <= p < q < t.len() implies #[trigger] t[p].course.code
            != #[trigger] t[q].course.code by {
            assert(t[p] == s[p + 1]);
            assert(t[q] == s[q + 1]);
            assert(s[p + 1].course.code != s[q + 1].course.code);
        }
    } else {
        assert forall|p: int, q: int|
            0 <= p < q < s.drop_first().len() implies #[trigger] s.drop_first()[p].course.code
            != #[trigger] s.drop_first()[q].course.code by {
            assert(s.drop_first()[p] == s[p + 1]);
            assert(s.drop_first()[q] == s[q + 1]);
            assert(s[p + 1].course.code != s[q + 1].course.code);
        }
        lemma_remove_code_unique(s.drop_first(), c);
        let t2 = remove_code_spec(s.drop_first(), c);
        assert(t == seq![s[0]] + t2);
        lemma_remove_code_has(s.drop_first(), c, s[0].course.code);
        assert(!has_code(s.drop_first(), s[0].course.code)) by {
            if has_code(s.drop_first(), s[0].course.code) {
                let i = choose|i: int|
                    0 <= i < s.drop_first().len() && #[trigger] s.drop_first()[i].course.code
                        == s[0].course.code;
                assert(s[i + 1].course.code == s[0].course.code);
            }
        }
        assert forall|p: int, q: int| 0 <= p < q < t.len() implies #[trigger] t[p].course.code
            != #[trigger] t[q].course.code by {
            assert(t.len() == 1 + t2.len());
            if p == 0 {
                assert(t[0] == s[0]);
                assert(t[q] == t2[q - 1]);
                if t2[q - 1].course.code == s[0].course.code {
                    assert(has_code(t2, s[0].course.code));
                }
            } else {
                assert(t[p] == t2[p - 1] && t[q] == t2[q - 1]);
                assert(t2[p - 1].course.code != t2[q - 1].course.code);
            }
        }
    }
}

/// After the removal pass, a code is present exactly when it is neither
/// slated for removal nor already absent.
pub proof fn lemma_remove_missing_has(
    s: Seq<StoredCourseView>,
    codes: Seq<Seq<char>>,
    inc: Seq<CourseView>,
    x: Seq<char>,
)
    requires
        unique_codes(s),
    ensures
        has_code(remove_missing(s, codes, inc), x) == (has_code(s, x) && !(list_has(codes, x)
            && !code_in(inc, x))),
    decreases codes.len(),
{
    if codes.len() == 0 {
        assert(!list_has(codes, x));
    } else {
        let c = codes[0];
        assert(list_has(codes, x) == (c == x || list_has(codes.drop_first(), x))) by {
            if list_has(codes, x) {
                let i = choose|i: int| 0 <= i < codes.len() && #[trigger] codes[i] == x;
                if i > 0 {
                    assert(codes.drop_first()[i - 1] == x);
                }
            }
            if list_has(codes.drop_first(), x) {
                let i = choose|i: int|
                    0 <= i < codes.drop_first().len() && #[trigger] codes.drop_first()[i] == x;
                assert(codes[i + 1] == x);
            }
        }
        if code_in(inc, c) {
            lemma_remove_missing_has(s, codes.drop_first(), inc, x);
        } else {
            let s2 = remove_code_spec(s, c);
            lemma_remove_code_unique(s, c);
            lemma_remove_code_has(s, c, x);
            lemma_remove_missing_has(s2, codes.drop_first(), inc, x);
        }
    }
}

/// A course is reported added exactly when its code comes in and the
/// store did not hold it: classification rests on the code alone.
pub proof fn lemma_added_list_has(
    s: Seq<StoredCourseView>,
    inc: Seq<CourseView>,
    now: Seq<char>,
    x: Seq<char>,
)
    ensures
        code_in(added_list(s, inc, now), x) == (code_in(inc, x) && !has_code(s, x)),
    decreases inc.len(),
{
    let a = added_list(s, inc, now);
    if inc.len() == 0 {
        assert(!code_in(inc, x));
        assert(!code_in(a, x));
    } else {
        let s2 = upsert_spec(s, inc[0], now);
        let rest = added_list(s2, inc.drop_first(), now);
        lemma_added_list_has(s2, inc.drop_first(), now, x);
        lemma_upsert_has(s, inc[0], now, x);
        assert(code_in(inc, x) == (inc[0].code == x || code_in(inc.drop_first(), x))) by {
            if code_in(inc, x) {
                let i = choose|i: int| 0 <= i < inc.len() && #[trigger] inc[i].code == x;
                if i > 0 {
                    assert(inc.drop_first()[i - 1].code == x);
                }
            }
            if code_in(inc.drop_first(), x) {
                let i = choose|i: int|
                    0 <= i < inc.drop_first().len() && #[trigger] inc.drop_first()[i].code == x;
                assert(inc[i + 1].code == x);
            }
        }
        if has_code(s, inc[0].code) {
            assert(a == rest);
        } else {
            assert(a == seq![inc[0]] + rest);
            assert(code_in(a, x) == (inc[0].code == x || code_in(rest, x))) by {
                if code_in(a, x) {
                    let i = choose|i: int| 0 <= i < a.len() && #[trigger] a[i].code == x;
                    if i > 0 {
                        assert(rest[i - 1].code == x);
                    }
                }
                if code_in(rest, x) {
                    let i = choose|i: int| 0 <= i < rest.len() && #[trigger] rest[i].code == x;
                    assert(a[i + 1].code == x);
                }
                assert(a[0].code == inc[0].code);
            }
        }
    }
}

/// A course is reported removed exactly when the store held its code and
/// no incoming course carries it: classification rests on the code alone.
pub proof fn lemma_removed_list_has(
    orig: Seq<StoredCourseView>,
    inc: Seq<CourseView>,
    x: Seq<char>,
)
    ensures
        code_in(removed_list(orig, inc), x) == (has_code(orig, x) && !code_in(inc, x)),
    decreases orig.len(),
{
    let r = removed_list(orig, inc);
    if orig.len() == 0 {
        assert(!has_code(orig, x));
        assert(!code_in(r, x));
    } else {
        let rest = removed_list(orig.drop_first(), inc);
        lemma_removed_list_has(orig.drop_first(), inc, x);
        assert(has_code(orig, x) == (orig[0].course.code == x || has_code(
            orig.drop_first(),
            x,
        ))) by {
            if has_code(orig, x) {
                let i = choose|i: int|
                    0 <= i < orig.len() && #[trigger] orig[i].course.code == x;
                if i > 0 {
                    assert(orig.drop_first()[i - 1].course.code == x);
                }
            }
            if has_code(orig.drop_first(), x) {
                let i = choose|i: int|
                    0 <= i < orig.drop_first().len()
                        && #[trigger] orig.drop_first()[i].course.code == x;
                assert(orig[i + 1].course.code == x);
            }
        }
        if code_in(inc, orig[0].course.code) {
            assert(r == rest);
        } else {
            assert(r == seq![orig[0].course] + rest);
            assert(code_in(r, x) == (orig[0].course.code == x || code_in(rest, x))) by {
                if code_in(r, x) {
                    let i = choose|i: int| 0 <= i < r.len() && #[trigger] r[i].code == x;
                    if i > 0 {
                        assert(rest[i - 1].code == x);
                    }
                }
                if code_in(rest, x) {
                    let i = choose|i: int| 0 <= i < rest.len() && #[trigger] rest[i].code == x;
                    assert(r[i + 1].code == x);
                }
                assert(r[0].code == orig[0].course.code);
            }
        }
    }
}

/// Distinct incoming codes each add one entry when none of them is
/// already present.
proof fn lemma_upsert_all_len_new(
    s: Seq<StoredCourseView>,
    inc: Seq<CourseView>,
    now: Seq<char>,
)
    requires
        forall|i: int, j: int| 0 <= i < j < inc.len() ==> #[trigger] inc[i].code != #[trigger] inc[j].code,
        forall|i: int| 0 <= i < inc.len() ==> !has_code(s, #[trigger] inc[i].code),
    ensures
        upsert_all(s, inc, now).len() == s.len() + inc.len(),
    decreases inc.len(),
{
    if inc.len() > 0 {
        assert(!has_code(s, inc[0].code));
        let s2 = upsert_spec(s, inc[0], now);
        assert(s2.len() == s.len() + 1);
        assert forall|i: int| 0 <= i < inc.drop_first().len() implies !has_code(
            s2,
            #[trigger] inc.drop_first()[i].code,
        ) by {
            assert(inc.drop_first()[i] == inc[i + 1]);
            lemma_upsert_has(s, inc[0], now, inc[i + 1].code);
            assert(inc[i + 1].code != inc[0].code);
        }
        assert(forall|i: int, j: int|
            0 <= i < j < inc.drop_first().len() ==> #[trigger] inc.drop_first()[i].code
                != #[trigger] inc.drop_first()[j].code) by {
            assert(forall|i: int|
                0 <= i < inc.drop_first().len() ==> #[trigger] inc.drop_first()[i] == inc[i + 1]);
        }
        lemma_upsert_all_len_new(s2, inc.drop_first(), now);
    }
}

/// The bootstrap run stores every incoming course: starting from nothing,
/// a cycle over distinct codes leaves exactly one entry per course.
pub proof fn lemma_bootstrap_store_size(inc: Seq<CourseView>, now: Seq<char>)
    requires
        forall|i: int, j: int| 0 <= i < j < inc.len() ==> #[trigger] inc[i].code != #[trigger] inc[j].code,
    ensures
        sync_store_spec(Seq::empty(), inc, now).len() == inc.len(),
{
    let empty_store = Seq::<StoredCourseView>::empty();
    assert(forall|i: int| 0 <= i < inc.len() ==> !has_code(empty_store, #[trigger] inc[i].code));
    lemma_upsert_all_len_new(empty_store, inc, now);
    assert(codes_of(empty_store) =~= Seq::<Seq<char>>::empty());
    assert(remove_missing(upsert_all(empty_store, inc, now), codes_of(empty_store), inc)
        == upsert_all(empty_store, inc, now));
}

/// The last index at which an incoming course carries the code, if any.
pub open spec fn last_index_of(inc: Seq<CourseView>, x: Seq<char>) -> Option<int>
    decreases inc.len(),
{
    if inc.len() == 0 {
        Option::<int>::None
    } else if inc.last().code == x {
        Some(inc.len() - 1)
    } else {
        last_index_of(inc.drop_last(), x)
    }
}

/// The first-seen time recorded for the code in the store.
pub open spec fn first_seen_of(s: Seq<StoredCourseView>, x: Seq<char>) -> Seq<char> {
    s[find_code(s, x)->Some_0].first_seen_at
}

/// The entry one cycle is expected to leave for an incoming code: the
/// last incoming course with that code, seen last now, and first seen
/// either when the store first saw the code or now.
pub open spec fn expected_entry(
    orig: Seq<StoredCourseView>,
    inc: Seq<CourseView>,
    now: Seq<char>,
    x: Seq<char>,
) -> StoredCourseView {
    StoredCourseView {
        course: inc[last_index_of(inc, x)->Some_0],
        first_seen_at: if has_code(orig, x) {
            first_seen_of(orig, x)
        } else {
            now
        },
        last_seen_at: now,
    }
}

proof fn lemma_last_index_props(inc: Seq<CourseView>, x: Seq<char>)
    ensures
        match last_index_of(inc, x) {
            Some(k) => 0 <= k < inc.len() && inc[k].code == x && (forall|j: int|
                k < j < inc.len() ==> #[trigger] inc[j].code != x),
            None => !code_in(inc, x),
        },
    decreases inc.len(),
{
    if inc.len() > 0 && inc.last().code != x {
        lemma_last_index_props(inc.drop_last(), x);
        match last_index_of(inc.drop_last(), x) {
            Some(k) => {
                assert(inc.drop_last()[k] == inc[k]);
                assert(forall|j: int|
                    k < j < inc.len() - 1 ==> #[trigger] inc[j].code == inc.drop_last()[j].code);
            },
            None => {
                if code_in(inc, x) {
                    let i = choose|i: int| 0 <= i < inc.len() && #[trigger] inc[i].code == x;
                    assert(i < inc.len() - 1);
                    assert(inc.drop_last()[i].code == x);
                }
            },
        }
    }
}

proof fn lemma_last_index_drop_first(inc: Seq<CourseView>, x: Seq<char>)
    requires
        inc.len() > 0,
    ensures
        last_index_of(inc, x) == match last_index_of(inc.drop_first(), x) {
            Some(k) => Some(k + 1),
            None => {
                if inc[0].code == x {
                    Some(0int)
                } else {
                    Option::<int>::None
                }
            },
        },
    decreases inc.len(),
{
    let rest = inc.drop_first();
    if inc.len() == 1 {
        assert(rest.len() == 0);
        assert(inc.last() == inc[0]);
    } else {
        assert(rest.last() == inc.last());
        if inc.last().code == x {
            assert(last_index_of(inc, x) == Some(inc.len() - 1));
            assert(last_index_of(rest, x) == Some(rest.len() - 1));
        } else {
            assert(inc.drop_last().len() > 0);
            lemma_last_index_drop_first(inc.drop_last(), x);
            assert(inc.drop_last().drop_first() =~= rest.drop_last());
            assert(inc.drop_last()[0] == inc[0]);
        }
    }
}

proof fn lemma_find_code_from_same_codes(
    s: Seq<StoredCourseView>,
    t: Seq<StoredCourseView>,
    x: Seq<char>,
    i: int,
)
    requires
        s.len() == t.len(),
        forall|j: int| 0 <= j < s.len() ==> #[trigger] s[j].course.code == #[trigger] t[j].course.code,
        0 <= i <= s.len(),
    ensures
        find_code_from(s, x, i) == find_code_from(t, x, i),
    decreases s.len() - i,
{
    if i < s.len() && s[i].course.code != x {
        lemma_find_code_from_same_codes(s, t, x, i + 1);
    }
}

/// After one upsert of a course, the store holds exactly that course
/// under its code, last seen now, with its first-seen time preserved or
/// set now.
proof fn lemma_upsert_own_entry(s: Seq<StoredCourseView>, c: CourseView, now: Seq<char>)
    ensures
        stored_entry(
            upsert_spec(s, c, now),
            StoredCourseView {
                course: c,
                first_seen_at: if has_code(s, c.code) {
                    first_seen_of(s, c.code)
                } else {
                    now
                },
                last_seen_at: now,
            },
        ),
{
    let s2 = upsert_spec(s, c, now);
    lemma_find_code_props(s, c.code);
    if has_code(s, c.code) {
        assert(forall|j: int|
            0 <= j < s.len() ==> #[trigger] s2[j].course.code == #[trigger] s[j].course.code);
        lemma_find_code_from_same_codes(s, s2, c.code, 0);
        let k = find_code(s, c.code)->Some_0;
        assert(s2[k] == StoredCourseView {
            course: c,
            first_seen_at: s[k].first_seen_at,
            last_seen_at: now,
        });
    } else {
        assert(s2[s.len() as int].course.code == c.code);
        assert(forall|j: int| 0 <= j < s.len() ==> #[trigger] s2[j].course.code != c.code);
        lemma_find_code_unshift(s2, c.code, s.len() as int);
    }
}

/// After all incoming courses are upserted, each incoming code is stored
/// as its last incoming course, last seen now, first seen as before or
/// now.
proof fn lemma_upsert_all_entry(
    s: Seq<StoredCourseView>,
    inc: Seq<CourseView>,
    now: Seq<char>,
    x: Seq<char>,
)
    requires
        code_in(inc, x),
    ensures
        stored_entry(upsert_all(s, inc, now), expected_entry(s, inc, now, x)),
    decreases inc.len(),
{
    let c0 = inc[0];
    let s2 = upsert_spec(s, c0, now);
    let rest = inc.drop_first();
    lemma_last_index_drop_first(inc, x);
    lemma_last_index_props(inc, x);
    lemma_last_index_props(rest, x);
    lemma_upsert_has(s, c0, now, x);
    if code_in(rest, x) {
        assert(last_index_of(rest, x) is Some) by {
            lemma_last_index_props(rest, x);
        }
        lemma_upsert_all_entry(s2, rest, now, x);
        let k2 = last_index_of(rest, x)->Some_0;
        assert(rest[k2] == inc[k2 + 1]);
        assert(expected_entry(s2, rest, now, x).course == expected_entry(s, inc, now, x).course);
        // The first-seen time carried forward is the same one.
        if x == c0.code {
            lemma_upsert_own_entry(s, c0, now);
            lemma_find_code_props(s2, x);
            let e2 = StoredCourseView {
                course: c0,
                first_seen_at: if has_code(s, c0.code) {
                    first_seen_of(s, c0.code)
                } else {
                    now
                },
                last_seen_at: now,
            };
            assert(stored_entry(s2, e2));
            assert(first_seen_of(s2, x) == e2.first_seen_at);
        } else {
            if has_code(s, x) {
                lemma_find_code_props(s, x);
                lemma_find_code_from_upsert(s, c0, now, x, 0);
                assert(first_seen_of(s2, x) == first_seen_of(s, x));
            }
        }
        assert(expected_entry(s2, rest, now, x) == expected_entry(s, inc, now, x));
    } else {
        assert(x == c0.code) by {
            let i = choose|i: int| 0 <= i < inc.len() && #[trigger] inc[i].code == x;
            if i > 0 {
                assert(rest[i - 1].code == x);
            }
        }
        assert(last_index_of(inc, x) == Some(0int));
        lemma_upsert_own_entry(s, c0, now);
        let e = StoredCourseView {
            course: c0,
            first_seen_at: if has_code(s, x) {
                first_seen_of(s, x)
            } else {
                now
            },
            last_seen_at: now,
        };
        assert(e == expected_entry(s, inc, now, x));
        if rest.len() > 0 {
            lemma_upsert_all_preserves_entry(s2, rest, now, e);
        }
    }
}

proof fn lemma_remove_missing_preserves_entry(
    s: Seq<StoredCourseView>,
    codes: Seq<Seq<char>>,
    inc: Seq<CourseView>,
    e: StoredCourseView,
)
    requires
        code_in(inc, e.course.code),
        stored_entry(s, e),
    ensures
        stored_entry(remove_missing(s, codes, inc), e),
    decreases codes.len(),
{
    if codes.len() > 0 {
        if code_in(inc, codes[0]) {
            lemma_remove_missing_preserves_entry(s, codes.drop_first(), inc, e);
        } else {
            assert(codes[0] != e.course.code);
            lemma_remove_preserves_entry(s, codes[0], e);
            lemma_remove_missing_preserves_entry(
                remove_code_spec(s, codes[0]),
                codes.drop_first(),
                inc,
                e,
            );
        }
    }
}

/// What the cycle leaves stored under each incoming code: the last
/// incoming course with that code, last seen now, first seen either when
/// the store first saw the code or now. The later occurrence of a
/// duplicated code wins.
pub proof fn lemma_sync_entry_values(
    orig: Seq<StoredCourseView>,
    inc: Seq<CourseView>,
    now: Seq<char>,
    x: Seq<char>,
)
    requires
        code_in(inc, x),
    ensures
        stored_entry(sync_store_spec(orig, inc, now), expected_entry(orig, inc, now, x)),
{
    lemma_upsert_all_entry(orig, inc, now, x);
    lemma_last_index_props(inc, x);
    assert(expected_entry(orig, inc, now, x).course.code == x);
    lemma_remove_missing_preserves_entry(
        upsert_all(orig, inc, now),
        codes_of(orig),
        inc,
        expected_entry(orig, inc, now, x),
    );
}

/// No code is reported both added and removed in one cycle.
pub proof fn lemma_delta_disjoint(
    orig: Seq<StoredCourseView>,
    inc: Seq<CourseView>,
    now: Seq<char>,
    x: Seq<char>,
)
    ensures
        !(code_in(added_list(orig, inc, now), x) && code_in(removed_list(orig, inc), x)),
{
    lemma_added_list_has(orig, inc, now, x);
    lemma_removed_list_has(orig, inc, x);
}

/// Whether a code is reported added or removed depends only on which
/// codes the store held and which come in; names, points and the other
/// attributes play no part.
pub proof fn lemma_classification_by_code(
    orig1: Seq<StoredCourseView>,
    orig2: Seq<StoredCourseView>,
    inc1: Seq<CourseView>,
    inc2: Seq<CourseView>,
    now1: Seq<char>,
    now2: Seq<char>,
    x: Seq<char>,
)
    requires
        forall|c: Seq<char>| has_code(orig1, c) == has_code(orig2, c),
        forall|c: Seq<char>| code_in(inc1, c) == code_in(inc2, c),
    ensures
        code_in(added_list(orig1, inc1, now1), x) == code_in(added_list(orig2, inc2, now2), x),
        code_in(removed_list(orig1, inc1), x) == code_in(removed_list(orig2, inc2), x),
{
    lemma_added_list_has(orig1, inc1, now1, x);
    lemma_added_list_has(orig2, inc2, now2, x);
    lemma_removed_list_has(orig1, inc1, x);
    lemma_removed_list_has(orig2, inc2, x);
}

fn contains_course_code(courses: &Vec<Course>, code: &String) -> (r: bool)
    ensures
        r == code_in(courses.deep_view(), code@),
{
    let n: usize = courses.len();
    let mut i: usize = 0;
    while i < n
        invariant
            i <= n,
            n == courses@.len(),
            forall|j: int| 0 <= j < i ==> #[trigger] courses.deep_view()[j].code != code@,
        decreases n - i,
    {
        proof {
            assert(courses.deep_view()[i as int] == courses@[i as int]@);
        }
        if courses[i].code == *code {
            proof {
                assert(courses.deep_view()[i as int].code == code@);
            }
            return true;
        }
        i = i + 1;
    }
    false
}

/// One synchronization cycle: upserts every incoming course, removes
/// every persisted course that did not come back, and reports the delta.
/// On the bootstrap run - a store that held nothing - the store is
/// populated but the reported delta is empty. Afterwards the store holds
/// exactly the incoming codes.
pub fn sync_courses(
    store: &mut CourseStore,
    log: &mut ChangeLog,
    incoming: &Vec<Course>,
    now: &str,
) -> (r: SyncResult)
    requires
        old(store).inv(),
    ensures
        final(store).inv(),
        r.is_first_run == (old(store)@.len() == 0),
        r.total_courses == incoming@.len(),
        final(store)@ == sync_store_spec(old(store)@, incoming.deep_view(), now@),
        forall|x: Seq<char>|
            has_code(final(store)@, x) == code_in(incoming.deep_view(), x),
        r.added.deep_view() == if r.is_first_run {
            Seq::<CourseView>::empty()
        } else {
            added_list(old(store)@, incoming.deep_view(), now@)
        },
        r.removed.deep_view() == removed_list(old(store)@, incoming.deep_view()),
        final(log)@ == old(log)@ + change_records(r.added.deep_view(), "added"@, now@)
            + change_records(r.removed.deep_view(), "removed"@, now@),
{
    let ghost orig = store@;
    let ghost inc_d = incoming.deep_view();
    let ghost logged0 = log@;
    let is_first_run = store.is_first_run();
    let old_codes = store.codes();

    let mut added: Vec<Course> = Vec::new();
    let n: usize = incoming.len();
    proof {
        assert(inc_d.skip(0) =~= inc_d);
        assert(added.deep_view() =~= Seq::<CourseView>::empty());
        assert(Seq::<CourseView>::empty() + added_list(orig, inc_d, now@) =~= added_list(
            orig,
            inc_d,
            now@,
        ));
        assert(change_records(Seq::<CourseView>::empty(), "added"@, now@)
            =~= Seq::<ChangeRecordView>::empty());
        assert(logged0 + Seq::<ChangeRecordView>::empty() =~= logged0);
    }
    let mut i: usize = 0;
    while i < n
        invariant
            store.inv(),
            unique_codes(orig),
            i <= n,
            n == incoming@.len(),
            inc_d == incoming.deep_view(),
            is_first_run == (orig.len() == 0),
            upsert_all(store@, inc_d.skip(i as int), now@) == upsert_all(orig, inc_d, now@),
            !is_first_run ==> added.deep_view() + added_list(store@, inc_d.skip(i as int), now@)
                == added_list(orig, inc_d, now@),
            is_first_run ==> added@.len() == 0 && log@ == logged0,
            !is_first_run ==> log@ == logged0 + change_records(
                added.deep_view(),
                "added"@,
                now@,
            ),
        decreases n - i,
    {
        let ghost pre = store@;
        proof {
            assert(inc_d.skip(i as int)[0] == inc_d[i as int]);
            assert(inc_d.skip(i as int).drop_first() =~= inc_d.skip(i as int + 1));
            assert(inc_d[i as int] == incoming@[i as int]@);
        }
        let is_new = store.upsert_course(&incoming[i], now);
        if is_new && !is_first_run {
            added.push(incoming[i].clone());
            log.record(&CourseChange::Added(incoming[i].clone()), now);
        }
        proof {
            assert(upsert_all(pre, inc_d.skip(i as int), now@) == upsert_all(
                upsert_spec(pre, inc_d[i as int], now@),
                inc_d.skip(i as int + 1),
                now@,
            ));
            assert(added_list(pre, inc_d.skip(i as int), now@) == if has_code(
                pre,
                inc_d[i as int].code,
            ) {
                added_list(upsert_spec(pre, inc_d[i as int], now@), inc_d.skip(i as int + 1), now@)
            } else {
                seq![inc_d[i as int]] + added_list(
                    upsert_spec(pre, inc_d[i as int], now@),
                    inc_d.skip(i as int + 1),
                    now@,
                )
            });
            if is_new && !is_first_run {
                assert(added.deep_view() =~= added.deep_view().drop_last().push(
                    inc_d[i as int],
                ));
                assert(added.deep_view().drop_last() + (seq![inc_d[i as int]] + added_list(
                    store@,
                    inc_d.skip(i as int + 1),
                    now@,
                )) =~= added.deep_view() + added_list(store@, inc_d.skip(i as int + 1), now@));
                assert(log@ == logged0 + change_records(
                    added.deep_view(),
                    "added"@,
                    now@,
                )) by {
                    assert(change_records(added.deep_view(), "added"@, now@)
                        =~= change_records(added.deep_view().drop_last(), "added"@, now@).push(
                        change_record_of(inc_d[i as int], "added"@, now@),
                    ));
                    assert(logged0 + change_records(added.deep_view(), "added"@, now@)
                        =~= (logged0 + change_records(
                        added.deep_view().drop_last(),
                        "added"@,
                        now@,
                    )).push(change_record_of(inc_d[i as int], "added"@, now@)));
                }
            }
        }
        i = i + 1;
    }
    proof {
        assert(inc_d.skip(n as int) =~= Seq::<CourseView>::empty());
        assert(upsert_all(store@, inc_d.skip(n as int), now@) == store@);
        assert(added_list(store@, inc_d.skip(n as int), now@) =~= Seq::<CourseView>::empty());
        assert(added.deep_view() + Seq::<CourseView>::empty() =~= added.deep_view());
        if is_first_run {
            assert(added.deep_view() =~= Seq::<CourseView>::empty());
        }
    }
    let ghost u = store@;

    // Everything persisted before the cycle whose code did not come back
    // goes away now.
    proof {
        assert forall|k: int|
            0 <= k < orig.len() && !code_in(inc_d, orig[k].course.code) implies stored_entry(
            store@,
            orig[k],
        ) by {
            assert(unique_codes(orig));
            lemma_find_code_props(orig, orig[k].course.code);
            match find_code(orig, orig[k].course.code) {
                Some(kk) => {
                    assert(orig[kk].course.code == orig[k].course.code);
                    if kk < k {
                        assert(false);
                    }
                    if kk > k {
                        assert(false);
                    }
                    assert(stored_entry(orig, orig[k]));
                },
                None => {
                    assert(false);
                },
            }
            lemma_upsert_all_preserves_entry(orig, inc_d, now@, orig[k]);
        }
    }

    let mut removed: Vec<Course> = Vec::new();
    let m: usize = old_codes.len();
    proof {
        assert(old_codes.deep_view().len() == old_codes@.len());
        assert(m == orig.len());
        assert(codes_of(orig).skip(0) =~= codes_of(orig));
        assert(orig.skip(0) =~= orig);
        assert(removed.deep_view() =~= Seq::<CourseView>::empty());
        assert(Seq::<CourseView>::empty() + removed_list(orig, inc_d) =~= removed_list(
            orig,
            inc_d,
        ));
        assert(change_records(Seq::<CourseView>::empty(), "removed"@, now@)
            =~= Seq::<ChangeRecordView>::empty());
        assert((logged0 + change_records(
            (if is_first_run {
                Seq::<CourseView>::empty()
            } else {
                added_list(orig, inc_d, now@)
            }),
            "added"@,
            now@,
        )) + Seq::<ChangeRecordView>::empty() =~= logged0 + change_records(
            (if is_first_run {
                Seq::<CourseView>::empty()
            } else {
                added_list(orig, inc_d, now@)
            }),
            "added"@,
            now@,
        ));
        if is_first_run {
            assert(change_records(Seq::<CourseView>::empty(), "added"@, now@)
                =~= Seq::<ChangeRecordView>::empty());
            assert(logged0 + Seq::<ChangeRecordView>::empty() =~= logged0);
        }
    }
    let mut j: usize = 0;
    while j < m
        invariant
            store.inv(),
            unique_codes(orig),
            j <= m,
            m == old_codes@.len(),
            m == orig.len(),
            old_codes.deep_view() == codes_of(orig),
            inc_d == incoming.deep_view(),
            is_first_run == (orig.len() == 0),
            remove_missing(store@, codes_of(orig).skip(j as int), inc_d) == remove_missing(
                u,
                codes_of(orig),
                inc_d,
            ),
            removed.deep_view() + removed_list(orig.skip(j as int), inc_d) == removed_list(
                orig,
                inc_d,
            ),
            log@ == logged0 + change_records(
                (if is_first_run {
                    Seq::<CourseView>::empty()
                } else {
                    added_list(orig, inc_d, now@)
                }),
                "added"@,
                now@,
            ) + change_records(removed.deep_view(), "removed"@, now@),
            added.deep_view() == if is_first_run {
                Seq::<CourseView>::empty()
            } else {
                added_list(orig, inc_d, now@)
            },
            forall|k: int|
                j <= k < orig.len() && !code_in(inc_d, #[trigger] orig[k].course.code)
                    ==> stored_entry(store@, orig[k]),
        decreases m - j,
    {
        let ghost pre = store@;
        proof {
            assert(old_codes.deep_view()[j as int] == old_codes@[j as int]@);
            assert(codes_of(orig)[j as int] == orig[j as int].course.code);
            assert(codes_of(orig).skip(j as int)[0] == codes_of(orig)[j as int]);
            assert(codes_of(orig).skip(j as int).drop_first() =~= codes_of(orig).skip(
                j as int + 1,
            ));
            assert(orig.skip(j as int)[0] == orig[j as int]);
            assert(orig.skip(j as int).drop_first() =~= orig.skip(j as int + 1));
        }
        let in_incoming = contains_course_code(incoming, &old_codes[j]);
        if !in_incoming {
            proof {
                assert(stored_entry(pre, orig[j as int]));
            }
            let removed_course = store.remove_course(&old_codes[j]);
            match removed_course {
                Some(course) => {
                    if !is_first_run {
                        log.record(&CourseChange::Removed(course.clone()), now);
                        removed.push(course);
                        proof {
                            assert(removed.deep_view() =~= removed.deep_view().drop_last().push(
                                orig[j as int].course,
                            ));
                            assert(removed.deep_view().drop_last() + (seq![orig[j as int].course]
                                + removed_list(orig.skip(j as int + 1), inc_d))
                                =~= removed.deep_view() + removed_list(
                                orig.skip(j as int + 1),
                                inc_d,
                            ));
                            let ghost base = logged0 + change_records(
                                (if is_first_run {
                                    Seq::<CourseView>::empty()
                                } else {
                                    added_list(orig, inc_d, now@)
                                }),
                                "added"@,
                                now@,
                            );
                            assert(change_records(removed.deep_view(), "removed"@, now@)
                                =~= change_records(
                                removed.deep_view().drop_last(),
                                "removed"@,
                                now@,
                            ).push(change_record_of(orig[j as int].course, "removed"@, now@)));
                            assert(base + change_records(removed.deep_view(), "removed"@, now@)
                                =~= (base + change_records(
                                removed.deep_view().drop_last(),
                                "removed"@,
                                now@,
                            )).push(change_record_of(orig[j as int].course, "removed"@, now@)));
                        }
                    }
                },
                None => {
                    proof {
                        assert(false);
                    }
                },
            }
            proof {
                // Later entries keep their places under this removal.
                assert forall|k: int|
                    j as int + 1 <= k < orig.len() && !code_in(
                        inc_d,
                        #[trigger] orig[k].course.code,
                    ) implies stored_entry(store@, orig[k]) by {
                    assert(stored_entry(pre, orig[k]));
                    assert(orig[k].course.code != orig[j as int].course.code);
                    lemma_remove_preserves_entry(pre, orig[j as int].course.code, orig[k]);
                }
            }
        }
        proof {
            assert(remove_missing(pre, codes_of(orig).skip(j as int), inc_d) == remove_missing(
                store@,
                codes_of(orig).skip(j as int + 1),
                inc_d,
            ));
            assert(removed_list(orig.skip(j as int), inc_d) == if code_in(
                inc_d,
                orig[j as int].course.code,
            ) {
                removed_list(orig.skip(j as int + 1), inc_d)
            } else {
                seq![orig[j as int].course] + removed_list(orig.skip(j as int + 1), inc_d)
            });
        }
        j = j + 1;
    }
    proof {
        assert(codes_of(orig).skip(m as int) =~= Seq::<Seq<char>>::empty());
        assert(remove_missing(store@, codes_of(orig).skip(m as int), inc_d) == store@);
        assert(orig.skip(m as int) =~= Seq::<StoredCourseView>::empty());
        assert(removed_list(orig.skip(m as int), inc_d) =~= Seq::<CourseView>::empty());
        assert(removed.deep_view() + Seq::<CourseView>::empty() =~= removed.deep_view());
        if is_first_run {
            assert(removed.deep_view() =~= removed_list(orig, inc_d));
        }
        assert forall|x: Seq<char>| has_code(store@, x) == code_in(inc_d, x) by {
            lemma_remove_missing_has(u, codes_of(orig), inc_d, x);
            lemma_upsert_all_has(orig, inc_d, now@, x);
            assert(list_has(codes_of(orig), x) == has_code(orig, x)) by {
                if list_has(codes_of(orig), x) {
                    let k = choose|k: int|
                        0 <= k < codes_of(orig).len() && #[trigger] codes_of(orig)[k] == x;
                    assert(orig[k].course.code == x);
                }
                if has_code(orig, x) {
                    let k = choose|k: int|
                        0 <= k < orig.len() && #[trigger] orig[k].course.code == x;
                    assert(codes_of(orig)[k] == x);
                }
            }
        }
    }
    let total = incoming.len();
    SyncResult { added, removed, is_first_run, total_courses: total }
}

} // verus!
