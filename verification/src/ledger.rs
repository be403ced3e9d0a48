use vstd::prelude::*;

verus! {

/// The numbers and lists one synchronization cycle produced, as the
/// orchestrator reports them for the audit trail.
pub struct RunLog {
    pub total_courses_fetched: usize,
    pub raw_added_count: usize,
    pub raw_removed_count: usize,
    pub filtered_added_count: usize,
    pub filtered_removed_count: usize,
    pub filter_used: String,
    pub notification_sent: bool,
    pub is_first_run: bool,
    pub added_courses: Vec<String>,
    pub removed_courses: Vec<String>,
    pub duration_ms: u64,
}

/// One stored audit entry: a `RunLog` under its identifier and timestamp.
pub struct RunLogEntry {
    pub id: i64,
    pub timestamp: String,
    pub total_courses_fetched: i64,
    pub raw_added_count: i64,
    pub raw_removed_count: i64,
    pub filtered_added_count: i64,
    pub filtered_removed_count: i64,
    pub filter_used: String,
    pub notification_sent: bool,
    pub is_first_run: bool,
    pub added_courses: Vec<String>,
    pub removed_courses: Vec<String>,
    pub duration_ms: i64,
}

/// The mathematical value of a `RunLogEntry`.
pub ghost struct RunLogEntryView {
    pub id: int,
    pub timestamp: Seq<char>,
    pub total_courses_fetched: int,
    pub raw_added_count: int,
    pub raw_removed_count: int,
    pub filtered_added_count: int,
    pub filtered_removed_count: int,
    pub filter_used: Seq<char>,
    pub notification_sent: bool,
    pub is_first_run: bool,
    pub added_courses: Seq<Seq<char>>,
    pub removed_courses: Seq<Seq<char>>,
    pub duration_ms: int,
}

impl View for RunLogEntry {
    type V = RunLogEntryView;

    open spec fn view(&self) -> RunLogEntryView {
        RunLogEntryView {
            id: self.id as int,
            timestamp: self.timestamp@,
            total_courses_fetched: self.total_courses_fetched as int,
            raw_added_count: self.raw_added_count as int,
            raw_removed_count: self.raw_removed_count as int,
            filtered_added_count: self.filtered_added_count as int,
            filtered_removed_count: self.filtered_removed_count as int,
            filter_used: self.filter_used@,
            notification_sent: self.notification_sent,
            is_first_run: self.is_first_run,
            added_courses: self.added_courses.deep_view(),
            removed_courses: self.removed_courses.deep_view(),
            duration_ms: self.duration_ms as int,
        }
    }
}

impl DeepView for RunLogEntry {
    type V = RunLogEntryView;

    open spec fn deep_view(&self) -> RunLogEntryView {
        self.view()
    }
}

fn clone_strings(v: &Vec<String>) -> (r: Vec<String>)
    ensures
        r.deep_view() == v.deep_view(),
{
    let n: usize = v.len();
    let mut r: Vec<String> = Vec::new();
    let mut i: usize = 0;
    while i < n
        invariant
            i <= n,
            n == v@.len(),
            r@.len() == i,
            forall|j: int| 0 <= j < i ==> #[trigger] r@[j]@ == v@[j]@,
        decreases n - i,
    {
        r.push(v[i].clone());
        i = i + 1;
    }
    proof {
        assert(r.deep_view() =~= v.deep_view());
    }
    r
}

impl Clone for RunLogEntry {
    fn clone(&self) -> (r: Self)
        ensures
            r@ == self@,
    {
        let r = RunLogEntry {
            id: self.id,
            timestamp: self.timestamp.clone(),
            total_courses_fetched: self.total_courses_fetched,
            raw_added_count: self.raw_added_count,
            raw_removed_count: self.raw_removed_count,
            filtered_added_count: self.filtered_added_count,
            filtered_removed_count: self.filtered_removed_count,
            filter_used: self.filter_used.clone(),
            notification_sent: self.notification_sent,
            is_first_run: self.is_first_run,
            added_courses: clone_strings(&self.added_courses),
            removed_courses: clone_strings(&self.removed_courses),
            duration_ms: self.duration_ms,
        };
        r
    }
}

/// The entry stored when a run is appended under an identifier at a time.
pub open spec fn entry_of(run: RunLog, id: int, timestamp: Seq<char>) -> RunLogEntryView {
    RunLogEntryView {
        id: id,
        timestamp: timestamp,
        total_courses_fetched: run.total_courses_fetched as int,
        raw_added_count: run.raw_added_count as int,
        raw_removed_count: run.raw_removed_count as int,
        filtered_added_count: run.filtered_added_count as int,
        filtered_removed_count: run.filtered_removed_count as int,
        filter_used: run.filter_used@,
        notification_sent: run.notification_sent,
        is_first_run: run.is_first_run,
        added_courses: run.added_courses.deep_view(),
        removed_courses: run.removed_courses.deep_view(),
        duration_ms: run.duration_ms as int,
    }
}

/// The append-only audit trail of synchronization cycles. Entries carry
/// identifiers counting up from one, are never changed after insert, and
/// can be listed newest first or fetched by identifier.
pub struct RunLedger {
    entries: Vec<RunLogEntry>,
}

impl View for RunLedger {
    type V = Seq<RunLogEntryView>;

    closed spec fn view(&self) -> Seq<RunLogEntryView> {
        self.entries.deep_view()
    }
}

impl RunLedger {
    /// Entry `i` carries identifier `i + 1`: ids count up from one in
    /// insertion order.
    pub open spec fn inv(&self) -> bool {
        forall|i: int| 0 <= i < self@.len() ==> #[trigger] self@[i].id == i + 1
    }

    pub fn new() -> (r: Self)
        ensures
            r@ == Seq::<RunLogEntryView>::empty(),
            r.inv(),
    {
        let r = RunLedger { entries: Vec::new() };
        proof {
            assert(r@ =~= Seq::<RunLogEntryView>::empty());
        }
        r
    }

    pub fn len(&self) -> (r: usize)
        ensures
            r == self@.len(),
    {
        proof {
            assert(self@.len() == self.entries@.len());
        }
        self.entries.len()
    }

    /// Appends one run under the next identifier and returns that
    /// identifier. The sizes are bounded by what the identifier and the
    /// stored counters can carry.
    pub fn append(&mut self, run: RunLog, timestamp: String) -> (id: i64)
        requires
            old(self).inv(),
            old(self)@.len() < i64::MAX,
            run.total_courses_fetched <= i64::MAX,
            run.raw_added_count <= i64::MAX,
            run.raw_removed_count <= i64::MAX,
            run.filtered_added_count <= i64::MAX,
            run.filtered_removed_count <= i64::MAX,
            run.duration_ms <= i64::MAX,
        ensures
            final(self).inv(),
            id == old(self)@.len() + 1,
            final(self)@ == old(self)@.push(entry_of(run, id as int, timestamp@)),
    {
        proof {
            assert(self@.len() == self.entries@.len());
        }
        let id: i64 = (self.entries.len() as i64) + 1;
        let entry = RunLogEntry {
            id,
            timestamp,
            total_courses_fetched: run.total_courses_fetched as i64,
            raw_added_count: run.raw_added_count as i64,
            raw_removed_count: run.raw_removed_count as i64,
            filtered_added_count: run.filtered_added_count as i64,
            filtered_removed_count: run.filtered_removed_count as i64,
            filter_used: run.filter_used,
            notification_sent: run.notification_sent,
            is_first_run: run.is_first_run,
            added_courses: run.added_courses,
            removed_courses: run.removed_courses,
            duration_ms: run.duration_ms as i64,
        };
        self.entries.push(entry);
        proof {
            assert(self@ =~= old(self)@.push(entry_of(run, id as int, entry.timestamp@)));
        }
        id
    }

    /// The most recent runs, newest first: up to `limit` of them.
    pub fn list(&self, limit: usize) -> (r: Vec<RunLogEntry>)
        ensures
            r.deep_view().len() == if limit <= self@.len() {
                limit as int
            } else {
                self@.len() as int
            },
            forall|i: int|
                0 <= i < r.deep_view().len() ==> #[trigger] r.deep_view()[i] == self@[self@.len()
                    - 1 - i],
    {
        let n: usize = self.entries.len();
        proof {
            assert(self@.len() == n);
        }
        let count: usize = if limit <= n {
            limit
        } else {
            n
        };
        let mut r: Vec<RunLogEntry> = Vec::new();
        let mut i: usize = 0;
        while i < count
            invariant
                i <= count,
                count <= n,
                n == self@.len(),
                self@ == self.entries.deep_view(),
                n == self.entries@.len(),
                r@.len() == i,
                forall|j: int| 0 <= j < i ==> #[trigger] r@[j]@ == self@[n - 1 - j],
            decreases count - i,
        {
            proof {
                assert(self@[n - 1 - i] == self.entries@[n - 1 - i as int]@);
            }
            r.push(self.entries[n - 1 - i].clone());
            i = i + 1;
        }
        proof {
            assert(forall|j: int|
                0 <= j < r@.len() ==> #[trigger] r.deep_view()[j] == r@[j]@);
        }
        r
    }

    /// The run stored under this identifier, if there is one.
    pub fn get(&self, id: i64) -> (r: Option<RunLogEntry>)
        requires
            self.inv(),
        ensures
            match r {
                Some(e) => 1 <= id <= self@.len() && e@ == self@[id - 1],
                None => !(1 <= id <= self@.len()),
            },
    {
        let n: usize = self.entries.len();
        proof {
            assert(self@.len() == n);
            if n > 0 {
                assert(self@[n - 1] == self.entries@[n - 1]@);
                assert(self@[n - 1].id == n);
            }
        }
        if id >= 1 && (id as u64) <= (n as u64) {
            let idx: usize = (id - 1) as usize;
            proof {
                assert(self@[idx as int] == self.entries@[idx as int]@);
            }
            Some(self.entries[idx].clone())
        } else {
            None
        }
    }
}

} // verus!
