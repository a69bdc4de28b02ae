//! Delivery log: an append-only record of send attempts, with a tally of
//! successes and failures. Records are never removed or mutated after
//! append; persistence of the whole log is the caller's step, through the
//! stored form in `store`.

use vstd::prelude::*;

verus! {

/// The mathematical content of one attempt record: its text fields as
/// character sequences.
pub struct RecordView {
    pub email: Seq<char>,
    pub sent_at: Seq<char>,
    pub success: bool,
    pub error: Option<Seq<char>>,
}

/// One outcome per attempt: recipient address, timestamp text, success
/// flag, and the transport's error description on failure. Immutable once
/// created.
#[derive(Debug)]
pub struct SentRecord {
    pub email: String,
    pub sent_at: String,
    pub success: bool,
    pub error: Option<String>,
}

impl View for SentRecord {
    type V = RecordView;

    open spec fn view(&self) -> RecordView {
        RecordView {
            email: self.email@,
            sent_at: self.sent_at@,
            success: self.success,
            error: match self.error {
                Option::Some(e) => Option::Some(e@),
                Option::None => Option::None,
            },
        }
    }
}

impl DeepView for SentRecord {
    type V = RecordView;

    open spec fn deep_view(&self) -> RecordView {
        self.view()
    }
}

impl Clone for SentRecord {
    fn clone(&self) -> (r: Self)
        ensures
            r == *self,
    {
        SentRecord {
            email: self.email.clone(),
            sent_at: self.sent_at.clone(),
            success: self.success,
            error: match &self.error {
                Option::Some(e) => Option::Some(e.clone()),
                Option::None => Option::None,
            },
        }
    }
}

/// The ordered sequence of all recorded attempts, oldest first.
#[derive(Debug)]
pub struct SentLog {
    pub records: Vec<SentRecord>,
}

impl View for SentLog {
    type V = Seq<RecordView>;

    open spec fn view(&self) -> Seq<RecordView> {
        self.records.deep_view()
    }
}

impl Default for SentLog {
    fn default() -> (r: Self)
        ensures
            r@ == Seq::<RecordView>::empty(),
    {
        let r = SentLog { records: Vec::new() };
        proof {
            assert(r@ =~= Seq::<RecordView>::empty());
        }
        r
    }
}

/// How many of the records report success.
pub open spec fn success_count(rs: Seq<RecordView>) -> nat
    decreases rs.len(),
{
    if rs.len() == 0 {
        0
    } else {
        (if rs[0].success {
            1nat
        } else {
            0nat
        }) + success_count(rs.skip(1))
    }
}

/// Law: appending one record raises the success tally by one exactly when
/// that record reports success.
pub proof fn lemma_success_count_push(rs: Seq<RecordView>, r: RecordView)
    ensures
        success_count(rs.push(r)) == success_count(rs) + (if r.success {
            1nat
        } else {
            0nat
        }),
    decreases rs.len(),
{
    let p = rs.push(r);
    assert(p.len() == rs.len() + 1);
    assert(success_count(p) == (if p[0].success {
        1nat
    } else {
        0nat
    }) + success_count(p.skip(1)));
    if rs.len() == 0 {
        assert(p.skip(1) =~= Seq::<RecordView>::empty());
        assert(success_count(p.skip(1)) == 0);
        assert(p[0] == r);
    } else {
        assert(p.skip(1) =~= rs.skip(1).push(r));
        lemma_success_count_push(rs.skip(1), r);
        assert(p[0] == rs[0]);
        assert(success_count(rs) == (if rs[0].success {
            1nat
        } else {
            0nat
        }) + success_count(rs.skip(1)));
    }
}

/// Law: the tally never exceeds the number of attempts.
pub proof fn lemma_success_count_le_len(rs: Seq<RecordView>)
    ensures
        success_count(rs) <= rs.len(),
    decreases rs.len(),
{
    if rs.len() > 0 {
        lemma_success_count_le_len(rs.skip(1));
    }
}

/// Aggregate outcome of a log or of a completed run.
#[derive(Debug, Clone, Copy, PartialEq, Eq, Structural)]
pub struct LogSummary {
    pub total: usize,
    pub successes: usize,
    pub failures: usize,
}

impl SentLog {
    /// An empty log, as `load` yields when no history is stored.
    pub fn new() -> (r: Self)
        ensures
            r@ == Seq::<RecordView>::empty(),
    {
        let r = SentLog { records: Vec::new() };
        proof {
            assert(r@ =~= Seq::<RecordView>::empty());
        }
        r
    }

    /// Adds one record at the end; nothing already recorded moves or
    /// changes. The caller persists the whole log afterwards.
    pub fn append(&mut self, r: SentRecord)
        ensures
            final(self)@ == old(self)@.push(r@),
    {
        let ghost before = self.records.deep_view();
        self.records.push(r);
        proof {
            assert(self.records.deep_view() =~= before.push(r@));
        }
    }

    /// Tallies the log: total attempts, successes, and failures, with
    /// `failures == total - successes`, so the two tallies always
    /// partition the total — on the empty log all three are zero.
    pub fn summarize(&self) -> (s: LogSummary)
        ensures
            s.total == self@.len(),
            s.successes == success_count(self@),
            s.failures == s.total - s.successes,
            s.successes + s.failures == s.total,
    {
        let mut successes: usize = 0;
        let mut i: usize = 0;
        while i < self.records.len()
            invariant
                i <= self.records.len(),
                self@.len() == self.records.len(),
                successes == success_count(self@.take(i as int)),
                successes <= i,
            decreases self.records.len() - i,
        {
            proof {
                assert(self@.take(i + 1) =~= self@.take(i as int).push(self@[i as int]));
                lemma_success_count_push(self@.take(i as int), self@[i as int]);
                assert(self@[i as int] == self.records[i as int]@);
            }
            if self.records[i].success {
                successes = successes + 1;
            }
            i += 1;
        }
        proof {
            assert(self@.take(self.records.len() as int) =~= self@);
        }
        LogSummary { total: self.records.len(), successes, failures: self.records.len() - successes }
    }

    /// The most recent `limit` records, newest first, for display.
    pub fn recent_records(&self, limit: usize) -> (r: Vec<SentRecord>)
        ensures
            r@.len() == if limit <= self@.len() {
                limit as int
            } else {
                self@.len() as int
            },
            forall|i: int|
                0 <= i < r@.len() ==> r@[i]@ == self@[self@.len() - 1 - i],
    {
        let mut r: Vec<SentRecord> = Vec::new();
        let n = self.records.len();
        let count = if limit < n {
            limit
        } else {
            n
        };
        let mut i: usize = 0;
        while i < count
            invariant
                i <= count,
                count <= n,
                n == self.records.len(),
                self@.len() == n,
                r@.len() == i,
                forall|k: int| 0 <= k < i ==> r@[k]@ == self@[n - 1 - k],
            decreases count - i,
        {
            r.push(self.records[n - 1 - i].clone());
            i += 1;
        }
        r
    }
}

} // verus!
