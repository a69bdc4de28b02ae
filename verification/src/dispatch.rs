//! Dispatch engine: sequences a run of send attempts. The transport is an
//! external collaborator — the engine consumes its outcome as data, records
//! every attempt in the delivery log, tallies successes and failures, and
//! draws a randomized delay between consecutive attempts, never after the
//! last. Per-attempt failures never abort a run.

use rand::Rng;
use vstd::prelude::*;

use crate::log::LogSummary;
use crate::log::RecordView;
use crate::log::SentLog;
use crate::log::SentRecord;
use crate::log::lemma_success_count_push;
use crate::log::success_count;

verus! {

/// Inter-send delay bounds in seconds, both inclusive; a run requires
/// `min_delay <= max_delay`.
#[derive(Debug, Clone, Copy)]
pub struct RunParams {
    pub min_delay: u64,
    pub max_delay: u64,
}

/// What the transport reported for one attempt: delivery, or a descriptive
/// failure. Failure is data, not a fault — it is logged and the run goes
/// on.
#[derive(Debug)]
pub enum SendOutcome {
    Delivered,
    Failed(String),
}

impl Clone for SendOutcome {
    fn clone(&self) -> (r: Self)
        ensures
            r == *self,
    {
        match self {
            SendOutcome::Delivered => SendOutcome::Delivered,
            SendOutcome::Failed(e) => SendOutcome::Failed(e.clone()),
        }
    }
}

/// The record one attempt leaves in the log.
pub open spec fn attempt_record(email: Seq<char>, sent_at: Seq<char>, outcome: SendOutcome) -> RecordView {
    RecordView {
        email,
        sent_at,
        success: outcome is Delivered,
        error: match outcome {
            SendOutcome::Delivered => Option::None,
            SendOutcome::Failed(e) => Option::Some(e@),
        },
    }
}

/// Books one attempt: builds its record, appends it to the log, and hands
/// the record back. Delivery failure is recorded, never raised; the caller
/// persists the log before going on.
pub fn record_attempt(log: &mut SentLog, email: String, sent_at: String, outcome: SendOutcome) -> (rec: SentRecord)
    ensures
        rec@ == attempt_record(email@, sent_at@, outcome),
        final(log)@ == old(log)@.push(rec@),
{
    let (success, error) = match outcome {
        SendOutcome::Delivered => (true, Option::None),
        SendOutcome::Failed(e) => (false, Option::Some(e)),
    };
    let rec = SentRecord { email, sent_at, success, error };
    log.append(rec.clone());
    rec
}

/// Relies on rand's thread_rng and Rng::gen_range: on a non-empty
/// inclusive range it returns a uniformly drawn value within the range and
/// does not panic.
#[verifier::external_body]
fn random_in_range(min: u64, max: u64) -> (r: u64)
    requires
        min <= max,
    ensures
        min <= r <= max,
{
    rand::thread_rng().gen_range(min..=max)
}

/// Keeps a proposed delay inside the run's bounds; a value already inside
/// passes unchanged.
pub fn clamp_delay(params: &RunParams, raw: u64) -> (d: u64)
    requires
        params.min_delay <= params.max_delay,
    ensures
        params.min_delay <= d <= params.max_delay,
        params.min_delay <= raw && raw <= params.max_delay ==> d == raw,
{
    if raw < params.min_delay {
        params.min_delay
    } else if raw > params.max_delay {
        params.max_delay
    } else {
        raw
    }
}

/// Draws the next inter-send delay from the closed interval
/// `[min_delay, max_delay]`; the bound holds whatever the random source
/// returned, and a `min_delay == max_delay` run gets that fixed delay.
pub fn next_delay(params: &RunParams) -> (d: u64)
    requires
        params.min_delay <= params.max_delay,
    ensures
        params.min_delay <= d <= params.max_delay,
{
    let raw = random_in_range(params.min_delay, params.max_delay);
    clamp_delay(params, raw)
}

/// State of one bulk run over an ordered recipient list. Strictly
/// sequential: one attempt is booked at a time, and the state says whose
/// turn is next.
#[derive(Debug)]
pub struct BulkRun {
    pub recipients: Vec<String>,
    pub params: RunParams,
    pub next_index: usize,
    pub successes: usize,
    pub failures: usize,
    pub delays_drawn: usize,
    pub records: Vec<SentRecord>,
}

impl BulkRun {
    /// Well-formedness, preserved by every step: one record per completed
    /// attempt, in input order; tallies partition the attempts; and the
    /// number of delays drawn is one per completed attempt except the
    /// last.
    pub open spec fn wf(&self) -> bool {
        &&& self.params.min_delay <= self.params.max_delay
        &&& self.next_index <= self.recipients.len()
        &&& self.records.len() == self.next_index
        &&& forall|i: int|
            0 <= i < self.next_index ==> self.records.deep_view()[i].email
                == self.recipients.deep_view()[i]
        &&& self.successes + self.failures == self.next_index
        &&& self.successes == success_count(self.records.deep_view())
        &&& self.delays_drawn == if self.next_index < self.recipients.len() {
            self.next_index as int
        } else if self.recipients.len() == 0 {
            0int
        } else {
            self.recipients.len() - 1
        }
    }

    /// A fresh run: nothing attempted yet. An empty recipient list is a
    /// run that is already complete — a no-op outcome, not an error.
    pub fn new(recipients: Vec<String>, params: RunParams) -> (r: BulkRun)
        requires
            params.min_delay <= params.max_delay,
        ensures
            r.wf(),
            r.recipients == recipients,
            r.params == params,
            r.next_index == 0,
            r.successes == 0,
            r.failures == 0,
            r.delays_drawn == 0,
            r.records@ == Seq::<SentRecord>::empty(),
    {
        let r = BulkRun {
            recipients,
            params,
            next_index: 0,
            successes: 0,
            failures: 0,
            delays_drawn: 0,
            records: Vec::new(),
        };
        proof {
            assert(r.records@ =~= Seq::<SentRecord>::empty());
            assert(r.records.deep_view() =~= Seq::<RecordView>::empty());
        }
        r
    }

    /// Whether every recipient has been attempted.
    pub fn is_done(&self) -> (r: bool)
        ensures
            r == (self.next_index == self.recipients.len()),
    {
        self.next_index == self.recipients.len()
    }

    /// The recipient of the next attempt, if the run is not complete.
    pub fn next_recipient(&self) -> (r: Option<&String>)
        ensures
            match r {
                Option::Some(e) => self.next_index < self.recipients.len() && e@
                    == self.recipients.deep_view()[self.next_index as int],
                Option::None => self.next_index >= self.recipients.len(),
            },
    {
        if self.next_index < self.recipients.len() {
            Option::Some(&self.recipients[self.next_index])
        } else {
            Option::None
        }
    }

    /// Books the outcome of the current attempt: appends the record to the
    /// log (and to the run's own record list), advances, updates the
    /// tallies, and — except after the last recipient — draws the delay to
    /// wait before the next attempt.
    pub fn record_outcome(&mut self, log: &mut SentLog, sent_at: String, outcome: SendOutcome) -> (delay: Option<u64>)
        requires
            old(self).wf(),
            old(self).next_index < old(self).recipients.len(),
        ensures
            final(self).wf(),
            final(self).recipients == old(self).recipients,
            final(self).params == old(self).params,
            final(self).next_index == old(self).next_index + 1,
            final(self).records.deep_view() == old(self).records.deep_view().push(
                attempt_record(
                    old(self).recipients.deep_view()[old(self).next_index as int],
                    sent_at@,
                    outcome,
                ),
            ),
            final(log)@ == old(log)@.push(
                attempt_record(
                    old(self).recipients.deep_view()[old(self).next_index as int],
                    sent_at@,
                    outcome,
                ),
            ),
            final(self).successes == old(self).successes + (if outcome is Delivered {
                1int
            } else {
                0int
            }),
            final(self).failures == old(self).failures + (if outcome is Delivered {
                0int
            } else {
                1int
            }),
            (delay is Some) == (old(self).next_index + 1 < old(self).recipients.len()),
            (match delay {
                Option::Some(d) => old(self).params.min_delay <= d <= old(self).params.max_delay,
                Option::None => true,
            }),
            final(self).delays_drawn == old(self).delays_drawn + (if old(self).next_index + 1
                < old(self).recipients.len() {
                1int
            } else {
                0int
            }),
    {
        let ghost rv = attempt_record(
            old(self).recipients.deep_view()[old(self).next_index as int],
            sent_at@,
            outcome,
        );
        let email = self.recipients[self.next_index].clone();
        let rec = record_attempt(log, email, sent_at, outcome);
        proof {
            assert(rec@ == rv);
            lemma_success_count_push(self.records.deep_view(), rec@);
        }
        let ghost before = self.records.deep_view();
        self.records.push(rec.clone());
        proof {
            assert(self.records.deep_view() =~= before.push(rec@));
        }
        if rec.success {
            self.successes = self.successes + 1;
        } else {
            self.failures = self.failures + 1;
        }
        self.next_index = self.next_index + 1;
        if self.next_index < self.recipients.len() {
            self.delays_drawn = self.delays_drawn + 1;
            Option::Some(next_delay(&self.params))
        } else {
            Option::None
        }
    }

    /// Aggregate of a run so far: attempts, successes, failures; the two
    /// tallies always partition the attempts.
    pub fn tally(&self) -> (s: LogSummary)
        requires
            self.wf(),
        ensures
            s.total == self.next_index,
            s.successes == self.successes,
            s.failures == self.failures,
            s.successes + s.failures == s.total,
    {
        LogSummary { total: self.next_index, successes: self.successes, failures: self.failures }
    }
}

/// Law: attempt order matches input order — the i-th record a run booked
/// is for the i-th recipient.
pub proof fn lemma_run_order(run: &BulkRun)
    requires
        run.wf(),
    ensures
        forall|i: int|
            0 <= i < run.next_index ==> run.records.deep_view()[i].email
                == run.recipients.deep_view()[i],
{
}

/// Law: a completed run drew exactly one delay between consecutive
/// attempts — none for a single recipient, n - 1 for n recipients.
pub proof fn lemma_completed_run_delays(run: &BulkRun)
    requires
        run.wf(),
        run.next_index == run.recipients.len(),
    ensures
        run.delays_drawn == if run.recipients.len() == 0 {
            0int
        } else {
            run.recipients.len() - 1
        },
{
}

/// Drives a whole bulk run with every transport outcome supplied as data —
/// the shape a deterministic transport double gives a test. One record is
/// appended per recipient, in input order; nothing already in the log
/// moves; one delay is drawn between consecutive attempts, each within the
/// run's bounds; an empty recipient list appends nothing.
pub fn run_scripted(
    recipients: Vec<String>,
    params: RunParams,
    sent_ats: Vec<String>,
    outcomes: Vec<SendOutcome>,
    log: &mut SentLog,
) -> (r: (BulkRun, Vec<u64>))
    requires
        params.min_delay <= params.max_delay,
        sent_ats.len() == recipients.len(),
        outcomes.len() == recipients.len(),
    ensures
        r.0.wf(),
        r.0.next_index == r.0.recipients.len(),
        r.0.recipients == recipients,
        final(log)@.len() == old(log)@.len() + recipients.len(),
        forall|i: int|
            0 <= i < recipients.len() ==> final(log)@[old(log)@.len() + i] == attempt_record(
                recipients.deep_view()[i],
                sent_ats.deep_view()[i],
                outcomes@[i],
            ),
        forall|i: int| 0 <= i < old(log)@.len() ==> final(log)@[i] == old(log)@[i],
        r.1@.len() == if recipients.len() == 0 {
            0int
        } else {
            recipients.len() - 1
        },
        forall|i: int| 0 <= i < r.1@.len() ==> params.min_delay <= #[trigger] r.1@[i] <= params.max_delay,
{
    let ghost log0 = log@;
    let mut run = BulkRun::new(recipients, params);
    let mut delays: Vec<u64> = Vec::new();
    while run.next_index < run.recipients.len()
        invariant
            run.wf(),
            run.params == params,
            run.recipients == recipients,
            sent_ats.len() == recipients.len(),
            outcomes.len() == recipients.len(),
            log@.len() == log0.len() + run.next_index,
            forall|k: int|
                0 <= k < run.next_index ==> log@[log0.len() + k] == attempt_record(
                    recipients.deep_view()[k],
                    sent_ats.deep_view()[k],
                    outcomes@[k],
                ),
            forall|k: int| 0 <= k < log0.len() ==> log@[k] == log0[k],
            delays@.len() == run.delays_drawn,
            forall|k: int|
                0 <= k < delays@.len() ==> params.min_delay <= #[trigger] delays@[k]
                    <= params.max_delay,
        decreases run.recipients.len() - run.next_index,
    {
        let i = run.next_index;
        let sent_at = sent_ats[i].clone();
        let outcome = outcomes[i].clone();
        proof {
            assert(sent_at@ == sent_ats.deep_view()[i as int]);
            assert(outcome == outcomes@[i as int]);
        }
        match run.record_outcome(log, sent_at, outcome) {
            Option::Some(d) => {
                delays.push(d);
            },
            Option::None => {},
        }
    }
    (run, delays)
}

} // verus!
