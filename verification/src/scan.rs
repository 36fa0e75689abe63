use vstd::prelude::*;

use crate::entries::{Entry, ListingOutcome, eligible_of, plan_scan};
use crate::error::ScanError;

verus! {

/// Number of simultaneously in-flight parse tasks allowed when the
/// caller does not choose a limit. A policy default, not a law.
pub const DEFAULT_CONCURRENCY_LIMIT: usize = 100;

/// The effective concurrency limit for a given configuration.
pub open spec fn effective_limit(concurrency_limit: Option<usize>) -> int {
    match concurrency_limit {
        None => DEFAULT_CONCURRENCY_LIMIT as int,
        Some(n) => n as int,
    }
}

/// How one parse task ended, as reported back to the coordinator.
pub enum TaskOutcome<R> {
    /// The task decoded its entry into a record.
    Parsed(R),
    /// The task ran to completion but the entry's content could not be
    /// decoded; `path` identifies the entry.
    ParseFailed { path: String, cause: String },
    /// The task's execution context was withdrawn before it could report
    /// anything: cancelled out-of-band, not a parse failure.
    Cancelled,
    /// The task terminated abnormally (a genuine execution fault, not a
    /// reported error value).
    Fault,
}

/// What the coordinator must do after one task outcome is classified.
pub enum Disposition {
    /// Keep scanning.
    Continue,
    /// Stop: the scan failed with this error.
    Fail(ScanError),
    /// Stop early and return the records collected so far.
    SoftStop,
    /// Propagate the worker's abnormal termination; the scan returns no
    /// value at all on this path.
    Abort,
}

/// The disposition that classifying `outcome` yields: success continues,
/// a parse failure is fatal and names the offending path, cancellation
/// degrades to a soft stop, and a fault propagates.
pub open spec fn outcome_disposition<R>(outcome: TaskOutcome<R>) -> Disposition {
    match outcome {
        TaskOutcome::Parsed(_) => Disposition::Continue,
        TaskOutcome::ParseFailed { path, cause } => Disposition::Fail(
            ScanError::Parse { path, cause },
        ),
        TaskOutcome::Cancelled => Disposition::SoftStop,
        TaskOutcome::Fault => Disposition::Abort,
    }
}

/// The record collection after one task outcome is applied: a successful
/// parse appends its record, everything else leaves it unchanged.
pub open spec fn collected_after<R>(records: Seq<R>, outcome: TaskOutcome<R>) -> Seq<R> {
    match outcome {
        TaskOutcome::Parsed(r) => records.push(r),
        _ => records,
    }
}

/// Bookkeeping for one scan: the concurrency limit, the number of
/// in-flight parse tasks, and the records collected so far.
///
/// The capacity invariant is a type invariant: every value of this type,
/// at every instant, has at most `limit()` tasks in flight. A dispatch
/// can only be recorded when the pool is below capacity, so the driver
/// must harvest a completion first when `at_capacity` says so.
pub struct ScanState<R> {
    limit: usize,
    in_flight: usize,
    records: Vec<R>,
}

impl<R> ScanState<R> {
    /// The number of concurrently in-flight parse tasks never exceeds
    /// the configured limit, and the limit is positive.
    #[verifier::type_invariant]
    spec fn capacity_invariant(self) -> bool {
        1 <= self.limit && self.in_flight <= self.limit
    }

    /// The configured concurrency limit.
    pub closed spec fn limit(self) -> int {
        self.limit as int
    }

    /// The number of dispatched, not yet completed parse tasks.
    pub closed spec fn pending(self) -> int {
        self.in_flight as int
    }

    /// The records collected so far, in completion order.
    pub closed spec fn collected(self) -> Seq<R> {
        self.records@
    }

    /// Starts a scan with no task in flight and nothing collected. A
    /// chosen limit must be positive; without one the default applies.
    pub fn new(concurrency_limit: Option<usize>) -> (s: ScanState<R>)
        requires
            concurrency_limit matches Some(n) ==> n >= 1,
        ensures
            s.limit() == effective_limit(concurrency_limit),
            s.pending() == 0,
            s.collected() == Seq::<R>::empty(),
    {
        let limit = match concurrency_limit {
            None => DEFAULT_CONCURRENCY_LIMIT,
            Some(n) => n,
        };
        ScanState { limit, in_flight: 0, records: Vec::new() }
    }

    /// Whether the in-flight pool has reached the concurrency limit, in
    /// which case a completion must be harvested before the next
    /// dispatch.
    pub fn at_capacity(&self) -> (r: bool)
        ensures
            r == (self.pending() >= self.limit()),
            self.pending() <= self.limit(),
            self.limit() >= 1,
    {
        proof {
            use_type_invariant(&*self);
        }
        self.in_flight >= self.limit
    }

    /// The number of in-flight tasks.
    pub fn pending_count(&self) -> (n: usize)
        ensures
            n == self.pending(),
            self.pending() <= self.limit(),
    {
        proof {
            use_type_invariant(&*self);
        }
        self.in_flight
    }

    /// The number of records collected so far.
    pub fn collected_count(&self) -> (n: usize)
        ensures
            n == self.collected().len(),
    {
        self.records.len()
    }

    /// Records that one more parse task has been dispatched. Only
    /// allowed below capacity: the at-most-N-in-flight invariant holds
    /// at every dispatch decision, not merely on average.
    pub fn note_dispatch(&mut self)
        requires
            old(self).pending() < old(self).limit(),
        ensures
            final(self).limit() == old(self).limit(),
            final(self).pending() == old(self).pending() + 1,
            final(self).collected() == old(self).collected(),
    {
        proof {
            use_type_invariant(&*self);
        }
        self.in_flight = self.in_flight + 1;
    }

    /// Applies the outcome of one completed task: appends the record on
    /// a successful parse, and says how the scan goes on — continue,
    /// fail with the parse error, soft-stop on cancellation, or abort on
    /// a fault.
    pub fn apply_outcome(&mut self, outcome: TaskOutcome<R>) -> (d: Disposition)
        requires
            old(self).pending() >= 1,
        ensures
            final(self).limit() == old(self).limit(),
            final(self).pending() == old(self).pending() - 1,
            final(self).collected() == collected_after(old(self).collected(), outcome),
            d == outcome_disposition(outcome),
    {
        proof {
            use_type_invariant(&*self);
        }
        self.in_flight = self.in_flight - 1;
        match outcome {
            TaskOutcome::Parsed(r) => {
                let mut records: Vec<R> = Vec::new();
                core::mem::swap(&mut records, &mut self.records);
                records.push(r);
                core::mem::swap(&mut records, &mut self.records);
                Disposition::Continue
            },
            TaskOutcome::ParseFailed { path, cause } => Disposition::Fail(
                ScanError::Parse { path, cause },
            ),
            TaskOutcome::Cancelled => Disposition::SoftStop,
            TaskOutcome::Fault => Disposition::Abort,
        }
    }

    /// Hands the collected records to the caller, in completion order.
    pub fn into_records(self) -> (records: Vec<R>)
        ensures
            records@ == self.collected(),
    {
        let ScanState { limit: _, in_flight: _, records } = self;
        records
    }
}

/// How a whole scan ends, as a function of the completion sequence.
pub enum RunOutcome<R> {
    /// Every dispatched task completed with a record: the full
    /// collection is returned.
    Completed { records: Seq<R> },
    /// A task was cancelled out-of-band: the records collected up to
    /// that point are returned, and no error.
    SoftStopped { records: Seq<R> },
    /// A task reported a parse failure: the scan fails with it at once.
    Failed { error: ScanError },
    /// A task faulted: the scan terminates abnormally, returning
    /// nothing.
    Aborted,
}

/// The records carried by the successful parses of a completion
/// sequence, in completion order.
pub open spec fn records_of<R>(outcomes: Seq<TaskOutcome<R>>) -> Seq<R>
    decreases outcomes.len(),
{
    if outcomes.len() == 0 {
        Seq::empty()
    } else {
        match outcomes.first() {
            TaskOutcome::Parsed(r) => seq![r] + records_of(outcomes.drop_first()),
            _ => records_of(outcomes.drop_first()),
        }
    }
}

/// The end of a scan that starts with `collected` records and harvests
/// `outcomes` in completion order, classifying each one the way
/// `ScanState::apply_outcome` does and stopping at the first outcome
/// that is not a successful parse.
pub open spec fn run_result<R>(collected: Seq<R>, outcomes: Seq<TaskOutcome<R>>) -> RunOutcome<R>
    decreases outcomes.len(),
{
    if outcomes.len() == 0 {
        RunOutcome::Completed { records: collected }
    } else {
        match outcome_disposition(outcomes.first()) {
            Disposition::Continue => run_result(
                collected_after(collected, outcomes.first()),
                outcomes.drop_first(),
            ),
            Disposition::Fail(error) => RunOutcome::Failed { error },
            Disposition::SoftStop => RunOutcome::SoftStopped { records: collected },
            Disposition::Abort => RunOutcome::Aborted,
        }
    }
}

/// Completeness on success: when every completion reports a successful
/// parse, the run completes and returns one record per completion, in
/// completion order, after whatever was already collected.
pub proof fn lemma_run_all_parsed<R>(collected: Seq<R>, outcomes: Seq<TaskOutcome<R>>)
    requires
        forall|i: int| 0 <= i < outcomes.len() ==> outcomes[i] is Parsed,
    ensures
        run_result(collected, outcomes) == (RunOutcome::Completed {
            records: collected + records_of(outcomes),
        }),
        records_of(outcomes).len() == outcomes.len(),
    decreases outcomes.len(),
{
    if outcomes.len() == 0 {
        assert(collected + records_of(outcomes) =~= collected);
    } else {
        let first = outcomes.first();
        let rest = outcomes.drop_first();
        assert(outcomes[0] is Parsed);
        assert(forall|i: int| 0 <= i < rest.len() ==> #[trigger] rest[i] == outcomes[i + 1]);
        lemma_run_all_parsed(collected_after(collected, first), rest);
        let r = first->0;
        assert(collected.push(r) + records_of(rest) =~= collected + (seq![r] + records_of(rest)));
    }
}

/// Fail-fast on a parse error: if the first completion that is not a
/// successful parse reports a parse failure, the run fails with exactly
/// that entry's path and cause — wherever in the sequence it falls, and
/// whatever the concurrency limit was.
pub proof fn lemma_run_fail_fast<R>(collected: Seq<R>, outcomes: Seq<TaskOutcome<R>>, j: int)
    requires
        0 <= j < outcomes.len(),
        outcomes[j] is ParseFailed,
        forall|i: int| 0 <= i < j ==> outcomes[i] is Parsed,
    ensures
        run_result(collected, outcomes) == (RunOutcome::<R>::Failed {
            error: ScanError::Parse { path: outcomes[j]->path, cause: outcomes[j]->cause },
        }),
    decreases j,
{
    if j == 0 {
    } else {
        let first = outcomes.first();
        let rest = outcomes.drop_first();
        assert(outcomes[0] is Parsed);
        assert(forall|i: int| 0 <= i < rest.len() ==> #[trigger] rest[i] == outcomes[i + 1]);
        lemma_run_fail_fast(collected_after(collected, first), rest, j - 1);
    }
}

/// Soft stop on cancellation: if the first `m` completions are
/// successful parses and the next one is a cancellation, the run stops
/// successfully with exactly those `m` records (after whatever was
/// already collected), and no error.
pub proof fn lemma_run_soft_stop<R>(collected: Seq<R>, outcomes: Seq<TaskOutcome<R>>, m: int)
    requires
        0 <= m < outcomes.len(),
        outcomes[m] is Cancelled,
        forall|i: int| 0 <= i < m ==> outcomes[i] is Parsed,
    ensures
        run_result(collected, outcomes) == (RunOutcome::SoftStopped {
            records: collected + records_of(outcomes.take(m)),
        }),
        records_of(outcomes.take(m)).len() == m,
    decreases m,
{
    lemma_run_all_parsed(collected, outcomes.take(m));
    if m == 0 {
        assert(collected + records_of(outcomes.take(0)) =~= collected);
    } else {
        let first = outcomes.first();
        let rest = outcomes.drop_first();
        assert(outcomes[0] is Parsed);
        assert(forall|i: int| 0 <= i < rest.len() ==> #[trigger] rest[i] == outcomes[i + 1]);
        lemma_run_soft_stop(collected_after(collected, first), rest, m - 1);
        let r = first->0;
        assert(outcomes.take(m).first() == first);
        assert(outcomes.take(m).drop_first() =~= rest.take(m - 1));
        assert(records_of(outcomes.take(m)) == seq![r] + records_of(rest.take(m - 1)));
        assert(collected.push(r) + records_of(rest.take(m - 1)) =~= collected + (seq![r]
            + records_of(rest.take(m - 1))));
    }
}

/// Completeness for a whole scan: a listing with `K` eligible entries,
/// each dispatched exactly once, whose tasks all report a successful
/// parse, yields exactly `K` records — one per eligible entry, whatever
/// the concurrency limit.
pub proof fn lemma_scan_completeness<R>(listing: Seq<Entry>, outcomes: Seq<TaskOutcome<R>>)
    requires
        outcomes.len() == eligible_of(listing).len(),
        forall|i: int| 0 <= i < outcomes.len() ==> outcomes[i] is Parsed,
    ensures
        run_result(Seq::<R>::empty(), outcomes) == (RunOutcome::Completed {
            records: records_of(outcomes),
        }),
        records_of(outcomes).len() == eligible_of(listing).len(),
{
    lemma_run_all_parsed(Seq::<R>::empty(), outcomes);
    assert(Seq::<R>::empty() + records_of(outcomes) =~= records_of(outcomes));
}

/// A whole scan's verdict, as executable data.
pub enum ScanVerdict<R> {
    /// Every dispatched task parsed successfully: the full collection.
    Completed(Vec<R>),
    /// A task was cancelled out-of-band: the records collected so far,
    /// and no error.
    SoftStopped(Vec<R>),
    /// Listing failed, or a task reported a parse failure.
    Failed(ScanError),
    /// A task faulted; a live driver propagates the fault instead of
    /// returning a value.
    Aborted,
}

/// Whether an executable verdict carries exactly what a run outcome
/// prescribes.
pub open spec fn verdict_matches<R>(v: ScanVerdict<R>, r: RunOutcome<R>) -> bool {
    match r {
        RunOutcome::Completed { records } => v matches ScanVerdict::Completed(rs) && rs@
            == records,
        RunOutcome::SoftStopped { records } => v matches ScanVerdict::SoftStopped(rs) && rs@
            == records,
        RunOutcome::Failed { error } => v matches ScanVerdict::Failed(e) && e == error,
        RunOutcome::Aborted => v is Aborted,
    }
}

/// The whole coordination of one scan, on a pre-supplied completion
/// sequence: plans from the listing, dispatches every eligible entry —
/// harvesting a completion first whenever the pool is at capacity — and
/// drains the remaining tasks, classifying each completion as it comes.
///
/// `outcomes` stands for the completions of the dispatched tasks, in
/// completion order, one per eligible entry. A live driver runs the same
/// loop with real tasks; here the loop itself is verified: the pool
/// never exceeds the limit, and the verdict is exactly `run_result`
/// applied to the completion sequence.
#[verifier::loop_isolation(false)]
pub fn run_scan<R>(
    listing: ListingOutcome,
    concurrency_limit: Option<usize>,
    outcomes: Vec<TaskOutcome<R>>,
) -> (v: ScanVerdict<R>)
    requires
        concurrency_limit matches Some(n) ==> n >= 1,
        listing matches ListingOutcome::Listed { entries } ==> outcomes@.len() == eligible_of(
            entries@,
        ).len(),
    ensures
        (match listing {
            ListingOutcome::Missing => v matches ScanVerdict::Completed(rs) && rs@ == Seq::<
                R,
            >::empty(),
            ListingOutcome::Failed { cause } => v matches ScanVerdict::Failed(e) && e == (
            ScanError::Listing { cause }),
            ListingOutcome::Listed { .. } => verdict_matches(
                v,
                run_result(Seq::<R>::empty(), outcomes@),
            ),
        }),
{
    let mut to_dispatch = match plan_scan(listing) {
        Ok(eligible) => eligible,
        Err(e) => {
            return ScanVerdict::Failed(e);
        },
    };
    let mut state = ScanState::<R>::new(concurrency_limit);
    let mut pending_outcomes = outcomes;
    let ghost all = pending_outcomes@;
    let ghost k_total = to_dispatch@.len() as int;
    let ghost mut h: int = 0;
    proof {
        assert(all.skip(0) =~= all);
    }
    while to_dispatch.len() > 0
        invariant
            0 <= h,
            h + state.pending() + to_dispatch@.len() == k_total,
            to_dispatch@.len() <= k_total,
            k_total == 0 || k_total == all.len(),
            pending_outcomes@ == all.skip(h),
            run_result(Seq::<R>::empty(), all) == run_result(state.collected(), all.skip(h)),
            h == 0 ==> state.collected() == Seq::<R>::empty(),
        decreases to_dispatch@.len(),
    {
        // If there are too many pending tasks, wait for one to finish
        // before dispatching the next entry.
        if state.at_capacity() {
            let o = pending_outcomes.remove(0);
            proof {
                assert(all.skip(h).len() > 0);
                assert(o == all.skip(h).first());
                assert(pending_outcomes@ =~= all.skip(h + 1));
                assert(all.skip(h).drop_first() =~= all.skip(h + 1));
            }
            match state.apply_outcome(o) {
                Disposition::Continue => {
                    proof {
                        h = h + 1;
                    }
                },
                Disposition::Fail(e) => {
                    return ScanVerdict::Failed(e);
                },
                Disposition::SoftStop => {
                    return ScanVerdict::SoftStopped(state.into_records());
                },
                Disposition::Abort => {
                    return ScanVerdict::Aborted;
                },
            }
        }
        // Dispatch: a live driver spawns the entry's parse task here; its
        // completion is one of the supplied outcomes.
        let _entry = to_dispatch.remove(0);
        state.note_dispatch();
    }
    while state.pending_count() > 0
        invariant
            0 <= h,
            h + state.pending() == k_total,
            k_total == 0 || k_total == all.len(),
            pending_outcomes@ == all.skip(h),
            run_result(Seq::<R>::empty(), all) == run_result(state.collected(), all.skip(h)),
            h == 0 ==> state.collected() == Seq::<R>::empty(),
        decreases state.pending(),
    {
        let o = pending_outcomes.remove(0);
        proof {
            assert(all.skip(h).len() > 0);
            assert(o == all.skip(h).first());
            assert(pending_outcomes@ =~= all.skip(h + 1));
            assert(all.skip(h).drop_first() =~= all.skip(h + 1));
        }
        match state.apply_outcome(o) {
            Disposition::Continue => {
                proof {
                    h = h + 1;
                }
            },
            Disposition::Fail(e) => {
                return ScanVerdict::Failed(e);
            },
            Disposition::SoftStop => {
                return ScanVerdict::SoftStopped(state.into_records());
            },
            Disposition::Abort => {
                return ScanVerdict::Aborted;
            },
        }
    }
    proof {
        if k_total == all.len() {
            assert(all.skip(h) =~= Seq::<TaskOutcome<R>>::empty());
        }
    }
    ScanVerdict::Completed(state.into_records())
}

} // verus!
