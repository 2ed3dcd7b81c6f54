//! The batch pipeline orchestrator.
//!
//! One run pages through the unfeatured files of a library in ascending
//! identifier order, analyzes one batch at a time, and commits every
//! successful result of a batch as one atomic unit. The surrounding
//! program performs the paging reads, the analysis tasks and the store
//! transactions; this module holds the state of the run and decides every
//! step, so the decisions — what to fetch, what to commit, when to stop —
//! are verified here while the effects stay outside.
//!
//! A run moves through the phases
//! `Idle -> Running -> (Cancelling) -> Completed | Cancelled | Failed`.
//! Cancellation is cooperative: it is observed at loop boundaries, a batch
//! already in flight is still flushed, and only then does the run end.

use vstd::prelude::*;

verus! {

use vstd::arithmetic::div_mod::lemma_fundamental_div_mod;

/// The phases of one pipeline run.
#[derive(Clone, Copy, Debug, PartialEq, Eq, Structural)]
pub enum PipelinePhase {
    /// Constructed, not yet started.
    Idle,
    /// Paging and analyzing.
    Running,
    /// Cancellation observed; the batch in flight is still flushed.
    Cancelling,
    /// The cursor was exhausted and everything queued was flushed.
    Completed,
    /// Stopped on request, with all completed batches flushed.
    Cancelled,
    /// A batch transaction failed to commit; the run is over.
    Failed,
}

/// A per-file analysis failure. It is contained at the task boundary:
/// the file is skipped and stays unfeatured for a later run.
#[derive(Clone, Copy, Debug, PartialEq, Eq, Structural)]
pub enum FileFailure {
    /// The file could not be read or decoded.
    Decode,
    /// The analysis failed numerically.
    Extraction,
}

/// Per-file outcomes become the commit flags of their batch: a file
/// succeeded exactly when no failure was recorded for it. Failures are
/// logged by the surroundings and never abort the run.
pub fn outcome_flags(outcomes: &Vec<Option<FileFailure>>) -> (ok: Vec<bool>)
    ensures
        ok@.len() == outcomes@.len(),
        forall|i: int| 0 <= i < ok@.len() ==> #[trigger] ok@[i] == (outcomes@[i] is None),
{
    let mut ok: Vec<bool> = Vec::new();
    let mut i: usize = 0;
    while i < outcomes.len()
        invariant
            i <= outcomes@.len(),
            ok@.len() == i,
            forall|j: int| 0 <= j < i ==> #[trigger] ok@[j] == (outcomes@[j] is None),
        decreases outcomes@.len() - i,
    {
        ok.push(outcomes[i].is_none());
        i = i + 1;
    }
    ok
}

/// The one fatal error of a run: a batch transaction failed to commit.
#[derive(Clone, Copy, Debug, PartialEq, Eq, Structural)]
pub enum PipelineError {
    Persistence,
}

/// What the producer should fetch next: up to `limit` unfeatured
/// identifiers strictly after `after`, in ascending order.
pub struct PageRequest {
    pub after: Option<i64>,
    pub limit: usize,
}

/// One progress report, issued once after each batch commit.
#[derive(Clone, Copy, Debug, PartialEq, Eq, Structural)]
pub struct ProgressReport {
    /// Files handed to analysis so far, successes and failures alike.
    pub processed: usize,
    /// The total file count snapshot taken at the start of the run.
    pub total: usize,
}

/// Strictly ascending identifier sequence: no identifier repeats, and
/// later pages hold strictly larger identifiers.
pub open spec fn strictly_ascending(s: Seq<i64>) -> bool {
    forall|i: int, j: int| 0 <= i < j < s.len() ==> #[trigger] s[i] < #[trigger] s[j]
}

/// The identifiers whose analysis succeeded, in their original order.
pub open spec fn successes(ids: Seq<i64>, ok: Seq<bool>) -> Seq<i64>
    decreases ids.len(),
{
    if ids.len() == 0 || ok.len() != ids.len() {
        Seq::empty()
    } else if ok.last() {
        successes(ids.drop_last(), ok.drop_last()).push(ids.last())
    } else {
        successes(ids.drop_last(), ok.drop_last())
    }
}

proof fn lemma_successes_push(ids: Seq<i64>, ok: Seq<bool>, i: int)
    requires
        ok.len() == ids.len(),
        0 <= i < ids.len(),
    ensures
        successes(ids.take(i + 1), ok.take(i + 1)) == if ok[i] {
            successes(ids.take(i), ok.take(i)).push(ids[i])
        } else {
            successes(ids.take(i), ok.take(i))
        },
{
    assert(ids.take(i + 1).drop_last() =~= ids.take(i));
    assert(ok.take(i + 1).drop_last() =~= ok.take(i));
}

/// Every committed identifier comes from the page it was selected from,
/// and selection keeps the ascending order.
proof fn lemma_successes_sorted(ids: Seq<i64>, ok: Seq<bool>)
    requires
        ok.len() == ids.len(),
        strictly_ascending(ids),
    ensures
        strictly_ascending(successes(ids, ok)),
        forall|x: i64| #[trigger] successes(ids, ok).contains(x) ==> ids.contains(x),
    decreases ids.len(),
{
    if ids.len() > 0 {
        lemma_successes_sorted(ids.drop_last(), ok.drop_last());
        let pre = successes(ids.drop_last(), ok.drop_last());
        assert forall|x: i64| #[trigger] pre.contains(x) implies ids.contains(x) by {
            let k = choose|k: int| 0 <= k < pre.len() && pre[k] == x;
            assert(ids.drop_last().contains(x));
            let j = choose|j: int| 0 <= j < ids.drop_last().len() && ids.drop_last()[j] == x;
            assert(ids[j] == x);
        }
        assert forall|x: i64| #[trigger] pre.contains(x) implies x < ids.last() by {
            let j = choose|j: int| 0 <= j < ids.len() && ids[j] == x;
            if j < ids.len() - 1 {
                assert(ids[j] < ids[ids.len() - 1]);
            } else {
                // x equals the last identifier, yet it came from the prefix
                let k = choose|k: int| 0 <= k < pre.len() && pre[k] == x;
                assert(ids.drop_last().contains(x));
                let m = choose|m: int| 0 <= m < ids.drop_last().len() && ids.drop_last()[m] == x;
                assert(ids[m] < ids[ids.len() - 1]);
            }
        }
        if ok.last() {
            let post = pre.push(ids.last());
            assert forall|x: i64| #[trigger] post.contains(x) implies ids.contains(x) by {
                let k = choose|k: int| 0 <= k < post.len() && post[k] == x;
                if k < post.len() - 1 {
                    assert(pre.contains(x));
                } else {
                    assert(ids.last() == x);
                    assert(ids[ids.len() - 1] == x);
                }
            }
            assert forall|i: int, j: int| 0 <= i < j < post.len() implies post[i] < post[j] by {
                if j < post.len() - 1 {
                    assert(pre[i] < pre[j]);
                } else {
                    assert(pre.contains(pre[i]));
                }
            }
        }
    }
}

/// The state of one pipeline run.
pub struct AnalysisPipeline {
    pub phase: PipelinePhase,
    /// Page size, hand-off capacity and parallelism cap, all one number.
    pub batch_size: usize,
    /// Total file count snapshot taken when the run started. It may go
    /// stale if the library is mutated concurrently; it is reported as
    /// taken.
    pub total_at_start: usize,
    /// Files handed to analysis in flushed batches, failures included.
    pub processed: usize,
    /// The pipeline cursor: the largest identifier fetched so far. Pages
    /// resume strictly after it, so no identifier is visited twice in one
    /// run.
    pub cursor: Option<i64>,
    /// Identifiers committed to the store, in ascending order.
    pub committed: Vec<i64>,
    /// The batch currently being analyzed, not yet flushed.
    pub pending: Vec<i64>,
}

impl AnalysisPipeline {
    /// The run invariant: the committed set and the batch in flight are
    /// strictly ascending, disjoint, and never beyond the cursor.
    pub open spec fn wf(self) -> bool {
        &&& self.batch_size >= 1
        &&& strictly_ascending(self.committed@)
        &&& strictly_ascending(self.pending@)
        &&& self.pending@.len() <= self.batch_size
        &&& forall|i: int, j: int|
                0 <= i < self.committed@.len() && 0 <= j < self.pending@.len()
                ==> #[trigger] self.committed@[i] < #[trigger] self.pending@[j]
        &&& match self.cursor {
                Some(c) => {
                    &&& forall|i: int| 0 <= i < self.committed@.len() ==> #[trigger] self.committed@[i] <= c
                    &&& forall|j: int| 0 <= j < self.pending@.len() ==> #[trigger] self.pending@[j] <= c
                },
                None => self.committed@.len() == 0 && self.pending@.len() == 0,
            }
        &&& self.phase is Idle ==> self.committed@.len() == 0 && self.pending@.len() == 0
                && self.processed == 0 && self.cursor is None
        &&& self.pending@.len() > 0 ==> (self.phase is Running || self.phase is Cancelling)
    }

    /// A fresh run over a library holding `total` files in all.
    pub fn new(batch_size: usize, total: usize) -> (p: Self)
        requires
            batch_size >= 1,
        ensures
            p.wf(),
            p.phase is Idle,
            p.batch_size == batch_size,
            p.total_at_start == total,
            p.processed == 0,
            p.cursor is None,
            p.committed@.len() == 0,
            p.pending@.len() == 0,
    {
        AnalysisPipeline {
            phase: PipelinePhase::Idle,
            batch_size,
            total_at_start: total,
            processed: 0,
            cursor: None,
            committed: Vec::new(),
            pending: Vec::new(),
        }
    }

    /// Enter the running phase.
    pub fn start(&mut self)
        requires
            old(self).wf(),
            old(self).phase is Idle,
        ensures
            final(self).wf(),
            final(self).phase is Running,
            final(self).batch_size == old(self).batch_size,
            final(self).total_at_start == old(self).total_at_start,
            final(self).processed == 0,
            final(self).cursor is None,
            final(self).committed@.len() == 0,
            final(self).pending@.len() == 0,
    {
        self.phase = PipelinePhase::Running;
    }

    /// What the producer must fetch next: one page of unfeatured
    /// identifiers strictly after the cursor, at most one batch long.
    pub fn page_request(&self) -> (r: PageRequest)
        requires
            self.wf(),
            self.phase is Running,
        ensures
            r.after == self.cursor,
            r.limit == self.batch_size,
    {
        PageRequest { after: self.cursor, limit: self.batch_size }
    }

    /// Feed the fetched page. An empty page means the cursor is exhausted
    /// and the run completes; otherwise the page becomes the batch in
    /// flight and the cursor moves past its last identifier.
    pub fn on_page(&mut self, ids: Vec<i64>)
        requires
            old(self).wf(),
            old(self).phase is Running,
            old(self).pending@.len() == 0,
            strictly_ascending(ids@),
            ids@.len() <= old(self).batch_size,
            old(self).cursor matches Some(c) ==> forall|i: int| 0 <= i < ids@.len() ==> #[trigger] ids@[i] > c,
        ensures
            final(self).wf(),
            final(self).batch_size == old(self).batch_size,
            final(self).total_at_start == old(self).total_at_start,
            final(self).processed == old(self).processed,
            final(self).committed@ == old(self).committed@,
            ids@.len() == 0 ==> final(self).phase is Completed
                && final(self).pending@.len() == 0
                && final(self).cursor == old(self).cursor,
            ids@.len() > 0 ==> final(self).phase is Running
                && final(self).pending@ == ids@
                && final(self).cursor == Some(ids@.last()),
    {
        if ids.len() == 0 {
            self.phase = PipelinePhase::Completed;
        } else {
            let last = ids[ids.len() - 1];
            proof {
                if old(self).cursor is Some {
                    let c = old(self).cursor->0;
                    assert(forall|i: int| 0 <= i < old(self).committed@.len()
                        ==> #[trigger] old(self).committed@[i] <= c);
                }
            }
            self.cursor = Some(last);
            self.pending = ids;
        }
    }

    /// Observe the shared cancellation signal at a loop boundary. No new
    /// batch will start; a batch in flight is still flushed.
    pub fn observe_cancel(&mut self)
        requires
            old(self).wf(),
            old(self).phase is Running || old(self).phase is Cancelling,
        ensures
            final(self).wf(),
            final(self).phase is Cancelling,
            final(self).batch_size == old(self).batch_size,
            final(self).total_at_start == old(self).total_at_start,
            final(self).processed == old(self).processed,
            final(self).cursor == old(self).cursor,
            final(self).committed@ == old(self).committed@,
            final(self).pending@ == old(self).pending@,
    {
        self.phase = PipelinePhase::Cancelling;
    }

    /// The rows of the batch in flight that must go into the one
    /// transaction: exactly the successful files, in ascending order. A
    /// failed file is omitted, not retried; it stays unfeatured.
    pub fn select_successes(&self, ok: &Vec<bool>) -> (sel: Vec<i64>)
        requires
            self.wf(),
            ok@.len() == self.pending@.len(),
        ensures
            sel@ == successes(self.pending@, ok@),
    {
        let mut sel: Vec<i64> = Vec::new();
        let mut i: usize = 0;
        while i < self.pending.len()
            invariant
                i <= self.pending@.len(),
                ok@.len() == self.pending@.len(),
                sel@ == successes(self.pending@.take(i as int), ok@.take(i as int)),
            decreases self.pending@.len() - i,
        {
            proof {
                lemma_successes_push(self.pending@, ok@, i as int);
            }
            if ok[i] {
                sel.push(self.pending[i]);
            }
            i = i + 1;
        }
        proof {
            assert(self.pending@.take(self.pending@.len() as int) =~= self.pending@);
            assert(ok@.take(ok@.len() as int) =~= ok@);
        }
        sel
    }

    /// The batch transaction committed: the successes join the committed
    /// set as one unit, the whole batch counts as processed, and one
    /// progress report is issued with the snapshot total.
    pub fn on_commit_ok(&mut self, ok: &Vec<bool>) -> (progress: ProgressReport)
        requires
            old(self).wf(),
            old(self).phase is Running || old(self).phase is Cancelling,
            ok@.len() == old(self).pending@.len(),
            old(self).processed + old(self).pending@.len() <= usize::MAX,
        ensures
            final(self).wf(),
            final(self).phase == old(self).phase,
            final(self).batch_size == old(self).batch_size,
            final(self).total_at_start == old(self).total_at_start,
            final(self).cursor == old(self).cursor,
            final(self).committed@ == old(self).committed@ + successes(old(self).pending@, ok@),
            final(self).pending@.len() == 0,
            final(self).processed == old(self).processed + old(self).pending@.len(),
            progress == (ProgressReport {
                processed: final(self).processed,
                total: final(self).total_at_start,
            }),
    {
        proof {
            lemma_successes_sorted(old(self).pending@, ok@);
        }
        let sel = self.select_successes(ok);
        let ghost old_committed = self.committed@;
        let mut i: usize = 0;
        while i < sel.len()
            invariant
                i <= sel@.len(),
                self.committed@ == old_committed + sel@.take(i as int),
                self.phase == old(self).phase,
                self.batch_size == old(self).batch_size,
                self.total_at_start == old(self).total_at_start,
                self.processed == old(self).processed,
                self.cursor == old(self).cursor,
                self.pending@ == old(self).pending@,
            decreases sel@.len() - i,
        {
            let v = sel[i];
            self.committed.push(v);
            proof {
                assert(old_committed + sel@.take(i as int + 1)
                    =~= (old_committed + sel@.take(i as int)).push(sel@[i as int]));
            }
            i = i + 1;
        }
        proof {
            assert(sel@.take(sel@.len() as int) =~= sel@);
        }
        self.processed = self.processed + self.pending.len();
        self.pending = Vec::new();
        proof {
            let com = final(self).committed@;
            let pre = old(self).committed@;
            let suc = successes(old(self).pending@, ok@);
            assert forall|i: int, j: int| 0 <= i < j < com.len() implies com[i] < com[j] by {
                if i >= pre.len() {
                    assert(suc[i - pre.len()] < suc[j - pre.len()]);
                } else if j >= pre.len() {
                    assert(suc.contains(suc[j - pre.len()]));
                    assert(old(self).pending@.contains(suc[j - pre.len()]));
                    let m = choose|m: int| 0 <= m < old(self).pending@.len()
                        && old(self).pending@[m] == suc[j - pre.len()];
                    assert(pre[i] < old(self).pending@[m]);
                }
            }
            if old(self).cursor is Some {
                let c = old(self).cursor->0;
                assert forall|i: int| 0 <= i < com.len() implies com[i] <= c by {
                    if i >= pre.len() {
                        assert(suc.contains(suc[i - pre.len()]));
                        assert(old(self).pending@.contains(suc[i - pre.len()]));
                        let m = choose|m: int| 0 <= m < old(self).pending@.len()
                            && old(self).pending@[m] == suc[i - pre.len()];
                        assert(old(self).pending@[m] <= c);
                    }
                }
            }
        }
        ProgressReport { processed: self.processed, total: self.total_at_start }
    }

    /// The batch transaction failed: fatal. Nothing of the batch was
    /// written — the committed set is exactly what earlier batches
    /// flushed, never a partial batch.
    pub fn on_commit_failed(&mut self)
        requires
            old(self).wf(),
            old(self).phase is Running || old(self).phase is Cancelling,
        ensures
            final(self).wf(),
            final(self).phase is Failed,
            final(self).batch_size == old(self).batch_size,
            final(self).total_at_start == old(self).total_at_start,
            final(self).processed == old(self).processed,
            final(self).cursor == old(self).cursor,
            final(self).committed@ == old(self).committed@,
            final(self).pending@.len() == 0,
    {
        self.pending = Vec::new();
        self.phase = PipelinePhase::Failed;
    }

    /// Cancellation with nothing left in flight: the run ends in the
    /// cancelled state, all flushed work kept.
    pub fn finish_cancelled(&mut self)
        requires
            old(self).wf(),
            old(self).phase is Cancelling,
            old(self).pending@.len() == 0,
        ensures
            final(self).wf(),
            final(self).phase is Cancelled,
            final(self).batch_size == old(self).batch_size,
            final(self).total_at_start == old(self).total_at_start,
            final(self).processed == old(self).processed,
            final(self).cursor == old(self).cursor,
            final(self).committed@ == old(self).committed@,
            final(self).pending@.len() == 0,
    {
        self.phase = PipelinePhase::Cancelled;
    }

    /// The run's outcome. A completed or cancelled run reports the total
    /// file count observed at start — not the number inserted, since some
    /// files may have failed or already been featured. A failed run
    /// reports the fatal persistence error.
    pub fn run_result(&self) -> (r: Result<usize, PipelineError>)
        requires
            self.wf(),
            self.phase is Completed || self.phase is Cancelled || self.phase is Failed,
        ensures
            self.phase is Failed <==> r == Result::<usize, PipelineError>::Err(
                PipelineError::Persistence,
            ),
            !(self.phase is Failed) ==> r == Result::<usize, PipelineError>::Ok(
                self.total_at_start,
            ),
    {
        match self.phase {
            PipelinePhase::Failed => Err(PipelineError::Persistence),
            _ => Ok(self.total_at_start),
        }
    }
}

/// The smaller of two values.
pub open spec fn min_int(a: int, b: int) -> int {
    if a < b {
        a
    } else {
        b
    }
}

/// How many pages a run over `n` files needs at batch size `b`.
pub open spec fn batches_total(n: int, b: int) -> int {
    (n + b - 1) / b
}

/// How many batches a run flushes before it stops: every page when the
/// run completes, at most `k` when cancellation is observed after `k`
/// flushed batches.
pub open spec fn batches_flushed(n: int, b: int, cancel_after: Option<int>) -> int {
    match cancel_after {
        None => batches_total(n, b),
        Some(k) => min_int(k, batches_total(n, b)),
    }
}

/// How many files of the unfeatured list a run hands to analysis.
pub open spec fn run_processed(n: int, b: int, cancel_after: Option<int>) -> int {
    min_int(batches_flushed(n, b, cancel_after) * b, n)
}

/// The identifiers a run persists: the successes among exactly the files
/// of its flushed batches, in ascending order.
pub open spec fn run_committed(ids: Seq<i64>, ok: Seq<bool>, b: int, cancel_after: Option<int>) -> Seq<i64> {
    let p = run_processed(ids.len() as int, b, cancel_after);
    successes(ids.take(p), ok.take(p))
}

/// The terminal phase of a run without persistence failures.
pub open spec fn run_phase(n: int, b: int, cancel_after: Option<int>) -> PipelinePhase {
    match cancel_after {
        None => PipelinePhase::Completed,
        Some(k) => if k <= batches_total(n, b) {
            PipelinePhase::Cancelled
        } else {
            PipelinePhase::Completed
        },
    }
}

/// Cancellation input of the executable driver, lifted to the run model.
pub open spec fn cancel_limit(c: Option<usize>) -> Option<int> {
    match c {
        Some(k) => Some(k as int),
        None => None,
    }
}

/// The total page count covers all files, and no smaller count does.
proof fn lemma_batches_cover(n: int, b: int)
    requires
        0 <= n,
        1 <= b,
    ensures
        batches_total(n, b) * b >= n,
        batches_total(n, b) >= 0,
        n > 0 ==> (batches_total(n, b) - 1) * b < n,
        n == 0 ==> batches_total(n, b) == 0,
{
    lemma_fundamental_div_mod(n + b - 1, b);
    vstd::arithmetic::div_mod::lemma_mod_bound(n + b - 1, b);
    let q = batches_total(n, b);
    let r = (n + b - 1) % b;
    assert(n + b - 1 == b * q + r);
    if q < 0 {
        assert(b * q <= -b) by (nonlinear_arith)
            requires
                q <= -1,
                b >= 1,
        ;
    }
    assert(q * b == b * q) by (nonlinear_arith);
    assert((q - 1) * b == b * q - b) by (nonlinear_arith);
}

/// A count of flushed batches reached by flushing one page at a time
/// never exceeds the total page count.
proof fn lemma_flushed_at_most_total(n: int, b: int, d: int)
    requires
        0 <= n,
        1 <= b,
        d >= 1,
        (d - 1) * b < n,
    ensures
        d <= batches_total(n, b),
{
    lemma_batches_cover(n, b);
    let t = batches_total(n, b);
    if d > t {
        assert((d - 1) * b >= t * b) by (nonlinear_arith)
            requires
                d - 1 >= t,
                b >= 1,
        ;
    }
}

/// The result of one whole run, as the driver reports it.
pub struct RunOutcome {
    pub phase: PipelinePhase,
    pub committed: Vec<i64>,
    pub processed: usize,
    pub progress: Vec<ProgressReport>,
    pub total: usize,
    pub result: Result<usize, PipelineError>,
}

/// Drive one whole run of the orchestrator over the unfeatured
/// identifiers `ids`, with `ok[i]` telling whether the analysis of
/// `ids[i]` succeeds. The run pages `batch_size` files at a time, flushes
/// each batch as one unit, reports progress once per flushed batch
/// against the snapshot total, and observes the cancellation signal at
/// the top of every loop — after `cancel_after` flushed batches when one
/// is given, never otherwise. What it persists is exactly the run model:
/// independent of intra-batch completion order, and of the batch size
/// once the run completes.
pub fn run_batches(
    ids: &Vec<i64>,
    ok: &Vec<bool>,
    batch_size: usize,
    cancel_after: Option<usize>,
) -> (out: RunOutcome)
    requires
        strictly_ascending(ids@),
        ok@.len() == ids@.len(),
        batch_size >= 1,
    ensures
        out.total == ids@.len(),
        out.processed == run_processed(ids@.len() as int, batch_size as int, cancel_limit(cancel_after)),
        out.committed@ == run_committed(ids@, ok@, batch_size as int, cancel_limit(cancel_after)),
        out.phase == run_phase(ids@.len() as int, batch_size as int, cancel_limit(cancel_after)),
        out.result == Result::<usize, PipelineError>::Ok(out.total),
        out.progress@.len() == batches_flushed(
            ids@.len() as int,
            batch_size as int,
            cancel_limit(cancel_after),
        ),
        forall|i: int| 0 <= i < out.progress@.len() ==> #[trigger] out.progress@[i]
            == (ProgressReport {
                processed: min_int((i + 1) * batch_size as int, ids@.len() as int) as usize,
                total: ids@.len() as usize,
            }),
{
    let n: usize = ids.len();
    let ghost ni: int = n as int;
    let ghost b: int = batch_size as int;
    let mut machine = AnalysisPipeline::new(batch_size, n);
    machine.start();
    let mut start: usize = 0;
    let mut batches_done: usize = 0;
    let mut progress: Vec<ProgressReport> = Vec::new();
    loop
        invariant_except_break
            machine.wf(),
            machine.phase is Running,
            machine.pending@.len() == 0,
            machine.batch_size == batch_size,
            machine.total_at_start == n,
            machine.processed == start,
            machine.committed@ == successes(ids@.take(start as int), ok@.take(start as int)),
            machine.cursor == if start == 0 {
                Option::<i64>::None
            } else {
                Option::<i64>::Some(ids@[start as int - 1])
            },
            n == ids@.len(),
            ok@.len() == ids@.len(),
            strictly_ascending(ids@),
            batch_size >= 1,
            b == batch_size as int,
            ni == n as int,
            start <= n,
            batches_done <= start,
            start as int == min_int(batches_done as int * b, ni),
            batches_done >= 1 ==> (batches_done as int - 1) * b < ni,
            cancel_after matches Some(k) ==> batches_done <= k,
            progress@.len() == batches_done,
            forall|i: int| 0 <= i < progress@.len() ==> #[trigger] progress@[i]
                == (ProgressReport {
                    processed: min_int((i + 1) * b, ni) as usize,
                    total: n,
                }),
        ensures
            machine.wf(),
            machine.batch_size == batch_size,
            machine.total_at_start == n,
            machine.processed == start,
            machine.pending@.len() == 0,
            machine.committed@ == successes(ids@.take(start as int), ok@.take(start as int)),
            n == ids@.len(),
            b == batch_size as int,
            ni == n as int,
            start as int == min_int(batches_done as int * b, ni),
            progress@.len() == batches_done,
            forall|i: int| 0 <= i < progress@.len() ==> #[trigger] progress@[i]
                == (ProgressReport {
                    processed: min_int((i + 1) * b, ni) as usize,
                    total: n,
                }),
            machine.phase is Cancelled ==> ({
                &&& cancel_after matches Some(k)
                &&& batches_done == k
                &&& k as int <= batches_total(ni, b)
            }),
            machine.phase is Completed ==> start == n
                && (batches_done as int == batches_total(ni, b))
                && (cancel_after matches Some(k) ==> k as int > batches_total(ni, b)),
            machine.phase is Cancelled || machine.phase is Completed,
        decreases ni - start,
    {
        match cancel_after {
            Some(k) => {
                if batches_done >= k {
                    machine.observe_cancel();
                    machine.finish_cancelled();
                    proof {
                        if batches_done >= 1 {
                            lemma_flushed_at_most_total(ni, b, batches_done as int);
                        } else {
                            lemma_batches_cover(ni, b);
                        }
                    }
                    break;
                }
            },
            None => {},
        }
        let end: usize = if n - start < batch_size {
            n
        } else {
            start + batch_size
        };
        let mut page: Vec<i64> = Vec::new();
        let mut j: usize = start;
        while j < end
            invariant
                start <= j <= end <= n,
                n == ids@.len(),
                page@ == ids@.subrange(start as int, j as int),
            decreases end - j,
        {
            page.push(ids[j]);
            proof {
                assert(ids@.subrange(start as int, j as int + 1)
                    =~= ids@.subrange(start as int, j as int).push(ids@[j as int]));
            }
            j = j + 1;
        }
        let mut okv: Vec<bool> = Vec::new();
        let mut j2: usize = start;
        while j2 < end
            invariant
                start <= j2 <= end <= n,
                n == ok@.len(),
                okv@ == ok@.subrange(start as int, j2 as int),
            decreases end - j2,
        {
            okv.push(ok[j2]);
            proof {
                assert(ok@.subrange(start as int, j2 as int + 1)
                    =~= ok@.subrange(start as int, j2 as int).push(ok@[j2 as int]));
            }
            j2 = j2 + 1;
        }
        machine.on_page(page);
        if start == end {
            // the cursor is exhausted: the machine completed the run
            proof {
                if batches_done >= 1 {
                    lemma_flushed_at_most_total(ni, b, batches_done as int);
                    assert(batches_done as int * b >= ni);
                    lemma_batches_cover(ni, b);
                    let t = batches_total(ni, b);
                    if (batches_done as int) < t {
                        assert(batches_done as int * b <= (t - 1) * b) by (nonlinear_arith)
                            requires
                                batches_done as int <= t - 1,
                                b >= 1,
                        ;
                    }
                } else {
                    lemma_batches_cover(ni, b);
                }
            }
            break;
        }
        let rep = machine.on_commit_ok(&okv);
        progress.push(rep);
        proof {
            assert(ids@.take(end as int) =~= ids@.take(start as int) + ids@.subrange(
                start as int,
                end as int,
            ));
            assert(ok@.take(end as int) =~= ok@.take(start as int) + ok@.subrange(
                start as int,
                end as int,
            ));
            lemma_successes_concat(
                ids@.take(start as int),
                ok@.take(start as int),
                ids@.subrange(start as int, end as int),
                ok@.subrange(start as int, end as int),
            );
            assert((batches_done as int + 1) * b == batches_done as int * b + b)
                by (nonlinear_arith);
        }
        batches_done = batches_done + 1;
        start = end;
    }
    proof {
        lemma_batches_cover(ni, b);
    }
    let result = machine.run_result();
    RunOutcome {
        phase: machine.phase,
        committed: machine.committed,
        processed: start,
        progress,
        total: n,
        result,
    }
}

/// Selecting successes distributes over splitting the file list into
/// pages: committing page by page persists the same identifiers as one
/// pass over the whole list.
proof fn lemma_successes_concat(ids1: Seq<i64>, ok1: Seq<bool>, ids2: Seq<i64>, ok2: Seq<bool>)
    requires
        ok1.len() == ids1.len(),
        ok2.len() == ids2.len(),
    ensures
        successes(ids1 + ids2, ok1 + ok2) == successes(ids1, ok1) + successes(ids2, ok2),
    decreases ids2.len(),
{
    if ids2.len() == 0 {
        assert(ids1 + ids2 =~= ids1);
        assert(ok1 + ok2 =~= ok1);
        assert(successes(ids1, ok1) + successes(ids2, ok2) =~= successes(ids1, ok1));
    } else {
        assert((ids1 + ids2).drop_last() =~= ids1 + ids2.drop_last());
        assert((ok1 + ok2).drop_last() =~= ok1 + ok2.drop_last());
        lemma_successes_concat(ids1, ok1, ids2.drop_last(), ok2.drop_last());
        assert((ids1 + ids2).last() == ids2.last());
        assert((ok1 + ok2).last() == ok2.last());
        if ok2.last() {
            assert(successes(ids1, ok1) + successes(ids2.drop_last(), ok2.drop_last()).push(
                ids2.last(),
            ) =~= (successes(ids1, ok1) + successes(ids2.drop_last(), ok2.drop_last())).push(
                ids2.last(),
            ));
        }
    }
}

/// No identifier is persisted twice in one run: the committed sequence
/// of a well-formed pipeline ascends strictly, because pages resume
/// strictly after the cursor and each page ascends.
pub proof fn lemma_run_never_revisits(p: AnalysisPipeline)
    requires
        p.wf(),
    ensures
        forall|i: int, j: int| 0 <= i < j < p.committed@.len()
            ==> #[trigger] p.committed@[i] != #[trigger] p.committed@[j],
{
}

/// How many analyses succeeded.
pub open spec fn count_true(ok: Seq<bool>) -> int
    decreases ok.len(),
{
    if ok.len() == 0 {
        0
    } else {
        count_true(ok.drop_last()) + if ok.last() {
            1int
        } else {
            0int
        }
    }
}

/// The unfeatured list of a later run: the identifiers without a
/// persisted row, in their original order — the anti-join the producer's
/// paging query computes.
pub open spec fn remaining_after(ids: Seq<i64>, committed: Seq<i64>) -> Seq<i64>
    decreases ids.len(),
{
    if ids.len() == 0 {
        Seq::empty()
    } else if committed.contains(ids.last()) {
        remaining_after(ids.drop_last(), committed)
    } else {
        remaining_after(ids.drop_last(), committed).push(ids.last())
    }
}

/// When every analysis succeeds, the selection keeps every file.
proof fn lemma_successes_all_ok(ids: Seq<i64>, ok: Seq<bool>)
    requires
        ok.len() == ids.len(),
        forall|i: int| 0 <= i < ok.len() ==> ok[i],
    ensures
        successes(ids, ok) == ids,
    decreases ids.len(),
{
    if ids.len() > 0 {
        lemma_successes_all_ok(ids.drop_last(), ok.drop_last());
        assert(ok.last());
        assert(ids.drop_last().push(ids.last()) =~= ids);
    }
}

/// The selection persists one identifier per success.
proof fn lemma_successes_count(ids: Seq<i64>, ok: Seq<bool>)
    requires
        ok.len() == ids.len(),
    ensures
        successes(ids, ok).len() == count_true(ok),
    decreases ids.len(),
{
    if ids.len() > 0 {
        lemma_successes_count(ids.drop_last(), ok.drop_last());
    }
}

/// A run that is never cancelled hands every unfeatured file to analysis.
proof fn lemma_run_processed_full(n: int, b: int)
    requires
        0 <= n,
        1 <= b,
    ensures
        run_processed(n, b, None) == n,
{
    lemma_batches_cover(n, b);
}

/// A list wholly covered by the committed set leaves nothing unfeatured.
proof fn lemma_remaining_covered(ids: Seq<i64>, committed: Seq<i64>)
    requires
        forall|i: int| 0 <= i < ids.len() ==> committed.contains(#[trigger] ids[i]),
    ensures
        remaining_after(ids, committed).len() == 0,
    decreases ids.len(),
{
    if ids.len() > 0 {
        assert(forall|i: int| 0 <= i < ids.drop_last().len()
            ==> committed.contains(#[trigger] ids.drop_last()[i]));
        lemma_remaining_covered(ids.drop_last(), committed);
        assert(committed.contains(ids[ids.len() - 1]));
    }
}

/// Law: a run that completes persists the successes of all its
/// unfeatured files, and the persisted sequence does not depend on the
/// batch size that drove the run.
pub proof fn lemma_full_run_independent_of_batch_size(
    ids: Seq<i64>,
    ok: Seq<bool>,
    b1: int,
    b2: int,
)
    requires
        ok.len() == ids.len(),
        b1 >= 1,
        b2 >= 1,
    ensures
        run_committed(ids, ok, b1, None) == run_committed(ids, ok, b2, None),
        run_committed(ids, ok, b1, None) == successes(ids, ok),
{
    lemma_run_processed_full(ids.len() as int, b1);
    lemma_run_processed_full(ids.len() as int, b2);
    assert(ids.take(ids.len() as int) =~= ids);
    assert(ok.take(ok.len() as int) =~= ok);
}

/// Law: with no extraction failures, a completed run over `N` unfeatured
/// files persists exactly those `N` files, at any batch size.
pub proof fn lemma_full_run_all_successes(ids: Seq<i64>, ok: Seq<bool>, b: int)
    requires
        ok.len() == ids.len(),
        b >= 1,
        forall|i: int| 0 <= i < ok.len() ==> ok[i],
    ensures
        run_committed(ids, ok, b, None) == ids,
        run_committed(ids, ok, b, None).len() == ids.len(),
{
    lemma_full_run_independent_of_batch_size(ids, ok, b, b);
    lemma_successes_all_ok(ids, ok);
}

/// Law: the pipeline is idempotent over an unchanged library. After a
/// full run with no failures, the anti-join leaves the next run an empty
/// unfeatured list, so the second run inserts zero rows — at any pair of
/// batch sizes.
pub proof fn lemma_second_run_inserts_nothing(
    ids: Seq<i64>,
    ok: Seq<bool>,
    b1: int,
    b2: int,
    ok2: Seq<bool>,
)
    requires
        ok.len() == ids.len(),
        b1 >= 1,
        b2 >= 1,
        forall|i: int| 0 <= i < ok.len() ==> ok[i],
    ensures
        remaining_after(ids, run_committed(ids, ok, b1, None)).len() == 0,
        run_committed(
            remaining_after(ids, run_committed(ids, ok, b1, None)),
            ok2,
            b2,
            None,
        ).len() == 0,
{
    lemma_full_run_all_successes(ids, ok, b1);
    assert(forall|i: int| 0 <= i < ids.len() ==> ids.contains(#[trigger] ids[i]));
    lemma_remaining_covered(ids, ids);
    let rem = remaining_after(ids, run_committed(ids, ok, b1, None));
    lemma_run_processed_full(rem.len() as int, b2);
    assert(rem.take(rem.len() as int) =~= rem);
}

/// Law: cancelling after `k` flushed batches leaves persisted exactly
/// what a complete run over just the files of those batches would leave:
/// the successes among the first `min(k * b, n)` unfeatured files, and
/// nothing from any later file. The run ends cancelled, not failed.
pub proof fn lemma_cancelled_run_is_prefix_run(ids: Seq<i64>, ok: Seq<bool>, b: int, k: int)
    requires
        ok.len() == ids.len(),
        b >= 1,
        0 <= k <= batches_total(ids.len() as int, b),
    ensures
        run_phase(ids.len() as int, b, Some(k)) is Cancelled,
        run_committed(ids, ok, b, Some(k)) == ({
            let p = run_processed(ids.len() as int, b, Some(k));
            run_committed(ids.take(p), ok.take(p), b, None)
        }),
{
    let n = ids.len() as int;
    let p = run_processed(n, b, Some(k));
    lemma_batches_cover(n, b);
    assert(batches_flushed(n, b, Some(k)) * b >= 0) by (nonlinear_arith)
        requires
            batches_flushed(n, b, Some(k)) >= 0,
            b >= 1,
    ;
    lemma_run_processed_full(p, b);
    assert(ids.take(p).take(p) =~= ids.take(p));
    assert(ok.take(p).take(p) =~= ok.take(p));
}

/// Law: a per-file failure is contained at its task: the run still
/// completes — it never ends failed on their account — and it persists
/// exactly one row per successful file. One corrupt file among `n`
/// leaves `n - 1` rows and a completed run.
pub proof fn lemma_per_file_failures_contained(ids: Seq<i64>, ok: Seq<bool>, b: int)
    requires
        ok.len() == ids.len(),
        b >= 1,
    ensures
        run_phase(ids.len() as int, b, None) is Completed,
        run_committed(ids, ok, b, None).len() == count_true(ok),
{
    lemma_full_run_independent_of_batch_size(ids, ok, b, b);
    lemma_successes_count(ids, ok);
}

} // verus!
