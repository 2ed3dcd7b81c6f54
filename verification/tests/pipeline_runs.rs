use feature_pipeline::pipeline::{
    outcome_flags, run_batches, AnalysisPipeline, FileFailure, PipelineError, PipelinePhase,
    ProgressReport,
};

fn ascending_ids(n: i64) -> Vec<i64> {
    let mut v = Vec::new();
    let mut i: i64 = 1;
    while i <= n {
        v.push(i);
        i += 1;
    }
    v
}

#[test]
fn full_run_commits_every_file() {
    let ids = ascending_ids(5);
    let ok = vec![true; 5];
    let out = run_batches(&ids, &ok, 2, None);
    assert_eq!(out.committed, vec![1, 2, 3, 4, 5]);
    assert_eq!(out.phase, PipelinePhase::Completed);
    assert_eq!(out.processed, 5);
    assert_eq!(out.total, 5);
    assert_eq!(out.result, Ok(5));
}

#[test]
fn committed_rows_independent_of_batch_size() {
    let ids = ascending_ids(7);
    let mut ok = vec![true; 7];
    ok[3] = false;
    let one = run_batches(&ids, &ok, 1, None);
    let three = run_batches(&ids, &ok, 3, None);
    let seven = run_batches(&ids, &ok, 7, None);
    let huge = run_batches(&ids, &ok, 100, None);
    assert_eq!(one.committed, vec![1, 2, 3, 5, 6, 7]);
    assert_eq!(three.committed, one.committed);
    assert_eq!(seven.committed, one.committed);
    assert_eq!(huge.committed, one.committed);
}

#[test]
fn second_run_inserts_zero_rows() {
    let ids = ascending_ids(6);
    let ok = vec![true; 6];
    let first = run_batches(&ids, &ok, 2, None);
    // the anti-join of the next run: files without a persisted row
    let remaining: Vec<i64> = ids
        .iter()
        .copied()
        .filter(|id| !first.committed.contains(id))
        .collect();
    assert!(remaining.is_empty());
    let second = run_batches(&remaining, &Vec::new(), 3, None);
    assert_eq!(second.committed.len(), 0);
    assert_eq!(second.phase, PipelinePhase::Completed);
}

#[test]
fn cancel_after_two_batches_keeps_exactly_those_batches() {
    let ids = ascending_ids(10);
    let ok = vec![true; 10];
    let out = run_batches(&ids, &ok, 3, Some(2));
    assert_eq!(out.committed, vec![1, 2, 3, 4, 5, 6]);
    assert_eq!(out.phase, PipelinePhase::Cancelled);
    assert_eq!(out.processed, 6);
    // a cancelled run still reports the snapshot total
    assert_eq!(out.result, Ok(10));
}

#[test]
fn cancel_before_first_batch_commits_nothing() {
    let ids = ascending_ids(4);
    let ok = vec![true; 4];
    let out = run_batches(&ids, &ok, 2, Some(0));
    assert_eq!(out.committed.len(), 0);
    assert_eq!(out.phase, PipelinePhase::Cancelled);
    assert_eq!(out.processed, 0);
}

#[test]
fn one_corrupt_file_among_hundred_leaves_ninety_nine() {
    let ids = ascending_ids(100);
    let mut ok = vec![true; 100];
    ok[37] = false;
    let out = run_batches(&ids, &ok, 8, None);
    assert_eq!(out.committed.len(), 99);
    assert!(!out.committed.contains(&38));
    assert_eq!(out.phase, PipelinePhase::Completed);
    assert_eq!(out.result, Ok(100));
}

#[test]
fn progress_reported_once_per_batch_against_snapshot() {
    let ids = ascending_ids(5);
    let ok = vec![true; 5];
    let out = run_batches(&ids, &ok, 2, None);
    assert_eq!(
        out.progress,
        vec![
            ProgressReport { processed: 2, total: 5 },
            ProgressReport { processed: 4, total: 5 },
            ProgressReport { processed: 5, total: 5 },
        ]
    );
}

#[test]
fn empty_library_completes_at_once() {
    let out = run_batches(&Vec::new(), &Vec::new(), 4, None);
    assert_eq!(out.committed.len(), 0);
    assert_eq!(out.phase, PipelinePhase::Completed);
    assert_eq!(out.progress.len(), 0);
    assert_eq!(out.result, Ok(0));
}

#[test]
fn page_request_resumes_after_cursor() {
    let mut machine = AnalysisPipeline::new(3, 9);
    machine.start();
    let first = machine.page_request();
    assert_eq!(first.after, None);
    assert_eq!(first.limit, 3);
    machine.on_page(vec![2, 5, 9]);
    let ok = vec![true, false, true];
    let rows = machine.select_successes(&ok);
    assert_eq!(rows, vec![2, 9]);
    machine.on_commit_ok(&ok);
    let next = machine.page_request();
    assert_eq!(next.after, Some(9));
    assert_eq!(next.limit, 3);
}

#[test]
fn failed_commit_keeps_earlier_batches_and_ends_run() {
    let mut machine = AnalysisPipeline::new(2, 4);
    machine.start();
    machine.on_page(vec![1, 2]);
    let ok = vec![true, true];
    machine.on_commit_ok(&ok);
    machine.on_page(vec![3, 4]);
    machine.on_commit_failed();
    // no partial batch: only the first, fully committed batch remains
    assert_eq!(machine.committed, vec![1, 2]);
    assert_eq!(machine.phase, PipelinePhase::Failed);
    assert_eq!(machine.run_result(), Err(PipelineError::Persistence));
}

#[test]
fn per_file_failures_become_commit_flags() {
    let outcomes = vec![
        None,
        Some(FileFailure::Decode),
        Some(FileFailure::Extraction),
        None,
    ];
    assert_eq!(outcome_flags(&outcomes), vec![true, false, false, true]);
}

#[test]
fn cancellation_still_flushes_the_batch_in_flight() {
    let mut machine = AnalysisPipeline::new(2, 6);
    machine.start();
    machine.on_page(vec![4, 7]);
    machine.observe_cancel();
    let ok = vec![true, true];
    let report = machine.on_commit_ok(&ok);
    assert_eq!(machine.committed, vec![4, 7]);
    assert_eq!(report, ProgressReport { processed: 2, total: 6 });
    machine.finish_cancelled();
    assert_eq!(machine.phase, PipelinePhase::Cancelled);
    assert_eq!(machine.run_result(), Ok(6));
}
