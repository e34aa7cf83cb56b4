use git_workspace::executor::{check_worker_count, tally, Batch, ItemResult, ProgressEvent};

/// Runs a batch one item at a time, as a pool of one worker does; items
/// whose index is in `failing` fail.
fn run_one_worker(total: usize, failing: &[usize]) -> Batch<String> {
    let mut batch: Batch<String> = Batch::new(total);
    for i in 0..total {
        assert!(batch.start(i));
        let outcome = if failing.contains(&i) {
            Err(format!("item {} failed", i))
        } else {
            Ok(format!("item {} done", i))
        };
        assert!(batch.complete(i, outcome));
    }
    assert!(batch.finish());
    batch
}

#[test]
fn one_worker_ten_items_three_failures() {
    let batch = run_one_worker(10, &[2, 5, 9]);
    let results = batch.into_results();
    assert_eq!(results.len(), 10);
    assert_eq!(results.iter().filter(|r| r.is_success()).count(), 7);
    assert_eq!(results.iter().filter(|r| !r.is_success()).count(), 3);
    assert_eq!(results[5].outcome, Err("item 5 failed".to_string()));
    assert_eq!(results[4].outcome, Ok("item 4 done".to_string()));
}

fn count(events: &[ProgressEvent], e: ProgressEvent) -> usize {
    events.iter().filter(|x| **x == e).count()
}

#[test]
fn sink_sees_one_init_paired_steps_and_one_finish() {
    for failing in [vec![], vec![0, 1, 2, 3], vec![1]] {
        let batch = run_one_worker(4, &failing);
        let events = batch.events().clone();
        assert_eq!(events.len(), 10);
        assert_eq!(events[0], ProgressEvent::Init(4));
        assert_eq!(*events.last().unwrap(), ProgressEvent::Finish);
        assert_eq!(count(&events, ProgressEvent::Finish), 1);
        for i in 0..4 {
            assert_eq!(count(&events, ProgressEvent::CreateStep(i)), 1);
            assert_eq!(count(&events, ProgressEvent::FinishStep(i)), 1);
            let created = events.iter().position(|e| *e == ProgressEvent::CreateStep(i));
            let finished = events.iter().position(|e| *e == ProgressEvent::FinishStep(i));
            assert!(created < finished);
        }
    }
}

#[test]
fn interleaved_workers_give_the_same_tally() {
    let mut batch: Batch<u32> = Batch::new(3);
    assert!(batch.start(2));
    assert!(batch.start(0));
    assert!(batch.complete(0, Err("boom".to_string())));
    assert!(batch.start(1));
    assert!(batch.complete(2, Ok(2)));
    assert!(!batch.finish());
    assert!(batch.complete(1, Ok(1)));
    assert!(batch.finish());
    let events = batch.events().clone();
    assert_eq!(count(&events, ProgressEvent::Init(3)), 1);
    assert_eq!(events.len(), 8);
    let results = batch.into_results();
    let mut indices: Vec<usize> = results.iter().map(|r| r.index).collect();
    indices.sort();
    assert_eq!(indices, vec![0, 1, 2]);
    assert_eq!(results.iter().filter(|r| r.is_success()).count(), 2);
}

#[test]
fn misuse_is_refused_without_effect() {
    let mut batch: Batch<u8> = Batch::new(2);
    assert!(!batch.complete(0, Ok(0)));
    assert!(!batch.start(2));
    assert!(batch.start(0));
    assert!(!batch.start(0));
    assert!(batch.complete(0, Ok(0)));
    assert!(!batch.complete(0, Ok(0)));
    assert_eq!(batch.events().len(), 3);
}

#[test]
fn empty_batch_finishes_at_once() {
    let mut batch: Batch<u8> = Batch::new(0);
    assert!(batch.finish());
    assert!(!batch.finish());
    assert_eq!(
        batch.events().clone(),
        vec![ProgressEvent::Init(0), ProgressEvent::Finish]
    );
    assert!(batch.into_results().is_empty());
}

#[test]
fn a_pool_needs_a_worker() {
    assert!(check_worker_count(1).is_ok());
    assert!(check_worker_count(8).is_ok());
    let err = check_worker_count(0).unwrap_err();
    assert!(format!("{:?}", err).starts_with("ThreadPool("));
}

#[test]
fn tally_counts_successes_and_failures() {
    let results = run_one_worker(10, &[0, 3, 7]).into_results();
    assert_eq!(tally(&results), (7, 3));
    let none: Vec<ItemResult<u8>> = vec![];
    assert_eq!(tally(&none), (0, 0));
}
