use sidekwest::delete::{delete_outcome, BulkDelete, DeleteOutcome, RATE_LIMIT_MARGIN_MS};
use sidekwest::snowflake::Snowflake;

fn ids(v: &[u64]) -> Vec<Snowflake> {
    v.iter().map(|&n| Snowflake::new(n).unwrap()).collect()
}

/// Runs the engine against a scripted remote, returning the requested ids
/// and the pauses taken.
fn run(queue: &[u64], mut answer: impl FnMut(u64, usize) -> DeleteOutcome) -> (Vec<u64>, Vec<u64>) {
    let mut engine = BulkDelete::new(&ids(queue));
    let mut seen = Vec::new();
    let mut pauses = Vec::new();
    while let Some(id) = engine.next() {
        let tries = seen.iter().filter(|&&s| s == id.get()).count();
        seen.push(id.get());
        if let Some(ms) = engine.record(answer(id.get(), tries)) {
            pauses.push(ms);
        }
    }
    assert!(engine.is_done());
    (seen, pauses)
}

#[test]
fn rate_limited_item_is_retried_before_the_next() {
    let (seen, pauses) = run(&[1, 2, 3], |id, tries| {
        if id == 2 && tries == 0 {
            DeleteOutcome::RateLimited { retry_after_ms: 1500 }
        } else {
            DeleteOutcome::Deleted
        }
    });
    assert_eq!(seen, vec![1, 2, 2, 3]);
    assert_eq!(pauses, vec![1500 + RATE_LIMIT_MARGIN_MS]);
}

#[test]
fn failed_item_is_dropped() {
    let (seen, pauses) = run(&[1, 2, 3], |id, _| {
        if id == 2 {
            DeleteOutcome::Failed { status: 403 }
        } else {
            DeleteOutcome::Deleted
        }
    });
    assert_eq!(seen, vec![1, 2, 3]);
    assert!(pauses.is_empty());
}

#[test]
fn empty_queue_is_done_at_once() {
    let engine = BulkDelete::new(&vec![]);
    assert!(engine.is_done());
    assert!(engine.next().is_none());
}

#[test]
fn backoff_adds_three_seconds() {
    let mut engine = BulkDelete::new(&ids(&[7]));
    assert_eq!(engine.record(DeleteOutcome::RateLimited { retry_after_ms: 0 }), Some(3000));
    assert_eq!(
        engine.record(DeleteOutcome::RateLimited { retry_after_ms: u32::MAX }),
        Some(u32::MAX as u64 + 3000)
    );
    assert_eq!(engine.next().unwrap().get(), 7);
    assert_eq!(engine.record(DeleteOutcome::Deleted), None);
    assert!(engine.is_done());
}

#[test]
fn statuses_classify_delete_answers() {
    assert_eq!(delete_outcome(200, 7), DeleteOutcome::Deleted);
    assert_eq!(delete_outcome(204, 7), DeleteOutcome::Deleted);
    assert_eq!(delete_outcome(429, 1500), DeleteOutcome::RateLimited { retry_after_ms: 1500 });
    assert_eq!(delete_outcome(404, 7), DeleteOutcome::Failed { status: 404 });
    assert_eq!(delete_outcome(300, 7), DeleteOutcome::Failed { status: 300 });
}
