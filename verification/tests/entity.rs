use rustler_live_view_toy_engine::constants::MESSAGE_BATCH_SIZE;
use rustler_live_view_toy_engine::types::entity::{Batch, BatchStep};

/// Runs the poll loop of an entity over a channel that yields `available`
/// packets in a row, returning the steps taken.
fn run_batch(available: usize) -> (Batch, Vec<BatchStep>) {
    let mut batch = Batch::new();
    let mut steps = Vec::new();
    let mut polled = 0;
    while batch.has_room() {
        let arrived = polled < available;
        polled += 1;
        let step = batch.step(arrived);
        steps.push(step);
        if step == BatchStep::Stop {
            break;
        }
    }
    (batch, steps)
}

#[test]
fn batch_fills_after_batch_size_packets() {
    let (batch, steps) = run_batch(MESSAGE_BATCH_SIZE + 5);
    assert_eq!(batch.received(), MESSAGE_BATCH_SIZE);
    assert!(!batch.has_room());
    assert_eq!(steps.len(), MESSAGE_BATCH_SIZE);
    for (i, step) in steps.iter().enumerate() {
        assert_eq!(*step, BatchStep::Take { repoll: i + 1 == MESSAGE_BATCH_SIZE });
    }
}

#[test]
fn batch_exactly_full_asks_to_repoll() {
    let (batch, steps) = run_batch(MESSAGE_BATCH_SIZE);
    assert_eq!(batch.received(), MESSAGE_BATCH_SIZE);
    assert_eq!(steps.last(), Some(&BatchStep::Take { repoll: true }));
}

#[test]
fn batch_stops_when_channel_runs_dry() {
    let (batch, steps) = run_batch(3);
    assert_eq!(batch.received(), 3);
    assert_eq!(steps.len(), 4);
    assert_eq!(steps[3], BatchStep::Stop);
    assert!(steps[..3].iter().all(|s| *s == BatchStep::Take { repoll: false }));
}

#[test]
fn batch_empty_channel() {
    let (batch, steps) = run_batch(0);
    assert_eq!(batch.received(), 0);
    assert_eq!(steps, vec![BatchStep::Stop]);
}

#[test]
fn step_on_full_batch_stops() {
    let (mut batch, _) = run_batch(MESSAGE_BATCH_SIZE);
    assert_eq!(batch.step(true), BatchStep::Stop);
    assert_eq!(batch.received(), MESSAGE_BATCH_SIZE);
}
