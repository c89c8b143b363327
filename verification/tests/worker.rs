use cluster_monitor::measurement::{Cpu, Measurement, MonitorInfo, NodeInfo, State, StaticInfo};
use cluster_monitor::time::Timestamp;
use cluster_monitor::worker::{
    absorb, append_batch, drain, group_by_date, save_file_stem, Absorbed, CycleOutcome, DateGroup, Phase, Poll,
    SaveWorker, Wake, WorkerAction, WorkerError, WorkerEvent,
};

const DAY: i64 = 86_400;

fn sample(secs: i64, id: u32) -> Measurement {
    Measurement {
        time: Timestamp::new(secs, 0),
        state: State::Initial(StaticInfo {
            node_info: NodeInfo { id, mem_total: 64 },
            cpu_info: Cpu { nodes: vec![] },
            gpu_info: vec![],
        }),
    }
}

fn usage(secs: i64) -> Measurement {
    Measurement {
        time: Timestamp::new(secs, 999_999_999),
        state: State::Current(MonitorInfo { jobs: vec![], node_usages: vec![], cpu_usages: vec![], gpu_usages: vec![] }),
    }
}

#[test]
fn three_dates_give_three_groups() {
    let a = sample(20_000 * DAY + 5, 1);
    let b = sample(20_001 * DAY, 2);
    let c = usage(20_000 * DAY + DAY - 1);
    let d = sample(20_002 * DAY + 77, 4);
    let e = usage(20_001 * DAY + 3);
    let groups = group_by_date(vec![a.clone(), b.clone(), c.clone(), d.clone(), e.clone()]);
    assert_eq!(
        groups,
        vec![
            DateGroup { day: 20_000, items: vec![a, c] },
            DateGroup { day: 20_001, items: vec![b, e] },
            DateGroup { day: 20_002, items: vec![d] },
        ]
    );
}

#[test]
fn grouping_edge_cases() {
    assert_eq!(group_by_date(vec![]), vec![]);
    let before = sample(-1, 1);
    let epoch = sample(0, 2);
    let long_before = sample(-DAY - 1, 3);
    let groups = group_by_date(vec![before.clone(), epoch.clone(), long_before.clone(), sample(-DAY, 4)]);
    assert_eq!(groups.len(), 3);
    assert_eq!(groups[0], DateGroup { day: -1, items: vec![before, sample(-DAY, 4)] });
    assert_eq!(groups[1], DateGroup { day: 0, items: vec![epoch] });
    assert_eq!(groups[2], DateGroup { day: -2, items: vec![long_before] });
    let same = group_by_date(vec![sample(5, 1), sample(5, 1)]);
    assert_eq!(same, vec![DateGroup { day: 0, items: vec![sample(5, 1), sample(5, 1)] }]);
}

#[test]
fn day_numbers_are_floors() {
    assert_eq!(Timestamp::new(0, 0).day_number(), 0);
    assert_eq!(Timestamp::new(86_399, 0).day_number(), 0);
    assert_eq!(Timestamp::new(86_400, 0).day_number(), 1);
    assert_eq!(Timestamp::new(-1, 0).day_number(), -1);
    assert_eq!(Timestamp::new(-86_400, 0).day_number(), -1);
    assert_eq!(Timestamp::new(-86_401, 0).day_number(), -2);
    assert_eq!(Timestamp::new(i64::MIN, 0).day_number(), -106_751_991_167_301);
    assert_eq!(Timestamp::new(i64::MAX, 0).day_number(), 106_751_991_167_300);
    assert_eq!(Timestamp::new(1, 5).as_nanos(), 1_000_000_005);
    assert_eq!(Timestamp::new(-1, 5).as_nanos(), -999_999_995);
}

#[test]
fn save_file_stems_are_utc_dates() {
    let stem = |day: i64| save_file_stem(&DateGroup { day, items: vec![] });
    assert_eq!(stem(0), Some("1970-01-01".to_string()));
    assert_eq!(stem(-1), Some("1969-12-31".to_string()));
    assert_eq!(stem(20_058), Some("2024-12-01".to_string()));
    assert_eq!(stem(19_782), Some("2024-02-29".to_string()));
    assert_eq!(stem(i64::MAX), None);
    assert_eq!(stem(i64::MIN), None);
    assert_eq!(stem(i64::MAX / 86_400), None);
}

#[test]
fn appending_keeps_what_was_stored() {
    let stored = vec![sample(1, 1), usage(2), sample(1, 1)];
    let batch = vec![usage(9), sample(0, 7)];
    let all = append_batch(stored.clone(), batch.clone());
    assert_eq!(all.len(), 5);
    assert_eq!(all[..3], stored[..]);
    assert_eq!(all[3..], batch[..]);
    assert_eq!(append_batch(vec![], batch.clone()), batch);
    assert_eq!(append_batch(stored.clone(), vec![]), stored);
    let again = append_batch(all.clone(), vec![usage(10)]);
    assert_eq!(again[..5], all[..]);
}

#[test]
fn worker_timer_cycle_returns_to_waiting() {
    let mut worker = SaveWorker::new();
    assert_eq!(worker.action(), WorkerAction::Wait);
    assert_eq!(worker.step(WorkerEvent::Woke(Wake::Timer)), WorkerAction::RunCycle { last: false });
    assert_eq!(worker.step(WorkerEvent::Woke(Wake::Shutdown)), WorkerAction::RunCycle { last: false });
    assert_eq!(worker.step(WorkerEvent::CycleEnded(CycleOutcome::Persisted)), WorkerAction::Wait);
    assert_eq!(worker.phase, Phase::Waiting);
    assert_eq!(worker.step(WorkerEvent::CycleEnded(CycleOutcome::Persisted)), WorkerAction::Wait);
}

#[test]
fn shutdown_runs_exactly_one_more_cycle() {
    let mut worker = SaveWorker::new();
    assert_eq!(worker.step(WorkerEvent::Woke(Wake::Shutdown)), WorkerAction::RunCycle { last: true });
    assert_eq!(worker.step(WorkerEvent::Woke(Wake::Timer)), WorkerAction::RunCycle { last: true });
    assert_eq!(worker.step(WorkerEvent::CycleEnded(CycleOutcome::Persisted)), WorkerAction::Stop);
    assert_eq!(worker.phase, Phase::Finished);
    assert_eq!(worker.step(WorkerEvent::Woke(Wake::Timer)), WorkerAction::Stop);
    assert_eq!(worker.step(WorkerEvent::Woke(Wake::Shutdown)), WorkerAction::Stop);
    assert_eq!(worker.step(WorkerEvent::CycleEnded(CycleOutcome::Persisted)), WorkerAction::Stop);
}

#[test]
fn worker_failures() {
    let mut worker = SaveWorker::new();
    assert_eq!(worker.step(WorkerEvent::Woke(Wake::ControlClosed)), WorkerAction::Abort(WorkerError::ControlClosed));
    assert_eq!(worker.step(WorkerEvent::Woke(Wake::Timer)), WorkerAction::Abort(WorkerError::ControlClosed));

    let mut worker = SaveWorker::new();
    worker.step(WorkerEvent::Woke(Wake::Timer));
    assert_eq!(
        worker.step(WorkerEvent::CycleEnded(CycleOutcome::QueueClosed)),
        WorkerAction::Abort(WorkerError::QueueClosed)
    );

    let mut worker = SaveWorker::new();
    worker.step(WorkerEvent::Woke(Wake::Shutdown));
    assert_eq!(worker.step(WorkerEvent::CycleEnded(CycleOutcome::QueueClosed)), WorkerAction::Stop);

    let mut worker = SaveWorker::new();
    worker.step(WorkerEvent::Woke(Wake::Shutdown));
    assert_eq!(
        worker.step(WorkerEvent::CycleEnded(CycleOutcome::StorageFailed)),
        WorkerAction::Abort(WorkerError::Storage)
    );
}

#[test]
fn absorb_takes_items_and_ends_on_empty_or_closed() {
    let mut batch = vec![sample(1, 1)];
    assert_eq!(absorb(&mut batch, Poll::Item(usage(2)), false), Absorbed::More);
    assert_eq!(batch, vec![sample(1, 1), usage(2)]);
    assert_eq!(absorb(&mut batch, Poll::Empty, false), Absorbed::Complete);
    assert_eq!(absorb(&mut batch, Poll::Empty, true), Absorbed::Complete);
    assert_eq!(absorb(&mut batch, Poll::Disconnected, false), Absorbed::Closed);
    assert_eq!(absorb(&mut batch, Poll::Disconnected, true), Absorbed::Complete);
    assert_eq!(batch, vec![sample(1, 1), usage(2)]);
}

#[test]
fn drain_takes_everything_that_waits_in_order() {
    let (tx, mut rx) = tokio::sync::mpsc::unbounded_channel::<Measurement>();
    assert_eq!(drain(&mut rx, false), Ok(vec![]));
    tx.send(sample(3, 1)).unwrap();
    tx.send(usage(1)).unwrap();
    tx.send(sample(2, 3)).unwrap();
    assert_eq!(drain(&mut rx, false), Ok(vec![sample(3, 1), usage(1), sample(2, 3)]));
    assert_eq!(drain(&mut rx, true), Ok(vec![]));
    tx.send(sample(4, 4)).unwrap();
    assert_eq!(drain(&mut rx, true), Ok(vec![sample(4, 4)]));
}

#[test]
fn drain_of_a_closed_queue() {
    let (tx, mut rx) = tokio::sync::mpsc::unbounded_channel::<Measurement>();
    tx.send(sample(3, 1)).unwrap();
    drop(tx);
    assert_eq!(drain(&mut rx, false), Err(WorkerError::QueueClosed));

    let (tx, mut rx) = tokio::sync::mpsc::unbounded_channel::<Measurement>();
    tx.send(sample(3, 1)).unwrap();
    tx.send(sample(4, 2)).unwrap();
    drop(tx);
    assert_eq!(drain(&mut rx, true), Ok(vec![sample(3, 1), sample(4, 2)]));
    assert_eq!(drain(&mut rx, true), Ok(vec![]));
}

#[test]
fn shutdown_drain_loses_nothing_that_was_enqueued() {
    let (tx, mut rx) = tokio::sync::mpsc::unbounded_channel::<Measurement>();
    let mut worker = SaveWorker::new();
    tx.send(sample(DAY, 1)).unwrap();
    tx.send(sample(5, 2)).unwrap();
    tx.send(sample(DAY + 1, 3)).unwrap();
    let action = worker.step(WorkerEvent::Woke(Wake::Shutdown));
    assert_eq!(action, WorkerAction::RunCycle { last: true });
    let batch = drain(&mut rx, true).unwrap();
    let groups = group_by_date(batch);
    let total: usize = groups.iter().map(|g| g.items.len()).sum();
    assert_eq!(total, 3);
    assert_eq!(groups[0].items, vec![sample(DAY, 1), sample(DAY + 1, 3)]);
    assert_eq!(groups[1].items, vec![sample(5, 2)]);
    assert_eq!(worker.step(WorkerEvent::CycleEnded(CycleOutcome::Persisted)), WorkerAction::Stop);
}
