use floxide::event_log::{EventLog, LoggedEvent};
use floxide::merge::Merge;
use std::collections::{HashMap, HashSet};

// Example event type
#[derive(Debug, Clone, PartialEq, Eq)]
enum WorkflowEvent {
    WorkStarted { id: u64 },
    WorkCompleted { id: u64, result: i32 },
    WorkFailed { id: u64, reason: String },
}

// Example state type
#[derive(Debug, Default, PartialEq, Eq)]
struct WorkflowState {
    running: HashSet<u64>,
    completed: HashMap<u64, i32>,
    failed: HashMap<u64, String>,
}

#[test]
fn test_append_and_iter() {
    let mut log = EventLog::new();
    log.append(WorkflowEvent::WorkStarted { id: 1 });
    log.append(WorkflowEvent::WorkCompleted { id: 1, result: 42 });
    let events: Vec<_> = log.iter();
    assert_eq!(events.len(), 2);
    assert_eq!(events[0].event, WorkflowEvent::WorkStarted { id: 1 });
    assert_eq!(
        events[1].event,
        WorkflowEvent::WorkCompleted { id: 1, result: 42 }
    );
}

#[test]
fn test_apply_all() {
    let mut log = EventLog::new();
    log.append(WorkflowEvent::WorkStarted { id: 1 });
    log.append(WorkflowEvent::WorkStarted { id: 2 });
    log.append(WorkflowEvent::WorkCompleted { id: 1, result: 10 });
    log.append(WorkflowEvent::WorkFailed {
        id: 2,
        reason: "error".to_string(),
    });

    let mut state = WorkflowState::default();
    log.apply_all(&mut state, |event, state| match event {
        WorkflowEvent::WorkStarted { id } => {
            state.running.insert(*id);
        }
        WorkflowEvent::WorkCompleted { id, result } => {
            state.running.remove(id);
            state.completed.insert(*id, *result);
        }
        WorkflowEvent::WorkFailed { id, reason } => {
            state.running.remove(id);
            state.failed.insert(*id, reason.clone());
        }
    });

    assert!(!state.running.contains(&1));
    assert!(!state.running.contains(&2));
    assert_eq!(state.completed.get(&1), Some(&10));
    assert_eq!(state.failed.get(&2), Some(&"error".to_string()));
}

#[test]
fn test_apply_all_default() {
    let mut log = EventLog::new();
    log.append(WorkflowEvent::WorkStarted { id: 1 });
    log.append(WorkflowEvent::WorkStarted { id: 2 });
    log.append(WorkflowEvent::WorkCompleted { id: 1, result: 10 });
    log.append(WorkflowEvent::WorkFailed {
        id: 2,
        reason: "error".to_string(),
    });

    let state = log.apply_all_default(|event, state: &mut WorkflowState| match event {
        WorkflowEvent::WorkStarted { id } => {
            state.running.insert(*id);
        }
        WorkflowEvent::WorkCompleted { id, result } => {
            state.running.remove(id);
            state.completed.insert(*id, *result);
        }
        WorkflowEvent::WorkFailed { id, reason } => {
            state.running.remove(id);
            state.failed.insert(*id, reason.clone());
        }
    });

    assert!(!state.running.contains(&1));
    assert!(!state.running.contains(&2));
    assert_eq!(state.completed.get(&1), Some(&10));
    assert_eq!(state.failed.get(&2), Some(&"error".to_string()));
}

fn ids(log: &EventLog<u32>) -> Vec<(u128, u128, u32)> {
    log.iter().into_iter().map(|e: LoggedEvent<u32>| (e.timestamp, e.uuid, e.event)).collect()
}

#[test]
fn appended_events_get_distinct_ids() {
    let mut log = EventLog::new();
    log.append(1u32);
    log.append(2u32);
    let events = log.iter();
    assert_ne!(events[0].uuid, events[1].uuid);
    // version 4, RFC variant
    assert_eq!((events[0].uuid >> 76) & 0xf, 4);
    assert_eq!((events[0].uuid >> 62) & 0x3, 2);
    assert!(events[0].timestamp > 0);
}

#[test]
fn merge_orders_by_time_and_id() {
    let mut a: EventLog<u32> = EventLog::new();
    a.append(1);
    a.append(2);
    let mut b: EventLog<u32> = EventLog::new();
    b.append(3);
    let before_a = ids(&a);
    let before_b = ids(&b);
    a.merge(b);
    let merged = ids(&a);
    assert_eq!(merged.len(), 3);
    let mut expected: Vec<(u128, u128, u32)> = before_a.iter().chain(before_b.iter()).cloned().collect();
    expected.sort();
    assert_eq!(merged, expected);
}

#[test]
fn merging_into_an_empty_log_keeps_an_ordered_log() {
    let mut x: EventLog<u32> = EventLog::new();
    x.append(7);
    x.append(8);
    let mut before = ids(&x);
    before.sort();
    let mut empty: EventLog<u32> = EventLog::default();
    empty.merge(x);
    assert_eq!(ids(&empty), before);
    // once ordered, merging an empty log changes nothing
    let ordered = ids(&empty);
    empty.merge(EventLog::default());
    assert_eq!(ids(&empty), ordered);
}

#[test]
fn merging_a_copy_drops_the_repeated_ids() {
    let mut a: EventLog<u32> = EventLog::new();
    a.append(1);
    a.append(2);
    a.append(3);
    let mut expected = ids(&a);
    expected.sort();
    let copy = a.clone();
    a.merge(copy);
    assert_eq!(ids(&a), expected);
}

#[test]
fn merge_keeps_one_event_per_id() {
    let ev = |uuid: u128, timestamp: u128, event: u32| LoggedEvent { uuid, timestamp, event };
    let mut a: EventLog<u32> = EventLog::from_events(vec![ev(1, 10, 100)]);
    let b: EventLog<u32> = EventLog::from_events(vec![ev(2, 20, 200), ev(1, 30, 300)]);
    a.merge(b);
    // id 1 stays once, with its earliest event in log order
    assert_eq!(ids(&a), vec![(10, 1, 100), (20, 2, 200)]);
}
