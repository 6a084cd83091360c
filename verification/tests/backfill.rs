use kafka_sync::backfill::{
    advance, sync_window, window_topics, ConsumerCache, CycleEvent, RunLoop, SyncAction, SyncEvent,
    SyncState,
};
use kafka_sync::calendar::WindowStart;
use kafka_sync::error::{BackfillError, KafkaError, StorageError};
use kafka_sync::kafka::ConsumedBatch;
use rdkafka::error::KafkaError as ClientError;
use std::collections::BTreeMap;

const DAY: WindowStart = WindowStart { year: 2026, month: 8, day: 26 };

fn batch(records: &[(Option<&[u8]>, i32, i64)]) -> ConsumedBatch {
    let mut batch = ConsumedBatch::default();
    for (value, partition, offset) in records {
        batch.absorb(*value, *partition, *offset);
    }
    batch
}

#[test]
fn a_window_is_uploaded_then_committed() {
    let (state, action) =
        sync_window("events", &DAY, batch(&[(Some(b"a"), 1, 41), (Some(b"b"), 1, 42)]));
    match action {
        SyncAction::Upload { key, payload } => {
            assert_eq!(key, "2026/08/26/events/Par1-Off42.json");
            assert_eq!(payload, b"a\nb\n");
        }
        other => panic!("{other:?}"),
    }
    let (state, action) = advance(state, SyncEvent::Uploaded);
    assert!(matches!(state, SyncState::Committing { .. }));
    match action {
        SyncAction::Commit { partition_offsets } => {
            assert_eq!(partition_offsets, BTreeMap::from([(1, 42)]));
        }
        other => panic!("{other:?}"),
    }
    let (state, action) = advance(state, SyncEvent::Committed);
    assert!(matches!(state, SyncState::Finished));
    assert!(matches!(action, SyncAction::Finish(Ok(()))));
}

#[test]
fn an_empty_window_does_nothing() {
    let (state, action) = sync_window("events", &DAY, batch(&[]));
    assert!(matches!(state, SyncState::Finished));
    assert!(matches!(action, SyncAction::Finish(Ok(()))));
}

#[test]
fn tombstones_are_committed_without_an_upload() {
    let (state, action) = sync_window("events", &DAY, batch(&[(None, 0, 3), (None, 2, 8)]));
    assert!(matches!(state, SyncState::Committing { .. }));
    assert!(matches!(action, SyncAction::Commit { partition_offsets }
        if partition_offsets == BTreeMap::from([(0, 3), (2, 8)])));
    // An empty value is a line of its own, and is archived.
    let (_, action) = sync_window("events", &DAY, batch(&[(Some(b""), 0, 3)]));
    assert!(matches!(action, SyncAction::Upload { payload, .. } if payload == b"\n"));
}

#[test]
fn a_failed_upload_commits_nothing() {
    let (state, _) = sync_window("events", &DAY, batch(&[(Some(b"a"), 0, 0)]));
    let failure = StorageError::InvalidKey { key: "k".to_owned() };
    let (state, action) = advance(state, SyncEvent::UploadFailed(failure));
    assert!(matches!(state, SyncState::Rewinding { .. }));
    assert!(matches!(action, SyncAction::Rewind { first_offsets }
        if first_offsets == BTreeMap::from([(0, 0)])));
    let (state, action) = advance(state, SyncEvent::Rewound);
    assert!(matches!(state, SyncState::Finished));
    assert!(matches!(
        action,
        SyncAction::Finish(Err(BackfillError::Storage(StorageError::InvalidKey { key })))
            if key == "k"
    ));
}

#[test]
fn a_failed_commit_fails_the_window() {
    let (state, _) = sync_window("events", &DAY, batch(&[(None, 0, 0)]));
    let failure = KafkaError::Commit { topic: "events".to_owned(), source: ClientError::Canceled };
    let (state, action) = advance(state, SyncEvent::CommitFailed(failure));
    assert!(matches!(state, SyncState::Rewinding { .. }));
    assert!(matches!(action, SyncAction::Rewind { first_offsets }
        if first_offsets == BTreeMap::from([(0, 0)])));
    let (state, action) = advance(state, SyncEvent::Rewound);
    assert!(matches!(state, SyncState::Finished));
    assert!(matches!(
        action,
        SyncAction::Finish(Err(BackfillError::Kafka(KafkaError::Commit { topic, .. })))
            if topic == "events"
    ));
}

#[test]
fn a_retry_of_the_same_window_has_the_same_key() {
    let records: [(Option<&[u8]>, i32, i64); 3] =
        [(Some(b"a"), 0, 1), (Some(b"b"), 3, 9), (None, 0, 2)];
    let first = sync_window("events", &DAY, batch(&records)).1;
    let again = sync_window("events", &DAY, batch(&records)).1;
    match (first, again) {
        (
            SyncAction::Upload { key: a, payload: x },
            SyncAction::Upload { key: b, payload: y },
        ) => {
            assert_eq!(a, b);
            assert_eq!(x, y);
        }
        other => panic!("{other:?}"),
    }
}

#[test]
fn a_topic_has_one_cached_consumer() {
    let mut cache: ConsumerCache<u32> = ConsumerCache::new();
    assert_eq!(cache.cached_consumer("a"), None);
    cache.remember("a", 1);
    cache.remember("b", 2);
    assert_eq!(cache.cached_consumer("a"), Some(&1));
    assert_eq!(cache.cached_consumer("b"), Some(&2));
    assert_eq!(cache.cached_consumer("c"), None);
    cache.remember("a", 3);
    assert_eq!(cache.cached_consumer("a"), Some(&3));
    assert_eq!(cache.cached_consumer("b"), Some(&2));
    let mut members = cache.take_members();
    members.sort();
    assert_eq!(members, vec![("a".to_owned(), 3), ("b".to_owned(), 2)]);
    assert_eq!(cache.cached_consumer("a"), None);
}

#[test]
fn the_loop_runs_until_the_signal() {
    let run = RunLoop::start();
    assert_eq!(run, RunLoop { cycle: 1, active: true });
    let run = run.after(CycleEvent::WindowComplete);
    assert_eq!(run, RunLoop { cycle: 2, active: true });
    let run = run.after(CycleEvent::Shutdown);
    assert_eq!(run, RunLoop { cycle: 2, active: false });
}

/// A topic with one partition, a broker that keeps the committed offset, and
/// object storage: windows break off at every point, and the process starts
/// again each time.
#[test]
fn crashes_duplicate_and_never_lose() {
    let log: Vec<Option<Vec<u8>>> = (0..60_u8)
        .map(|n| if n % 7 == 3 { None } else { Some(vec![n + 32]) })
        .collect();
    let mut committed = 0_usize;
    let mut objects: BTreeMap<String, Vec<u8>> = BTreeMap::new();
    let mut round = 0_usize;
    while committed < log.len() {
        let end = log.len().min(committed + 1 + round % 5);
        let mut batch = ConsumedBatch::default();
        for (offset, value) in log.iter().enumerate().take(end).skip(committed) {
            batch.absorb(value.as_deref(), 0, offset as i64);
        }
        let (mut state, mut action) = sync_window("events", &DAY, batch);
        let mut left = round % 4;
        while left > 0 {
            left -= 1;
            let event = match action {
                SyncAction::Upload { key, payload } => {
                    objects.insert(key, payload);
                    SyncEvent::Uploaded
                }
                SyncAction::Commit { partition_offsets } => {
                    committed = partition_offsets[&0] as usize + 1;
                    SyncEvent::Committed
                }
                SyncAction::Rewind { .. } => SyncEvent::Rewound,
                SyncAction::Finish(_) => break,
            };
            (state, action) = advance(state, event);
        }
        for value in log.iter().take(committed).flatten() {
            assert!(objects.values().any(|object| object.contains(&value[0])));
        }
        round += 1;
    }
    assert!(objects.len() > 1);
}

#[test]
fn a_forgotten_consumer_has_to_be_connected_again() {
    let mut cache: ConsumerCache<u32> = ConsumerCache::new();
    cache.remember("a", 1);
    cache.remember("b", 2);
    cache.remember("c", 3);
    assert_eq!(cache.forget("b"), Some(2));
    assert_eq!(cache.cached_consumer("b"), None);
    assert_eq!(cache.cached_consumer("a"), Some(&1));
    assert_eq!(cache.cached_consumer("c"), Some(&3));
    assert_eq!(cache.forget("b"), None);
    assert_eq!(cache.forget("x"), None);
    cache.remember("b", 4);
    assert_eq!(cache.cached_consumer("b"), Some(&4));
}

#[test]
fn a_window_has_each_topic_once() {
    let owned = |topics: &[&str]| topics.iter().map(|t| (*t).to_owned()).collect::<Vec<_>>();
    assert_eq!(window_topics(&owned(&["b", "a", "b", "c", "a"])), ["b", "a", "c"]);
    assert_eq!(window_topics(&owned(&["a"])), ["a"]);
    assert!(window_topics(&Vec::new()).is_empty());
}

/// One process runs on while uploads, commits and seeks fail: the same consumer
/// is kept, and set back to where the failed window had begun.
#[test]
fn failures_are_retried_by_the_running_loop() {
    let log: Vec<Vec<u8>> = (0..50_u8).map(|n| vec![n + 32]).collect();
    let mut position = 0_usize;
    let mut committed = 0_usize;
    let mut objects: BTreeMap<String, Vec<u8>> = BTreeMap::new();
    let mut cache: ConsumerCache<&str> = ConsumerCache::new();
    cache.remember("events", "the one consumer");
    let mut failures = 0;
    for round in 0..300_usize {
        let behind = cache.behind("events").cloned().unwrap_or_default();
        if let Some(first) = behind.get(&0) {
            if round % 7 == 0 {
                // The seek failed: the topic is not drained in this cycle.
                continue;
            }
            position = *first as usize;
            cache.set_behind("events", BTreeMap::new());
        }
        let end = log.len().min(position + 1 + round % 4);
        let mut batch = ConsumedBatch::default();
        for (offset, value) in log.iter().enumerate().take(end).skip(position) {
            batch.absorb(Some(value), 0, offset as i64);
        }
        let begun = position;
        position = end;
        let (mut state, mut action) = sync_window("events", &DAY, batch);
        let outcome = loop {
            let event = match action {
                SyncAction::Upload { key, payload } => {
                    if round % 3 == 0 {
                        SyncEvent::UploadFailed(StorageError::InvalidKey { key })
                    } else {
                        objects.insert(key, payload);
                        SyncEvent::Uploaded
                    }
                }
                SyncAction::Commit { partition_offsets } => {
                    if round % 5 == 1 {
                        SyncEvent::CommitFailed(KafkaError::Commit {
                            topic: "events".to_owned(),
                            source: ClientError::Canceled,
                        })
                    } else {
                        committed = partition_offsets[&0] as usize + 1;
                        SyncEvent::Committed
                    }
                }
                SyncAction::Rewind { first_offsets } => {
                    cache.set_behind("events", first_offsets);
                    SyncEvent::Rewound
                }
                SyncAction::Finish(outcome) => break outcome,
            };
            (state, action) = advance(state, event);
        };
        assert_eq!(cache.cached_consumer("events"), Some(&"the one consumer"));
        if outcome.is_err() {
            failures += 1;
            assert_eq!(cache.behind("events"), Some(&BTreeMap::from([(0, begun as i64)])));
        } else {
            assert_eq!(cache.behind("events"), Some(&BTreeMap::new()));
        }
        for value in log.iter().take(committed) {
            assert!(objects.values().any(|object| object.contains(&value[0])), "round {round}");
        }
    }
    assert!(failures > 10);
    assert_eq!(committed, log.len());
}

#[test]
fn a_consumer_stays_while_it_is_behind() {
    let mut cache: ConsumerCache<u32> = ConsumerCache::new();
    cache.remember("a", 1);
    cache.remember("b", 2);
    assert_eq!(cache.behind("a"), Some(&BTreeMap::new()));
    assert_eq!(cache.behind("x"), None);
    cache.set_behind("a", BTreeMap::from([(0, 5), (3, 9)]));
    assert_eq!(cache.behind("a"), Some(&BTreeMap::from([(0, 5), (3, 9)])));
    assert_eq!(cache.behind("b"), Some(&BTreeMap::new()));
    assert_eq!(cache.cached_consumer("a"), Some(&1));
    cache.set_behind("a", BTreeMap::new());
    assert_eq!(cache.behind("a"), Some(&BTreeMap::new()));
    cache.set_behind("x", BTreeMap::from([(0, 5)]));
    assert_eq!(cache.cached_consumer("x"), None);
    cache.set_behind("b", BTreeMap::from([(1, 1)]));
    cache.remember("b", 7);
    assert_eq!(cache.behind("b"), Some(&BTreeMap::new()));
}
