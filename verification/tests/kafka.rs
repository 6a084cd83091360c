use kafka_sync::error::KafkaError;
use kafka_sync::kafka::{
    build_commit_list, build_rewind_list, consumer_config, next_receive, open_window, CommitAction,
    CommitReply, ConnectReply, ConsumedBatch, DrainAction, DrainEvent, KafkaConsumer, RewindAction,
    SeekReply,
};
use rdkafka::error::KafkaError as ClientError;
use rdkafka::types::RDKafkaErrorCode;
use rdkafka::topic_partition_list::{Offset, TopicPartitionList};
use std::collections::BTreeMap;

fn consumer() -> KafkaConsumer<u8> {
    KafkaConsumer { topic: "events".to_owned(), consumer: 7 }
}

fn message(value: Option<&[u8]>, partition: i32, offset: i64) -> DrainEvent<'_> {
    DrainEvent::Message { value, partition, offset }
}

#[test]
fn a_window_collects_values_and_highest_offsets() {
    let (mut batch, action) = open_window(1024);
    assert_eq!(action, DrainAction::Receive);
    let c = consumer();
    assert_eq!(c.drain_window(&mut batch, 1024, message(Some(b"one"), 1, 5)), DrainAction::Receive);
    assert_eq!(c.drain_window(&mut batch, 1024, message(None, 0, 9)), DrainAction::Receive);
    assert_eq!(c.drain_window(&mut batch, 1024, message(Some(b""), 1, 7)), DrainAction::Receive);
    assert_eq!(c.drain_window(&mut batch, 1024, message(Some(b"two"), 1, 6)), DrainAction::Receive);
    assert_eq!(c.drain_window(&mut batch, 1024, DrainEvent::Elapsed), DrainAction::Close);
    assert_eq!(batch.payload, b"one\n\ntwo\n");
    assert_eq!(batch.message_count, 4);
    assert_eq!(batch.partition_offsets, BTreeMap::from([(0, 9), (1, 7)]));
    assert_eq!(batch.first_offsets, BTreeMap::from([(0, 9), (1, 5)]));
}

#[test]
fn consumption_errors_back_off_and_keep_the_batch() {
    let (mut batch, _) = open_window(8);
    let c = consumer();
    c.drain_window(&mut batch, 8, message(Some(b"x"), 0, 0));
    let action = c.drain_window(&mut batch, 8, DrainEvent::Failed);
    assert_eq!(action, DrainAction::BackOff { millis: 250 });
    assert_eq!(batch.payload, b"x\n");
    assert_eq!(batch.message_count, 1);
}

#[test]
fn a_window_closes_at_its_byte_bound() {
    let (mut batch, _) = open_window(6);
    let c = consumer();
    assert_eq!(c.drain_window(&mut batch, 6, message(Some(b"ab"), 0, 0)), DrainAction::Receive);
    assert_eq!(c.drain_window(&mut batch, 6, message(None, 0, 1)), DrainAction::Receive);
    assert_eq!(c.drain_window(&mut batch, 6, message(Some(b"cd"), 0, 2)), DrainAction::Close);
    assert_eq!(batch.payload.len(), 6);
    let (mut batch, _) = open_window(6);
    c.drain_window(&mut batch, 6, message(Some(b"abcd"), 0, 0));
    assert_eq!(
        c.drain_window(&mut batch, 6, message(Some(b"0123456789"), 0, 1)),
        DrainAction::Close
    );
    assert_eq!(batch.payload.len(), 16);
    assert_eq!(open_window(0).1, DrainAction::Close);
}

#[test]
fn offsets_ignore_the_order_of_the_records() {
    let records = [(0, 3), (1, 8), (0, 5), (2, 1), (1, 2)];
    let mut forward = ConsumedBatch::default();
    let mut backward = ConsumedBatch::default();
    for (p, o) in records {
        forward.absorb(None, p, o);
    }
    for (p, o) in records.iter().rev() {
        backward.absorb(None, *p, *o);
    }
    assert_eq!(forward.partition_offsets, backward.partition_offsets);
    assert_eq!(forward.partition_offsets, BTreeMap::from([(0, 5), (1, 8), (2, 1)]));
    assert_eq!(forward.first_offsets, backward.first_offsets);
    assert_eq!(forward.first_offsets, BTreeMap::from([(0, 3), (1, 2), (2, 1)]));
    assert!(forward.payload.is_empty());
}

#[test]
fn client_parameters_disable_auto_commit() {
    let brokers = vec!["b1:9092".to_owned(), "b2:9092".to_owned()];
    let config = consumer_config(&brokers, "group-1");
    let expected = BTreeMap::from([
        ("bootstrap.servers", "b1:9092,b2:9092"),
        ("group.id", "group-1"),
        ("client.id", "kafka-sync"),
        ("enable.partition.eof", "false"),
        ("enable.auto.commit", "false"),
        ("enable.auto.offset.store", "false"),
        ("auto.offset.reset", "earliest"),
    ]);
    assert_eq!(config.config_map(), expected);
}

fn assignment(pairs: &[(&str, i32)]) -> TopicPartitionList {
    let mut list = TopicPartitionList::new();
    for (topic, partition) in pairs {
        list.add_partition(topic, *partition);
    }
    list
}

fn contents(list: &TopicPartitionList) -> Vec<(String, i32, Option<i64>)> {
    list.elements()
        .iter()
        .map(|e| (e.topic().to_owned(), e.partition(), e.offset().to_raw()))
        .collect()
}

#[test]
fn commit_list_holds_next_offsets_of_assigned_partitions() {
    let assigned = assignment(&[("other", 1), ("events", 2), ("events", 0)]);
    let offsets = BTreeMap::from([(0, 41), (1, 7), (2, 0), (5, 3)]);
    match build_commit_list(&assigned, "events", &offsets) {
        Ok(list) => assert_eq!(
            contents(&list),
            vec![("events".to_owned(), 0, Some(42)), ("events".to_owned(), 2, Some(1))]
        ),
        Err(error) => panic!("{error:?}"),
    }
}

#[test]
fn commit_list_saturates_and_refuses_negative_offsets() {
    let assigned = assignment(&[("events", 0), ("events", 1)]);
    match build_commit_list(&assigned, "events", &BTreeMap::from([(0, i64::MAX), (1, -1)])) {
        Ok(list) => assert_eq!(
            contents(&list),
            vec![("events".to_owned(), 0, Some(i64::MAX)), ("events".to_owned(), 1, Some(0))]
        ),
        Err(error) => panic!("{error:?}"),
    }
    assert!(matches!(
        build_commit_list(&assigned, "events", &BTreeMap::from([(0, 5), (1, -2)])),
        Err(KafkaError::CommitList { topic, source })
            if topic == "events"
                && source == ClientError::SetPartitionOffset(RDKafkaErrorCode::InvalidArgument)
    ));
    // A partition that is not assigned is not looked at.
    let offsets = BTreeMap::from([(0, 5), (9, -2)]);
    match build_commit_list(&assigned, "events", &offsets) {
        Ok(list) => assert_eq!(contents(&list), vec![("events".to_owned(), 0, Some(6))]),
        Err(error) => panic!("{error:?}"),
    }
    match build_commit_list(&assignment(&[]), "events", &offsets) {
        Ok(list) => assert_eq!(list.count(), 0),
        Err(error) => panic!("{error:?}"),
    }
}

#[test]
fn connecting_reports_the_stage_that_failed() {
    let created = KafkaConsumer::<u8>::connect("t", ConnectReply::NotCreated(ClientError::Canceled));
    assert!(matches!(created, Err(KafkaError::Create { topic, source: ClientError::Canceled })
        if topic == "t"));
    let subscribed =
        KafkaConsumer::<u8>::connect("t", ConnectReply::NotSubscribed(ClientError::Canceled));
    assert!(matches!(subscribed, Err(KafkaError::Subscribe { topic, source: ClientError::Canceled })
        if topic == "t"));
    match KafkaConsumer::connect("t", ConnectReply::Subscribed(3_u8)) {
        Ok(connected) => {
            assert_eq!(connected.topic, "t");
            assert_eq!(connected.shutdown(), 3);
        }
        Err(error) => panic!("{error:?}"),
    }
}

#[test]
fn a_commit_reads_the_assignment_then_commits() {
    let c = consumer();
    assert!(matches!(c.commit_offsets(&BTreeMap::new()), CommitAction::Finish(Ok(()))));
    let offsets = BTreeMap::from([(0, 9)]);
    assert!(matches!(c.commit_offsets(&offsets), CommitAction::ReadAssignment));
    match c.commit_assigned(&offsets, Ok(assignment(&[("events", 0)]))) {
        CommitAction::Commit(list) => {
            assert_eq!(contents(&list), vec![("events".to_owned(), 0, Some(10))]);
            assert!(list.elements().iter().all(|e| e.offset() == Offset::Offset(10)));
        }
        _ => panic!("a commit is due"),
    }
    assert!(matches!(
        c.commit_assigned(&offsets, Err(ClientError::Canceled)),
        CommitAction::Finish(Err(KafkaError::Assignment { topic, source: ClientError::Canceled }))
            if topic == "events"
    ));
    assert!(matches!(
        c.commit_assigned(&BTreeMap::from([(0, -7)]), Ok(assignment(&[("events", 0)]))),
        CommitAction::Finish(Err(KafkaError::CommitList { topic, .. })) if topic == "events"
    ));
}

#[test]
fn a_commit_ends_as_the_broker_answers() {
    let c = consumer();
    assert!(c.commit_outcome(CommitReply::Acknowledged).is_ok());
    assert!(matches!(
        c.commit_outcome(CommitReply::Rejected(ClientError::Canceled)),
        Err(KafkaError::Commit { topic, source: ClientError::Canceled }) if topic == "events"
    ));
    let runtime = match tokio::runtime::Builder::new_multi_thread().worker_threads(1).build() {
        Ok(runtime) => runtime,
        Err(error) => panic!("{error}"),
    };
    let task = runtime.spawn(std::future::pending::<()>());
    task.abort();
    match runtime.block_on(task) {
        Err(loss) => assert!(matches!(
            c.commit_outcome(CommitReply::TaskLost(loss)),
            Err(KafkaError::Join { topic, source }) if topic == "events" && source.is_cancelled()
        )),
        Ok(()) => panic!("the task was aborted"),
    }
}

#[test]
fn a_topic_with_a_nul_is_never_assigned() {
    let assigned = assignment(&[("events", 0)]);
    match build_commit_list(&assigned, "events\0", &BTreeMap::from([(0, 1)])) {
        Ok(list) => assert_eq!(list.count(), 0),
        Err(error) => panic!("{error:?}"),
    }
}

#[test]
fn only_the_same_topic_and_partition_is_assigned() {
    let assigned = assignment(&[("event", 0), ("events2", 0), ("Events", 0), ("\u{e9}", 3)]);
    match build_commit_list(&assigned, "events", &BTreeMap::from([(0, 1)])) {
        Ok(list) => assert_eq!(list.count(), 0),
        Err(error) => panic!("{error:?}"),
    }
    match build_commit_list(&assigned, "\u{e9}", &BTreeMap::from([(0, 1), (3, 8)])) {
        Ok(list) => assert_eq!(contents(&list), vec![("\u{e9}".to_owned(), 3, Some(9))]),
        Err(error) => panic!("{error:?}"),
    }
}

#[test]
fn a_whole_window_holds_what_it_received() {
    let values: [Option<&[u8]>; 5] = [Some(b"aa"), None, Some(b"bbb"), Some(b""), Some(b"cccc")];
    let c = consumer();
    let (mut batch, mut action) = open_window(9);
    let mut expected = Vec::new();
    let mut offset = 0;
    while action != DrainAction::Close {
        assert!(batch.payload.len() < 9);
        let value = values[offset];
        if let Some(bytes) = value {
            expected.extend_from_slice(bytes);
            expected.push(b'\n');
        }
        action = c.drain_window(&mut batch, 9, message(value, 2, offset as i64));
        offset += 1;
    }
    assert_eq!(offset, 5);
    assert_eq!(batch.payload, expected);
    assert_eq!(batch.message_count, 5);
    assert_eq!(batch.partition_offsets, BTreeMap::from([(2, 4)]));
}

#[test]
fn nothing_is_received_once_the_time_is_over() {
    let back_off = DrainAction::BackOff { millis: 250 };
    for action in [DrainAction::Receive, back_off, DrainAction::Close] {
        assert_eq!(next_receive(action, true), DrainAction::Close);
        assert_eq!(next_receive(action, false), action);
    }
}

#[test]
fn a_consumer_is_set_back_to_where_its_window_began() {
    let assigned = assignment(&[("events", 0), ("events", 2), ("other", 1)]);
    let first = BTreeMap::from([(0, 41), (1, 7), (2, 0)]);
    match build_rewind_list(&assigned, "events", &first) {
        Ok(list) => assert_eq!(
            contents(&list),
            vec![("events".to_owned(), 0, Some(41)), ("events".to_owned(), 2, Some(0))]
        ),
        Err(error) => panic!("{error:?}"),
    }
    assert!(matches!(
        build_rewind_list(&assigned, "events", &BTreeMap::from([(0, -1)])),
        Err(KafkaError::Rewind { topic, source })
            if topic == "events"
                && source == ClientError::SetPartitionOffset(RDKafkaErrorCode::InvalidArgument)
    ));
    let c = consumer();
    assert!(matches!(c.rewind_offsets(&BTreeMap::new()), RewindAction::Finish(Ok(()))));
    assert!(matches!(c.rewind_offsets(&first), RewindAction::ReadAssignment));
    match c.rewind_assigned(&first, Ok(assigned)) {
        RewindAction::Seek(list) => assert_eq!(list.count(), 2),
        _ => panic!("a seek is due"),
    }
    assert!(matches!(
        c.rewind_assigned(&first, Err(ClientError::Canceled)),
        RewindAction::Finish(Err(KafkaError::Assignment { topic, source: ClientError::Canceled }))
            if topic == "events"
    ));
}

#[test]
fn a_seek_succeeds_only_for_all_partitions() {
    let c = consumer();
    assert!(c.rewind_outcome(SeekReply::Answered(Vec::new())).is_ok());
    let errors = vec![ClientError::Canceled, ClientError::NoMessageReceived];
    assert!(matches!(
        c.rewind_outcome(SeekReply::Answered(errors)),
        Err(KafkaError::Rewind { topic, source: ClientError::Canceled }) if topic == "events"
    ));
    assert!(matches!(
        c.rewind_outcome(SeekReply::Rejected(ClientError::Canceled)),
        Err(KafkaError::Rewind { topic, source: ClientError::Canceled }) if topic == "events"
    ));
}
