use gbe_core::broker::{extract_domain as key_domain, subject_to_key};
use gbe_core::envelope::Envelope;
use gbe_core::error::TransportError;
use gbe_core::options::{PublishOpts, StartPosition, StreamConfig, SubscribeOpts};
use gbe_core::store::{
    check_open, check_payload_size, dead_letter_subject_of, extract_domain, ConsumerGroup,
    Disposition, StreamStore,
};

const MAX: usize = 1_048_576;

fn publish(store: &mut StreamStore, subject: &str, body: &str) -> String {
    store.publish(subject, body.as_bytes().to_vec(), None, MAX).unwrap()
}

fn bodies(batch: &[Envelope]) -> Vec<String> {
    batch.iter().map(|e| String::from_utf8(e.payload.clone()).unwrap()).collect()
}

#[test]
fn store_test_extract_domain() {
    assert_eq!(extract_domain("gbe.tasks.email-send.queue"), "tasks");
    assert_eq!(extract_domain("gbe.notify.topic.alerts"), "notify");
    assert_eq!(extract_domain("gbe._deadletter.tasks"), "_deadletter");
    assert_eq!(extract_domain("single"), "unknown");
}

#[test]
fn test_subject_to_key() {
    assert_eq!(subject_to_key("gbe.tasks.email-send.queue"), "gbe:tasks:email-send:queue");
    assert_eq!(subject_to_key("gbe.notify.topic.alerts"), "gbe:notify:topic:alerts");
    assert_eq!(subject_to_key("gbe._deadletter.tasks"), "gbe:_deadletter:tasks");
}

#[test]
fn subject_test_extract_domain() {
    assert_eq!(key_domain("gbe:tasks:email-send:queue"), "tasks");
    assert_eq!(key_domain("gbe:notify:topic:alerts"), "notify");
    assert_eq!(key_domain("gbe:_deadletter:tasks"), "_deadletter");
    assert_eq!(key_domain("single"), "unknown");
}

#[test]
fn extract_domain_edge_cases() {
    assert_eq!(extract_domain("gbe.tasks"), "tasks");
    assert_eq!(extract_domain("gbe..x"), "");
    assert_eq!(dead_letter_subject_of("gbe.test.deadletter"), "gbe._deadletter.test");
    assert_eq!(dead_letter_subject_of("orphan"), "gbe._deadletter.unknown");
}

#[test]
fn integration_test_publish_returns_message_id() {
    let mut store = StreamStore::new();
    let id = publish(&mut store, "gbe.test.pubid", "hello");
    assert_eq!(id.len(), 26);
    let st = &store.streams[store.find_stream("gbe.test.pubid").unwrap()];
    assert_eq!(st.messages.len(), 1);
    assert_eq!(st.messages[0].message_id, id);
    assert_eq!(st.messages[0].payload, b"hello".to_vec());
}

#[test]
fn integration_test_payload_too_large() {
    let mut store = StreamStore::new();
    let err = store.publish("gbe.test.large", vec![0u8; 200], None, 100).unwrap_err();
    assert!(matches!(err, TransportError::PayloadTooLarge { size: 200, max: 100 }));
    assert!(store.find_stream("gbe.test.large").is_none());
    assert!(check_payload_size(100, 100).is_ok());
}

#[test]
fn integration_test_close_prevents_operations() {
    assert!(check_open(false).is_ok());
    match check_open(true) {
        Err(TransportError::Other(m)) => assert_eq!(m, "transport is closed"),
        other => panic!("unexpected: {other:?}"),
    }
}

#[test]
fn integration_test_trace_id_propagation() {
    let mut store = StreamStore::new();
    let opts = PublishOpts { trace_id: Some("abc-123-trace".to_string()), idempotency_key: None };
    store.publish("gbe.test.trace", b"traced".to_vec(), Some(opts), MAX).unwrap();
    store.subscribe_group("gbe.test.trace", "trace-group", &StartPosition::Earliest);
    let batch = store.collect_batch("gbe.test.trace", "trace-group", 10, 100);
    assert_eq!(batch[0].trace_id.as_deref(), Some("abc-123-trace"));
}

#[test]
fn integration_test_publish_subscribe_roundtrip() {
    let mut store = StreamStore::new();
    store.subscribe_group("gbe.test.roundtrip", "g", &StartPosition::Earliest);
    for i in 0..3 {
        publish(&mut store, "gbe.test.roundtrip", &format!("msg-{i}"));
    }
    let batch = store.collect_batch("gbe.test.roundtrip", "g", 10, 100);
    assert_eq!(bodies(&batch), vec!["msg-0", "msg-1", "msg-2"]);
    assert!(store.collect_batch("gbe.test.roundtrip", "g", 10, 100).is_empty());
}

#[test]
fn test_nak_triggers_redelivery() {
    let mut store = StreamStore::new();
    store.subscribe_group("gbe.test.nak", "nak-group", &StartPosition::Earliest);
    let id = publish(&mut store, "gbe.test.nak", "retry-me");
    let mut calls = 0;
    let first = store.collect_batch("gbe.test.nak", "nak-group", 10, 100);
    calls += first.len();
    store.nak("gbe.test.nak", "nak-group", &id);
    let second = store.collect_batch("gbe.test.nak", "nak-group", 10, 100);
    calls += second.len();
    assert_eq!(bodies(&second), vec!["retry-me"]);
    store.ack("gbe.test.nak", "nak-group", &id);
    calls += store.collect_batch("gbe.test.nak", "nak-group", 10, 100).len();
    assert_eq!(calls, 2);
}

#[test]
fn redelivery_comes_before_new_messages() {
    let mut store = StreamStore::new();
    store.subscribe_group("gbe.test.order", "g", &StartPosition::Earliest);
    let a = publish(&mut store, "gbe.test.order", "a");
    publish(&mut store, "gbe.test.order", "b");
    let first = store.collect_batch("gbe.test.order", "g", 1, 100);
    assert_eq!(bodies(&first), vec!["a"]);
    store.nak("gbe.test.order", "g", &a);
    let next = store.collect_batch("gbe.test.order", "g", 10, 100);
    assert_eq!(bodies(&next), vec!["a", "b"]);
}

#[test]
fn test_backpressure_max_inflight() {
    let mut store = StreamStore::new();
    store.subscribe_group("gbe.test.backpressure", "bp-group", &StartPosition::Earliest);
    for i in 0..5 {
        publish(&mut store, "gbe.test.backpressure", &format!("bp-{i}"));
    }
    let mut delivered = 0;
    for _ in 0..4 {
        delivered += store.collect_batch("gbe.test.backpressure", "bp-group", 10, 2).len();
    }
    assert_eq!(delivered, 2);
    let ids: Vec<String> = {
        let st = &store.streams[store.find_stream("gbe.test.backpressure").unwrap()];
        st.groups[0].1.pending.clone()
    };
    for id in &ids {
        store.ack("gbe.test.backpressure", "bp-group", id);
    }
    let more = store.collect_batch("gbe.test.backpressure", "bp-group", 10, 2);
    assert_eq!(bodies(&more), vec!["bp-2", "bp-3"]);
}

#[test]
fn integration_test_dead_letter_routing() {
    let mut store = StreamStore::new();
    store.subscribe_group("gbe.test.deadletter", "dl-group", &StartPosition::Earliest);
    let id = publish(&mut store, "gbe.test.deadletter", "doomed");
    let batch = store.collect_batch("gbe.test.deadletter", "dl-group", 10, 100);
    assert_eq!(batch.len(), 1);
    let dl_subject = dead_letter_subject_of("gbe.test.deadletter");
    let body = format!("{{\"original_envelope\":{{\"message_id\":\"{id}\"}},\"reason\":\"forced\"}}");
    let dead = Envelope::new(dl_subject.clone(), body.into_bytes(), None);
    store.dead_letter("gbe.test.deadletter", "dl-group", &id, dead);
    let st = &store.streams[store.find_stream("gbe.test.deadletter").unwrap()];
    assert!(st.groups[0].1.pending.is_empty());
    store.subscribe_group("gbe._deadletter.test", "dl-check", &StartPosition::Earliest);
    let dl = store.collect_batch("gbe._deadletter.test", "dl-check", 10, 100);
    assert_eq!(dl.len(), 1);
    assert!(bodies(&dl)[0].contains("forced"));
}

#[test]
fn test_trim_stream() {
    let mut store = StreamStore::new();
    publish(&mut store, "gbe.test.trim", "old");
    assert_eq!(store.trim_stream("gbe.test.trim", 0), 1);
    assert_eq!(store.trim_stream("gbe.test.trim", 0), 0);
    assert_eq!(store.trim_stream("gbe.test.nonexistent", 0), 0);
}

#[test]
fn trim_shifts_cursors_and_pending() {
    let mut store = StreamStore::new();
    store.subscribe_group("gbe.test.shift", "g", &StartPosition::Earliest);
    for (i, ts) in [10u64, 20, 30].iter().enumerate() {
        let mut e = Envelope::new("gbe.test.shift".to_string(), vec![i as u8], None);
        e.timestamp = *ts;
        store.append(e);
    }
    let batch = store.collect_batch("gbe.test.shift", "g", 2, 100);
    assert_eq!(batch.len(), 2);
    assert_eq!(store.trim_before("gbe.test.shift", 20), 2);
    let st = &store.streams[0];
    assert_eq!(st.messages.len(), 1);
    assert_eq!(st.groups[0].1.cursor, None);
    assert!(st.groups[0].1.pending.is_empty());
    let rest = store.collect_batch("gbe.test.shift", "g", 10, 100);
    assert_eq!(rest.len(), 1);
    assert_eq!(rest[0].timestamp, 30);
}

#[test]
fn test_start_position_latest() {
    let mut store = StreamStore::new();
    publish(&mut store, "gbe.test.latest", "before-subscribe");
    store.subscribe_group("gbe.test.latest", "latest-group", &StartPosition::Latest);
    publish(&mut store, "gbe.test.latest", "after-subscribe");
    let batch = store.collect_batch("gbe.test.latest", "latest-group", 10, 100);
    assert_eq!(bodies(&batch), vec!["after-subscribe"]);
}

#[test]
fn start_from_timestamp_and_id() {
    let mut store = StreamStore::new();
    let mut ids = Vec::new();
    for ts in [100u64, 200, 300] {
        let mut e = Envelope::new("gbe.test.pos".to_string(), ts.to_string().into_bytes(), None);
        e.timestamp = ts;
        ids.push(e.message_id.clone());
        store.append(e);
    }
    store.subscribe_group("gbe.test.pos", "by-ts", &StartPosition::Timestamp(250));
    assert_eq!(bodies(&store.collect_batch("gbe.test.pos", "by-ts", 10, 100)), vec!["300"]);
    store.subscribe_group("gbe.test.pos", "by-id", &StartPosition::Id(ids[0].clone()));
    assert_eq!(bodies(&store.collect_batch("gbe.test.pos", "by-id", 10, 100)), vec!["200", "300"]);
    store.subscribe_group("gbe.test.pos", "before-all", &StartPosition::Timestamp(50));
    assert_eq!(store.collect_batch("gbe.test.pos", "before-all", 10, 100).len(), 3);
}

#[test]
fn test_multiple_groups_see_same_messages() {
    let mut store = StreamStore::new();
    store.subscribe_group("gbe.test.multigroup", "group-a", &StartPosition::Earliest);
    store.subscribe_group("gbe.test.multigroup", "group-b", &StartPosition::Earliest);
    publish(&mut store, "gbe.test.multigroup", "shared");
    let a = store.collect_batch("gbe.test.multigroup", "group-a", 10, 100);
    let b = store.collect_batch("gbe.test.multigroup", "group-b", 10, 100);
    assert_eq!(bodies(&a), vec!["shared"]);
    assert_eq!(bodies(&b), vec!["shared"]);
    assert!(store.collect_batch("gbe.test.multigroup", "group-a", 10, 100).is_empty());
}

#[test]
fn integration_test_ensure_stream_idempotent() {
    let mut store = StreamStore::new();
    let config = StreamConfig { subject: "gbe.test.ensure".to_string(), max_age_ms: 3_600_000, max_bytes: None, max_msgs: None };
    let a = store.ensure_stream(config.clone());
    let b = store.ensure_stream(config);
    assert_eq!(a, b);
    assert_eq!(store.streams.len(), 1);
    assert_eq!(store.streams[0].config.as_ref().unwrap().max_age_ms, 3_600_000);
}

#[test]
fn repeated_ack_is_a_no_op() {
    let mut store = StreamStore::new();
    store.subscribe_group("gbe.test.ack", "g", &StartPosition::Earliest);
    let id = publish(&mut store, "gbe.test.ack", "x");
    publish(&mut store, "gbe.test.ack", "y");
    store.collect_batch("gbe.test.ack", "g", 10, 100);
    store.ack("gbe.test.ack", "g", &id);
    store.ack("gbe.test.ack", "g", &id);
    assert_eq!(store.streams[0].groups[0].1.pending.len(), 1);
    let mut d = Disposition::new();
    assert!(d.claim());
    assert!(!d.claim());
    assert!(!d.claim());
}

#[test]
fn unknown_subscription_is_untouched() {
    let mut store = StreamStore::new();
    publish(&mut store, "gbe.test.none", "x");
    assert!(store.collect_batch("gbe.test.none", "missing", 10, 100).is_empty());
    store.ack("gbe.test.none", "missing", "id");
    store.nak("gbe.test.none", "missing", "id");
    assert!(store.streams[0].groups.is_empty());
}

#[test]
fn subscribe_defaults() {
    let opts = SubscribeOpts::default();
    assert_eq!(opts.batch_size, 10);
    assert_eq!(opts.max_inflight, 100);
    assert_eq!(opts.ack_timeout_ms, 30_000);
    assert!(matches!(opts.start_from, StartPosition::Latest));
    let g = ConsumerGroup::new(Some(3));
    assert_eq!(g.cursor, Some(3));
    assert!(g.pending.is_empty() && g.redeliver.is_empty());
}
