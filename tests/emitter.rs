use gbe_core::emitter::{dedup_id, dedup_id_at};
use gbe_core::payload::DomainPayload;

#[derive(Debug, Clone, PartialEq)]
struct CreateSandbox {
    image: String,
    cpu: u32,
}

fn now_ms() -> u64 {
    std::time::SystemTime::now().duration_since(std::time::UNIX_EPOCH).unwrap().as_millis() as u64
}

#[test]
fn dedup_id_format() {
    let id = dedup_id("operative", "op-123", "started");
    assert!(id.starts_with("operative-op-123-started-"));
    let parts: Vec<&str> = id.rsplitn(2, '-').collect();
    assert!(parts[0].parse::<u64>().is_ok());
}

#[test]
fn dedup_id_at_exact() {
    assert_eq!(dedup_id_at("watcher", "w-1", "stopped", 1707936000000), "watcher-w-1-stopped-1707936000000");
    assert_eq!(dedup_id_at("a", "b", "c", 0), "a-b-c-0");
    assert_eq!(dedup_id_at("a", "b", "c", u64::MAX), format!("a-b-c-{}", u64::MAX));
}

#[test]
fn ts_auto_set_to_now() {
    let before = now_ms();
    let payload = DomainPayload::new(1, "ts-test", CreateSandbox { image: "test".into(), cpu: 1 });
    let after = now_ms();
    assert!(payload.ts >= before);
    assert!(payload.ts <= after);
}

#[test]
fn payload_keeps_fields() {
    let payload = DomainPayload::new(2, "sb-abc123", CreateSandbox { image: "ubuntu:22.04".into(), cpu: 2 });
    assert_eq!(payload.v, 2);
    assert_eq!(payload.id, "sb-abc123");
    assert_eq!(payload.data, CreateSandbox { image: "ubuntu:22.04".into(), cpu: 2 });
    assert!(payload.ts > 0);
}
