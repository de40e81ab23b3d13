//! Configuration and options of the transport and the state store.
//! Durations are held in milliseconds.
use vstd::prelude::*;
use vstd::string::*;

verus! {

/// Default cap on a payload: 1 MiB.
pub const DEFAULT_MAX_PAYLOAD: usize = 1048576;

#[derive(Debug, Clone)]
pub struct TransportConfig {
    pub url: String,
    pub max_payload_size: usize,
}

impl Default for TransportConfig {
    fn default() -> (r: Self)
        ensures
            r.url@ == Seq::<char>::empty(),
            r.max_payload_size == DEFAULT_MAX_PAYLOAD,
    {
        TransportConfig { url: String::new(), max_payload_size: DEFAULT_MAX_PAYLOAD }
    }
}

#[derive(Debug, Clone)]
pub struct MemoryTransportConfig {
    pub max_payload_size: usize,
}

impl Default for MemoryTransportConfig {
    fn default() -> (r: Self)
        ensures
            r.max_payload_size == DEFAULT_MAX_PAYLOAD,
    {
        MemoryTransportConfig { max_payload_size: DEFAULT_MAX_PAYLOAD }
    }
}

/// Configuration of the external-broker transport.
#[derive(Debug, Clone)]
pub struct RedisTransportConfig {
    pub url: String,
    pub max_payload_size: usize,
}

impl Default for RedisTransportConfig {
    fn default() -> (r: Self)
        ensures
            r.url@ == "redis://127.0.0.1:6379"@,
            r.max_payload_size == DEFAULT_MAX_PAYLOAD,
    {
        RedisTransportConfig { url: String::from_str("redis://127.0.0.1:6379"), max_payload_size: DEFAULT_MAX_PAYLOAD }
    }
}

#[derive(Debug, Clone)]
pub struct StateStoreConfig {
    pub url: String,
}

#[derive(Debug, Clone, Default)]
pub struct PublishOpts {
    pub trace_id: Option<String>,
    pub idempotency_key: Option<String>,
}

/// Where a new consumer group starts reading.
#[derive(Debug, Clone)]
pub enum StartPosition {
    /// Only messages published after subscribing.
    Latest,
    /// Everything currently retained.
    Earliest,
    /// After the last entry whose timestamp is below this one.
    Timestamp(u64),
    /// After the entry with this message id.
    Id(String),
}

#[derive(Debug, Clone)]
pub struct SubscribeOpts {
    /// Most envelopes per delivery cycle.
    pub batch_size: u32,
    /// Cap on unacknowledged messages per group.
    pub max_inflight: u32,
    /// Idle time after which an unacknowledged message may be reclaimed.
    pub ack_timeout_ms: u64,
    pub start_from: StartPosition,
}

impl Default for SubscribeOpts {
    fn default() -> (r: Self)
        ensures
            r.batch_size == 10,
            r.max_inflight == 100,
            r.ack_timeout_ms == 30000,
            r.start_from is Latest,
    {
        SubscribeOpts { batch_size: 10, max_inflight: 100, ack_timeout_ms: 30000, start_from: StartPosition::Latest }
    }
}

/// Retention parameters of one subject.
#[derive(Debug, Clone)]
pub struct StreamConfig {
    pub subject: String,
    pub max_age_ms: u64,
    pub max_bytes: Option<u64>,
    pub max_msgs: Option<u64>,
}

/// Comparison of a scan filter.
#[derive(Debug, Clone, Copy, PartialEq, Eq, Structural)]
pub enum ScanOp {
    Eq,
    Lt,
    Gt,
}

} // verus!
