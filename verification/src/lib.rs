//! An MQTT broker core for protocol versions 3.1.1 and 5.0: a wire codec, a
//! topic-filter matcher, the topic tree that names queues, a write-ahead log
//! with replay, the in-memory message store with its job queue, the
//! coordinator state machine over all of them, worker delivery decisions and
//! a metrics sink. Every function carries a contract; the host around the
//! library supplies sockets, files, clocks and threads.

pub mod codec;
pub mod coordinator;
pub mod metrics;
pub mod packets;
pub mod session;
pub mod store;
pub mod structure;
pub mod topic;
pub mod topic_tree;
pub mod wal;
pub mod worker;
