//! Signed topic records, their verified store, health counters and the
//! bounded resolver protocol.
pub mod encoding;
pub mod entry;
pub mod health;
pub mod order;
pub mod protocol;
pub mod store;

pub use entry::{
    DEFAULT_LEASE_DURATION_MS, DIRECTORY_PROTOCOL_VERSION, DirectoryOperation, EndpointBytes,
    ExchangeKind, TopicEntry, TopicRecordSpec, TopicWithdrawal, default_lease_deadline_ms,
    next_revision_seed, unix_time_ms,
};
pub use health::{ControlPlaneHealth, DirectoryHealth};
pub use protocol::{
    MAX_CONTROL_MESSAGE_BYTES, MAX_DIRECTORY_BATCH, RESOLUTION_TOPIC, RESOLUTION_TYPE_HASH,
    ResolveRequest, ResolveResponse,
};
pub use store::Directory;
