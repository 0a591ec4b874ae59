//! Transport and storage engine for shipping host-status snapshots from edge
//! nodes to a central collector: a framed wire protocol, a stream-reassembly
//! frame reader, the command state machine of the control plane, the envelope
//! and payload accounting of the data plane, the retention and placement rules
//! of the archive, and the aggregation store behind the query API.

pub mod central_state;
pub mod client;
pub mod datetime;
pub mod errors;
pub mod file_info;
pub mod ingest;
pub mod log_utils;
pub mod message;
pub mod message_reader;
pub mod retention;
pub mod server;
pub mod text;
pub mod wire;
