//! The peer-to-peer synchronization layer of a tangle node: the type-length-value packet
//! codec, the registry of connected peers, the tracker of in-flight requests and the
//! coordinator decisions that tie them together.

pub mod budget;
pub mod coordinator;
pub mod packet;
pub mod peer;
pub mod requester;
pub mod storage;
pub mod sync_status;
pub mod tlv;
pub mod version_checker;
