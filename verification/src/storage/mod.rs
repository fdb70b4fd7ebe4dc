//! Stored state and its transfer.

pub mod automerge_store;
pub mod certificate_store;
pub mod documents;
pub mod entry_json;
pub mod enrollment_transport;
pub mod json_convert;
pub mod laws;
pub mod mesh_sync_transport;
pub mod streaming_transfer;
pub mod sync_transport;
pub mod typed_collection;
