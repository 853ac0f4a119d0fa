//! Access to MinIO: the pool of clients and the streaming download.

pub mod client;
pub mod download;
pub mod endpoint;
pub mod stream;
