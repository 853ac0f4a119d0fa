//! Validation of XML files stored in MinIO: configuration, the pool of MinIO
//! clients, the chunked download stream, the validators and the request
//! handling of the gRPC service.

pub mod config;
pub mod diagnostic;
pub mod grpc;
pub mod proto;
pub mod registry;
pub mod storage;
pub mod validators;
