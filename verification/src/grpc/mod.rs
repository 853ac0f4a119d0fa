//! The gRPC service.

pub mod convert;
pub mod responses;
pub mod service;
