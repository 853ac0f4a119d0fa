//! The messages of the gRPC service.

use vstd::prelude::*;

verus! {

/// A batch of files to validate.
#[derive(Debug)]
pub struct ValidateRequest {
    pub files: Vec<FileRequest>,
}

/// One file to validate: where it is and with which validator.
#[derive(Debug)]
pub struct FileRequest {
    /// Name of a configured MinIO instance.
    pub minio_config_name: String,
    pub bucket: String,
    pub object_key: String,
    /// Name of a registered validator.
    pub validator_id: String,
}

/// How grave a finding is.
#[derive(Debug, Clone, Copy, PartialEq, Eq, Structural)]
pub enum Severity {
    Error,
    Warning,
    Info,
}

/// A finding of a rule.
#[derive(Debug)]
pub struct DiagnosticMessage {
    pub rule_name: String,
    pub message: String,
    pub element_path: String,
    pub element_index: u32,
    pub severity: Severity,
    pub filename: String,
}

/// The end of the work on a file.
#[derive(Debug)]
pub struct FileComplete {
    pub filename: String,
    pub success: bool,
    pub error_message: String,
}

/// What a response carries.
#[derive(Debug)]
pub enum Payload {
    Diagnostic(DiagnosticMessage),
    FileComplete(FileComplete),
}

/// One message of the stream that answers a batch.
#[derive(Debug)]
pub struct ValidateResponse {
    pub payload: Option<Payload>,
}

/// Why a request is refused.
#[derive(Debug, Clone, Copy, PartialEq, Eq, Structural)]
pub enum Code {
    InvalidArgument,
    NotFound,
}

/// The answer to a refused request.
#[derive(Debug)]
pub struct Status {
    pub code: Code,
    pub message: String,
}

} // verus!
