//! The errors of the library and the exit codes they map to.
use vstd::prelude::*;

verus! {

/// The file-system operation that failed.
#[derive(Clone, Copy, Debug, PartialEq, Eq, Structural)]
pub enum IoOp {
    Read,
    Write,
    Create,
    Rename,
    Metadata,
}

/// A coarse classification of an operating-system I/O failure.
#[derive(Clone, Copy, Debug, PartialEq, Eq, Structural)]
pub enum IoErrorKind {
    AlreadyExists,
    InvalidInput,
    NotFound,
    PermissionDenied,
    TimedOut,
    Other,
}

/// An I/O failure as the library sees it: its kind and its message.
#[derive(Clone, Debug)]
pub struct IoFailure {
    pub kind: IoErrorKind,
    pub message: String,
}

/// The cause of a network failure: the kind of the I/O error it is, when it
/// is one, and its rendered message.
#[derive(Clone, Debug)]
pub struct BoxError {
    pub io_kind: Option<IoErrorKind>,
    pub message: String,
}

/// Every way a command can fail.
#[derive(Clone, Debug)]
pub enum GfileError {
    /// The URL is not a GigaFile download page.
    InvalidUrl { url: String, reason: String },
    /// A request could not be completed.
    Network { source: BoxError, context: String },
    /// The server answered with an unexpected HTTP status.
    HttpStatus { status: u16, url: String },
    /// A page or a response could not be understood.
    Parse { what: String, hint: String },
    /// The number of bytes received differs from the announced length.
    SizeMismatch { expected: u64, actual: u64 },
    /// A file-system operation failed.
    Io { source: IoFailure, path: String, op: IoOp },
    /// The server refused an upload.
    UploadRejected { detail: String },
}

/// The process exit code that each kind of failure maps to.
pub open spec fn spec_exit_code(e: GfileError) -> u8 {
    match e {
        GfileError::InvalidUrl { .. } => 10,
        GfileError::Network { .. } => 11,
        GfileError::HttpStatus { .. } => 12,
        GfileError::Parse { .. } => 13,
        GfileError::SizeMismatch { .. } => 17,
        GfileError::Io { .. } => 18,
        GfileError::UploadRejected { .. } => 19,
    }
}

impl GfileError {
    /// Process exit code for this error.
    pub fn exit_code(&self) -> (code: u8)
        ensures
            code == spec_exit_code(*self),
    {
        match self {
            GfileError::InvalidUrl { .. } => 10,
            GfileError::Network { .. } => 11,
            GfileError::HttpStatus { .. } => 12,
            GfileError::Parse { .. } => 13,
            GfileError::SizeMismatch { .. } => 17,
            GfileError::Io { .. } => 18,
            GfileError::UploadRejected { .. } => 19,
        }
    }
}

} // verus!
