//! Shared data types: the event record, the error taxonomy, and the mapping
//! from an error to the response the ingestion boundary returns for it.
use vstd::prelude::*;
use vstd::string::*;

verus! {

/// One event record: which user, which event label, and when (UTC seconds
/// since the epoch). Immutable once created.
#[derive(Debug, Clone)]
pub struct LogEvent {
    pub user_id: String,
    pub event: String,
    pub timestamp: u64,
}

/// The mathematical content of a `LogEvent`.
pub struct LogEventView {
    pub user_id: Seq<char>,
    pub event: Seq<char>,
    pub timestamp: u64,
}

impl View for LogEvent {
    type V = LogEventView;

    open spec fn view(&self) -> LogEventView {
        LogEventView { user_id: self.user_id@, event: self.event@, timestamp: self.timestamp }
    }
}

/// The failure taxonomy of the pipeline.
///
/// `JsonParseError` covers malformed input: an event record that does not
/// parse, or a bucket key with the wrong shape met during a drain.
/// `RedisError` is a store connectivity or command failure, `FileError` a
/// directory/open/write/flush failure, `SerializationError` an encode
/// failure. Each carries a human-readable detail message.
#[derive(Debug)]
pub enum AppError {
    JsonParseError(String),
    FileError(String),
    SerializationError(String),
    RedisError(String),
}

/// The mathematical content of an `AppError`: its category and its detail
/// message.
pub enum AppErrorView {
    JsonParseError(Seq<char>),
    FileError(Seq<char>),
    SerializationError(Seq<char>),
    RedisError(Seq<char>),
}

impl View for AppError {
    type V = AppErrorView;

    open spec fn view(&self) -> AppErrorView {
        match self {
            AppError::JsonParseError(m) => AppErrorView::JsonParseError(m@),
            AppError::FileError(m) => AppErrorView::FileError(m@),
            AppError::SerializationError(m) => AppErrorView::SerializationError(m@),
            AppError::RedisError(m) => AppErrorView::RedisError(m@),
        }
    }
}

/// Body of an error response at the ingestion boundary.
#[derive(Debug)]
pub struct ErrorResponse {
    pub error: String,
    pub details: String,
}

/// The HTTP status for each error category: bad input is the caller's fault,
/// everything else is a backend failure.
pub open spec fn spec_status_code(e: &AppError) -> u16 {
    match e {
        AppError::JsonParseError(_) => 400,
        AppError::FileError(_) => 500,
        AppError::SerializationError(_) => 500,
        AppError::RedisError(_) => 500,
    }
}

/// The category label reported for each error.
pub open spec fn spec_error_label(e: &AppError) -> Seq<char> {
    match e {
        AppError::JsonParseError(_) => "Invalid JSON format"@,
        AppError::FileError(_) => "File operation failed"@,
        AppError::SerializationError(_) => "Serialization failed"@,
        AppError::RedisError(_) => "Cache operation failed"@,
    }
}

/// The detail line reported for each error.
pub open spec fn spec_error_details(e: &AppError) -> Seq<char> {
    match e {
        AppError::JsonParseError(msg) => "Failed to parse JSON: "@ + msg@,
        AppError::FileError(msg) => "Could not write to file: "@ + msg@,
        AppError::SerializationError(msg) => "Could not serialize data: "@ + msg@,
        AppError::RedisError(msg) => "Redis error: "@ + msg@,
    }
}

impl AppError {
    /// The HTTP status code this error is reported with.
    pub fn status_code(&self) -> (code: u16)
        ensures
            code == spec_status_code(self),
    {
        match self {
            AppError::JsonParseError(_) => 400,
            AppError::FileError(_) => 500,
            AppError::SerializationError(_) => 500,
            AppError::RedisError(_) => 500,
        }
    }

    /// The response body this error is reported with.
    pub fn to_error_response(&self) -> (resp: ErrorResponse)
        ensures
            resp.error@ == spec_error_label(self),
            resp.details@ == spec_error_details(self),
    {
        let mut error = String::new();
        let mut details = String::new();
        match self {
            AppError::JsonParseError(msg) => {
                error.append("Invalid JSON format");
                details.append("Failed to parse JSON: ");
                details.append(msg.as_str());
            },
            AppError::FileError(msg) => {
                error.append("File operation failed");
                details.append("Could not write to file: ");
                details.append(msg.as_str());
            },
            AppError::SerializationError(msg) => {
                error.append("Serialization failed");
                details.append("Could not serialize data: ");
                details.append(msg.as_str());
            },
            AppError::RedisError(msg) => {
                error.append("Cache operation failed");
                details.append("Redis error: ");
                details.append(msg.as_str());
            },
        }
        ErrorResponse { error, details }
    }
}

} // verus!
