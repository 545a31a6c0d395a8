//! Errors of the command-line client and the process exit codes they map to.

use vstd::prelude::*;

verus! {

/// Exit code: success.
pub const EXIT_OK: i32 = 0;
/// Exit code: usage or configuration error.
pub const EXIT_USAGE: i32 = 1;
/// Exit code: network or HTTP-client failure.
pub const EXIT_NETWORK: i32 = 2;
/// Exit code: the API spec could not be loaded.
pub const EXIT_SPEC: i32 = 3;
/// Exit code: the API answered with a 4xx status.
pub const EXIT_HTTP_4XX: i32 = 4;
/// Exit code: the API answered with a 5xx status.
pub const EXIT_HTTP_5XX: i32 = 5;

/// CLI-specific errors.
pub enum SpallCliError {
    /// The spec of `api` could not be loaded from `source`; `cause` says why.
    SpecLoadFailed { api: String, source: String, cause: String },
    /// The configuration could not be read.
    Config(String),
    /// The command line or an expression in it is wrong.
    Usage(String),
    /// The network failed.
    Network(String),
    /// The HTTP client could not be built or used.
    HttpClient(String),
    /// Credentials for `api` could not be resolved.
    AuthResolution { api: String, message: String },
    /// The local cache could not be read or written.
    Cache(String),
    /// The API answered with this 4xx status.
    Http4xx(u16),
    /// The API answered with this 5xx status.
    Http5xx(u16),
    /// Request validation failed (the diagnostics were already printed).
    ValidationFailed,
}

/// The exit code of each kind of error.
pub open spec fn exit_code_of(e: SpallCliError) -> i32 {
    match e {
        SpallCliError::SpecLoadFailed { .. } => EXIT_SPEC,
        SpallCliError::Config(_) => EXIT_USAGE,
        SpallCliError::Usage(_) => EXIT_USAGE,
        SpallCliError::Network(_) => EXIT_NETWORK,
        SpallCliError::HttpClient(_) => EXIT_NETWORK,
        SpallCliError::AuthResolution { .. } => EXIT_USAGE,
        SpallCliError::Cache(_) => EXIT_USAGE,
        SpallCliError::Http4xx(_) => EXIT_HTTP_4XX,
        SpallCliError::Http5xx(_) => EXIT_HTTP_5XX,
        SpallCliError::ValidationFailed => EXIT_USAGE,
    }
}

/// The one-line message of each kind of error.
pub open spec fn message_of(e: SpallCliError) -> Seq<char> {
    match e {
        SpallCliError::SpecLoadFailed { api, .. } => "Failed to load spec for '"@ + api@ + "'"@,
        SpallCliError::Config(_) => "Config error"@,
        SpallCliError::Usage(m) => "Usage error: "@ + m@,
        SpallCliError::Network(m) => "Network error: "@ + m@,
        SpallCliError::HttpClient(m) => "HTTP client error: "@ + m@,
        SpallCliError::AuthResolution { api, message } => "Auth resolution failed for '"@ + api@ + "': "@ + message@,
        SpallCliError::Cache(m) => "Cache error: "@ + m@,
        SpallCliError::Http4xx(_) => "HTTP client error status"@,
        SpallCliError::Http5xx(_) => "HTTP server error status"@,
        SpallCliError::ValidationFailed => "Request validation failed"@,
    }
}

impl SpallCliError {
    /// The process exit code for this error.
    pub fn exit_code(&self) -> (c: i32)
        ensures
            c == exit_code_of(*self),
    {
        match self {
            SpallCliError::SpecLoadFailed { .. } => EXIT_SPEC,
            SpallCliError::Config(_) => EXIT_USAGE,
            SpallCliError::Usage(_) => EXIT_USAGE,
            SpallCliError::Network(_) => EXIT_NETWORK,
            SpallCliError::HttpClient(_) => EXIT_NETWORK,
            SpallCliError::AuthResolution { .. } => EXIT_USAGE,
            SpallCliError::Cache(_) => EXIT_USAGE,
            SpallCliError::Http4xx(_) => EXIT_HTTP_4XX,
            SpallCliError::Http5xx(_) => EXIT_HTTP_5XX,
            SpallCliError::ValidationFailed => EXIT_USAGE,
        }
    }

    /// The one-line message shown for this error.
    pub fn message(&self) -> (m: String)
        ensures
            m@ == message_of(*self),
    {
        match self {
            SpallCliError::SpecLoadFailed { api, .. } => {
                let mut m = String::from_str("Failed to load spec for '");
                m.append(api.as_str());
                m.append("'");
                m
            }
            SpallCliError::Config(_) => String::from_str("Config error"),
            SpallCliError::Usage(x) => String::from_str("Usage error: ").concat(x.as_str()),
            SpallCliError::Network(x) => String::from_str("Network error: ").concat(x.as_str()),
            SpallCliError::HttpClient(x) => String::from_str("HTTP client error: ").concat(x.as_str()),
            SpallCliError::AuthResolution { api, message } => {
                let mut m = String::from_str("Auth resolution failed for '");
                m.append(api.as_str());
                m.append("': ");
                m.append(message.as_str());
                m
            }
            SpallCliError::Cache(x) => String::from_str("Cache error: ").concat(x.as_str()),
            SpallCliError::Http4xx(_) => String::from_str("HTTP client error status"),
            SpallCliError::Http5xx(_) => String::from_str("HTTP server error status"),
            SpallCliError::ValidationFailed => String::from_str("Request validation failed"),
        }
    }
}

} // verus!
