//! The errors of configuration and of relaying.

use vstd::prelude::*;

verus! {

/// Why a configuration could not be had.
#[derive(Debug)]
pub enum ConfigError {
    /// The file could not be read.
    Io { path: String, message: String },
    /// The file is not a configuration.
    Parse { path: String, message: String },
    /// The configuration breaks a rule.
    Validation(String),
    /// The outbound HTTP client could not be built.
    HttpClient(String),
}

impl ConfigError {
    /// The error's text.
    pub fn to_string(&self) -> (s: String)
        ensures
            s@ == match self {
                ConfigError::Io { path, message } => "failed to read config file "@ + path@ + ": "@
                    + message@,
                ConfigError::Parse { path, message } => "failed to parse config file "@ + path@
                    + ": "@ + message@,
                ConfigError::Validation(m) => "invalid configuration: "@ + m@,
                ConfigError::HttpClient(m) => "failed to build HTTP client: "@ + m@,
            },
    {
        match self {
            ConfigError::Io { path, message } => {
                let mut s = String::from_str("failed to read config file ");
                s.append(path.as_str());
                s.append(": ");
                s.append(message.as_str());
                s
            },
            ConfigError::Parse { path, message } => {
                let mut s = String::from_str("failed to parse config file ");
                s.append(path.as_str());
                s.append(": ");
                s.append(message.as_str());
                s
            },
            ConfigError::Validation(m) => {
                let mut s = String::from_str("invalid configuration: ");
                s.append(m.as_str());
                s
            },
            ConfigError::HttpClient(m) => {
                let mut s = String::from_str("failed to build HTTP client: ");
                s.append(m.as_str());
                s
            },
        }
    }
}

} // verus!

verus! {

/// Why the relay answered a proxy request itself.
#[derive(Debug)]
pub enum RelayError {
    /// The relay API key in the URL is missing or wrong.
    Unauthorized,
    /// No provider of that name is configured.
    UnknownProvider(String),
    /// The path to forward is empty.
    InvalidPath,
    /// The upstream URL does not parse; the parse error's text.
    InvalidTargetUrl(String),
    /// The upstream request failed; whether it timed out, and the error's text.
    Upstream { timed_out: bool, message: String },
    /// The response could not be built; the error's text.
    ResponseBuild(String),
    /// Every admission slot is taken.
    TooManyRequests { retry_after_seconds: u64 },
}

/// The HTTP status that the relay answers an error with.
pub open spec fn status_of(e: RelayError) -> u16 {
    match e {
        RelayError::Unauthorized => 401,
        RelayError::UnknownProvider(_) => 403,
        RelayError::InvalidPath => 400,
        RelayError::InvalidTargetUrl(_) => 400,
        RelayError::TooManyRequests { .. } => 503,
        RelayError::Upstream { timed_out, .. } => if timed_out {
            504
        } else {
            502
        },
        RelayError::ResponseBuild(_) => 502,
    }
}

/// The machine-readable code of an error.
pub open spec fn code_of(e: RelayError) -> Seq<char> {
    match e {
        RelayError::Unauthorized => "unauthorized"@,
        RelayError::UnknownProvider(_) => "unknown_provider"@,
        RelayError::InvalidPath => "invalid_path"@,
        RelayError::InvalidTargetUrl(_) => "invalid_target_url"@,
        RelayError::Upstream { timed_out, .. } => if timed_out {
            "upstream_timeout"@
        } else {
            "upstream_request_failed"@
        },
        RelayError::ResponseBuild(_) => "response_build_failed"@,
        RelayError::TooManyRequests { .. } => "too_many_requests"@,
    }
}

/// The text of an error.
pub open spec fn text_of(e: RelayError) -> Seq<char> {
    match e {
        RelayError::Unauthorized => "missing or invalid relay API key in the proxy URL"@,
        RelayError::UnknownProvider(p) => "provider is not allowed: "@ + p@,
        RelayError::InvalidPath => "proxy path is missing"@,
        RelayError::InvalidTargetUrl(m) => "failed to build upstream URL: "@ + m@,
        RelayError::Upstream { message, .. } => "upstream request failed: "@ + message@,
        RelayError::ResponseBuild(m) => "failed to build response: "@ + m@,
        RelayError::TooManyRequests { .. } => "too many in-flight requests"@,
    }
}

/// What the relay sends back for an error: status, code and text for the JSON body, and a
/// `Retry-After` value when there is one.
pub struct ErrorResponse {
    pub status: u16,
    pub error: String,
    pub message: String,
    pub retry_after: Option<String>,
}

impl RelayError {
    /// The HTTP status for this error.
    pub fn status_code(&self) -> (s: u16)
        ensures
            s == status_of(*self),
    {
        match self {
            RelayError::Unauthorized => 401,
            RelayError::UnknownProvider(_) => 403,
            RelayError::InvalidPath | RelayError::InvalidTargetUrl(_) => 400,
            RelayError::TooManyRequests { .. } => 503,
            RelayError::Upstream { timed_out, .. } => if *timed_out {
                504
            } else {
                502
            },
            RelayError::ResponseBuild(_) => 502,
        }
    }

    /// The machine-readable code for this error.
    pub fn error_code(&self) -> (c: &'static str)
        ensures
            c@ == code_of(*self),
    {
        match self {
            RelayError::Unauthorized => "unauthorized",
            RelayError::UnknownProvider(_) => "unknown_provider",
            RelayError::InvalidPath => "invalid_path",
            RelayError::InvalidTargetUrl(_) => "invalid_target_url",
            RelayError::Upstream { timed_out, .. } => if *timed_out {
                "upstream_timeout"
            } else {
                "upstream_request_failed"
            },
            RelayError::ResponseBuild(_) => "response_build_failed",
            RelayError::TooManyRequests { .. } => "too_many_requests",
        }
    }

    /// The text of this error.
    pub fn to_string(&self) -> (s: String)
        ensures
            s@ == text_of(*self),
    {
        match self {
            RelayError::Unauthorized => String::from_str(
                "missing or invalid relay API key in the proxy URL",
            ),
            RelayError::UnknownProvider(p) => {
                let mut s = String::from_str("provider is not allowed: ");
                s.append(p.as_str());
                s
            },
            RelayError::InvalidPath => String::from_str("proxy path is missing"),
            RelayError::InvalidTargetUrl(m) => {
                let mut s = String::from_str("failed to build upstream URL: ");
                s.append(m.as_str());
                s
            },
            RelayError::Upstream { message, .. } => {
                let mut s = String::from_str("upstream request failed: ");
                s.append(message.as_str());
                s
            },
            RelayError::ResponseBuild(m) => {
                let mut s = String::from_str("failed to build response: ");
                s.append(m.as_str());
                s
            },
            RelayError::TooManyRequests { .. } => String::from_str("too many in-flight requests"),
        }
    }

    /// The response that the relay sends for this error.
    pub fn error_response(&self) -> (r: ErrorResponse)
        ensures
            r.status == status_of(*self),
            r.error@ == code_of(*self),
            r.message@ == text_of(*self),
            match *self {
                RelayError::TooManyRequests { retry_after_seconds } => r.retry_after matches Some(
                    v,
                ) && v@ == crate::text::decimal_text(retry_after_seconds as nat),
                _ => r.retry_after is None,
            },
    {
        let retry_after = match self {
            RelayError::TooManyRequests { retry_after_seconds } => Some(
                crate::text::decimal_string(*retry_after_seconds),
            ),
            _ => None,
        };
        ErrorResponse {
            status: self.status_code(),
            error: String::from_str(self.error_code()),
            message: self.to_string(),
            retry_after,
        }
    }
}

} // verus!
