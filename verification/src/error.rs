//! The error model: one kind per failure cause, every kind terminal for the
//! call that raised it.

use vstd::prelude::*;

use crate::text::int_digits;

verus! {

/// The failure causes a caller can distinguish.
#[derive(Clone, Copy, Debug, PartialEq, Eq, Structural)]
pub enum ErrorKind {
    /// A required environment value (home/profile directory) is unavailable.
    EnvironmentError,
    /// No candidate log path exists.
    NotFound,
    /// The log file exists but could not be read.
    ReadError,
    /// No URL pattern matched the log text.
    PatternNotFound,
    /// A malformed URL at any parse point.
    InvalidUrl,
    /// A network- or HTTP-layer failure.
    TransportError,
    /// The provider signalled credential expiry (status -101).
    AuthExpired,
    /// Any other non-zero provider status.
    ApiError,
    /// The response body does not match the expected schema.
    DecodeError,
}

/// An error of the library. Payloads carry what the provider or the transport
/// reported; `kind` gives the cause, `message` a human-readable string.
#[derive(Clone, Debug, PartialEq)]
pub enum WishError {
    EnvironmentError,
    NotFound,
    ReadError,
    PatternNotFound,
    InvalidUrl,
    TransportError { message: String },
    AuthExpired,
    ApiError { retcode: i64, message: Option<String> },
    DecodeError { message: String },
}

impl WishError {
    /// The kind of this error, as a spec-level value.
    pub open spec fn kind_spec(&self) -> ErrorKind {
        match self {
            WishError::EnvironmentError => ErrorKind::EnvironmentError,
            WishError::NotFound => ErrorKind::NotFound,
            WishError::ReadError => ErrorKind::ReadError,
            WishError::PatternNotFound => ErrorKind::PatternNotFound,
            WishError::InvalidUrl => ErrorKind::InvalidUrl,
            WishError::TransportError { .. } => ErrorKind::TransportError,
            WishError::AuthExpired => ErrorKind::AuthExpired,
            WishError::ApiError { .. } => ErrorKind::ApiError,
            WishError::DecodeError { .. } => ErrorKind::DecodeError,
        }
    }

    /// The kind of this error.
    pub fn kind(&self) -> (k: ErrorKind)
        ensures
            k == self.kind_spec(),
    {
        match self {
            WishError::EnvironmentError => ErrorKind::EnvironmentError,
            WishError::NotFound => ErrorKind::NotFound,
            WishError::ReadError => ErrorKind::ReadError,
            WishError::PatternNotFound => ErrorKind::PatternNotFound,
            WishError::InvalidUrl => ErrorKind::InvalidUrl,
            WishError::TransportError { .. } => ErrorKind::TransportError,
            WishError::AuthExpired => ErrorKind::AuthExpired,
            WishError::ApiError { .. } => ErrorKind::ApiError,
            WishError::DecodeError { .. } => ErrorKind::DecodeError,
        }
    }

    /// The human-readable description of this error, as a spec-level value:
    /// a fixed sentence per cause, with what the transport, the decoder or
    /// the provider reported appended where there is such a report.
    pub open spec fn message_spec(&self) -> Seq<char> {
        match self {
            WishError::EnvironmentError => "Could not find home directory"@,
            WishError::NotFound => "Genshin Impact log file not found. Make sure the game is installed and you've opened wish history at least once."@,
            WishError::ReadError => "Failed to read log file"@,
            WishError::PatternNotFound => "Could not find wish history URL in log file. Please open the wish history in-game, wait for it to load, then try again."@,
            WishError::InvalidUrl => "Invalid URL"@,
            WishError::TransportError { message } => "Request failed: "@ + message@,
            WishError::AuthExpired => "Authkey has expired. Please run the script again to get a new URL."@,
            WishError::ApiError { retcode, message } => match message {
                Some(m) => m@,
                None => "API error: "@ + int_digits(*retcode as int),
            },
            WishError::DecodeError { message } => "Failed to parse response: "@ + message@,
        }
    }

    /// Render this error as a human-readable string.
    pub fn message(&self) -> (m: String)
        ensures
            m@ == self.message_spec(),
    {
        match self {
            WishError::EnvironmentError => String::from_str("Could not find home directory"),
            WishError::NotFound => String::from_str(
                "Genshin Impact log file not found. Make sure the game is installed and you've opened wish history at least once.",
            ),
            WishError::ReadError => String::from_str("Failed to read log file"),
            WishError::PatternNotFound => String::from_str(
                "Could not find wish history URL in log file. Please open the wish history in-game, wait for it to load, then try again.",
            ),
            WishError::InvalidUrl => String::from_str("Invalid URL"),
            WishError::TransportError { message } => {
                let mut s = String::from_str("Request failed: ");
                s.append(message.as_str());
                s
            },
            WishError::AuthExpired => String::from_str(
                "Authkey has expired. Please run the script again to get a new URL.",
            ),
            WishError::ApiError { retcode, message } => match message {
                Some(m) => m.clone(),
                None => {
                    let mut s = String::from_str("API error: ");
                    let digits = crate::text::i64_to_string(*retcode);
                    s.append(digits.as_str());
                    s
                },
            },
            WishError::DecodeError { message } => {
                let mut s = String::from_str("Failed to parse response: ");
                s.append(message.as_str());
                s
            },
        }
    }
}

} // verus!
