//! The library's error type.
use vstd::prelude::*;
use crate::text::{owned, push_str, u64_to_string};

verus! {

/// Everything that can go wrong. Errors raised by outside libraries are
/// carried as their message, with the facts the library decides on.
#[derive(Debug)]
pub enum ProxyNexusError {
    Database(String),
    RowConversion(String),
    Io(String),
    /// A request that failed before any response arrived.
    Network { message: String, is_timeout: bool, is_connect: bool },
    HttpStatus { domain: String, status: u16 },
    Internal(String),
    Image(String),
    Zip(String),
    Serialization(String),
    Toml(String),
    TomlDe(String),
}

/// A result whose error is the library's.
pub type Result<T> = core::result::Result<T, ProxyNexusError>;

/// A failed fetch worth another try: an overloaded or briefly unavailable
/// upstream (408, 429 or any 5xx), or a connection that timed out or could
/// not be made.
pub open spec fn retryable_spec(e: ProxyNexusError) -> bool {
    match e {
        ProxyNexusError::HttpStatus { status, .. } => status == 408 || status == 429 || (500
            <= status && status < 600),
        ProxyNexusError::Network { is_timeout, is_connect, .. } => is_timeout || is_connect,
        _ => false,
    }
}

/// The message each error displays.
pub open spec fn message_spec(e: ProxyNexusError) -> Seq<char> {
    match e {
        ProxyNexusError::Database(m) => "Database error: "@ + m@,
        ProxyNexusError::RowConversion(m) => "Row conversion error: "@ + m@,
        ProxyNexusError::Io(m) => "IO error: "@ + m@,
        ProxyNexusError::Network { message, .. } => "Network error: "@ + message@,
        ProxyNexusError::HttpStatus { domain, status } => domain@ + " returned error: "@
            + crate::text::decimal(status as nat),
        ProxyNexusError::Internal(m) => "Internal error: "@ + m@,
        ProxyNexusError::Image(m) => "Image error: "@ + m@,
        ProxyNexusError::Zip(m) => "Zip error: "@ + m@,
        ProxyNexusError::Serialization(m) => "Serialization error: "@ + m@,
        ProxyNexusError::Toml(m) => "Toml Serialization error: "@ + m@,
        ProxyNexusError::TomlDe(m) => "Toml Deserialization error: "@ + m@,
    }
}

fn prefixed(prefix: &str, m: &String) -> (r: String)
    ensures
        r@ == prefix@ + m@,
{
    let mut s = owned(prefix);
    push_str(&mut s, m.as_str());
    s
}

impl ProxyNexusError {
    /// Whether a failed catalog fetch is worth another try. A 4xx other than
    /// 408/429 would fail the same way again, and any other error means a real
    /// response arrived or the request never could be made.
    pub fn is_retryable_fetch(&self) -> (r: bool)
        ensures
            r == retryable_spec(*self),
    {
        match self {
            ProxyNexusError::HttpStatus { status, .. } => *status == 408 || *status == 429 || (500
                <= *status && *status < 600),
            ProxyNexusError::Network { is_timeout, is_connect, .. } => *is_timeout || *is_connect,
            _ => false,
        }
    }

    /// The message this error displays.
    pub fn to_string(&self) -> (r: String)
        ensures
            r@ == message_spec(*self),
    {
        match self {
            ProxyNexusError::Database(m) => prefixed("Database error: ", m),
            ProxyNexusError::RowConversion(m) => prefixed("Row conversion error: ", m),
            ProxyNexusError::Io(m) => prefixed("IO error: ", m),
            ProxyNexusError::Network { message, .. } => prefixed("Network error: ", message),
            ProxyNexusError::HttpStatus { domain, status } => {
                let mut s = domain.clone();
                push_str(&mut s, " returned error: ");
                let n = u64_to_string(*status as u64);
                push_str(&mut s, n.as_str());
                s
            },
            ProxyNexusError::Internal(m) => prefixed("Internal error: ", m),
            ProxyNexusError::Image(m) => prefixed("Image error: ", m),
            ProxyNexusError::Zip(m) => prefixed("Zip error: ", m),
            ProxyNexusError::Serialization(m) => prefixed("Serialization error: ", m),
            ProxyNexusError::Toml(m) => prefixed("Toml Serialization error: ", m),
            ProxyNexusError::TomlDe(m) => prefixed("Toml Deserialization error: ", m),
        }
    }
}

} // verus!
