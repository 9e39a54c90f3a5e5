use vstd::prelude::*;

use crate::sanitizer_engine::resource_sanitizer::{MimeError, SanitizationError};
use crate::url::Host;

verus! {

/// DNS resolution timed out for the named host.
#[derive(Debug, Clone)]
pub struct TimeoutError(pub String);

/// A connection followed too many redirects.
#[derive(Debug, Clone)]
pub struct TooManyRedirects;

/// A connection to a dangerous domain.
#[derive(Debug, Clone)]
pub struct DangerousDomain(pub Host);

/// A dangerous domain in a document, at the given byte offset.
#[derive(Debug, Clone)]
pub struct DangerousDomainInHtml(pub Host, pub usize);

/// An inline event handler attribute, at the given byte offset if known.
#[derive(Debug, Clone)]
pub struct EventHandler(pub String, pub Option<usize>);

/// An internationalized domain name (highlighted form).
#[derive(Debug, Clone)]
pub struct IDN(pub String);

/// A response body exceeding the maximum size (in bytes).
#[derive(Debug, Clone)]
pub struct ContentTooLong(pub usize);

/// Any error that the engine logs.
#[derive(Debug, Clone)]
pub enum LoggerError {
    Timeout(TimeoutError),
    TooManyRedirects(TooManyRedirects),
    DangerousDomain(DangerousDomain),
    DangerousDomainInHtml(DangerousDomainInHtml),
    EventHandler(EventHandler),
    Idn(IDN),
    ContentTooLong(ContentTooLong),
    Sanitization(SanitizationError),
    Mime(MimeError),
    Message(String),
}

impl From<TimeoutError> for LoggerError {
    fn from(e: TimeoutError) -> Self {
        LoggerError::Timeout(e)
    }
}

impl vstd::std_specs::convert::FromSpecImpl<TimeoutError> for LoggerError {
    open spec fn obeys_from_spec() -> bool {
        true
    }

    open spec fn from_spec(e: TimeoutError) -> Self {
        LoggerError::Timeout(e)
    }
}

impl From<TooManyRedirects> for LoggerError {
    fn from(e: TooManyRedirects) -> Self {
        LoggerError::TooManyRedirects(e)
    }
}

impl vstd::std_specs::convert::FromSpecImpl<TooManyRedirects> for LoggerError {
    open spec fn obeys_from_spec() -> bool {
        true
    }

    open spec fn from_spec(e: TooManyRedirects) -> Self {
        LoggerError::TooManyRedirects(e)
    }
}

impl From<DangerousDomain> for LoggerError {
    fn from(e: DangerousDomain) -> Self {
        LoggerError::DangerousDomain(e)
    }
}

impl vstd::std_specs::convert::FromSpecImpl<DangerousDomain> for LoggerError {
    open spec fn obeys_from_spec() -> bool {
        true
    }

    open spec fn from_spec(e: DangerousDomain) -> Self {
        LoggerError::DangerousDomain(e)
    }
}

impl From<DangerousDomainInHtml> for LoggerError {
    fn from(e: DangerousDomainInHtml) -> Self {
        LoggerError::DangerousDomainInHtml(e)
    }
}

impl vstd::std_specs::convert::FromSpecImpl<DangerousDomainInHtml> for LoggerError {
    open spec fn obeys_from_spec() -> bool {
        true
    }

    open spec fn from_spec(e: DangerousDomainInHtml) -> Self {
        LoggerError::DangerousDomainInHtml(e)
    }
}

impl From<EventHandler> for LoggerError {
    fn from(e: EventHandler) -> Self {
        LoggerError::EventHandler(e)
    }
}

impl vstd::std_specs::convert::FromSpecImpl<EventHandler> for LoggerError {
    open spec fn obeys_from_spec() -> bool {
        true
    }

    open spec fn from_spec(e: EventHandler) -> Self {
        LoggerError::EventHandler(e)
    }
}

impl From<IDN> for LoggerError {
    fn from(e: IDN) -> Self {
        LoggerError::Idn(e)
    }
}

impl vstd::std_specs::convert::FromSpecImpl<IDN> for LoggerError {
    open spec fn obeys_from_spec() -> bool {
        true
    }

    open spec fn from_spec(e: IDN) -> Self {
        LoggerError::Idn(e)
    }
}

impl From<ContentTooLong> for LoggerError {
    fn from(e: ContentTooLong) -> Self {
        LoggerError::ContentTooLong(e)
    }
}

impl vstd::std_specs::convert::FromSpecImpl<ContentTooLong> for LoggerError {
    open spec fn obeys_from_spec() -> bool {
        true
    }

    open spec fn from_spec(e: ContentTooLong) -> Self {
        LoggerError::ContentTooLong(e)
    }
}

} // verus!
