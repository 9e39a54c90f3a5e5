use vstd::prelude::*;

use crate::url::{Host, Url};
use std::ops::Range;

verus! {

/// An error that the sanitizer can produce.
#[derive(Debug)]
pub enum SanitizerError {
    /// DNS resolution timed out for the named host.
    Timeout(String),
    /// A connection followed more redirects than allowed (the maximum).
    TooManyRedirects(usize),
    /// Only HTTPS URLs are permitted.
    NonHttpsUrl,
    /// A connection was attempted to a dangerous domain.
    DangerousDomain(Host),
    /// A dangerous domain was found in a document, at the given byte range.
    DangerousDomainInHtml(Host, Range<usize>),
    /// An inline event handler attribute, with its location if known.
    EventHandler(String, Option<Range<usize>>),
    /// A `javascript:` or `data:` URI, with its location if known.
    DangerousUri(String, Option<Range<usize>>),
    /// An internationalized domain name (highlighted form).
    Idn(String),
    /// A script that is not allowed (its source and location).
    BlockedScript(String, Range<usize>),
    /// A response body exceeding the maximum size (in bytes).
    ContentTooLong(usize),
    /// The declared MIME type does not match the sniffed one.
    MimeMismatch(Option<String>, Option<String>),
    /// The sub-resource request limit was reached.
    MaxSubresources(usize),
    /// The sub-resource depth limit was reached.
    MaxSubresourceDepth(usize),
    /// Fetching a URL (or sub-resource, when the flag is set) failed.
    UrlFetch(Url, Box<SanitizerError>, bool),
    /// The resource type could not be determined.
    UnknownResourceType,
    /// A custom XML entity declaration (potential XML bomb).
    XmlEntityDeclaration,
    /// Embedded active content was detected (its kind).
    ActiveContent(String),
    /// A dangerous construct was detected in JavaScript.
    DangerousJsConstruct(String),
    /// A dangerous construct was detected in CSS.
    DangerousCssConstruct(String),
    /// Any other failure, by its message.
    Other(String),
}

/// A message that the sanitizer can produce.
#[derive(Debug)]
pub enum SanitizerMessage {
    Error(SanitizerError),
    CrawlingSubresource { depth: usize, url: Url },
}

impl From<SanitizerError> for SanitizerMessage {
    fn from(value: SanitizerError) -> (res: Self) {
        SanitizerMessage::Error(value)
    }
}

impl vstd::std_specs::convert::FromSpecImpl<SanitizerError> for SanitizerMessage {
    open spec fn obeys_from_spec() -> bool {
        true
    }

    open spec fn from_spec(v: SanitizerError) -> Self {
        SanitizerMessage::Error(v)
    }
}

} // verus!
