use vstd::prelude::*;

use crate::url::Url;

verus! {

/// An input of the sanitizer: a local file (by its path) or a remote URL.
#[derive(Debug, Clone)]
pub enum InputSource {
    File(String),
    Url(Url),
}

/// The content fetched from a source, with its declared content type.
#[derive(Debug, Clone)]
pub struct FetchedContent {
    pub source: InputSource,
    pub data: Vec<u8>,
    pub content_type: Option<String>,
}

} // verus!
