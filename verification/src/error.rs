//! What can go wrong with a document.

use vstd::prelude::*;

verus! {

/// Why a document is refused.
#[derive(Debug, Clone, PartialEq, Eq)]
pub enum CoreError {
    UnsupportedFeed,
    MalformedXml,
    MalformedJsonFeed,
    UnusableFeed,
    InvalidUrl,
    Opml(String),
    InputLimitExceeded(&'static str),
}

/// What a [`CoreError`] says.
pub enum CoreErrorView {
    UnsupportedFeed,
    MalformedXml,
    MalformedJsonFeed,
    UnusableFeed,
    InvalidUrl,
    Opml(Seq<char>),
    InputLimitExceeded(Seq<char>),
}

impl View for CoreError {
    type V = CoreErrorView;

    open spec fn view(&self) -> CoreErrorView {
        match self {
            CoreError::UnsupportedFeed => CoreErrorView::UnsupportedFeed,
            CoreError::MalformedXml => CoreErrorView::MalformedXml,
            CoreError::MalformedJsonFeed => CoreErrorView::MalformedJsonFeed,
            CoreError::UnusableFeed => CoreErrorView::UnusableFeed,
            CoreError::InvalidUrl => CoreErrorView::InvalidUrl,
            CoreError::Opml(message) => CoreErrorView::Opml(message@),
            CoreError::InputLimitExceeded(limit) => CoreErrorView::InputLimitExceeded(limit@),
        }
    }
}

impl CoreErrorView {
    /// The message for a reader.
    pub open spec fn message(self) -> Seq<char> {
        match self {
            CoreErrorView::UnsupportedFeed => "unsupported feed format"@,
            CoreErrorView::MalformedXml => "malformed XML feed"@,
            CoreErrorView::MalformedJsonFeed => "malformed JSON Feed"@,
            CoreErrorView::UnusableFeed => "feed contains no usable metadata"@,
            CoreErrorView::InvalidUrl => "invalid URL"@,
            CoreErrorView::Opml(message) => "OPML error: "@ + message,
            CoreErrorView::InputLimitExceeded(limit) => "input limit exceeded: "@ + limit,
        }
    }
}

impl CoreError {
    /// The message for a reader.
    pub fn message(&self) -> (r: String)
        ensures
            r@ == self@.message(),
    {
        match self {
            CoreError::UnsupportedFeed => "unsupported feed format".to_owned(),
            CoreError::MalformedXml => "malformed XML feed".to_owned(),
            CoreError::MalformedJsonFeed => "malformed JSON Feed".to_owned(),
            CoreError::UnusableFeed => "feed contains no usable metadata".to_owned(),
            CoreError::InvalidUrl => "invalid URL".to_owned(),
            CoreError::Opml(message) => {
                let mut out = "OPML error: ".to_owned();
                out.append(message.as_str());
                out
            },
            CoreError::InputLimitExceeded(limit) => {
                let mut out = "input limit exceeded: ".to_owned();
                out.append(limit);
                out
            },
        }
    }
}

} // verus!
