//! What is known of a stream of bytes besides the bytes.

use vstd::prelude::*;

use crate::text;

verus! {

/// Hints about a document. Each is as the caller or the transport gave it;
/// none has been checked against the bytes.
#[derive(Debug, PartialEq, Eq)]
pub struct StreamInfo {
    pub filename: Option<String>,
    /// What follows the last dot of the filename.
    pub extension: Option<String>,
    /// The declared content type, whole.
    pub content_type: Option<String>,
    /// The declared content type without its parameters.
    pub mimetype: Option<String>,
    pub charset: Option<String>,
    pub url: Option<String>,
}

/// What a [`StreamInfo`] says.
pub struct StreamInfoView {
    pub filename: Option<Seq<char>>,
    pub extension: Option<Seq<char>>,
    pub content_type: Option<Seq<char>>,
    pub mimetype: Option<Seq<char>>,
    pub charset: Option<Seq<char>>,
    pub url: Option<Seq<char>>,
}

/// The extension of a filename.
pub open spec fn extension_of(filename: Seq<char>) -> Option<Seq<char>> {
    match text::cut_last(filename, '.') {
        Some((_, extension)) => Some(extension),
        None => None,
    }
}

/// A content type without its parameters.
pub open spec fn essence(content_type: Seq<char>) -> Seq<char> {
    text::trimmed(text::before_any(content_type, ";"@))
}

impl StreamInfoView {
    /// Nothing is known.
    pub open spec fn blank() -> Self {
        StreamInfoView {
            filename: None,
            extension: None,
            content_type: None,
            mimetype: None,
            charset: None,
            url: None,
        }
    }

    pub open spec fn named(self, filename: Seq<char>) -> Self {
        StreamInfoView {
            filename: Some(filename),
            extension: extension_of(filename),
            ..self
        }
    }

    pub open spec fn typed(self, content_type: Seq<char>) -> Self {
        StreamInfoView {
            content_type: Some(content_type),
            mimetype: Some(essence(content_type)),
            ..self
        }
    }

    pub open spec fn encoded(self, charset: Seq<char>) -> Self {
        StreamInfoView { charset: Some(charset), ..self }
    }

    pub open spec fn located(self, url: Seq<char>) -> Self {
        StreamInfoView { url: Some(url), ..self }
    }

    /// With the charset set, unless it is known.
    pub open spec fn encoded_or(self, charset: Seq<char>) -> Self {
        if self.charset is None {
            self.encoded(charset)
        } else {
            self
        }
    }

    /// With the filename set, unless it is known or there is none to set.
    pub open spec fn named_or(self, filename: Option<Seq<char>>) -> Self {
        match filename {
            Some(f) if self.filename is None => self.named(f),
            _ => self,
        }
    }

    /// With the content type set, unless it is known or there is none to set.
    pub open spec fn typed_or(self, content_type: Option<Seq<char>>) -> Self {
        match content_type {
            Some(m) if self.mimetype is None => self.typed(m),
            _ => self,
        }
    }
}

impl StreamInfo {
    pub open spec fn view(&self) -> StreamInfoView {
        StreamInfoView {
            filename: text::text_of(self.filename),
            extension: text::text_of(self.extension),
            content_type: text::text_of(self.content_type),
            mimetype: text::text_of(self.mimetype),
            charset: text::text_of(self.charset),
            url: text::text_of(self.url),
        }
    }

    pub fn new() -> (r: Self)
        ensures
            r@ == StreamInfoView::blank(),
    {
        StreamInfo {
            filename: None,
            extension: None,
            content_type: None,
            mimetype: None,
            charset: None,
            url: None,
        }
    }

    #[must_use]
    pub fn with_filename(self, filename: &str) -> (r: Self)
        ensures
            r@ == self@.named(filename@),
    {
        let extension = match text::rsplit_once(filename, '.') {
            Some((_, e)) => Some(e.to_owned()),
            None => None,
        };
        StreamInfo { filename: Some(filename.to_owned()), extension, ..self }
    }

    #[must_use]
    pub fn with_mimetype(self, content_type: &str) -> (r: Self)
        ensures
            r@ == self@.typed(content_type@),
    {
        let mimetype = text::trim(text::up_to_any(content_type, ";")).to_owned();
        StreamInfo {
            content_type: Some(content_type.to_owned()),
            mimetype: Some(mimetype),
            ..self
        }
    }

    #[must_use]
    pub fn with_charset(self, charset: &str) -> (r: Self)
        ensures
            r@ == self@.encoded(charset@),
    {
        StreamInfo { charset: Some(charset.to_owned()), ..self }
    }

    #[must_use]
    pub fn with_url(self, url: &str) -> (r: Self)
        ensures
            r@ == self@.located(url@),
    {
        StreamInfo { url: Some(url.to_owned()), ..self }
    }
}

} // verus!
