//! The failures that the library reports.

use vstd::prelude::*;
use vstd::string::StringExecFns;

verus! {

/// What went wrong in an operation of the library.
#[derive(Debug, PartialEq, Eq)]
pub enum JamanError {
    /// A query matched no tracked installation and no catalog entry. Holds the query.
    NotFound(String),
    /// The output of a version probe does not have the expected shape.
    ParseFailure,
    /// The digest of a downloaded archive differs from the published checksum.
    IntegrityFailure,
    /// A file system or network operation failed. Holds what the system reported.
    IoFailure(String),
    /// The archive is neither a zip file nor a gzip-compressed tar file. Holds its
    /// extension.
    UnsupportedFormat(String),
    /// The persisted state is present and cannot be read. Holds the reason.
    ConfigError(String),
}

/// The model of a [`JamanError`]: the variant, with the text it carries.
pub enum JamanErrorView {
    NotFound(Seq<char>),
    ParseFailure,
    IntegrityFailure,
    IoFailure(Seq<char>),
    UnsupportedFormat(Seq<char>),
    ConfigError(Seq<char>),
}

impl View for JamanError {
    type V = JamanErrorView;

    open spec fn view(&self) -> JamanErrorView {
        match self {
            JamanError::NotFound(q) => JamanErrorView::NotFound(q@),
            JamanError::ParseFailure => JamanErrorView::ParseFailure,
            JamanError::IntegrityFailure => JamanErrorView::IntegrityFailure,
            JamanError::IoFailure(m) => JamanErrorView::IoFailure(m@),
            JamanError::UnsupportedFormat(e) => JamanErrorView::UnsupportedFormat(e@),
            JamanError::ConfigError(m) => JamanErrorView::ConfigError(m@),
        }
    }
}

impl JamanErrorView {
    /// The message shown for this error.
    pub open spec fn message(self) -> Seq<char> {
        match self {
            JamanErrorView::NotFound(q) => "Version "@ + q + " not found"@,
            JamanErrorView::ParseFailure => "Could not parse version"@,
            JamanErrorView::IntegrityFailure => "Checksum verification failed"@,
            JamanErrorView::IoFailure(m) => "I/O failure: "@ + m,
            JamanErrorView::UnsupportedFormat(e) => "Unsupported archive format: "@ + e,
            JamanErrorView::ConfigError(m) => "Invalid configuration: "@ + m,
        }
    }
}

impl Clone for JamanError {
    fn clone(&self) -> (r: Self)
        ensures
            r == *self,
    {
        match self {
            JamanError::NotFound(q) => JamanError::NotFound(q.clone()),
            JamanError::ParseFailure => JamanError::ParseFailure,
            JamanError::IntegrityFailure => JamanError::IntegrityFailure,
            JamanError::IoFailure(m) => JamanError::IoFailure(m.clone()),
            JamanError::UnsupportedFormat(e) => JamanError::UnsupportedFormat(e.clone()),
            JamanError::ConfigError(m) => JamanError::ConfigError(m.clone()),
        }
    }
}

impl JamanError {
    /// The message shown for this error.
    pub fn describe(&self) -> (r: String)
        ensures
            r@ == self@.message(),
    {
        match self {
            JamanError::NotFound(q) => {
                String::from_str("Version ").concat(q.as_str()).concat(" not found")
            },
            JamanError::ParseFailure => String::from_str("Could not parse version"),
            JamanError::IntegrityFailure => String::from_str("Checksum verification failed"),
            JamanError::IoFailure(m) => String::from_str("I/O failure: ").concat(m.as_str()),
            JamanError::UnsupportedFormat(e) => {
                String::from_str("Unsupported archive format: ").concat(e.as_str())
            },
            JamanError::ConfigError(m) => String::from_str("Invalid configuration: ").concat(m.as_str()),
        }
    }
}

} // verus!
