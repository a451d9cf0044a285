//! The errors of the WebDAV server and of the pipeline.

use vstd::prelude::*;

verus! {

/// Why a WebDAV request fails.
#[derive(Clone, Debug, PartialEq, Eq)]
pub enum DavServerError {
    NotFound(String),
    Conflict(String),
    MethodNotAllowed(String),
    PreconditionFailed(String),
    Forbidden(String),
    InvalidRange(String),
    /// The database failed.
    Database(String),
    Other(String),
}

/// A `DavServerError` with its text as a sequence of characters.
pub enum DavErrorView {
    NotFound(Seq<char>),
    Conflict(Seq<char>),
    MethodNotAllowed(Seq<char>),
    PreconditionFailed(Seq<char>),
    Forbidden(Seq<char>),
    InvalidRange(Seq<char>),
    Database(Seq<char>),
    Other(Seq<char>),
}

impl View for DavServerError {
    type V = DavErrorView;

    open spec fn view(&self) -> DavErrorView {
        match self {
            DavServerError::NotFound(m) => DavErrorView::NotFound(m@),
            DavServerError::Conflict(m) => DavErrorView::Conflict(m@),
            DavServerError::MethodNotAllowed(m) => DavErrorView::MethodNotAllowed(m@),
            DavServerError::PreconditionFailed(m) => DavErrorView::PreconditionFailed(m@),
            DavServerError::Forbidden(m) => DavErrorView::Forbidden(m@),
            DavServerError::InvalidRange(m) => DavErrorView::InvalidRange(m@),
            DavServerError::Database(m) => DavErrorView::Database(m@),
            DavServerError::Other(m) => DavErrorView::Other(m@),
        }
    }
}

impl DavErrorView {
    /// The HTTP status that reports the error.
    pub open spec fn status(self) -> u16 {
        match self {
            DavErrorView::NotFound(_) => 404,
            DavErrorView::Conflict(_) => 409,
            DavErrorView::MethodNotAllowed(_) => 405,
            DavErrorView::PreconditionFailed(_) => 412,
            DavErrorView::Forbidden(_) => 403,
            DavErrorView::InvalidRange(_) => 416,
            DavErrorView::Database(_) => 500,
            DavErrorView::Other(_) => 500,
        }
    }

    /// The text that reports the error.
    pub open spec fn message(self) -> Seq<char> {
        match self {
            DavErrorView::NotFound(m) => m,
            DavErrorView::Conflict(m) => m,
            DavErrorView::MethodNotAllowed(m) => m,
            DavErrorView::PreconditionFailed(m) => m,
            DavErrorView::Forbidden(m) => m,
            DavErrorView::InvalidRange(m) => m,
            DavErrorView::Database(m) => m,
            DavErrorView::Other(m) => m,
        }
    }
}

/// Maps an error to the HTTP status and the text of its response.
pub fn status_and_message(err: DavServerError) -> (r: (u16, String))
    ensures
        r.0 == err@.status(),
        r.1@ == err@.message(),
{
    match err {
        DavServerError::NotFound(m) => (404, m),
        DavServerError::Conflict(m) => (409, m),
        DavServerError::MethodNotAllowed(m) => (405, m),
        DavServerError::PreconditionFailed(m) => (412, m),
        DavServerError::Forbidden(m) => (403, m),
        DavServerError::InvalidRange(m) => (416, m),
        DavServerError::Database(m) => (500, m),
        DavServerError::Other(m) => (500, m),
    }
}

/// Why the processing of an NZB file fails.
#[derive(Clone, Debug, PartialEq, Eq)]
pub enum PipelineError {
    /// The database failed.
    Database(String),
    Other(String),
}

/// A `PipelineError` with its text as a sequence of characters.
pub enum PipelineErrorView {
    Database(Seq<char>),
    Other(Seq<char>),
}

impl View for PipelineError {
    type V = PipelineErrorView;

    open spec fn view(&self) -> PipelineErrorView {
        match self {
            PipelineError::Database(m) => PipelineErrorView::Database(m@),
            PipelineError::Other(m) => PipelineErrorView::Other(m@),
        }
    }
}

} // verus!
