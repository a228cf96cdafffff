//! The error taxonomy of the agent. Configuration errors carry the
//! namespace/name/key context they were detected with, so status reports
//! and logs can name the offending object; store-level errors arrive from
//! outside the library and are carried as text.

use vstd::prelude::*;

verus! {

/// One error of the agent, with the context it was detected in.
#[derive(Debug)]
pub enum Error {
    /// A file names a keyed source but carries no `key` field; the source
    /// is kept for the report.
    KeyFieldRequired { source: String },
    /// The named keyed object is absent from the store.
    ConfigMapNotFound { namespace: String, name: String },
    /// The named keyed object exists but has no data section.
    ConfigMapMissingData { namespace: String, name: String },
    /// The named keyed object has data, but not under the requested key.
    ConfigMapMissingKey { namespace: String, name: String, key: String },
    /// A `k8s://` source that names no supported object kind.
    MalformedSource { source: String },
    /// A source scheme the resolver does not know.
    UnsupportedSource { source: String },
    /// Any other failure, reported as text by the surrounding process.
    Other(String),
}

/// The variant of an [`Error`], without its context.
#[derive(Clone, Copy, PartialEq, Eq, Structural, Debug)]
pub enum ErrorKind {
    KeyFieldRequired,
    ConfigMapNotFound,
    ConfigMapMissingData,
    ConfigMapMissingKey,
    MalformedSource,
    UnsupportedSource,
    Other,
}

/// The variant an error value falls under.
pub open spec fn error_kind(e: Error) -> ErrorKind {
    match e {
        Error::KeyFieldRequired { .. } => ErrorKind::KeyFieldRequired,
        Error::ConfigMapNotFound { .. } => ErrorKind::ConfigMapNotFound,
        Error::ConfigMapMissingData { .. } => ErrorKind::ConfigMapMissingData,
        Error::ConfigMapMissingKey { .. } => ErrorKind::ConfigMapMissingKey,
        Error::MalformedSource { .. } => ErrorKind::MalformedSource,
        Error::UnsupportedSource { .. } => ErrorKind::UnsupportedSource,
        Error::Other(..) => ErrorKind::Other,
    }
}

impl Error {
    /// The variant of this error, for callers that branch on the kind alone.
    pub fn kind(&self) -> (k: ErrorKind)
        ensures
            k == error_kind(*self),
    {
        match self {
            Error::KeyFieldRequired { .. } => ErrorKind::KeyFieldRequired,
            Error::ConfigMapNotFound { .. } => ErrorKind::ConfigMapNotFound,
            Error::ConfigMapMissingData { .. } => ErrorKind::ConfigMapMissingData,
            Error::ConfigMapMissingKey { .. } => ErrorKind::ConfigMapMissingKey,
            Error::MalformedSource { .. } => ErrorKind::MalformedSource,
            Error::UnsupportedSource { .. } => ErrorKind::UnsupportedSource,
            Error::Other(..) => ErrorKind::Other,
        }
    }
}

} // verus!
